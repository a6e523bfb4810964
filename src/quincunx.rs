use vstd::prelude::*;
use rand::seq::SliceRandom;
use crate::ball::{
    Ball, ones, landing_spots, advanced_by, advanced, ball_ok, find_ones, get_bucket_update_pos,
    lemma_ones, lemma_advanced_ok,
};
use crate::histogram::{Histogram, counts, total, hits, update_buckets, lemma_total_zeros};

verus! {

/// Relies on rand's `SliceRandom::choose` with the thread-local generator:
/// on a slice of two elements it returns one of the two.
#[verifier::external_body]
fn random_step() -> (r: i64)
    ensures
        r == -1 || r == 1,
{
    *[-1i64, 1i64].choose(&mut rand::thread_rng()).unwrap()
}

/// A board of `size` rows of pegs, the balls falling through it and the
/// buckets at its bottom, with the number of balls that have landed so far.
pub struct Quincunx {
    size: usize,
    balls: Vec<Ball>,
    buckets: Histogram,
    landings: u64,
}

impl Quincunx {
    /// The number of rows of pegs.
    pub closed spec fn spec_size(&self) -> int {
        self.size as int
    }

    /// The falling balls.
    pub closed spec fn spec_balls(&self) -> Seq<Ball> {
        self.balls@
    }

    /// The bucket counts, from the leftmost offset `-size` to the rightmost `size`.
    pub closed spec fn spec_counts(&self) -> Seq<u64> {
        counts(self.buckets)
    }

    /// The number of balls that have landed since the board was set up.
    pub closed spec fn spec_landings(&self) -> int {
        self.landings as int
    }

    /// One ball fewer than rows, `2 * size + 1` buckets whose counts add up
    /// to the number of landings, and every ball within its bounds.
    pub closed spec fn wf(&self) -> bool {
        &&& 1 <= self.size
        &&& 2 * self.size + 1 <= isize::MAX
        &&& self.balls.len() == self.size - 1
        &&& counts(self.buckets).len() == 2 * self.size + 1
        &&& total(counts(self.buckets)) == self.landings
        &&& forall|i: int| 0 <= i < self.balls.len() ==> ball_ok(self.size as int, #[trigger] self.balls[i])
    }
}

/// The landing part of a tick from `before` to `after`: each ball on its
/// last row adds one to the bucket below it, and to the number of landings.
pub open spec fn landed(before: Quincunx, after: Quincunx) -> bool {
    let n = before.spec_size();
    &&& after.spec_size() == n
    &&& after.spec_balls().len() == before.spec_balls().len()
    &&& after.spec_counts().len() == before.spec_counts().len()
    &&& forall|j: int|
        0 <= j < before.spec_counts().len() ==> #[trigger] after.spec_counts()[j]
            == before.spec_counts()[j] + hits(landing_spots(before.spec_balls(), n), j)
    &&& after.spec_landings() == before.spec_landings() + ones(before.spec_balls()).len()
}

/// `after` is `before` one tick later, every ball deflected by the step of the same index.
pub open spec fn ticked_by(before: Quincunx, after: Quincunx, steps: Seq<i64>) -> bool {
    &&& landed(before, after)
    &&& forall|i: int|
        0 <= i < before.spec_balls().len() ==> advanced_by(
            before.spec_size(),
            before.spec_balls()[i],
            #[trigger] after.spec_balls()[i],
            steps[i] as int,
        )
}

/// `after` is `before` one tick later, every ball deflected one unit left or right.
pub open spec fn ticked(before: Quincunx, after: Quincunx) -> bool {
    &&& landed(before, after)
    &&& forall|i: int|
        0 <= i < before.spec_balls().len() ==> advanced(
            before.spec_size(),
            before.spec_balls()[i],
            #[trigger] after.spec_balls()[i],
        )
}

/// The horizontal position of ball `b` at time `num / den` of its row, times `den`.
pub open spec fn frame_x(b: Ball, num: int, den: int) -> int {
    (den - num) * b.x_prev + num * b.x_cur
}

/// The height of ball `b` at time `num / den` of its row, times `den`.
pub open spec fn frame_y(b: Ball, num: int, den: int) -> int {
    (den - num) * b.countdown + num * (b.countdown - 1)
}

/// A product of two factors bounded by 2^32 and 2^64 is bounded by 2^96.
proof fn lemma_product_bound(a: int, x: int)
    requires
        -0x1_0000_0000 <= a <= 0x1_0000_0000,
        -0x1_0000_0000_0000_0000 <= x <= 0x1_0000_0000_0000_0000,
    ensures
        -0x1_0000_0000_0000_0000_0000_0000 <= a * x <= 0x1_0000_0000_0000_0000_0000_0000,
{
    assert(-0x1_0000_0000_0000_0000_0000_0000 <= a * x <= 0x1_0000_0000_0000_0000_0000_0000)
        by (nonlinear_arith)
        requires
            -0x1_0000_0000 <= a <= 0x1_0000_0000,
            -0x1_0000_0000_0000_0000 <= x <= 0x1_0000_0000_0000_0000,
    ;
}

/// Sets up a board of `quincunx_size` rows: no landings yet, and ball `i`
/// centred, `quincunx_size + 1 + i` rows above the bottom.
pub fn init(quincunx_size: usize) -> (q: Quincunx)
    requires
        1 <= quincunx_size,
        2 * quincunx_size + 1 <= isize::MAX,
    ensures
        q.wf(),
        q.spec_size() == quincunx_size,
        q.spec_balls().len() == quincunx_size - 1,
        forall|i: int|
            0 <= i < quincunx_size - 1 ==> #[trigger] q.spec_balls()[i] == (Ball {
                x_prev: 0,
                x_cur: 0,
                countdown: (quincunx_size + 1 + i) as u64,
            }),
        q.spec_counts() == Seq::new((2 * quincunx_size + 1) as nat, |j: int| 0u64),
        q.spec_landings() == 0,
{
    let mut balls: Vec<Ball> = Vec::new();
    let mut i: usize = 0;
    while i < quincunx_size - 1
        invariant
            1 <= quincunx_size,
            2 * quincunx_size + 1 <= isize::MAX,
            i <= quincunx_size - 1,
            balls.len() == i,
            forall|k: int|
                0 <= k < i ==> #[trigger] balls[k] == (Ball {
                    x_prev: 0,
                    x_cur: 0,
                    countdown: (quincunx_size + 1 + k) as u64,
                }),
        decreases quincunx_size - 1 - i,
    {
        balls.push(Ball { x_prev: 0, x_cur: 0, countdown: (quincunx_size + 1 + i) as u64 });
        i = i + 1;
    }
    let buckets = Histogram::zeros(2 * quincunx_size + 1);
    proof {
        lemma_total_zeros((2 * quincunx_size + 1) as nat);
    }
    Quincunx { size: quincunx_size, balls, buckets, landings: 0 }
}

impl Quincunx {
    /// Advances every ball by one row, deflecting ball `i` by `steps[i]`:
    /// balls on their last row land first, then every countdown goes down by
    /// one (back to `size` once it runs out, the ball re-centred), and every
    /// ball's row starts where it stands and ends one step aside.
    pub fn update_quincunx_with_steps(&mut self, steps: &Vec<i64>)
        requires
            old(self).wf(),
            steps.len() == old(self).spec_balls().len(),
            forall|k: int| 0 <= k < steps.len() ==> steps[k] == -1 || steps[k] == 1,
            old(self).spec_landings() + old(self).spec_balls().len() <= u64::MAX,
        ensures
            final(self).wf(),
            ticked_by(*old(self), *final(self), steps@),
    {
        let n = self.size;
        let ghost before = *self;
        proof {
            lemma_ones(self.balls@);
        }
        let one_pos = find_ones(&self.balls);
        let landed_now = one_pos.len();
        proof {
            assert forall|k: int| 0 <= k < one_pos.len() implies one_pos[k] < self.balls.len() && -n
                <= self.balls[one_pos[k] as int].x_cur <= n by {
                assert(ball_ok(n as int, self.balls[one_pos[k] as int]));
            }
        }
        let bucket_pos = get_bucket_update_pos(&self.balls, one_pos, n);
        update_buckets(&mut self.buckets, bucket_pos);
        self.landings = self.landings + landed_now as u64;
        let ghost start = self.balls@;
        let ghost mid = counts(self.buckets);
        let ghost mid_landings = self.landings;
        let mut i: usize = 0;
        while i < self.balls.len()
            invariant
                self.size == n,
                1 <= n,
                2 * n + 1 <= isize::MAX,
                start == before.balls@,
                start.len() == n - 1,
                self.balls.len() == start.len(),
                steps.len() == start.len(),
                forall|k: int| 0 <= k < steps.len() ==> steps[k] == -1 || steps[k] == 1,
                forall|k: int| 0 <= k < start.len() ==> ball_ok(n as int, #[trigger] start[k]),
                counts(self.buckets) == mid,
                self.landings == mid_landings,
                forall|k: int|
                    0 <= k < i ==> advanced_by(n as int, start[k], #[trigger] self.balls[k], steps[k] as int),
                forall|k: int| 0 <= k < i ==> ball_ok(n as int, #[trigger] self.balls[k]),
                forall|k: int| i <= k < start.len() ==> #[trigger] self.balls[k] == start[k],
            decreases start.len() - i,
        {
            let b = self.balls[i];
            assert(ball_ok(n as int, start[i as int]));
            let countdown: u64 = if b.countdown <= 1 {
                n as u64
            } else {
                b.countdown - 1
            };
            let x_prev: i64 = if countdown == n as u64 {
                0
            } else {
                b.x_cur
            };
            let nb = Ball { x_prev, x_cur: x_prev + steps[i], countdown };
            proof {
                lemma_advanced_ok(n as int, b, nb, steps[i as int] as int);
            }
            self.balls[i] = nb;
            i = i + 1;
        }
    }

    /// Advances every ball by one row as `update_quincunx_with_steps` does,
    /// with a fresh random step of one unit left or right for each ball.
    pub fn update_quincunx(&mut self)
        requires
            old(self).wf(),
            old(self).spec_landings() + old(self).spec_balls().len() <= u64::MAX,
        ensures
            final(self).wf(),
            ticked(*old(self), *final(self)),
    {
        let mut steps: Vec<i64> = Vec::new();
        let mut i: usize = 0;
        while i < self.balls.len()
            invariant
                i <= self.balls.len(),
                steps.len() == i,
                forall|k: int| 0 <= k < steps.len() ==> steps[k] == -1 || steps[k] == 1,
            decreases self.balls.len() - i,
        {
            steps.push(random_step());
            i = i + 1;
        }
        let ghost before = *self;
        self.update_quincunx_with_steps(&steps);
        assert forall|k: int| 0 <= k < before.spec_balls().len() implies advanced(
            before.spec_size(),
            before.spec_balls()[k],
            #[trigger] self.spec_balls()[k],
        ) by {
            assert(advanced_by(
                before.spec_size(),
                before.spec_balls()[k],
                self.spec_balls()[k],
                steps[k] as int,
            ));
        }
    }

    /// The position of every ball at time `time_num / time_den` of the
    /// current row, as horizontal and vertical coordinates, each multiplied
    /// by `time_den`. Times outside `[0, 1)` extrapolate along the same lines.
    pub fn animate_quincunx(&self, time_num: u32, time_den: u32) -> (frame: (Vec<i128>, Vec<i128>))
        ensures
            frame.0.len() == self.spec_balls().len(),
            frame.1.len() == self.spec_balls().len(),
            forall|i: int|
                0 <= i < frame.0.len() ==> #[trigger] frame.0[i] == frame_x(
                    self.spec_balls()[i],
                    time_num as int,
                    time_den as int,
                ),
            forall|i: int|
                0 <= i < frame.1.len() ==> #[trigger] frame.1[i] == frame_y(
                    self.spec_balls()[i],
                    time_num as int,
                    time_den as int,
                ),
    {
        let t = time_num as i128;
        let a = time_den as i128 - t;
        let mut xs: Vec<i128> = Vec::new();
        let mut ys: Vec<i128> = Vec::new();
        let mut i: usize = 0;
        while i < self.balls.len()
            invariant
                i <= self.balls.len(),
                t == time_num,
                a == time_den - time_num,
                xs.len() == i,
                ys.len() == i,
                forall|k: int|
                    0 <= k < i ==> #[trigger] xs[k] == frame_x(self.balls[k], time_num as int, time_den as int),
                forall|k: int|
                    0 <= k < i ==> #[trigger] ys[k] == frame_y(self.balls[k], time_num as int, time_den as int),
            decreases self.balls.len() - i,
        {
            let b = self.balls[i];
            proof {
                lemma_product_bound(a as int, b.x_prev as int);
                lemma_product_bound(t as int, b.x_cur as int);
                lemma_product_bound(a as int, b.countdown as int);
                lemma_product_bound(t as int, b.countdown - 1);
            }
            xs.push(a * (b.x_prev as i128) + t * (b.x_cur as i128));
            ys.push(a * (b.countdown as i128) + t * (b.countdown as i128 - 1));
            i = i + 1;
        }
        (xs, ys)
    }

    /// The number of rows of pegs.
    pub fn size(&self) -> (r: usize)
        ensures
            r == self.spec_size(),
    {
        self.size
    }

    /// The falling balls.
    pub fn balls(&self) -> (r: &Vec<Ball>)
        ensures
            r@ == self.spec_balls(),
    {
        &self.balls
    }

    /// The bucket counts, from the leftmost offset to the rightmost.
    pub fn buckets(&self) -> (r: Vec<u64>)
        ensures
            r@ == self.spec_counts(),
    {
        self.buckets.to_vec()
    }

    /// The number of balls that have landed so far.
    pub fn landings(&self) -> (r: u64)
        ensures
            r == self.spec_landings(),
    {
        self.landings
    }
}

/// The bucket counts of a board add up to the number of balls that have
/// landed on it.
pub proof fn lemma_counts_add_up(q: Quincunx)
    requires
        q.wf(),
    ensures
        total(q.spec_counts()) == q.spec_landings(),
{
}

/// A tick adds to the sum of the bucket counts exactly the number of balls
/// that were on their last row.
pub proof fn lemma_tick_adds_landings(before: Quincunx, after: Quincunx)
    requires
        before.wf(),
        after.wf(),
        ticked(before, after),
    ensures
        total(after.spec_counts()) == total(before.spec_counts()) + ones(before.spec_balls()).len(),
{
}

/// Every ball has at least one row left to fall.
pub proof fn lemma_countdown_positive(q: Quincunx)
    requires
        q.wf(),
    ensures
        forall|i: int| 0 <= i < q.spec_balls().len() ==> 1 <= #[trigger] q.spec_balls()[i].countdown,
{
    assert forall|i: int| 0 <= i < q.spec_balls().len() implies 1 <= #[trigger] q.spec_balls()[i].countdown by {
        assert(ball_ok(q.size as int, q.balls[i]));
    }
}

/// Once every countdown lies between 1 and the number of rows, a tick keeps
/// it there.
pub proof fn lemma_countdown_stays_on_board(before: Quincunx, after: Quincunx)
    requires
        before.wf(),
        ticked(before, after),
        forall|i: int|
            0 <= i < before.spec_balls().len() ==> #[trigger] before.spec_balls()[i].countdown
                <= before.spec_size(),
    ensures
        forall|i: int|
            0 <= i < after.spec_balls().len() ==> 1 <= #[trigger] after.spec_balls()[i].countdown
                <= after.spec_size(),
{
    assert forall|i: int| 0 <= i < after.spec_balls().len() implies 1
        <= #[trigger] after.spec_balls()[i].countdown <= after.spec_size() by {
        assert(ball_ok(before.size as int, before.balls[i]));
        assert(advanced(before.spec_size(), before.spec_balls()[i], after.spec_balls()[i]));
    }
}

/// Every ball stands within `size` units of the centre, so every ball that
/// lands falls into one of the `2 * size + 1` buckets.
pub proof fn lemma_on_board(q: Quincunx)
    requires
        q.wf(),
    ensures
        forall|i: int|
            0 <= i < q.spec_balls().len() ==> -q.spec_size() <= #[trigger] q.spec_balls()[i].x_cur
                <= q.spec_size(),
        forall|k: int|
            0 <= k < landing_spots(q.spec_balls(), q.spec_size()).len() ==> #[trigger] landing_spots(
                q.spec_balls(),
                q.spec_size(),
            )[k] <= 2 * q.spec_size(),
{
    let n = q.size as int;
    assert forall|i: int| 0 <= i < q.spec_balls().len() implies -n <= #[trigger] q.spec_balls()[i].x_cur
        <= n by {
        assert(ball_ok(n, q.balls[i]));
    }
    lemma_ones(q.balls@);
    assert forall|k: int| 0 <= k < landing_spots(q.spec_balls(), n).len() implies #[trigger] landing_spots(
        q.spec_balls(),
        n,
    )[k] <= 2 * n by {
        let j = ones(q.balls@)[k] as int;
        assert(ball_ok(n, q.balls[j]));
    }
}

/// At time zero of a row a ball stands exactly where its row began, at its
/// countdown; at the end of the row it stands where its row ends, one row lower.
pub proof fn lemma_frame_ends(b: Ball, den: int)
    ensures
        frame_x(b, 0, den) == den * b.x_prev,
        frame_y(b, 0, den) == den * b.countdown,
        frame_x(b, den, den) == den * b.x_cur,
        frame_y(b, den, den) == den * (b.countdown - 1),
{
    assert(frame_x(b, 0, den) == den * b.x_prev) by (nonlinear_arith);
    assert(frame_y(b, 0, den) == den * b.countdown) by (nonlinear_arith);
    assert(frame_x(b, den, den) == den * b.x_cur) by (nonlinear_arith);
    assert(frame_y(b, den, den) == den * (b.countdown - 1)) by (nonlinear_arith);
}

/// After a tick, every ball that did not go back to the top starts its row
/// exactly where the previous row ended: the frame at time zero after the
/// tick is the frame at the end of the row before it.
pub proof fn lemma_rows_join(before: Quincunx, after: Quincunx, den: int)
    requires
        ticked(before, after),
    ensures
        forall|i: int|
            0 <= i < after.spec_balls().len() && #[trigger] after.spec_balls()[i].countdown
                != after.spec_size() ==> frame_x(after.spec_balls()[i], 0, den) == frame_x(
                before.spec_balls()[i],
                den,
                den,
            ) && frame_y(after.spec_balls()[i], 0, den) == frame_y(before.spec_balls()[i], den, den),
{
    assert forall|i: int|
        0 <= i < after.spec_balls().len() && #[trigger] after.spec_balls()[i].countdown
            != after.spec_size() implies frame_x(after.spec_balls()[i], 0, den) == frame_x(
        before.spec_balls()[i],
        den,
        den,
    ) && frame_y(after.spec_balls()[i], 0, den) == frame_y(before.spec_balls()[i], den, den) by {
        let b = before.spec_balls()[i];
        let a = after.spec_balls()[i];
        assert(advanced(before.spec_size(), b, a));
        lemma_frame_ends(b, den);
        lemma_frame_ends(a, den);
    }
}

} // verus!
