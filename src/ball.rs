use vstd::prelude::*;

verus! {

/// One falling ball: where its current row began, where it is after this
/// row's deflection, and how many rows are left before it reaches the bottom.
#[derive(Clone, Copy, Debug, PartialEq, Eq, Structural)]
pub struct Ball {
    pub x_prev: i64,
    pub x_cur: i64,
    pub countdown: u64,
}

/// The indices, in increasing order, of the balls on their last row.
pub open spec fn ones(balls: Seq<Ball>) -> Seq<usize>
    decreases balls.len(),
{
    if balls.len() == 0 {
        seq![]
    } else if balls.last().countdown == 1 {
        ones(balls.drop_last()).push((balls.len() - 1) as usize)
    } else {
        ones(balls.drop_last())
    }
}

/// The bucket that a ball landing at offset `x` falls into.
pub open spec fn landing_index(n: int, x: int) -> int {
    x + n
}

/// The buckets that the balls listed in `idx` land in, in the order of `idx`.
pub open spec fn spots(balls: Seq<Ball>, idx: Seq<usize>, n: int) -> Seq<usize> {
    idx.map_values(|k: usize| landing_index(n, balls[k as int].x_cur as int) as usize)
}

/// The buckets that the balls on their last row land in.
pub open spec fn landing_spots(balls: Seq<Ball>, n: int) -> Seq<usize> {
    spots(balls, ones(balls), n)
}

/// The countdown after one row on a board of `n` rows: one less, or `n`
/// again once it runs out.
pub open spec fn next_countdown(n: int, c: int) -> int {
    if c - 1 <= 0 {
        n
    } else {
        c - 1
    }
}

/// `a` is ball `b` one row later, deflected by `step`: a ball back at the
/// top is re-centred before it is deflected.
pub open spec fn advanced_by(n: int, b: Ball, a: Ball, step: int) -> bool {
    &&& a.countdown == next_countdown(n, b.countdown as int)
    &&& a.x_prev == if a.countdown == n {
        0
    } else {
        b.x_cur
    }
    &&& a.x_cur == a.x_prev + step
}

/// `a` is ball `b` one row later, deflected one unit left or right.
pub open spec fn advanced(n: int, b: Ball, a: Ball) -> bool {
    advanced_by(n, b, a, -1) || advanced_by(n, b, a, 1)
}

/// The bounds that every ball on a board of `n` rows keeps: a ball with
/// countdown `c` at most `n` has fallen `n + 1 - c` rows since it was
/// re-centred; one still above the board has fallen fewer than `2n - c`.
pub open spec fn ball_ok(n: int, b: Ball) -> bool {
    &&& 1 <= b.countdown <= 2 * n
    &&& b.countdown <= n ==> -(n + 1 - b.countdown) <= b.x_cur <= n + 1 - b.countdown
    &&& b.countdown > n ==> -(2 * n - b.countdown) <= b.x_cur <= 2 * n - b.countdown
    &&& -1 <= b.x_cur - b.x_prev <= 1
}

/// The listed indices are those of balls on their last row, in increasing order.
pub proof fn lemma_ones(balls: Seq<Ball>)
    requires
        balls.len() <= usize::MAX,
    ensures
        ones(balls).len() <= balls.len(),
        forall|k: int|
            0 <= k < ones(balls).len() ==> ones(balls)[k] < balls.len() && balls[ones(
                balls,
            )[k] as int].countdown == 1,
    decreases balls.len(),
{
    if balls.len() > 0 {
        let rest = balls.drop_last();
        lemma_ones(rest);
        assert forall|k: int| 0 <= k < ones(rest).len() implies balls[ones(rest)[k] as int] == rest[ones(
            rest,
        )[k] as int] by {}
    }
}

/// A ball that keeps its bounds keeps them one row later.
pub proof fn lemma_advanced_ok(n: int, b: Ball, a: Ball, step: int)
    requires
        n >= 1,
        ball_ok(n, b),
        advanced_by(n, b, a, step),
        step == -1 || step == 1,
    ensures
        ball_ok(n, a),
{
}

/// Lists, in increasing order, the indices of the balls on their last row.
pub fn find_ones(balls: &Vec<Ball>) -> (one_pos: Vec<usize>)
    ensures
        one_pos@ == ones(balls@),
{
    let mut one_pos: Vec<usize> = Vec::new();
    let mut k: usize = 0;
    while k < balls.len()
        invariant
            k <= balls.len(),
            one_pos@ == ones(balls@.subrange(0, k as int)),
        decreases balls.len() - k,
    {
        assert(balls@.subrange(0, k + 1).drop_last() =~= balls@.subrange(0, k as int));
        if balls[k].countdown == 1 {
            one_pos.push(k);
        }
        k = k + 1;
    }
    assert(balls@.subrange(0, balls.len() as int) =~= balls@);
    one_pos
}

/// The bucket that each listed ball lands in, on a board of `quincunx_size` rows.
pub fn get_bucket_update_pos(balls: &Vec<Ball>, y_one_pos: Vec<usize>, quincunx_size: usize) -> (bucket_pos: Vec<usize>)
    requires
        2 * quincunx_size <= i64::MAX,
        forall|k: int|
            0 <= k < y_one_pos.len() ==> y_one_pos[k] < balls.len() && -quincunx_size
                <= balls[y_one_pos[k] as int].x_cur <= quincunx_size,
    ensures
        bucket_pos@ == spots(balls@, y_one_pos@, quincunx_size as int),
        forall|k: int| 0 <= k < bucket_pos.len() ==> bucket_pos[k] <= 2 * quincunx_size,
{
    let mut bucket_pos: Vec<usize> = Vec::new();
    let n = quincunx_size as i64;
    let mut k: usize = 0;
    while k < y_one_pos.len()
        invariant
            k <= y_one_pos.len(),
            n == quincunx_size,
            2 * quincunx_size <= i64::MAX,
            forall|m: int|
                0 <= m < y_one_pos.len() ==> y_one_pos[m] < balls.len() && -quincunx_size
                    <= balls[y_one_pos[m] as int].x_cur <= quincunx_size,
            bucket_pos@ == spots(balls@, y_one_pos@.subrange(0, k as int), quincunx_size as int),
            forall|m: int| 0 <= m < bucket_pos.len() ==> bucket_pos[m] <= 2 * quincunx_size,
        decreases y_one_pos.len() - k,
    {
        let p = y_one_pos[k];
        let spot = (balls[p].x_cur + n) as usize;
        bucket_pos.push(spot);
        proof {
            assert(y_one_pos@.subrange(0, k + 1) =~= y_one_pos@.subrange(0, k as int).push(p));
            assert(bucket_pos@ =~= spots(balls@, y_one_pos@.subrange(0, k + 1), quincunx_size as int));
        }
        k = k + 1;
    }
    assert(y_one_pos@.subrange(0, y_one_pos.len() as int) =~= y_one_pos@);
    bucket_pos
}

} // verus!
