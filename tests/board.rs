use quincunx::ball::{find_ones, get_bucket_update_pos, Ball};
use quincunx::quincunx::{init, Quincunx};

fn ball(x_prev: i64, x_cur: i64, countdown: u64) -> Ball {
    Ball { x_prev, x_cur, countdown }
}

fn tick_right(q: &mut Quincunx) {
    let steps = vec![1i64; q.balls().len()];
    q.update_quincunx_with_steps(&steps);
}

#[test]
fn init_staggers_the_balls() {
    let q = init(3);
    assert_eq!(q.size(), 3);
    assert_eq!(q.balls(), &vec![ball(0, 0, 4), ball(0, 0, 5)]);
    assert_eq!(q.buckets(), vec![0u64; 7]);
    assert_eq!(q.landings(), 0);
}

#[test]
fn init_of_one_row_has_no_balls() {
    let q = init(1);
    assert!(q.balls().is_empty());
    assert_eq!(q.buckets(), vec![0u64; 3]);
}

#[test]
fn find_ones_lists_balls_on_their_last_row() {
    let balls = vec![ball(0, 0, 1), ball(0, 0, 2), ball(0, 3, 1), ball(0, 0, 3)];
    assert_eq!(find_ones(&balls), vec![0usize, 2]);
    assert_eq!(find_ones(&vec![ball(0, 0, 2)]), Vec::<usize>::new());
    assert_eq!(find_ones(&Vec::new()), Vec::<usize>::new());
}

#[test]
fn bucket_positions_are_offsets_plus_size() {
    let balls = vec![ball(0, -3, 1), ball(0, 0, 2), ball(0, 3, 1), ball(0, 1, 1)];
    assert_eq!(get_bucket_update_pos(&balls, vec![0, 2, 3], 3), vec![0usize, 6, 4]);
    assert_eq!(get_bucket_update_pos(&balls, Vec::new(), 3), Vec::<usize>::new());
}

#[test]
fn deterministic_right_steps_scenario() {
    let mut q = init(3);
    tick_right(&mut q);
    assert_eq!(q.balls()[0], ball(0, 1, 3));
    assert_eq!(q.balls()[1], ball(0, 1, 4));
    tick_right(&mut q);
    tick_right(&mut q);
    assert_eq!(q.balls()[0], ball(2, 3, 1));
    assert_eq!(q.buckets(), vec![0u64; 7]);
    tick_right(&mut q);
    assert_eq!(q.buckets(), vec![0, 0, 0, 0, 0, 0, 1]);
    assert_eq!(q.landings(), 1);
    assert_eq!(q.balls()[0], ball(0, 1, 3));
    assert_eq!(q.balls()[1], ball(2, 3, 1));
}

#[test]
fn left_steps_land_in_the_leftmost_bucket() {
    let mut q = init(3);
    for _ in 0..5 {
        let steps = vec![-1i64; 2];
        q.update_quincunx_with_steps(&steps);
    }
    assert_eq!(q.buckets(), vec![2, 0, 0, 0, 0, 0, 0]);
    assert_eq!(q.landings(), 2);
}

#[test]
fn mixed_steps_land_in_the_middle() {
    let mut q = init(2);
    q.update_quincunx_with_steps(&vec![1]);
    assert_eq!(q.balls()[0], ball(0, 1, 2));
    q.update_quincunx_with_steps(&vec![-1]);
    assert_eq!(q.balls()[0], ball(1, 0, 1));
    q.update_quincunx_with_steps(&vec![1]);
    assert_eq!(q.buckets(), vec![0, 0, 1, 0, 0]);
    assert_eq!(q.balls()[0], ball(0, 1, 2));
}

#[test]
fn frame_interpolates_between_row_ends() {
    let mut q = init(3);
    tick_right(&mut q);
    tick_right(&mut q);
    // ball 0: from 1 to 2, countdown 2; ball 1: from 0 to 1, countdown 3
    let (xs, ys) = q.animate_quincunx(0, 10);
    assert_eq!(xs, vec![10, 0]);
    assert_eq!(ys, vec![20, 30]);
    let (xs, ys) = q.animate_quincunx(5, 10);
    assert_eq!(xs, vec![15, 5]);
    assert_eq!(ys, vec![15, 25]);
    let (xs, ys) = q.animate_quincunx(3, 10);
    assert_eq!(xs, vec![13, 3]);
    assert_eq!(ys, vec![17, 27]);
}

#[test]
fn frame_extrapolates_outside_the_row() {
    let mut q = init(3);
    tick_right(&mut q);
    let (xs, ys) = q.animate_quincunx(2, 1);
    // ball 0: x from 0 to 1, countdown 3
    assert_eq!(xs[0], 2);
    assert_eq!(ys[0], 1);
}

#[test]
fn frame_at_time_zero_repeats_the_state() {
    let mut q = init(5);
    for _ in 0..7 {
        q.update_quincunx();
        let (xs, ys) = q.animate_quincunx(0, 1);
        for (i, b) in q.balls().iter().enumerate() {
            assert_eq!(xs[i], b.x_prev as i128);
            assert_eq!(ys[i], b.countdown as i128);
        }
    }
}

#[test]
fn rows_join_without_drift() {
    let mut q = init(4);
    for _ in 0..20 {
        let (end_x, end_y) = q.animate_quincunx(7, 7);
        q.update_quincunx();
        let (start_x, start_y) = q.animate_quincunx(0, 7);
        for (i, b) in q.balls().iter().enumerate() {
            if b.countdown != 4 {
                assert_eq!(start_x[i], end_x[i]);
                assert_eq!(start_y[i], end_y[i]);
            }
        }
    }
}

#[test]
fn random_ticks_keep_the_board_consistent() {
    let n = 6usize;
    let mut q = init(n);
    for t in 0..500 {
        let before: Vec<Ball> = q.balls().clone();
        let landing = before.iter().filter(|b| b.countdown == 1).count() as u64;
        let landed_before = q.landings();
        q.update_quincunx();
        assert_eq!(q.landings(), landed_before + landing);
        assert_eq!(q.buckets().iter().sum::<u64>(), q.landings());
        for (b, a) in before.iter().zip(q.balls().iter()) {
            let step = a.x_cur - a.x_prev;
            assert!(step == 1 || step == -1);
            assert!(a.countdown >= 1);
            assert!(a.x_cur.unsigned_abs() as usize <= n);
            if t >= 2 * n {
                assert!(a.countdown as usize <= n);
            }
            if b.countdown == 1 {
                assert_eq!(a.countdown as usize, n);
            } else {
                assert_eq!(a.countdown, b.countdown - 1);
            }
        }
    }
}

#[test]
fn histogram_sum_counts_landings() {
    let mut q = init(3);
    let mut landed: u64 = 0;
    for _ in 0..40 {
        landed += q.balls().iter().filter(|b| b.countdown == 1).count() as u64;
        q.update_quincunx();
        assert_eq!(q.buckets().iter().sum::<u64>(), landed);
    }
    assert!(landed > 0);
}

#[test]
fn long_run_peaks_near_the_centre() {
    let n = 30usize;
    let mut q = init(n);
    for _ in 0..20000 {
        q.update_quincunx();
    }
    let counts = q.buckets();
    assert_eq!(counts.len(), 2 * n + 1);
    let mut peak = 0usize;
    for (j, c) in counts.iter().enumerate() {
        if *c > counts[peak] {
            peak = j;
        }
    }
    assert!(peak + 6 >= n && peak <= n + 6, "peak bucket {}", peak);
    assert!(counts[0] < counts[n] && counts[2 * n] < counts[n]);
}
