use pm1_sdk::clock::MILLISECOND;
use pm1_sdk::differential::{Differential, L, R, TIMEOUT};

fn ms(n: u64) -> u64 {
    n * MILLISECOND
}

#[test]
fn window_is_a_hundred_milliseconds() {
    assert_eq!(TIMEOUT, 100_000_000);
    assert_eq!(L, 0);
    assert_eq!(R, 1);
}

#[test]
fn odometry_pairing() {
    let mut joiner = Differential::new();
    assert_eq!(joiner.update(ms(0), L, 1000), None);
    assert_eq!(joiner.update(ms(50), R, 1500), None);
    assert_eq!(joiner.update(ms(100), L, 1100), None);
    assert_eq!(joiner.update(ms(140), R, 1650), Some((100, 150)));
}

#[test]
fn right_wheel_may_come_first() {
    let mut joiner = Differential::new();
    assert_eq!(joiner.update(ms(0), R, 10), None);
    assert_eq!(joiner.update(ms(1), L, 20), None);
    assert_eq!(joiner.update(ms(2), L, 25), None);
    assert_eq!(joiner.update(ms(3), R, 8), Some((5, -2)));
}

#[test]
fn unknown_wheel_is_ignored() {
    let mut joiner = Differential::new();
    assert_eq!(joiner.update(ms(0), 2, 1), None);
    assert_eq!(joiner.update(ms(0), 255, 1), None);
    assert_eq!(joiner.update(ms(0), L, 1), None);
    assert_eq!(joiner.update(ms(1), 7, 99), None);
    assert_eq!(joiner.update(ms(2), R, 2), None);
    assert_eq!(joiner.update(ms(3), L, 4), None);
    assert_eq!(joiner.update(ms(4), R, 6), Some((3, 4)));
}

#[test]
fn same_wheel_twice_keeps_the_first_report() {
    let mut joiner = Differential::new();
    assert_eq!(joiner.update(ms(0), L, 0), None);
    assert_eq!(joiner.update(ms(1), R, 0), None);
    assert_eq!(joiner.update(ms(40), L, 10), None);
    assert_eq!(joiner.update(ms(60), L, 9999), None);
    assert_eq!(joiner.update(ms(80), R, 20), Some((10, 20)));
}

#[test]
fn a_report_older_than_the_window_is_replaced() {
    let mut joiner = Differential::new();
    assert_eq!(joiner.update(ms(0), L, 0), None);
    assert_eq!(joiner.update(ms(1), R, 0), None);
    assert_eq!(joiner.update(ms(100), L, 10), None);
    // 201 ms lies more than the window after 100 ms: the right report waits
    // in place of the left one.
    assert_eq!(joiner.update(ms(201), R, 20), None);
    assert_eq!(joiner.update(ms(250), L, 30), Some((30, 20)));
}

#[test]
fn a_report_at_the_edge_of_the_window_still_pairs() {
    let mut joiner = Differential::new();
    assert_eq!(joiner.update(ms(0), L, 0), None);
    assert_eq!(joiner.update(ms(100), R, 0), None);
    assert_eq!(joiner.update(ms(200), L, 7), None);
    assert_eq!(joiner.update(ms(300), R, 9), Some((7, 9)));
    assert_eq!(joiner.update(ms(400), L, 8), None);
    assert_eq!(joiner.update(ms(500) + 1, R, 9), None);
}

#[test]
fn deltas_of_a_steady_run_add_up() {
    let mut joiner = Differential::new();
    let lefts = [1000, 1100, 1250, 1240, 1300];
    let rights = [1500, 1650, 1640, 1700, 1900];
    let mut outputs = Vec::new();
    for k in 0..5usize {
        let time = ms(80 * k as u64);
        if let Some(delta) = joiner.update(time, L, lefts[k]) {
            outputs.push(delta);
        }
        if let Some(delta) = joiner.update(time + ms(40), R, rights[k]) {
            outputs.push(delta);
        }
    }
    assert_eq!(outputs.len(), 10 / 2 - 1);
    assert_eq!(outputs, vec![(100, 150), (150, -10), (-10, 60), (60, 200)]);
    let total = outputs.iter().fold((0, 0), |sum, delta| (sum.0 + delta.0, sum.1 + delta.1));
    assert_eq!(total, (1300 - 1000, 1900 - 1500));
}

#[test]
fn an_odd_run_leaves_the_last_report_waiting() {
    let mut joiner = Differential::new();
    let mut outputs = 0;
    for i in 0..7u64 {
        let which = if i % 2 == 0 { L } else { R };
        if joiner.update(ms(10 * i), which, i as i32).is_some() {
            outputs += 1;
        }
    }
    assert_eq!(outputs, 7 / 2 - 1);
}

#[test]
fn deltas_wrap_to_thirty_two_bits() {
    let mut joiner = Differential::new();
    assert_eq!(joiner.update(ms(0), L, i32::MAX), None);
    assert_eq!(joiner.update(ms(1), R, i32::MIN), None);
    assert_eq!(joiner.update(ms(2), L, i32::MIN), None);
    assert_eq!(joiner.update(ms(3), R, i32::MAX), Some((1, -1)));
}

#[test]
fn times_near_the_end_of_the_clock_do_not_overflow() {
    let mut joiner = Differential::new();
    assert_eq!(joiner.update(u64::MAX - 3, L, 0), None);
    assert_eq!(joiner.update(u64::MAX - 2, R, 0), None);
    assert_eq!(joiner.update(u64::MAX - 1, L, 4), None);
    assert_eq!(joiner.update(u64::MAX, R, 5), Some((4, 5)));
}
