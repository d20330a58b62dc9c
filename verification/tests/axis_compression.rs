use watt_monitor::axis::to_compressed_x;
use watt_monitor::axis::total_sleep_before;
use watt_monitor::sleep::SleepPeriod;

fn period(start_time: i64, end_time: i64) -> SleepPeriod {
    SleepPeriod {
        start_time,
        end_time,
        duration_secs: end_time - start_time,
        capacity_diff: -100,
    }
}

#[test]
fn sums_periods_ending_at_or_before_the_instant() {
    let periods = vec![period(1_000, 2_000), period(3_000, 4_000)];
    assert_eq!(total_sleep_before(500, 0, &periods), 0);
    assert_eq!(total_sleep_before(2_000, 0, &periods), 1_000);
    assert_eq!(total_sleep_before(3_999, 0, &periods), 1_000);
    assert_eq!(total_sleep_before(4_000, 0, &periods), 2_000);
    assert_eq!(total_sleep_before(9_999, 0, &periods), 2_000);
}

#[test]
fn period_starting_before_the_base_is_truncated() {
    // Of the 1000-second period only the 400 seconds after the base count.
    let periods = vec![period(1_000, 2_000)];
    assert_eq!(total_sleep_before(5_000, 1_600, &periods), 400);
}

#[test]
fn period_entirely_before_the_base_counts_nothing() {
    let periods = vec![period(1_000, 2_000)];
    assert_eq!(total_sleep_before(5_000, 2_500, &periods), 0);
}

#[test]
fn total_sleep_is_nonnegative_and_nondecreasing() {
    let periods = vec![period(1_000, 2_000), period(3_000, 4_000)];
    let mut previous = 0;
    for t in [0, 500, 1_999, 2_000, 2_500, 4_000, 6_000] {
        let total = total_sleep_before(t, 0, &periods);
        assert!(total >= 0);
        assert!(total >= previous);
        previous = total;
    }
}

#[test]
fn compressed_x_collapses_the_gap() {
    let periods = vec![period(1_000, 2_000)];
    assert_eq!(to_compressed_x(0, 0, &periods), 0);
    assert_eq!(to_compressed_x(1_000, 0, &periods), 1_000);
    // Both edges of the gap land on the same coordinate: zero width.
    assert_eq!(to_compressed_x(2_000, 0, &periods), 1_000);
    assert_eq!(to_compressed_x(2_600, 0, &periods), 1_600);
}

#[test]
fn compressed_x_advances_by_elapsed_time_between_sleeps() {
    // No period ends between the two instants, so the compressed distance is
    // exactly the elapsed time.
    let periods = vec![period(1_000, 2_000)];
    let a = to_compressed_x(2_000, 0, &periods);
    let b = to_compressed_x(2_750, 0, &periods);
    assert_eq!(b - a, 750);
    assert!(a < b);
}
