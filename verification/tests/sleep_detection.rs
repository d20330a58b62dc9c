use watt_monitor::app::App;
use watt_monitor::date::Date;
use watt_monitor::record::BatteryRecord;

fn rec(time: i64, capacity: i64) -> BatteryRecord {
    BatteryRecord { time, status: "Discharging".to_string(), capacity, power: 5_000 }
}

fn viewer(rows: Vec<BatteryRecord>) -> App {
    let date = Date { year: 2024, month: 3, day: 5 };
    App::new(date, vec![date], Vec::new(), rows, true)
}

#[test]
fn twelve_hour_gap_with_ten_percent_drop_is_one_sleep_period() {
    // 12 h gap, capacity 90.00 % -> 80.00 %: about 0.83 %/h, well under the
    // 5 %/h ceiling.
    let app = viewer(vec![rec(10_000, 9_000), rec(10_000 + 12 * 3600, 8_000)]);
    let periods = app.detect_sleep_periods();
    assert_eq!(periods.len(), 1);
    assert_eq!(periods[0].start_time, 10_000);
    assert_eq!(periods[0].end_time, 10_000 + 12 * 3600);
    assert_eq!(periods[0].duration_secs, 12 * 3600);
    assert_eq!(periods[0].capacity_diff, -1_000);
}

#[test]
fn twelve_hour_gap_with_eighty_percent_drop_is_no_sleep_period() {
    // Same gap, capacity 90.00 % -> 10.00 %: about 6.6 %/h, over the ceiling,
    // so the logger was not running.
    let app = viewer(vec![rec(10_000, 9_000), rec(10_000 + 12 * 3600, 1_000)]);
    assert_eq!(app.detect_sleep_periods().len(), 0);
}

#[test]
fn short_gaps_are_not_sleep() {
    // 9 minutes and 59 seconds is just under the 10-minute threshold.
    let app = viewer(vec![rec(0, 9_000), rec(599, 8_999)]);
    assert_eq!(app.detect_sleep_periods().len(), 0);
}

#[test]
fn exactly_ten_minutes_is_sleep() {
    let app = viewer(vec![rec(0, 9_000), rec(600, 8_999)]);
    assert_eq!(app.detect_sleep_periods().len(), 1);
}

#[test]
fn charging_while_asleep_is_still_sleep() {
    // Capacity rose across the gap; a negative drain rate passes the ceiling.
    let app = viewer(vec![rec(0, 5_000), rec(7_200, 8_000)]);
    let periods = app.detect_sleep_periods();
    assert_eq!(periods.len(), 1);
    assert_eq!(periods[0].capacity_diff, 3_000);
}

#[test]
fn periods_are_chronological_and_disjoint() {
    let app = viewer(vec![
        rec(0, 9_000),
        rec(3_600, 8_900),
        rec(3_700, 8_899),
        rec(8_000, 8_800),
    ]);
    let periods = app.detect_sleep_periods();
    assert_eq!(periods.len(), 2);
    assert!(periods[0].end_time <= periods[1].start_time);
    assert_eq!(periods[0].start_time, 0);
    assert_eq!(periods[0].end_time, 3_600);
    assert_eq!(periods[1].start_time, 3_700);
    assert_eq!(periods[1].end_time, 8_000);
}

#[test]
fn last_sleep_period_is_the_latest() {
    let app = viewer(vec![rec(0, 9_000), rec(3_600, 8_900), rec(3_700, 8_899), rec(8_000, 8_800)]);
    let last = app.last_sleep_period().unwrap();
    assert_eq!(last.start_time, 3_700);
    assert_eq!(last.end_time, 8_000);
}

#[test]
fn fewer_than_two_samples_yield_no_periods() {
    let app = viewer(vec![rec(0, 9_000)]);
    assert_eq!(app.detect_sleep_periods().len(), 0);
    assert!(app.last_sleep_period().is_none());
}
