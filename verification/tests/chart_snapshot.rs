use watt_monitor::app::App;
use watt_monitor::date::Date;
use watt_monitor::record::BatteryRecord;
use watt_monitor::view::ViewMode;

fn rec(time: i64, capacity: i64, power: i64) -> BatteryRecord {
    BatteryRecord { time, status: "Discharging".to_string(), capacity, power }
}

fn viewer(rows: Vec<BatteryRecord>) -> App {
    let date = Date { year: 2024, month: 3, day: 5 };
    App::new(date, vec![date], Vec::new(), rows, true)
}

#[test]
fn empty_store_yields_the_fixed_empty_chart() {
    let app = viewer(Vec::new());
    let chart = app.chart_data();
    assert_eq!(chart.time_range, (0, 60));
    assert!(chart.capacity_data.is_empty());
    assert!(chart.power_data.is_empty());
    assert!(chart.sleep_markers.is_empty());
    assert_eq!(chart.x_labels, vec!["".to_string(), "".to_string(), "".to_string()]);
}

#[test]
fn chart_compresses_the_sleep_gap() {
    // 10:00, 10:04, then a sleep gap to 14:00, last sample 14:05.
    let mut app = viewer(vec![
        rec(36_000, 9_000, 5_000),
        rec(36_240, 8_950, 5_100),
        rec(50_400, 8_000, 4_900),
        rec(50_700, 7_990, 4_800),
    ]);
    app.view_mode = ViewMode::Full;
    let chart = app.chart_data();

    // The 14160-second gap collapses to zero width.
    assert_eq!(chart.capacity_data.len(), 4);
    assert_eq!(chart.capacity_data[0], (0, 9_000));
    assert_eq!(chart.capacity_data[1], (240, 8_950));
    assert_eq!(chart.capacity_data[2], (240, 8_000));
    assert_eq!(chart.capacity_data[3], (540, 7_990));
    assert_eq!(chart.power_data.len(), 4);
    assert_eq!(chart.power_data[3], (540, 4_800));

    // Bound: compressed duration 540 exceeds the 60-unit floor.
    assert_eq!(chart.time_range, (0, 540));

    // One marker at the wake instant's compressed coordinate.
    assert_eq!(chart.sleep_markers.len(), 1);
    assert_eq!(chart.sleep_markers[0].0, 240);
    assert_eq!(chart.sleep_markers[0].1.start_time, 36_240);
    assert_eq!(chart.sleep_markers[0].1.end_time, 50_400);

    // Labels: first sample, the sample nearest the compressed middle
    // (the wake sample: the later of the two equally near), last sample.
    assert_eq!(chart.x_labels, vec![
        "10:00".to_string(),
        "14:00".to_string(),
        "14:05".to_string(),
    ]);
}

#[test]
fn short_window_gets_the_sixty_unit_floor() {
    let mut app = viewer(vec![rec(36_000, 9_000, 5_000), rec(36_030, 8_999, 5_000)]);
    app.view_mode = ViewMode::Full;
    let chart = app.chart_data();
    assert_eq!(chart.time_range, (0, 60));
    assert_eq!(chart.capacity_data.len(), 2);
    assert_eq!(chart.capacity_data[1].0, 30);
}

#[test]
fn full_mode_downsamples_past_five_hundred_points() {
    // 1001 samples, 4 seconds apart: step 2, so 501 stepped points plus the
    // forced most recent one.
    let mut rows = Vec::new();
    for i in 0..1001i64 {
        rows.push(rec(1_000 + 4 * i, 9_000, 5_000));
    }
    let mut app = viewer(rows);
    app.view_mode = ViewMode::Full;
    let chart = app.chart_data();
    assert_eq!(chart.capacity_data.len(), 502);
    // Every kept point is 8 seconds after the previous stepped one.
    assert_eq!(chart.capacity_data[0].0, 0);
    assert_eq!(chart.capacity_data[1].0, 8);
    assert_eq!(chart.capacity_data[500].0, 4_000);
    // The forced last point repeats the final sample.
    assert_eq!(chart.capacity_data[501].0, 4_000);
}
