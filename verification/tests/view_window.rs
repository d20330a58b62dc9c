use watt_monitor::app::App;
use watt_monitor::date::Date;
use watt_monitor::record::BatteryRecord;
use watt_monitor::view::ViewMode;

fn rec(time: i64, capacity: i64, power: i64) -> BatteryRecord {
    BatteryRecord { time, status: "Discharging".to_string(), capacity, power }
}

fn viewer(rows: Vec<BatteryRecord>) -> App {
    let date = Date { year: 2024, month: 3, day: 5 };
    App::new(date, vec![date], Vec::new(), rows, true)
}

#[test]
fn usable_window_keeps_the_requested_mode() {
    // Two samples spanning 400 s: at least the 5 minutes Recent30m needs.
    let app = viewer(vec![rec(10_000, 9_000, 5_000), rec(10_400, 8_990, 5_000)]);
    assert_eq!(app.effective_view_mode(), ViewMode::Recent30m);
    assert_eq!(app.view_mode_label(), "30m");
}

#[test]
fn sparse_data_widens_to_full() {
    // Two samples spanning 200 s: under every mode's minimum except Full's.
    let app = viewer(vec![rec(10_000, 9_000, 5_000), rec(10_200, 8_990, 5_000)]);
    assert_eq!(app.effective_view_mode(), ViewMode::Full);
    assert_eq!(app.view_mode_label(), "30m→Full");
}

#[test]
fn widening_stops_at_the_first_usable_mode() {
    // Spanning 700 s: under Recent30m's window that is only its own span,
    // but the span also sits under no cutoff; 700 s is at least the
    // 5 minutes Recent30m asks, so the requested mode already serves.
    let app = viewer(vec![
        rec(10_000, 9_000, 5_000),
        rec(10_700, 8_990, 5_000),
    ]);
    assert_eq!(app.effective_view_mode(), ViewMode::Recent30m);

    // A single sample in the last 30 minutes, one more 50 minutes back:
    // Recent30m holds one point, Recent1h holds both spanning 3000 s.
    let app = viewer(vec![
        rec(10_000, 9_000, 5_000),
        rec(13_000, 8_990, 5_000),
    ]);
    let mut app = app;
    app.view_mode = ViewMode::Recent30m;
    assert_eq!(app.effective_view_mode(), ViewMode::Recent1h);
    assert_eq!(app.view_mode_label(), "30m→1h");
}

#[test]
fn empty_store_keeps_the_requested_mode() {
    let app = viewer(Vec::new());
    assert_eq!(app.effective_view_mode(), ViewMode::Recent30m);
    assert_eq!(app.view_mode_label(), "30m");
}

#[test]
fn window_filters_to_the_trailing_seconds() {
    // Latest sample at 40 000; Recent30m keeps those within 1800 s of it.
    let app = viewer(vec![
        rec(10_000, 9_000, 5_000),
        rec(38_200, 8_500, 5_000),
        rec(38_210, 8_499, 5_000),
        rec(40_000, 8_400, 5_000),
    ]);
    let filtered = app.filtered_records_for_mode(ViewMode::Recent30m);
    assert_eq!(filtered.len(), 3);
    assert_eq!(filtered[0].time, 38_200);
    assert_eq!(filtered[2].time, 40_000);
}

#[test]
fn power_range_pads_by_a_tenth_of_the_spread() {
    let app = viewer(vec![rec(10_000, 9_000, 1_000), rec(10_400, 8_990, 3_000)]);
    assert_eq!(app.power_range(), (800, 3_200));
}

#[test]
fn power_range_is_floored_at_zero() {
    let app = viewer(vec![rec(10_000, 9_000, 50), rec(10_400, 8_990, 3_050)]);
    assert_eq!(app.power_range(), (0, 3_350));
}

#[test]
fn power_range_of_an_empty_window_is_the_default() {
    let app = viewer(Vec::new());
    assert_eq!(app.power_range(), (0, 20_000));
}
