use watt_monitor::app::App;
use watt_monitor::date::Date;
use watt_monitor::record::BatteryRecord;
use watt_monitor::view::ViewMode;

fn rec(time: i64, capacity: i64) -> BatteryRecord {
    BatteryRecord { time, status: "Discharging".to_string(), capacity, power: 5_000 }
}

fn day(d: u8) -> Date {
    Date { year: 2024, month: 3, day: d }
}

#[test]
fn new_concatenates_prior_archive_and_live_rows() {
    let app = App::new(
        day(5),
        vec![day(5), day(4)],
        vec![rec(100, 9_000), rec(200, 8_990)],
        vec![rec(300, 8_980)],
        true,
    );
    assert_eq!(app.records.len(), 3);
    assert_eq!(app.records[0].time, 100);
    assert_eq!(app.records[2].time, 300);
    // Only the live rows count as ingested from the rolling file.
    assert_eq!(app.last_read_count, 1);
    assert_eq!(app.view_mode, ViewMode::Recent30m);
    assert!(!app.should_quit);
    assert!(!app.show_service_warning);
}

#[test]
fn inactive_service_raises_the_warning() {
    let app = App::new(day(5), vec![day(5)], Vec::new(), Vec::new(), false);
    assert!(app.show_service_warning);
    let mut app = app;
    app.dismiss_warning();
    assert!(!app.show_service_warning);
}

#[test]
fn refresh_appends_only_rows_beyond_the_ingested_count() {
    let today = day(5);
    let mut app = App::new(today, vec![today], Vec::new(), vec![rec(100, 9_000)], true);
    let file_rows = vec![rec(100, 9_000), rec(200, 8_990), rec(300, 8_980)];
    assert!(app.can_refresh(today, &file_rows));
    app.refresh_data(today, vec![today], file_rows);
    assert_eq!(app.records.len(), 3);
    assert_eq!(app.records[1].time, 200);
    assert_eq!(app.last_read_count, 3);
}

#[test]
fn refresh_twice_with_no_new_content_appends_zero_records() {
    let today = day(5);
    let mut app = App::new(today, vec![today], Vec::new(), vec![rec(100, 9_000)], true);
    let file_rows = vec![rec(100, 9_000), rec(200, 8_990)];
    app.refresh_data(today, vec![today], file_rows.clone());
    let len_after_first = app.records.len();
    let count_after_first = app.last_read_count;
    app.refresh_data(today, vec![today], file_rows);
    assert_eq!(app.records.len(), len_after_first);
    assert_eq!(app.last_read_count, count_after_first);
    assert_eq!(app.records.len(), 2);
}

#[test]
fn refresh_is_a_no_op_on_an_archived_date() {
    let today = day(5);
    let mut app = App::new(day(4), vec![today, day(4)], Vec::new(), vec![rec(100, 9_000)], true);
    app.refresh_data(today, vec![today], vec![rec(100, 9_000), rec(200, 8_990)]);
    assert_eq!(app.records.len(), 1);
    assert_eq!(app.last_read_count, 1);
}

#[test]
fn navigate_moves_through_the_date_list() {
    // Newest first: positive delta moves toward newer dates.
    let dates = vec![day(6), day(5), day(4)];
    let mut app = App::new(day(5), dates.clone(), Vec::new(), Vec::new(), true);
    assert!(app.navigate_date(1));
    assert_eq!(app.current_date, day(6));
    // Already at the newest: clamped, nothing changes.
    assert!(!app.navigate_date(1));
    assert_eq!(app.current_date, day(6));
    assert!(app.navigate_date(-2));
    assert_eq!(app.current_date, day(4));
    assert!(!app.navigate_date(-1));
    assert_eq!(app.current_date, day(4));
}

#[test]
fn navigate_does_nothing_when_the_date_is_unknown() {
    let mut app = App::new(day(9), vec![day(6), day(5)], Vec::new(), Vec::new(), true);
    assert!(!app.navigate_date(1));
    assert_eq!(app.current_date, day(9));
}

#[test]
fn toggle_view_mode_cycles() {
    let mut app = App::new(day(5), vec![day(5)], Vec::new(), Vec::new(), true);
    app.toggle_view_mode();
    assert_eq!(app.view_mode, ViewMode::Recent1h);
}

#[test]
fn about_panel_toggles_and_dismisses() {
    let mut app = App::new(day(5), vec![day(5)], Vec::new(), Vec::new(), true);
    assert!(!app.show_about);
    app.toggle_about();
    assert!(app.show_about);
    app.dismiss_about();
    assert!(!app.show_about);
}

#[test]
fn latest_sample_getters() {
    let mut rows = vec![rec(100, 9_000), rec(200, 8_990)];
    rows[1].power = 4_750;
    rows[1].status = "Charging".to_string();
    let app = App::new(day(5), vec![day(5)], Vec::new(), rows, true);
    assert_eq!(app.latest_capacity(), Some(8_990));
    assert_eq!(app.latest_power(), Some(4_750));
    assert_eq!(app.latest_status(), Some("Charging"));

    let empty = App::new(day(5), vec![day(5)], Vec::new(), Vec::new(), true);
    assert_eq!(empty.latest_capacity(), None);
    assert_eq!(empty.latest_power(), None);
    assert_eq!(empty.latest_status(), None);
}
