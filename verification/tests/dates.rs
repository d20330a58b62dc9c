use watt_monitor::date::Date;
use watt_monitor::date::list_available_dates;
use watt_monitor::date::parse_date;
use watt_monitor::date::parse_date_arg;
use watt_monitor::date::date_string;
use watt_monitor::files::archive_file_name;
use watt_monitor::files::get_today_log_path;
use watt_monitor::text::format_duration;

fn d(year: i32, month: u8, day: u8) -> Date {
    Date { year, month, day }
}

#[test]
fn parses_well_formed_dates() {
    assert_eq!(parse_date("2024-03-05"), Some(d(2024, 3, 5)));
    assert_eq!(parse_date("2024-02-29"), Some(d(2024, 2, 29)));
    assert_eq!(parse_date("0001-12-31"), Some(d(1, 12, 31)));
}

#[test]
fn rejects_malformed_dates() {
    assert_eq!(parse_date("2023-02-29"), None);
    assert_eq!(parse_date("2024-13-01"), None);
    assert_eq!(parse_date("2024-00-10"), None);
    assert_eq!(parse_date("2024-04-31"), None);
    assert_eq!(parse_date("2024-3-5"), None);
    assert_eq!(parse_date("20240305"), None);
    assert_eq!(parse_date("2024-03-05x"), None);
    assert_eq!(parse_date(""), None);
}

#[test]
fn formats_and_parses_round_trip() {
    let date = d(2024, 3, 5);
    let text = date_string(&date);
    assert_eq!(text, "2024-03-05");
    assert_eq!(parse_date(&text), Some(date));
}

#[test]
fn pred_steps_over_month_and_year_boundaries() {
    assert_eq!(d(2024, 3, 5).pred(), Some(d(2024, 3, 4)));
    assert_eq!(d(2024, 3, 1).pred(), Some(d(2024, 2, 29)));
    assert_eq!(d(2023, 3, 1).pred(), Some(d(2023, 2, 28)));
    assert_eq!(d(2024, 1, 1).pred(), Some(d(2023, 12, 31)));
    assert_eq!(d(0, 1, 1).pred(), None);
}

#[test]
fn date_arguments_accept_keywords_and_explicit_dates() {
    let today = d(2024, 3, 5);
    assert_eq!(parse_date_arg("today", today), Some(today));
    assert_eq!(parse_date_arg("TODAY", today), Some(today));
    assert_eq!(parse_date_arg("Yesterday", today), Some(d(2024, 3, 4)));
    assert_eq!(parse_date_arg("2024-02-29", today), Some(d(2024, 2, 29)));
    assert_eq!(parse_date_arg("not-a-date", today), None);
}

#[test]
fn available_dates_are_newest_first() {
    let today = d(2024, 3, 5);
    let stems = vec![
        "2024-03-01".to_string(),
        "2024-03-03".to_string(),
        "2024-03-02".to_string(),
    ];
    let dates = list_available_dates(today, true, &stems);
    assert_eq!(dates, vec![today, d(2024, 3, 3), d(2024, 3, 2), d(2024, 3, 1)]);
}

#[test]
fn available_dates_never_list_a_date_twice() {
    let today = d(2024, 3, 5);
    // Today appears as a stem too, and one archive date repeats.
    let stems = vec![
        "2024-03-05".to_string(),
        "2024-03-02".to_string(),
        "2024-03-02".to_string(),
        "notes".to_string(),
    ];
    let dates = list_available_dates(today, true, &stems);
    assert_eq!(dates, vec![today, d(2024, 3, 2)]);
}

#[test]
fn today_is_listed_only_with_a_rolling_file() {
    let today = d(2024, 3, 5);
    let stems = vec!["2024-03-04".to_string()];
    let dates = list_available_dates(today, false, &stems);
    assert_eq!(dates, vec![d(2024, 3, 4)]);
}

#[test]
fn durations_format_as_hours_and_minutes() {
    assert_eq!(format_duration(9 * 60), "9m");
    assert_eq!(format_duration(59), "0m");
    assert_eq!(format_duration(3_600), "1h00m");
    assert_eq!(format_duration(3_900), "1h05m");
    assert_eq!(format_duration(26 * 3_600 + 7 * 60), "26h07m");
}

#[test]
fn file_names() {
    assert_eq!(get_today_log_path(), "/tmp/battery_watt_history.csv");
    assert_eq!(archive_file_name(&d(2024, 3, 5)), "2024-03-05.csv");
}
