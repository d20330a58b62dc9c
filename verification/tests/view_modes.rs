use watt_monitor::view::ViewMode;

#[test]
fn toggle_cycles_through_all_modes() {
    let m0 = ViewMode::Recent30m;
    let m1 = m0.toggle();
    let m2 = m1.toggle();
    let m3 = m2.toggle();
    let m4 = m3.toggle();
    let m5 = m4.toggle();
    assert_eq!(m1, ViewMode::Recent1h);
    assert_eq!(m2, ViewMode::Recent4h);
    assert_eq!(m3, ViewMode::Recent12h);
    assert_eq!(m4, ViewMode::Full);
    assert_eq!(m5, ViewMode::Recent30m);
}

#[test]
fn expand_stops_at_full() {
    assert_eq!(ViewMode::Recent30m.expand(), Some(ViewMode::Recent1h));
    assert_eq!(ViewMode::Recent1h.expand(), Some(ViewMode::Recent4h));
    assert_eq!(ViewMode::Recent4h.expand(), Some(ViewMode::Recent12h));
    assert_eq!(ViewMode::Recent12h.expand(), Some(ViewMode::Full));
    assert_eq!(ViewMode::Full.expand(), None);
}

#[test]
fn labels_name_each_mode() {
    assert_eq!(ViewMode::Recent30m.label(), "30m");
    assert_eq!(ViewMode::Recent1h.label(), "1h");
    assert_eq!(ViewMode::Recent4h.label(), "4h");
    assert_eq!(ViewMode::Recent12h.label(), "12h");
    assert_eq!(ViewMode::Full.label(), "Full");
}

#[test]
fn window_lengths_in_seconds() {
    assert_eq!(ViewMode::Recent30m.window_secs(), Some(30 * 60));
    assert_eq!(ViewMode::Recent1h.window_secs(), Some(60 * 60));
    assert_eq!(ViewMode::Recent4h.window_secs(), Some(4 * 60 * 60));
    assert_eq!(ViewMode::Recent12h.window_secs(), Some(12 * 60 * 60));
    assert_eq!(ViewMode::Full.window_secs(), None);
}

#[test]
fn minimum_data_durations() {
    assert_eq!(ViewMode::Recent30m.min_data_secs(), 5 * 60);
    assert_eq!(ViewMode::Recent1h.min_data_secs(), 10 * 60);
    assert_eq!(ViewMode::Recent4h.min_data_secs(), 30 * 60);
    assert_eq!(ViewMode::Recent12h.min_data_secs(), 60 * 60);
    assert_eq!(ViewMode::Full.min_data_secs(), 0);
}
