use gac::logging::LogLevel;

#[test]
fn log_levels_map_to_filters() {
    assert_eq!(LogLevel::Quiet.to_filter(), "error");
    assert_eq!(LogLevel::Normal.to_filter(), "warn");
    assert_eq!(LogLevel::Verbose.to_filter(), "info");
    assert_eq!(LogLevel::Debug.to_filter(), "debug");
    assert!(LogLevel::Debug.shows_debug());
    assert!(!LogLevel::Verbose.shows_debug());
    assert!(LogLevel::Quiet < LogLevel::Debug);
}
