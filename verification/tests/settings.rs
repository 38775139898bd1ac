use ch8::settings::{log_level, LogLevel};

#[test]
fn quiet_wins() {
    assert_eq!(log_level(true, 2), LogLevel::Error);
    assert_eq!(log_level(true, 0).as_filter(), "error");
}

#[test]
fn verbosity_counts_up() {
    assert_eq!(log_level(false, 0), LogLevel::Info);
    assert_eq!(log_level(false, 1), LogLevel::Debug);
    assert_eq!(log_level(false, 2), LogLevel::Trace);
    assert_eq!(log_level(false, 9).as_filter(), "trace");
    assert_eq!(LogLevel::Info.as_filter(), "info");
    assert_eq!(LogLevel::Debug.as_filter(), "debug");
}
