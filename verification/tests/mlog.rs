use moq_transport::mlog::LogLevel;

#[test]
fn log_level_names() {
    assert_eq!(LogLevel::Fatal.as_str(), "fatal");
    assert_eq!(LogLevel::Error.as_str(), "error");
    assert_eq!(LogLevel::Warn.as_str(), "warn");
    assert_eq!(LogLevel::Info.as_str(), "info");
    assert_eq!(LogLevel::Debug.as_str(), "debug");
    assert_eq!(LogLevel::Verbose.as_str(), "verbose");
}
