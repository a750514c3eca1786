use shuttle_codegen::level::parse_level;
use shuttle_codegen::LogLevel;

#[test]
fn level_parsing_is_case_insensitive() {
    assert_eq!(parse_level("TRACE"), Some(LogLevel::Trace));
    assert_eq!(parse_level("trace"), Some(LogLevel::Trace));
    assert_eq!(parse_level("TrAcE"), Some(LogLevel::Trace));
    assert_eq!(parse_level("DEBUG"), Some(LogLevel::Debug));
    assert_eq!(parse_level("debug"), Some(LogLevel::Debug));
    assert_eq!(parse_level("Info"), Some(LogLevel::Info));
    assert_eq!(parse_level("wArN"), Some(LogLevel::Warn));
    assert_eq!(parse_level("ERROR"), Some(LogLevel::Error));
    assert_eq!(parse_level("error"), Some(LogLevel::Error));
}

#[test]
fn unknown_levels_are_rejected() {
    assert_eq!(parse_level(""), None);
    assert_eq!(parse_level("verbose"), None);
    assert_eq!(parse_level("warning"), None);
    assert_eq!(parse_level("DEBUG "), None);
}

#[test]
fn trace_is_clamped_to_debug_and_others_pass_through() {
    assert_eq!(LogLevel::Trace.effective(), LogLevel::Debug);
    assert_eq!(LogLevel::Debug.effective(), LogLevel::Debug);
    assert_eq!(LogLevel::Info.effective(), LogLevel::Info);
    assert_eq!(LogLevel::Warn.effective(), LogLevel::Warn);
    assert_eq!(LogLevel::Error.effective(), LogLevel::Error);
}

#[test]
fn level_names_match_generated_spelling() {
    assert_eq!(LogLevel::Trace.name(), "TRACE");
    assert_eq!(LogLevel::Debug.name(), "DEBUG");
    assert_eq!(LogLevel::Info.name(), "INFO");
    assert_eq!(LogLevel::Warn.name(), "WARN");
    assert_eq!(LogLevel::Error.name(), "ERROR");
}
