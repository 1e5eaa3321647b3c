use logux::logs::filters::FilterState;
use logux::logs::parser::{LogEntry, LogLevel};

fn make_entry(pid: u32, tid: u32, level: LogLevel, tag: &str, message: &str) -> LogEntry {
    LogEntry {
        timestamp: "04-13 12:00:00.000".to_string(),
        pid,
        tid,
        level,
        tag: tag.to_string(),
        message: message.to_string(),
        raw: String::new(),
    }
}

#[test]
fn test_no_filters() {
    let state = FilterState::default();
    assert!(logux::logs::filters::matches(&make_entry(1, 1, LogLevel::Debug, "T", "m"), &state));
}

#[test]
fn test_level_filter() {
    let mut state = FilterState::default();
    state.set_level(LogLevel::Warn);
    assert!(!logux::logs::filters::matches(&make_entry(1, 1, LogLevel::Debug, "T", "m"), &state));
    assert!(logux::logs::filters::matches(&make_entry(1, 1, LogLevel::Warn, "T", "m"), &state));
    assert!(logux::logs::filters::matches(&make_entry(1, 1, LogLevel::Error, "T", "m"), &state));
}

#[test]
fn test_pid_filter() {
    let mut state = FilterState::default();
    state.set_pid(100);
    assert!(logux::logs::filters::matches(&make_entry(100, 1, LogLevel::Debug, "T", "m"), &state));
    assert!(!logux::logs::filters::matches(&make_entry(200, 1, LogLevel::Debug, "T", "m"), &state));
}

#[test]
fn test_tag_filter() {
    let mut state = FilterState::default();
    state.add_tag("Test");
    assert!(logux::logs::filters::matches(&make_entry(1, 1, LogLevel::Debug, "TestTag", "m"), &state));
    assert!(!logux::logs::filters::matches(&make_entry(1, 1, LogLevel::Debug, "Other", "m"), &state));
}

#[test]
fn test_text_filter() {
    let mut state = FilterState::default();
    state.set_text("hello");
    assert!(logux::logs::filters::matches(&make_entry(1, 1, LogLevel::Debug, "T", "Hello World"), &state));
    assert!(!logux::logs::filters::matches(&make_entry(1, 1, LogLevel::Debug, "T", "Goodbye"), &state));
}

#[test]
fn test_regex_filter() {
    let mut state = FilterState::default();
    state.set_regex(r"error\d+").unwrap();
    assert!(logux::logs::filters::matches(&make_entry(1, 1, LogLevel::Debug, "T", "found error123"), &state));
    assert!(!logux::logs::filters::matches(&make_entry(1, 1, LogLevel::Debug, "T", "no match"), &state));
}

#[test]
fn test_combined() {
    let mut state = FilterState::default();
    state.set_level(LogLevel::Info);
    state.add_tag("Net");
    state.set_text("request");
    assert!(logux::logs::filters::matches(&make_entry(1, 1, LogLevel::Info, "Network", "HTTP request"), &state));
    assert!(!logux::logs::filters::matches(&make_entry(1, 1, LogLevel::Debug, "Network", "HTTP request"), &state));
}

#[test]
fn test_package_tracking() {
    let mut state = FilterState::default();
    state.set_package("com.example", Some(100));
    assert!(state.package_tracking);
    assert!(logux::logs::filters::matches(&make_entry(100, 1, LogLevel::Debug, "T", "m"), &state));
    assert!(!logux::logs::filters::matches(&make_entry(200, 1, LogLevel::Debug, "T", "m"), &state));

    state.update_pid(300);
    assert!(logux::logs::filters::matches(&make_entry(300, 1, LogLevel::Debug, "T", "m"), &state));
    assert!(!logux::logs::filters::matches(&make_entry(100, 1, LogLevel::Debug, "T", "m"), &state));
}

#[test]
fn test_reset() {
    let mut state = FilterState::default();
    state.set_pid(100);
    state.add_tag("X");
    state.set_level(LogLevel::Error);
    state.reset();
    assert!(logux::logs::filters::matches(&make_entry(1, 1, LogLevel::Verbose, "T", "m"), &state));
}

#[test]
fn invalid_regex_is_rejected_and_keeps_state() {
    let mut state = FilterState::default();
    assert!(state.set_regex("(unclosed").is_err());
    assert!(state.regex.is_none());
    state.set_regex("ab+c").unwrap();
    assert_eq!(state.regex.as_ref().unwrap().as_str(), "(?i)ab+c");
    assert!(logux::logs::filters::matches(&make_entry(1, 1, LogLevel::Debug, "T", "xABBCx"), &state));
    state.clear_regex();
    assert!(state.regex.is_none());
}

#[test]
fn tags_are_alternatives_and_case_insensitive() {
    let mut state = FilterState::default();
    state.add_tag("net");
    state.add_tag("DB");
    state.add_tag("net");
    assert_eq!(state.tags.len(), 2);
    assert!(logux::logs::filters::matches(&make_entry(1, 1, LogLevel::Debug, "NETWORK", "m"), &state));
    assert!(logux::logs::filters::matches(&make_entry(1, 1, LogLevel::Debug, "RoomDb", "m"), &state));
    assert!(!logux::logs::filters::matches(&make_entry(1, 1, LogLevel::Debug, "Ui", "m"), &state));
    state.remove_tag("DB");
    assert!(!logux::logs::filters::matches(&make_entry(1, 1, LogLevel::Debug, "RoomDb", "m"), &state));
    state.clear_tags();
    assert!(logux::logs::filters::matches(&make_entry(1, 1, LogLevel::Debug, "Ui", "m"), &state));
}

#[test]
fn thread_filter_and_text_spans_tag_and_message() {
    let mut state = FilterState::default();
    let mut tids = std::collections::HashSet::new();
    tids.insert(7u32);
    state.set_threads(tids);
    assert!(logux::logs::filters::matches(&make_entry(1, 7, LogLevel::Debug, "T", "m"), &state));
    assert!(!logux::logs::filters::matches(&make_entry(1, 8, LogLevel::Debug, "T", "m"), &state));
    state.set_text("t m");
    assert!(logux::logs::filters::matches(&make_entry(1, 7, LogLevel::Debug, "T", "m"), &state));
}

#[test]
fn description_lists_active_filters() {
    let mut state = FilterState::default();
    assert_eq!(state.description(), "no filters");
    state.set_package("com.example", Some(42));
    state.add_tag("Net");
    state.set_level(LogLevel::Warn);
    state.set_text("boom");
    assert_eq!(
        state.description(),
        "app=com.example | pid=42 | tag=Net | level>=W | text='boom'"
    );
    state.set_regex("x+").unwrap();
    assert!(state.description().ends_with("regex='(?i)x+'"));
    state.clear_level();
    state.clear_text();
    assert!(!state.description().contains("level"));
}

#[test]
fn excluded_tag_never_shows() {
    let mut state = FilterState::default();
    state.add_exclude_tag("noise");
    assert!(!logux::logs::filters::matches(&make_entry(1, 1, LogLevel::Error, "MyNoiseTag", "m"), &state));
    assert!(logux::logs::filters::matches(&make_entry(1, 1, LogLevel::Error, "Quiet", "m"), &state));
    state.add_exclude_text("Ping");
    assert!(!logux::logs::filters::matches(&make_entry(1, 1, LogLevel::Error, "Quiet", "ping pong"), &state));
    assert!(state.remove_exclusion("noise"));
    assert!(logux::logs::filters::matches(&make_entry(1, 1, LogLevel::Error, "MyNoiseTag", "m"), &state));
}

#[test]
fn message_filters_need_one_fragment() {
    let mut state = FilterState::default();
    state.add_message("alpha");
    state.add_message("beta");
    assert!(logux::logs::filters::matches(&make_entry(1, 1, LogLevel::Info, "T", "BETA here"), &state));
    assert!(!logux::logs::filters::matches(&make_entry(1, 1, LogLevel::Info, "T", "gamma"), &state));
}

#[test]
fn description_lists_filters() {
    let mut state = FilterState::default();
    assert_eq!(state.description(), "no filters");
    state.set_package("com.x", None);
    state.set_level(LogLevel::Warn);
    assert_eq!(state.description(), "app=com.x | level>=W");
}

#[test]
fn more_tags_show_more() {
    let mut state = FilterState::default();
    state.add_tag("Net");
    assert!(!logux::logs::filters::matches(&make_entry(1, 1, LogLevel::Info, "Database", "m"), &state));
    state.add_tag("data");
    assert!(logux::logs::filters::matches(&make_entry(1, 1, LogLevel::Info, "Database", "m"), &state));
    assert!(logux::logs::filters::matches(&make_entry(1, 1, LogLevel::Info, "Network", "m"), &state));
}

#[test]
fn removing_a_new_exclusion_restores_the_filters() {
    let mut state = FilterState::default();
    state.add_exclude_tag("Keep");
    let before = state.to_edit_string();
    state.add_exclude_text("chatty");
    assert!(state.remove_exclusion("chatty"));
    assert_eq!(state.to_edit_string(), before);
    assert!(!state.remove_exclusion("absent"));
}
