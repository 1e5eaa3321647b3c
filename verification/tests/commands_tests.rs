use logux::adb::AdbClient;
use logux::cli::commands::{cmd_help, Dispatch};
use logux::cli::tui::App;
use logux::logs::parser::LogLevel;
use logux::mock::MockEngine;
use logux::traffic::TrafficState;

fn app() -> App {
    App::new(AdbClient::new("adb".to_string()), MockEngine::new(), Vec::new())
}

#[test]
fn level_command_sets_and_reports() {
    let mut a = app();
    let mut out = Vec::new();
    a.cmd_level("warn", &mut out);
    assert_eq!(a.filters.min_level, LogLevel::Warn);
    assert_eq!(out, vec!["\x1b[32mFilter: level >= W\x1b[0m".to_string()]);
    a.cmd_level("bogus", &mut out);
    assert_eq!(out[1], "\x1b[31mUnknown level: bogus. Use V, D, I, W, E, or F (or 'reset')\x1b[0m");
    a.cmd_level("reset", &mut out);
    assert_eq!(a.filters.min_level, LogLevel::Verbose);
}

#[test]
fn grep_sets_text_and_highlight() {
    let mut a = app();
    let mut out = Vec::new();
    a.cmd_grep("needle", &mut out);
    assert_eq!(a.filters.text, "needle");
    assert_eq!(a.formatter.highlight_text, "needle");
    a.cmd_grep("", &mut out);
    assert_eq!(a.filters.text, "");
    assert_eq!(out[1], "\x1b[32mText filter cleared\x1b[0m");
}

#[test]
fn help_lists_the_commands() {
    let mut out = Vec::new();
    cmd_help(&mut out);
    assert!(out.len() > 20);
    assert!(out.iter().any(|l| l.contains("/level")));
}

#[test]
fn dispatch_runs_local_commands() {
    let mut a = app();
    let mut t = TrafficState::new();
    let mut out = Vec::new();
    let next = a.dispatch("/tag Net", &mut t, &mut out);
    assert!(matches!(next, Dispatch::Done));
    assert_eq!(a.filters.tags, vec!["Net".to_string()]);
    let next = a.dispatch("/save /tmp/out.log", &mut t, &mut out);
    assert!(matches!(next, Dispatch::Save(ref p) if p == "/tmp/out.log"));
    let next = a.dispatch("/save", &mut t, &mut out);
    assert!(matches!(next, Dispatch::Done));
    assert_eq!(out.last().unwrap(), "\x1b[33mSave stopped\x1b[0m");
}

#[test]
fn save_request_expands_home() {
    let mut a = app();
    let mut out = Vec::new();
    assert_eq!(a.save_request("~/logs.txt", Some("/home/u"), &mut out), Some("/home/u/logs.txt".to_string()));
    assert_eq!(a.save_request(" ~ ", Some("/home/u"), &mut out), Some("/home/u".to_string()));
    assert_eq!(a.save_request("/tmp/x", None, &mut out), Some("/tmp/x".to_string()));
    assert!(out.is_empty());
    a.save_path = Some("old".to_string());
    assert_eq!(a.save_request("  ", None, &mut out), None);
    assert_eq!(a.save_path, None);
    assert_eq!(out, vec!["\x1b[33mSave stopped\x1b[0m".to_string()]);
}

#[test]
fn exclusions_hide_and_clear() {
    let mut a = app();
    let mut out = Vec::new();
    a.cmd_exclude("tag Noise", &mut out);
    assert_eq!(a.filters.exclude_tags, vec!["Noise".to_string()]);
    a.cmd_exclude("reset", &mut out);
    assert!(a.filters.exclude_tags.is_empty());
}

#[test]
fn invalid_regex_reports_the_compile_error() {
    let mut a = app();
    let mut out = Vec::new();
    a.cmd_regex("(unclosed", &mut out);
    let expected = regex::Regex::new("(?i)(unclosed").unwrap_err().to_string();
    assert_eq!(out, vec![format!("\x1b[31mInvalid regex: {expected}\x1b[0m")]);
    assert!(a.filters.regex.is_none());
    assert_eq!(a.filters.set_regex("(unclosed").unwrap_err().message, expected);
}
