use logux::cli::completer::complete;

#[test]
fn command_names_complete_from_a_prefix() {
    let r = complete("/lev", &[], None, "", &[], &[]);
    assert!(!r.is_empty());
    assert!(r.iter().all(|s| s.text.starts_with("/lev")));
    assert!(r.iter().any(|s| s.text.starts_with("/level")));
}

#[test]
fn plain_text_gets_no_completion() {
    assert!(complete("hello", &[], None, "", &[], &[]).is_empty());
}

#[test]
fn app_offers_foreground_and_history() {
    let history = vec!["com.one".to_string(), "com.two".to_string()];
    let r = complete("/app ", &history, Some("com.fg"), "", &[], &[]);
    let texts: Vec<&str> = r.iter().map(|s| s.text.as_str()).collect();
    assert!(texts.iter().any(|t| t.contains("com.fg")));
    assert!(texts.iter().any(|t| t.contains("com.two")));
}
