use logux::logs::filters::FilterState;
use logux::logs::parser::LogLevel;

#[test]
fn edit_string_lists_active_filters() {
    let mut f = FilterState::default();
    f.set_package("com.example", None);
    f.add_tag("Net");
    f.add_tag("Http");
    f.set_level(LogLevel::Warn);
    f.set_text("timeout");
    f.add_exclude_tag("Noise");
    f.add_exclude_text("heartbeat");
    assert_eq!(
        f.to_edit_string(),
        "app=com.example tag=Net,Http level=W grep=timeout !tag=Noise !msg=heartbeat"
    );
}

#[test]
fn edit_string_reads_back() {
    let mut f = FilterState::default();
    f.set_package("com.example", None);
    f.add_tag("Net");
    f.set_level(LogLevel::Error);
    f.set_text("fail");
    f.add_message("retry");
    f.set_regex("err\\d+").unwrap();
    f.add_exclude_tag("Noise");
    let line = f.to_edit_string();
    let mut g = FilterState::default();
    g.apply_edit_string(&line);
    assert_eq!(g.to_edit_string(), line);
    assert_eq!(g.package, "com.example");
    assert_eq!(g.min_level, LogLevel::Error);
}

#[test]
fn apply_edit_string_starts_from_nothing() {
    let mut f = FilterState::default();
    f.set_text("old");
    f.add_tag("Old");
    f.apply_edit_string("level=d junk tag=A,,B unknown=1");
    assert_eq!(f.text, "");
    assert_eq!(f.tags, vec!["A".to_string(), "B".to_string()]);
    assert_eq!(f.min_level, LogLevel::Debug);
}

#[test]
fn empty_filters_give_empty_edit_string() {
    assert_eq!(FilterState::default().to_edit_string(), "");
}
