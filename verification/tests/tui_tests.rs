use logux::adb::AdbClient;
use logux::cli::render::default_style;
use logux::cli::tui::{App, KeyCode, KeyInput, KeyOutcome, LogLine};
use logux::logs::parser::{LogEntry, LogLevel};
use logux::mock::MockEngine;

fn app() -> App {
    App::new(AdbClient::new("adb".to_string()), MockEngine::new(), Vec::new())
}

fn entry(level: LogLevel, tag: &str, message: &str) -> LogEntry {
    LogEntry {
        timestamp: "04-13 12:00:00.000".to_string(),
        pid: 10,
        tid: 11,
        level,
        tag: tag.to_string(),
        message: message.to_string(),
        raw: String::new(),
    }
}

fn key(code: KeyCode) -> KeyInput {
    KeyInput { code, ctrl: false, shift: false, alt: false }
}

#[test]
fn typing_and_submitting_a_line() {
    let mut a = app();
    for c in "/level w".chars() {
        assert_eq!(a.handle_key(key(KeyCode::Char(c))), KeyOutcome::Refresh);
    }
    assert_eq!(a.handle_key(key(KeyCode::Enter)), KeyOutcome::Submit);
    assert_eq!(a.take_input(), Some("/level w".to_string()));
    assert!(a.input.is_empty());
    assert_eq!(a.history, vec!["/level w".to_string()]);
}

#[test]
fn backspace_and_cursor_moves_edit_in_place() {
    let mut a = app();
    for c in "abc".chars() {
        a.handle_key(key(KeyCode::Char(c)));
    }
    a.handle_key(key(KeyCode::Left));
    a.handle_key(key(KeyCode::Backspace));
    assert_eq!(a.input.iter().collect::<String>(), "ac");
    assert_eq!(a.cursor_pos, 1);
    a.handle_key(key(KeyCode::Home));
    a.handle_key(key(KeyCode::Char('x')));
    assert_eq!(a.input.iter().collect::<String>(), "xac");
}

#[test]
fn changing_filters_refilters_the_buffer() {
    let mut a = app();
    a.push_entry(entry(LogLevel::Debug, "A", "one"));
    a.push_entry(entry(LogLevel::Error, "B", "two"));
    assert_eq!(a.log_lines.len(), 2);
    a.filters.set_level(LogLevel::Warn);
    a.rebuild_filtered();
    assert_eq!(a.log_lines.len(), 1);
    a.filters.clear_level();
    a.rebuild_filtered();
    assert_eq!(a.log_lines.len(), 2);
    assert_eq!(a.all_lines.len(), 2);
}

#[test]
fn system_lines_always_show() {
    let mut a = app();
    a.filters.set_level(LogLevel::Fatal);
    a.push_system("hello".to_string());
    a.push_entry(entry(LogLevel::Info, "T", "hidden"));
    assert_eq!(a.log_lines.len(), 1);
    assert!(a.entry_passes_filter(&LogLine::System("x".to_string())));
}

#[test]
fn scrolling_is_bounded_by_the_buffer() {
    let mut a = app();
    for i in 0..5 {
        a.push_system(format!("line {i}"));
    }
    a.scroll_up(3);
    assert_eq!(a.scroll_offset, 3);
    assert!(!a.auto_scroll);
    a.scroll_up(100);
    assert_eq!(a.scroll_offset, 4);
    a.scroll_down(100);
    assert_eq!(a.scroll_offset, 0);
}

#[test]
fn visible_rows_pad_the_top() {
    let mut a = app();
    a.push_system("only".to_string());
    let rows = a.visible_rows(3, 40);
    assert_eq!(rows.len(), 3);
    assert_eq!(rows[0][0].text, "");
    assert_eq!(rows[2][0].text, "only");
    assert_eq!(rows[2][0].style, default_style());
}

#[test]
fn status_bar_fills_the_width() {
    let a = app();
    let bar = a.status_bar(false, 40);
    let total: usize = bar.iter().map(|s| s.text.chars().count()).sum();
    assert_eq!(total, 40);
    assert_eq!(bar.last().unwrap().text, " 0 lines ");
}

#[test]
fn input_box_shows_the_prompt() {
    let mut a = app();
    for c in "hi".chars() {
        a.handle_key(key(KeyCode::Char(c)));
    }
    let (rows, cursor) = a.input_box(20, 3);
    assert_eq!(rows.len(), 1);
    assert_eq!(rows[0][0].text, "> ");
    assert_eq!(rows[0][1].text, "hi");
    assert_eq!(cursor, Some((4, 0)));
}

#[test]
fn startup_reports_devices() {
    let mut a = app();
    a.startup_devices(Some("List of devices attached\nemu-1 device model:Pixel\n"));
    assert!(a.adb.has_selection());
    let texts: Vec<String> = a
        .log_lines
        .iter()
        .map(|l| match l {
            LogLine::System(s) => s.clone(),
            LogLine::Entry(_) => String::new(),
        })
        .collect();
    assert_eq!(texts[0], "\x1b[2mDevices: 1 online / 1 total\x1b[0m");
    assert_eq!(texts[1], "\x1b[32mAuto-selected: Pixel [USB] (emu-1)\x1b[0m");
    let mut b = app();
    b.startup_devices(Some("List of devices attached\n"));
    assert!(!b.adb.has_selection());
}

#[test]
fn scrolling_back_pauses_and_forward_resumes() {
    let mut a = app();
    a.streaming = true;
    for i in 0..5 {
        a.push_system(format!("line {i}"));
    }
    a.scroll_up(2);
    assert!(a.paused);
    assert!(!a.auto_scroll);
    a.push_entry(entry(LogLevel::Info, "T", "while paused"));
    assert_eq!(a.log_lines.len(), 5);
    a.scroll_down(10);
    assert!(!a.paused);
    assert!(a.auto_scroll);
    assert_eq!(a.scroll_offset, 0);
    assert_eq!(a.log_lines.len(), 6);
}

#[test]
fn pause_freezes_then_resume_shows() {
    let mut a = app();
    a.push_entry(entry(LogLevel::Info, "T", "before"));
    a.paused = true;
    a.push_entry(entry(LogLevel::Info, "T", "during"));
    assert_eq!(a.log_lines.len(), 1);
    assert_eq!(a.all_lines.len(), 2);
    a.resume();
    assert_eq!(a.log_lines.len(), 2);
}

#[test]
fn device_numbers_read_the_whole_usize_range() {
    let a = app();
    assert_eq!(a.device_choice("2"), Some(2));
    assert_eq!(a.device_choice("4294967296"), Some(4294967296usize));
    assert_eq!(a.device_choice("x"), None);
}

#[test]
fn status_bar_pads_by_display_width() {
    let mut a = app();
    a.filters.package = "日本".to_string();
    let bar = a.status_bar(false, 40);
    // " 日本 " takes 6 columns, the space after it 1, " 0 lines " 9.
    assert_eq!(bar[0].text, " 日本 ");
    let pad = &bar[bar.len() - 2].text;
    assert_eq!(pad.chars().count(), 40 - 6 - 1 - 9);
}
