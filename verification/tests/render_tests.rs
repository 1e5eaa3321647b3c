use logux::adb::AdbClient;
use logux::logs::filters::FilterState;
use logux::cli::render::{
    build_prompt,
    compute_layout, default_style, highlight_spans, input_layout, parse_ansi_line, parse_sgr,
    render_entry, span, truncate_to_width, wrap_styled_line, wrap_text, Color, StyledSpan, TextStyle,
};
use logux::logs::formatter::{FormatConfig, LayoutMode, Preset};
use logux::logs::parser::{LogEntry, LogLevel};

fn texts(line: &[StyledSpan]) -> Vec<String> {
    line.iter().map(|s| s.text.clone()).collect()
}

fn entry(level: LogLevel, tag: &str, message: &str) -> LogEntry {
    LogEntry {
        timestamp: "04-13 12:34:56.789".to_string(),
        pid: 1234,
        tid: 5678,
        level,
        tag: tag.to_string(),
        message: message.to_string(),
        raw: String::new(),
    }
}

#[test]
fn truncation_uses_an_ellipsis() {
    assert_eq!(truncate_to_width("hello", 10), "hello");
    assert_eq!(truncate_to_width("hello", 5), "hello");
    assert_eq!(truncate_to_width("hello", 4), "hel…");
    assert_eq!(truncate_to_width("hello", 1), "…");
    assert_eq!(truncate_to_width("hello", 0), "");
}

#[test]
fn wrap_breaks_at_whitespace() {
    assert_eq!(wrap_text("hello world foo", 11), vec!["hello", "world foo"]);
    assert_eq!(wrap_text("ab cdefghijkl", 8), vec!["ab cdefg", "hijkl"]);
    assert_eq!(wrap_text("abcdefghij", 4), vec!["abcd", "efgh", "ij"]);
    assert_eq!(wrap_text("short", 20), vec!["short"]);
    assert_eq!(wrap_text("", 20), vec![""]);
    assert_eq!(wrap_text("whole text", 0), vec!["whole text"]);
}

#[test]
fn highlight_marks_every_match_ignoring_case() {
    let spans = highlight_spans("Error and error", "error", default_style());
    assert_eq!(texts(&spans), vec!["Error", " and ", "error"]);
    assert_eq!(spans[0].style.bg, Some(Color::Yellow));
    assert_eq!(spans[1].style, default_style());
    let none = highlight_spans("nothing here", "zzz", default_style());
    assert_eq!(texts(&none), vec!["nothing here"]);
}

#[test]
fn highlight_keeps_the_text() {
    let spans = highlight_spans("a-b-a-b", "b", default_style());
    let joined: String = spans.iter().map(|s| s.text.as_str()).collect();
    assert_eq!(joined, "a-b-a-b");
}

#[test]
fn sgr_codes_set_the_style() {
    let st = parse_sgr("1;31;42");
    assert!(st.bold);
    assert_eq!(st.fg, Some(Color::Red));
    assert_eq!(st.bg, Some(Color::Green));
    assert_eq!(parse_sgr("0"), default_style());
    assert_eq!(parse_sgr(""), default_style());
    assert_eq!(parse_sgr("2;3;4;93").fg, Some(Color::LightYellow));
    assert_eq!(parse_sgr("99"), default_style());
}

#[test]
fn ansi_line_splits_on_colour_codes() {
    let line = parse_ansi_line("\x1b[32mgreen\x1b[0m plain");
    assert_eq!(texts(&line), vec!["green", " plain"]);
    assert_eq!(line[0].style.fg, Some(Color::Green));
    assert_eq!(line[1].style, default_style());
    let empty = parse_ansi_line("");
    assert_eq!(texts(&empty), vec![""]);
    let lone = parse_ansi_line("a\x1bb");
    assert_eq!(texts(&lone), vec!["a", "b"]);
}

#[test]
fn styled_lines_wrap_by_characters() {
    let line = vec![span("abc".to_string(), default_style()), span("defg".to_string(), TextStyle { bold: true, ..default_style() })];
    let rows = wrap_styled_line(line, 3);
    let rows_text: Vec<Vec<String>> = rows.iter().map(|r| texts(r)).collect();
    assert_eq!(rows_text, vec![vec!["abc".to_string()], vec!["def".to_string()], vec!["g".to_string()]]);
    assert!(rows[1][0].style.bold);
    let blank = wrap_styled_line(vec![span(String::new(), default_style())], 5);
    assert_eq!(blank.len(), 1);
}

#[test]
fn input_layout_wraps_and_places_the_cursor() {
    let input: Vec<char> = "abcdef".chars().collect();
    let (rows, r, c) = input_layout(&input, 4, 3, 4);
    assert_eq!(rows, vec!["abc", "def"]);
    assert_eq!((r, c), (1, 1));
    let with_break: Vec<char> = "ab\ncd".chars().collect();
    let (rows, r, c) = input_layout(&with_break, 5, 10, 10);
    assert_eq!(rows, vec!["ab", "cd"]);
    assert_eq!((r, c), (1, 2));
    let full: Vec<char> = "abc".chars().collect();
    let (rows, r, c) = input_layout(&full, 3, 3, 3);
    assert_eq!(rows, vec!["abc", ""]);
    assert_eq!((r, c), (1, 0));
}

#[test]
fn layout_gives_the_message_the_rest() {
    let cfg = FormatConfig::default();
    let l = compute_layout(&cfg, 200);
    assert_eq!(l.prefix_w, l.ts_w + l.level_w + l.pid_w + l.tid_w + l.tag_w);
    assert_eq!(l.msg_w, 200 - l.prefix_w);
    let narrow = compute_layout(&cfg, 10);
    assert_eq!(narrow.msg_w, 10);
}

#[test]
fn json_preset_renders_one_escaped_line() {
    let mut cfg = FormatConfig::default();
    cfg.apply_preset(Preset::Json);
    let l = compute_layout(&cfg, 120);
    let lines = render_entry(&entry(LogLevel::Info, "T\"g", "a\nb"), &l, &cfg, "");
    assert_eq!(lines.len(), 1);
    assert_eq!(
        lines[0][0].text,
        "{\"timestamp\":\"04-13 12:34:56.789\",\"level\":\"I\",\"pid\":1234,\"tid\":5678,\"tag\":\"T\\\"g\",\"message\":\"a\\nb\"}"
    );
}

#[test]
fn linear_layout_has_blank_metadata_and_message_lines() {
    let cfg = FormatConfig::default();
    let l = compute_layout(&cfg, 120);
    let lines = render_entry(&entry(LogLevel::Warn, "Net", "hello"), &l, &cfg, "");
    assert_eq!(lines.len(), 3);
    assert_eq!(texts(&lines[0]), Vec::<String>::new());
    let last = texts(&lines[2]);
    assert_eq!(last, vec!["    ", "hello"]);
}

#[test]
fn compact_layout_is_one_line() {
    let mut cfg = FormatConfig::default();
    cfg.layout_mode = LayoutMode::Compact;
    let l = compute_layout(&cfg, 120);
    let lines = render_entry(&entry(LogLevel::Error, "Tag", "boom"), &l, &cfg, "");
    assert_eq!(lines.len(), 1);
    let joined: String = lines[0].iter().map(|s| s.text.as_str()).collect();
    assert!(joined.ends_with("boom"));
    assert!(joined.contains(" E "));
}

#[test]
fn prompt_shows_device_package_and_state() {
    let mut adb = AdbClient::new("adb".to_string());
    adb.list_devices(Some("List of devices attached\nemu-1 device model:Pixel\n"));
    adb.auto_select(None);
    let mut f = FilterState::default();
    f.set_package("com.x", None);
    assert_eq!(
        build_prompt(&adb, &f, true, false, true),
        "\x1b[1;36mlogux\x1b[0m@Pixel\x1b[33m [com.x]\x1b[0m\x1b[32m (streaming)\x1b[0m\x1b[35m (proxy)\x1b[0m\x1b[1;36m > \x1b[0m"
    );
    let plain = build_prompt(&AdbClient::new("adb".to_string()), &FilterState::default(), false, false, false);
    assert_eq!(plain, "\x1b[1;36mlogux\x1b[0m\x1b[1;36m > \x1b[0m");
}

#[test]
fn tag_colour_is_stable() {
    use_tag_style();
}

fn use_tag_style() {
    let a = logux::cli::render::tag_style_exec("Network");
    let b = logux::cli::render::tag_style_exec("Network");
    assert_eq!(a, b);
    assert!(a.fg.is_some());
    assert!(!a.bold);
}

#[test]
fn wrapped_lines_fit_the_width() {
    let text = "A fairly long message, with several words and ünïcödé letters, that has to wrap";
    for w in [4usize, 7, 10, 23] {
        for l in wrap_text(text, w) {
            assert!(l.len() <= w, "line {l:?} longer than {w}");
        }
    }
}

#[test]
fn ascii_text_wraps_at_small_widths() {
    assert_eq!(wrap_text("abcdef", 2), vec!["ab", "cd", "ef"]);
    assert_eq!(wrap_text("ab cd", 1), vec!["a", "b", "c", "d"]);
    let text = "one two  three\tfour";
    let joined: String = wrap_text(text, 3).concat();
    let strip = |s: &str| s.chars().filter(|c| !c.is_ascii_whitespace()).collect::<String>();
    assert_eq!(strip(&joined), strip(text));
}
