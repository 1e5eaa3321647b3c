use logux::logs::parser::{parse_logcat_line, LogLevel};

#[test]
fn test_threadtime_format() {
    let line = "04-13 12:34:56.789  1234  5678 D MyTag   : Hello World";
    let entry = parse_logcat_line(line).unwrap();
    assert_eq!(entry.timestamp, "04-13 12:34:56.789");
    assert_eq!(entry.pid, 1234);
    assert_eq!(entry.tid, 5678);
    assert_eq!(entry.level, LogLevel::Debug);
    assert_eq!(entry.tag, "MyTag");
    assert_eq!(entry.message, "Hello World");
}

#[test]
fn test_threadtime_error() {
    let line = "04-13 12:34:56.789  1234  5678 E CrashTag: java.lang.NullPointerException";
    let entry = parse_logcat_line(line).unwrap();
    assert_eq!(entry.level, LogLevel::Error);
    assert!(entry.message.contains("NullPointerException"));
}

#[test]
fn test_brief_format() {
    let line = "D/MyTag( 1234): Some debug message";
    let entry = parse_logcat_line(line).unwrap();
    assert_eq!(entry.level, LogLevel::Debug);
    assert_eq!(entry.tag, "MyTag");
    assert_eq!(entry.pid, 1234);
}

#[test]
fn test_header_skipped() {
    assert!(parse_logcat_line("--------- beginning of main").is_none());
}

#[test]
fn test_empty_line() {
    assert!(parse_logcat_line("").is_none());
}

#[test]
fn test_unparseable() {
    let entry = parse_logcat_line("random text").unwrap();
    assert_eq!(entry.message, "random text");
}

#[test]
fn test_level_roundtrip() {
    for level in [LogLevel::Verbose, LogLevel::Debug, LogLevel::Info, LogLevel::Warn, LogLevel::Error, LogLevel::Fatal] {
        assert_eq!(LogLevel::from_char(level.char()), level);
    }
}

#[test]
fn threadtime_tag_with_spaces_and_colons_in_message() {
    let line = "04-13 12:34:56.789  1234  5678 I Net Stack : GET http://x: done";
    let e = parse_logcat_line(line).unwrap();
    assert_eq!(e.tag, "Net Stack");
    assert_eq!(e.message, "GET http://x: done");
    assert_eq!(e.level, LogLevel::Info);
    assert_eq!(e.raw, line);
}

#[test]
fn threadtime_empty_tag_when_colon_follows_level() {
    let e = parse_logcat_line("04-13 12:34:56.789  1 2 W   : x").unwrap();
    assert_eq!(e.tag, "");
    assert_eq!(e.message, "x");
    assert_eq!(e.pid, 1);
    assert_eq!(e.tid, 2);
}

#[test]
fn threadtime_pid_overflow_reads_as_zero() {
    let e = parse_logcat_line("04-13 12:34:56.789  99999999999  7 V T: m").unwrap();
    assert_eq!(e.pid, 0);
    assert_eq!(e.tid, 7);
    assert_eq!(e.level, LogLevel::Verbose);
}

#[test]
fn trailing_whitespace_is_trimmed() {
    let e = parse_logcat_line("D/Tag(  42): body  \r\n").unwrap();
    assert_eq!(e.message, "body");
    assert_eq!(e.raw, "D/Tag(  42): body");
    assert_eq!(e.pid, 42);
    assert_eq!(e.timestamp, "");
    assert_eq!(e.tid, 0);
}

#[test]
fn whitespace_only_line_is_skipped() {
    assert!(parse_logcat_line("   \t ").is_none());
}

#[test]
fn lowercase_level_letter_is_not_a_threadtime_line() {
    let e = parse_logcat_line("04-13 12:34:56.789  1 2 d T: m").unwrap();
    assert_eq!(e.level, LogLevel::Verbose);
    assert_eq!(e.tag, "");
    assert_eq!(e.message, "04-13 12:34:56.789  1 2 d T: m");
}

#[test]
fn level_names_and_colors() {
    assert_eq!(LogLevel::from_name("WARNING"), Some(LogLevel::Warn));
    assert_eq!(LogLevel::from_name("e"), Some(LogLevel::Error));
    assert_eq!(LogLevel::from_name("loud"), None);
    assert_eq!(LogLevel::from_char('f'), LogLevel::Fatal);
    assert_eq!(LogLevel::from_char('x'), LogLevel::Verbose);
    assert_eq!(LogLevel::Fatal.color_code(), "1;37;41");
    assert_eq!(LogLevel::Info.color_code(), "32");
    assert_eq!(LogLevel::Silent.char(), 'S');
}

#[test]
fn unicode_digits_follow_the_grammar() {
    let line = "٠٤-١٣ ١٢:٣٤:٥٦.٧٨٩  ١٢٣٤  ٥٦٧٨ D MyTag: Hello";
    let entry = parse_logcat_line(line).unwrap();
    assert_eq!(entry.timestamp, "٠٤-١٣ ١٢:٣٤:٥٦.٧٨٩");
    assert_eq!(entry.pid, 0);
    assert_eq!(entry.tid, 0);
    assert_eq!(entry.level, LogLevel::Debug);
    assert_eq!(entry.tag, "MyTag");
    assert_eq!(entry.message, "Hello");
}
