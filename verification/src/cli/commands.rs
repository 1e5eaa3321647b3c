//! The slash commands: what each one changes and the lines it prints.
//!
//! Commands that need an outside service (the device bridge, files, the
//! proxy) are split: the part here decides and reports, the caller runs
//! the service and hands its result back.
use vstd::prelude::*;
use crate::adb::{
    connect_serial, selected_by_serial,
    connection_of, display_name_of, first_online, online_count, parse_device_list, state_text,
    AdbClient, ConnectionType, Device, DeviceView, StateView, device_views,
};
use crate::cli::tui::{pid_lookup, App, AppView};
use crate::config::{apply_preset_data, with_preset_filters, PresetData};
use crate::mock::{has_id as rule_has_id, rule_list_lines, with_enabled};
use crate::traffic::{
    filter_words, first_with_id, has_id, inspect_lines, lists_entries, no_traffic_filter,
    traffic_list_lines, TrafficState, TrafficStateView,
};
use crate::logs::filters::{description_text, empty_filters, lists, FilterView};
use crate::logs::edit::{edit_string, edited};
use crate::logs::formatter::{preset_by_lower_name, preset_name, with_field, with_preset, FormatConfig, Preset};
use crate::logs::parser::{level_by_lower_name, level_letter, LogLevel};
use crate::logs::pattern::{regex_compiles, regex_error_text};
use crate::logs::filters::insensitive;
use crate::text::{
    contains, decimal, find_chars, find_from, join, join_strings, parse_usize_spec, lowercase, pad_right, parse_u32_spec, parse_u32_str, push_char,
    push_decimal, push_padded, push_str, split_words, starts_with, str_eq, str_starts_with,
    string_from, string_of_range, string_views, char_views, to_chars, to_lower, trim, trim_range,
    with_unique, without_all, without_first, words,
};

verus! {

/// Appends one line to the output.
pub fn emit(out: &mut Vec<String>, line: String)
    ensures
        string_views(final(out)@) == string_views(old(out)@).push(line@),
{
    let ghost before = string_views(out@);
    out.push(line);
    assert(string_views(out@) =~= before.push(line@));
}

/// `a + b + c` as a new string.
pub fn concat3(a: &str, b: &str, c: &str) -> (s: String)
    ensures
        s@ == a@ + b@ + c@,
{
    let mut s = string_from(a);
    push_str(&mut s, b);
    push_str(&mut s, c);
    s
}

/// The first word of a command line and the rest after it, trimmed (the
/// rest is empty when there is no whitespace).
pub open spec fn split_command(line: Seq<char>) -> (Seq<char>, Seq<char>) {
    let w = crate::cli::completer::first_ws(line);
    if w >= line.len() {
        (line, Seq::empty())
    } else {
        (line.subrange(0, w), trim(line.subrange(w + 1, line.len() as int)))
    }
}

/// Splits `line` into its first word and the trimmed rest.
pub fn split_first(line: &str) -> (r: (String, String))
    ensures
        (r.0@, r.1@) == split_command(line@),
{
    let v = to_chars(line);
    let mut w: usize = 0;
    assert(v@.subrange(0, v@.len() as int) =~= v@);
    while w < v.len() && !crate::text::is_whitespace_char(v[w])
        invariant
            w <= v@.len(),
            v@ == line@,
            crate::cli::completer::first_ws(v@) == w + crate::cli::completer::first_ws(
                v@.subrange(w as int, v@.len() as int),
            ),
        decreases v@.len() - w,
    {
        assert(v@.subrange(w as int, v@.len() as int).drop_first() =~= v@.subrange(
            w + 1,
            v@.len() as int,
        ));
        w = w + 1;
    }
    proof {
        if w < v@.len() {
            assert(v@.subrange(w as int, v@.len() as int)[0] == v@[w as int]);
        }
    }
    if w >= v.len() {
        assert(v@.subrange(0, v@.len() as int) =~= v@);
        return (string_from(line), String::new());
    }
    let first = string_of_range(&v, 0, w);
    let (a, b) = trim_range(&v, w + 1, v.len());
    let rest = string_of_range(&v, a, b);
    (first, rest)
}

// ---------------------------------------------------------------------------
// /help
// ---------------------------------------------------------------------------

/// Number of rows in the help table.
pub const HELP_ROWS: usize = 57;

/// The help table: command and description; an empty row is a blank line,
/// a row starting with `---` a section title.
pub open spec fn help_entry(i: int) -> (Seq<char>, Seq<char>) {
    if i == 0 {
        ("/help"@, "Show this help"@)
    } else if i == 1 {
        ("/exit"@, "Exit logux"@)
    } else if i == 2 {
        ("/clear"@, "Clear screen"@)
    } else if i == 3 {
        (""@, ""@)
    } else if i == 4 {
        ("--- ADB ---"@, ""@)
    } else if i == 5 {
        ("/devices"@, "List connected devices"@)
    } else if i == 6 {
        ("/connect <ip:port>"@, "Connect to TCP device"@)
    } else if i == 7 {
        ("/disconnect"@, "Disconnect current device"@)
    } else if i == 8 {
        (""@, ""@)
    } else if i == 9 {
        ("--- Logs ---"@, ""@)
    } else if i == 10 {
        ("/app <package>"@, "Filter by app (smart PID tracking)"@)
    } else if i == 11 {
        ("/pid <pid>"@, "Filter by PID"@)
    } else if i == 12 {
        ("/tag <tag>"@, "Add tag filter (-tag remove, reset clear)"@)
    } else if i == 13 {
        ("/level <V|D|I|W|E|F>"@, "Min log level (reset to clear)"@)
    } else if i == 14 {
        ("/grep <text>"@, "Filter by text in tag+message (reset to clear)"@)
    } else if i == 15 {
        ("/msg <text>"@, "Filter by text in message only (-text remove, reset clear)"@)
    } else if i == 16 {
        ("/regex <pattern>"@, "Filter by regex (reset to clear)"@)
    } else if i == 17 {
        ("/filter reset|show|<preset>"@, "Clear, show, or load preset"@)
    } else if i == 18 {
        ("/exclude tag|msg <value>"@, "Exclude by tag/message"@)
    } else if i == 19 {
        ("/exclude show|reset|remove"@, "Manage exclusions"@)
    } else if i == 20 {
        (""@, ""@)
    } else if i == 21 {
        ("--- Format ---"@, ""@)
    } else if i == 22 {
        ("/format <preset>"@, "compact|threadtime|verbose|minimal|json"@)
    } else if i == 23 {
        ("/fields +field -field"@, "Toggle: timestamp,level,tag,pid,tid"@)
    } else if i == 24 {
        (""@, ""@)
    } else if i == 25 {
        ("--- Control ---"@, ""@)
    } else if i == 26 {
        ("/stop"@, "Stop log stream completely"@)
    } else if i == 27 {
        ("/pause"@, "Toggle pause (logs captured but hidden)"@)
    } else if i == 28 {
        ("/resume"@, "Resume after pause"@)
    } else if i == 29 {
        ("/save <file>"@, "Save matching logs to file"@)
    } else if i == 30 {
        (""@, ""@)
    } else if i == 31 {
        ("--- Presets ---"@, ""@)
    } else if i == 32 {
        ("/preset save <name>"@, "Save current config"@)
    } else if i == 33 {
        ("/preset load <name>"@, "Load saved config"@)
    } else if i == 34 {
        ("/preset list"@, "List saved presets"@)
    } else if i == 35 {
        ("/preset delete <name>"@, "Delete a preset"@)
    } else if i == 36 {
        (""@, ""@)
    } else if i == 37 {
        ("--- Traffic ---"@, ""@)
    } else if i == 38 {
        ("/traffic open"@, "Start proxy"@)
    } else if i == 39 {
        ("/traffic close"@, "Stop proxy"@)
    } else if i == 40 {
        ("/traffic list"@, "Show requests"@)
    } else if i == 41 {
        ("/traffic inspect <id>"@, "Inspect request/response"@)
    } else if i == 42 {
        ("/traffic filter <expr>"@, "Filter: host=,path=,method=,status="@)
    } else if i == 43 {
        ("/traffic clear"@, "Clear captured traffic"@)
    } else if i == 44 {
        (""@, ""@)
    } else if i == 45 {
        ("--- Mock ---"@, ""@)
    } else if i == 46 {
        ("/mock load <file.yaml>"@, "Load mock rules"@)
    } else if i == 47 {
        ("/mock list"@, "List rules"@)
    } else if i == 48 {
        ("/mock enable <id>"@, "Enable a rule"@)
    } else if i == 49 {
        ("/mock disable <id>"@, "Disable a rule"@)
    } else if i == 50 {
        ("/mock reload"@, "Reload rules from file"@)
    } else if i == 51 {
        (""@, ""@)
    } else if i == 52 {
        ("--- Keys ---"@, ""@)
    } else if i == 53 {
        ("PageUp / PageDown"@, "Scroll logs"@)
    } else if i == 54 {
        ("Tab"@, "Auto-complete"@)
    } else if i == 55 {
        ("Ctrl+C"@, "Exit"@)
    } else if i == 56 {
        ("Ctrl+L"@, "Clear log"@)
    } else {
        (Seq::empty(), Seq::empty())
    }
}

fn help_entry_at(i: usize) -> (r: (&'static str, &'static str))
    requires
        i < 57,
    ensures
        (r.0@, r.1@) == help_entry(i as int),
{
    match i {
        0 => ("/help", "Show this help"),
        1 => ("/exit", "Exit logux"),
        2 => ("/clear", "Clear screen"),
        3 => ("", ""),
        4 => ("--- ADB ---", ""),
        5 => ("/devices", "List connected devices"),
        6 => ("/connect <ip:port>", "Connect to TCP device"),
        7 => ("/disconnect", "Disconnect current device"),
        8 => ("", ""),
        9 => ("--- Logs ---", ""),
        10 => ("/app <package>", "Filter by app (smart PID tracking)"),
        11 => ("/pid <pid>", "Filter by PID"),
        12 => ("/tag <tag>", "Add tag filter (-tag remove, reset clear)"),
        13 => ("/level <V|D|I|W|E|F>", "Min log level (reset to clear)"),
        14 => ("/grep <text>", "Filter by text in tag+message (reset to clear)"),
        15 => ("/msg <text>", "Filter by text in message only (-text remove, reset clear)"),
        16 => ("/regex <pattern>", "Filter by regex (reset to clear)"),
        17 => ("/filter reset|show|<preset>", "Clear, show, or load preset"),
        18 => ("/exclude tag|msg <value>", "Exclude by tag/message"),
        19 => ("/exclude show|reset|remove", "Manage exclusions"),
        20 => ("", ""),
        21 => ("--- Format ---", ""),
        22 => ("/format <preset>", "compact|threadtime|verbose|minimal|json"),
        23 => ("/fields +field -field", "Toggle: timestamp,level,tag,pid,tid"),
        24 => ("", ""),
        25 => ("--- Control ---", ""),
        26 => ("/stop", "Stop log stream completely"),
        27 => ("/pause", "Toggle pause (logs captured but hidden)"),
        28 => ("/resume", "Resume after pause"),
        29 => ("/save <file>", "Save matching logs to file"),
        30 => ("", ""),
        31 => ("--- Presets ---", ""),
        32 => ("/preset save <name>", "Save current config"),
        33 => ("/preset load <name>", "Load saved config"),
        34 => ("/preset list", "List saved presets"),
        35 => ("/preset delete <name>", "Delete a preset"),
        36 => ("", ""),
        37 => ("--- Traffic ---", ""),
        38 => ("/traffic open", "Start proxy"),
        39 => ("/traffic close", "Stop proxy"),
        40 => ("/traffic list", "Show requests"),
        41 => ("/traffic inspect <id>", "Inspect request/response"),
        42 => ("/traffic filter <expr>", "Filter: host=,path=,method=,status="),
        43 => ("/traffic clear", "Clear captured traffic"),
        44 => ("", ""),
        45 => ("--- Mock ---", ""),
        46 => ("/mock load <file.yaml>", "Load mock rules"),
        47 => ("/mock list", "List rules"),
        48 => ("/mock enable <id>", "Enable a rule"),
        49 => ("/mock disable <id>", "Disable a rule"),
        50 => ("/mock reload", "Reload rules from file"),
        51 => ("", ""),
        52 => ("--- Keys ---", ""),
        53 => ("PageUp / PageDown", "Scroll logs"),
        54 => ("Tab", "Auto-complete"),
        55 => ("Ctrl+C", "Exit"),
        56 => ("Ctrl+L", "Clear log"),
        _ => ("Ctrl+L", "Clear log"),
    }
}

/// How a help row is printed.
pub open spec fn help_line(e: (Seq<char>, Seq<char>)) -> Seq<char> {
    if e.0.len() == 0 {
        Seq::empty()
    } else if starts_with(e.0, "---"@) {
        "\x1b[1m"@ + e.0 + "\x1b[0m"@
    } else {
        "  \x1b[32m"@ + pad_right(e.0, 28) + "\x1b[0m "@ + e.1
    }
}

/// The rule under the help header: 60 box-drawing dashes.
pub open spec fn help_rule() -> Seq<char> {
    Seq::new(60, |i: int| '─')
}

/// The lines of `/help`.
pub open spec fn help_lines() -> Seq<Seq<char>> {
    seq!["\x1b[1;36m"@ + pad_right("Command"@, 30) + " Description\x1b[0m"@, help_rule()]
        + Seq::new(HELP_ROWS as nat, |i: int| help_line(help_entry(i)))
}

/// `/help`.
pub fn cmd_help(out: &mut Vec<String>)
    ensures
        string_views(final(out)@) == string_views(old(out)@) + help_lines(),
{
    let ghost base = string_views(out@);
    let mut h = string_from("\x1b[1;36m");
    push_padded(&mut h, "Command", 30);
    push_str(&mut h, " Description\x1b[0m");
    emit(out, h);
    let mut rule = String::new();
    let mut k: usize = 0;
    while k < 60
        invariant
            k <= 60,
            rule@ == Seq::new(k as nat, |i: int| '─'),
        decreases 60 - k,
    {
        push_char(&mut rule, '─');
        assert(rule@ =~= Seq::new((k + 1) as nat, |i: int| '─'));
        k = k + 1;
    }
    emit(out, rule);
    let ghost head = seq![
        "\x1b[1;36m"@ + pad_right("Command"@, 30) + " Description\x1b[0m"@,
        help_rule(),
    ];
    assert(string_views(out@) =~= base + head);
    let mut i: usize = 0;
    while i < HELP_ROWS
        invariant
            i <= HELP_ROWS,
            string_views(out@) == base + head + Seq::new(i as nat, |j: int| help_line(help_entry(j))),
        decreases HELP_ROWS - i,
    {
        let (c, d) = help_entry_at(i);
        let line = if c.unicode_len() == 0 {
            String::new()
        } else if str_starts_with(c, "---") {
            concat3("\x1b[1m", c, "\x1b[0m")
        } else {
            let mut l = string_from("  \x1b[32m");
            push_padded(&mut l, c, 28);
            push_str(&mut l, "\x1b[0m ");
            push_str(&mut l, d);
            l
        };
        assert(line@ == help_line(help_entry(i as int)));
        emit(out, line);
        assert(Seq::new((i + 1) as nat, |j: int| help_line(help_entry(j))) =~= Seq::new(
            i as nat,
            |j: int| help_line(help_entry(j)),
        ).push(help_line(help_entry(i as int))));
        i = i + 1;
    }
}

// ---------------------------------------------------------------------------
// Filter commands
// ---------------------------------------------------------------------------

/// `args` without a leading `-`, if it has one.
pub open spec fn minus_rest(args: Seq<char>) -> Option<Seq<char>> {
    if args.len() > 0 && args[0] == '-' {
        Some(args.subrange(1, args.len() as int))
    } else {
        None
    }
}

fn minus_rest_exec(args: &str) -> (r: Option<String>)
    ensures
        match r {
            Some(t) => minus_rest(args@) == Some(t@),
            None => minus_rest(args@) is None,
        },
{
    let v = to_chars(args);
    if v.len() > 0 && v[0] == '-' {
        Some(string_of_range(&v, 1, v.len()))
    } else {
        None
    }
}

/// `/tag ARGS`: list, reset, remove (`-TAG`) or add a tag filter.
pub open spec fn tag_step(v: AppView, args: Seq<char>) -> (AppView, Seq<Seq<char>>) {
    if args.len() == 0 {
        (
            v,
            seq![
                if v.filters.tags.len() == 0 {
                    "\x1b[2mNo tag filters\x1b[0m"@
                } else {
                    "\x1b[36mTag filters: "@ + join(v.filters.tags, ", "@) + "\x1b[0m"@
                },
                "\x1b[2mUsage: /tag <name> to add, /tag -<name> to remove, /tag reset to clear\x1b[0m"@,
            ],
        )
    } else if args == "reset"@ {
        (
            AppView { filters: FilterView { tags: Seq::empty(), ..v.filters }, streaming: true, ..v },
            seq!["\x1b[32mTag filters cleared\x1b[0m"@],
        )
    } else {
        match minus_rest(args) {
            Some(t) => (
                AppView {
                    filters: FilterView {
                        tags: without_all(v.filters.tags, t),
                        ..v.filters
                    },
                    streaming: true,
                    ..v
                },
                seq!["\x1b[33mRemoved tag filter: '"@ + t + "'\x1b[0m"@],
            ),
            None => (
                AppView {
                    filters: FilterView { tags: with_unique(v.filters.tags, args), ..v.filters },
                    streaming: true,
                    ..v
                },
                seq!["\x1b[32mFilter: added tag '"@ + args + "'\x1b[0m"@],
            ),
        }
    }
}

/// `/level ARGS`: clear or set the lowest level shown.
pub open spec fn level_step(v: AppView, args: Seq<char>) -> (AppView, Seq<Seq<char>>) {
    if args.len() == 0 || args == "reset"@ {
        (
            AppView { filters: FilterView { min_level: LogLevel::Verbose, ..v.filters }, ..v },
            seq!["\x1b[32mLevel filter cleared (showing all levels)\x1b[0m"@],
        )
    } else {
        match level_by_lower_name(lowercase(args)) {
            Some(l) => (
                AppView { filters: FilterView { min_level: l, ..v.filters }, ..v },
                seq!["\x1b[32mFilter: level >= "@.push(level_letter(l)) + "\x1b[0m"@],
            ),
            None => (
                v,
                seq![
                    "\x1b[31mUnknown level: "@ + args
                        + ". Use V, D, I, W, E, or F (or 'reset')\x1b[0m"@,
                ],
            ),
        }
    }
}

/// `/grep ARGS`: clear or set the text filter, which is also highlighted.
pub open spec fn grep_step(v: AppView, args: Seq<char>) -> (AppView, Seq<Seq<char>>) {
    if args.len() == 0 || args == "reset"@ {
        (
            AppView {
                filters: FilterView { text: Seq::empty(), ..v.filters },
                highlight: Seq::empty(),
                ..v
            },
            seq!["\x1b[32mText filter cleared\x1b[0m"@],
        )
    } else {
        (
            AppView { filters: FilterView { text: args, ..v.filters }, highlight: args, ..v },
            seq!["\x1b[32mFilter: text contains '"@ + args + "'\x1b[0m"@],
        )
    }
}

/// `/msg ARGS`: list, reset, remove (`-TEXT`) or add a message filter.
pub open spec fn msg_step(v: AppView, args: Seq<char>) -> (AppView, Seq<Seq<char>>) {
    if args.len() == 0 {
        (
            v,
            seq![
                if v.filters.messages.len() == 0 {
                    "\x1b[2mNo message filters\x1b[0m"@
                } else {
                    "\x1b[36mMessage filters: "@ + join(v.filters.messages, ", "@) + "\x1b[0m"@
                },
                "\x1b[2mUsage: /msg <text> to add, /msg -<text> to remove, /msg reset to clear\x1b[0m"@,
            ],
        )
    } else if args == "reset"@ {
        (
            AppView { filters: FilterView { messages: Seq::empty(), ..v.filters }, ..v },
            seq!["\x1b[32mMessage filters cleared\x1b[0m"@],
        )
    } else {
        match minus_rest(args) {
            Some(t) => (
                AppView {
                    filters: FilterView {
                        messages: without_all(v.filters.messages, t),
                        ..v.filters
                    },
                    ..v
                },
                seq!["\x1b[32mRemoved message filter: "@ + t + "\x1b[0m"@],
            ),
            None => (
                AppView {
                    filters: FilterView { messages: with_unique(v.filters.messages, args), ..v.filters },
                    ..v
                },
                seq!["\x1b[32mFilter: message contains '"@ + args + "'\x1b[0m"@],
            ),
        }
    }
}

/// `/pid ARGS`: show only that process.
pub open spec fn pid_step(v: AppView, args: Seq<char>) -> (AppView, Seq<Seq<char>>) {
    match parse_u32_spec(args) {
        Some(p) => (
            AppView {
                filters: FilterView { pids: set![p], package_tracking: false, ..v.filters },
                streaming: true,
                ..v
            },
            seq!["\x1b[32mFilter: PID = "@ + decimal(p as nat) + "\x1b[0m"@],
        ),
        None => (v, seq!["\x1b[31mUsage: /pid <number>\x1b[0m"@]),
    }
}

/// `/format ARGS`: show or switch the output preset.
pub open spec fn format_step(v: AppView, args: Seq<char>) -> (AppView, Seq<Seq<char>>) {
    if args.len() == 0 {
        (
            v,
            seq![
                "\x1b[36mCurrent: "@ + preset_name(v.format.preset) + "\x1b[0m"@,
                "\x1b[2mAvailable: compact, threadtime, verbose, minimal, json\x1b[0m"@,
            ],
        )
    } else {
        match preset_by_lower_name(lowercase(args)) {
            Some(p) => (
                AppView { format: with_preset(v.format, p), ..v },
                seq!["\x1b[32mFormat: "@ + preset_name(p) + "\x1b[0m"@],
            ),
            None => (v, seq!["\x1b[31mUnknown preset: "@ + args + "\x1b[0m"@]),
        }
    }
}

/// `/stop`.
pub open spec fn stop_step(v: AppView) -> (AppView, Seq<Seq<char>>) {
    (
        AppView { streaming: false, paused: false, ..v },
        seq!["\x1b[33mStopped — log stream ended. Use /app or /pid to restart.\x1b[0m"@],
    )
}

/// `/pause`: toggles the pause.
pub open spec fn pause_step(v: AppView) -> (AppView, Seq<Seq<char>>) {
    if v.paused {
        (AppView { paused: false, ..v }, seq!["\x1b[32mResumed\x1b[0m"@])
    } else {
        (AppView { paused: true, ..v }, seq!["\x1b[33mPaused — /pause again to resume\x1b[0m"@])
    }
}

/// `/resume`.
pub open spec fn resume_step(v: AppView) -> (AppView, Seq<Seq<char>>) {
    (AppView { paused: false, ..v }, seq!["\x1b[32mResumed\x1b[0m"@])
}

/// One `+field` / `-field` word of `/fields`: the configuration and the
/// line printed.
pub open spec fn field_step(c: FormatConfig, t: Seq<char>) -> (FormatConfig, Seq<char>) {
    if t.len() < 2 {
        (c, "\x1b[31mInvalid: "@ + t + "\x1b[0m"@)
    } else {
        let name = t.subrange(1, t.len() as int);
        let on = t[0] == '+';
        match with_field(c, name, on) {
            Some(c2) => (
                c2,
                "\x1b[32m"@ + name + ": "@ + (if on {
                    "on"@
                } else {
                    "off"@
                }) + "\x1b[0m"@,
            ),
            None => (c, "\x1b[31mUnknown field: "@ + name + "\x1b[0m"@),
        }
    }
}

/// The words of `/fields` applied in order.
pub open spec fn fields_fold(c: FormatConfig, toks: Seq<Seq<char>>, n: int) -> (FormatConfig, Seq<Seq<char>>)
    decreases n,
{
    if n <= 0 {
        (c, Seq::empty())
    } else {
        let (c1, l1) = fields_fold(c, toks, n - 1);
        let (c2, line) = field_step(c1, toks[n - 1]);
        (c2, l1.push(line))
    }
}

/// `+name` in green or `-name` in red, then a space.
pub open spec fn field_flag(name: Seq<char>, on: bool) -> Seq<char> {
    if on {
        "\x1b[32m+"@ + name + "\x1b[0m "@
    } else {
        "\x1b[31m-"@ + name + "\x1b[0m "@
    }
}

/// `/fields` without words: which fields are shown.
pub open spec fn fields_summary(c: FormatConfig) -> Seq<char> {
    "Fields: "@ + field_flag("timestamp"@, c.timestamp) + field_flag("level"@, c.level) + field_flag(
        "tag"@,
        c.tag,
    ) + field_flag("pid"@, c.pid) + field_flag("tid"@, c.tid) + field_flag("message"@, c.message)
}

/// Whether a `/fields` word can be read: its first character is ASCII.
pub open spec fn field_word_ok(t: Seq<char>) -> bool {
    t.len() > 0 ==> (t[0] as u32) < 128
}

/// `/fields ARGS`.
pub open spec fn fields_step(v: AppView, args: Seq<char>) -> (AppView, Seq<Seq<char>>) {
    if args.len() == 0 {
        (v, seq![fields_summary(v.format)])
    } else {
        let (c, lines) = fields_fold(v.format, words(args), words(args).len() as int);
        (AppView { format: c, ..v }, lines)
    }
}

impl App {
    /// `/tag ARGS`.
    pub fn cmd_tag(&mut self, args: &str, out: &mut Vec<String>)
        ensures
            final(self)@ == tag_step(old(self)@, args@).0,
            string_views(final(out)@) == string_views(old(out)@) + tag_step(old(self)@, args@).1,
    {
        let ghost o = string_views(out@);
        if args.unicode_len() == 0 {
            let first = if self.filters.tags.len() == 0 {
                string_from("\x1b[2mNo tag filters\x1b[0m")
            } else {
                let j = join_strings(&self.filters.tags, ", ");
                concat3("\x1b[36mTag filters: ", j.as_str(), "\x1b[0m")
            };
            emit(out, first);
            emit(
                out,
                string_from(
                    "\x1b[2mUsage: /tag <name> to add, /tag -<name> to remove, /tag reset to clear\x1b[0m",
                ),
            );
            assert(string_views(out@) =~= o + tag_step(old(self)@, args@).1);
            return;
        }
        if str_eq(args, "reset") {
            self.filters.clear_tags();
            emit(out, string_from("\x1b[32mTag filters cleared\x1b[0m"));
        } else {
            match minus_rest_exec(args) {
                Some(t) => {
                    self.filters.remove_tag(t.as_str());
                    emit(out, concat3("\x1b[33mRemoved tag filter: '", t.as_str(), "'\x1b[0m"));
                },
                None => {
                    self.filters.add_tag(args);
                    emit(out, concat3("\x1b[32mFilter: added tag '", args, "'\x1b[0m"));
                },
            }
        }
        self.streaming = true;
        assert(string_views(out@) =~= o + tag_step(old(self)@, args@).1);
    }

    /// `/level ARGS`.
    pub fn cmd_level(&mut self, args: &str, out: &mut Vec<String>)
        ensures
            final(self)@ == level_step(old(self)@, args@).0,
            string_views(final(out)@) == string_views(old(out)@) + level_step(old(self)@, args@).1,
    {
        let ghost o = string_views(out@);
        if args.unicode_len() == 0 || str_eq(args, "reset") {
            self.filters.clear_level();
            emit(out, string_from("\x1b[32mLevel filter cleared (showing all levels)\x1b[0m"));
        } else {
            match LogLevel::from_name(args) {
                Some(l) => {
                    self.filters.set_level(l);
                    let mut m = string_from("\x1b[32mFilter: level >= ");
                    push_char(&mut m, l.char());
                    push_str(&mut m, "\x1b[0m");
                    emit(out, m);
                },
                None => {
                    emit(
                        out,
                        concat3(
                            "\x1b[31mUnknown level: ",
                            args,
                            ". Use V, D, I, W, E, or F (or 'reset')\x1b[0m",
                        ),
                    );
                },
            }
        }
        assert(string_views(out@) =~= o + level_step(old(self)@, args@).1);
    }

    /// `/grep ARGS`.
    pub fn cmd_grep(&mut self, args: &str, out: &mut Vec<String>)
        ensures
            final(self)@ == grep_step(old(self)@, args@).0,
            string_views(final(out)@) == string_views(old(out)@) + grep_step(old(self)@, args@).1,
    {
        let ghost o = string_views(out@);
        if args.unicode_len() == 0 || str_eq(args, "reset") {
            self.filters.clear_text();
            self.formatter.highlight_text = String::new();
            emit(out, string_from("\x1b[32mText filter cleared\x1b[0m"));
        } else {
            self.filters.set_text(args);
            self.formatter.highlight_text = string_from(args);
            emit(out, concat3("\x1b[32mFilter: text contains '", args, "'\x1b[0m"));
        }
        assert(string_views(out@) =~= o + grep_step(old(self)@, args@).1);
    }

    /// `/msg ARGS`.
    pub fn cmd_msg(&mut self, args: &str, out: &mut Vec<String>)
        ensures
            final(self)@ == msg_step(old(self)@, args@).0,
            string_views(final(out)@) == string_views(old(out)@) + msg_step(old(self)@, args@).1,
    {
        let ghost o = string_views(out@);
        if args.unicode_len() == 0 {
            let first = if self.filters.messages.len() == 0 {
                string_from("\x1b[2mNo message filters\x1b[0m")
            } else {
                let j = join_strings(&self.filters.messages, ", ");
                concat3("\x1b[36mMessage filters: ", j.as_str(), "\x1b[0m")
            };
            emit(out, first);
            emit(
                out,
                string_from(
                    "\x1b[2mUsage: /msg <text> to add, /msg -<text> to remove, /msg reset to clear\x1b[0m",
                ),
            );
            assert(string_views(out@) =~= o + msg_step(old(self)@, args@).1);
            return;
        }
        if str_eq(args, "reset") {
            self.filters.clear_messages();
            emit(out, string_from("\x1b[32mMessage filters cleared\x1b[0m"));
        } else {
            match minus_rest_exec(args) {
                Some(t) => {
                    self.filters.remove_message(t.as_str());
                    emit(out, concat3("\x1b[32mRemoved message filter: ", t.as_str(), "\x1b[0m"));
                },
                None => {
                    self.filters.add_message(args);
                    emit(out, concat3("\x1b[32mFilter: message contains '", args, "'\x1b[0m"));
                },
            }
        }
        assert(string_views(out@) =~= o + msg_step(old(self)@, args@).1);
    }

    /// `/pid ARGS`.
    pub fn cmd_pid(&mut self, args: &str, out: &mut Vec<String>)
        ensures
            final(self)@ == pid_step(old(self)@, args@).0,
            string_views(final(out)@) == string_views(old(out)@) + pid_step(old(self)@, args@).1,
    {
        let ghost o = string_views(out@);
        match parse_u32_str(args) {
            Some(p) => {
                self.filters.set_pid(p);
                let mut m = string_from("\x1b[32mFilter: PID = ");
                push_decimal(&mut m, p as u64);
                push_str(&mut m, "\x1b[0m");
                emit(out, m);
                self.streaming = true;
            },
            None => {
                emit(out, string_from("\x1b[31mUsage: /pid <number>\x1b[0m"));
            },
        }
        assert(string_views(out@) =~= o + pid_step(old(self)@, args@).1);
    }

    /// `/format ARGS`.
    pub fn cmd_format(&mut self, args: &str, out: &mut Vec<String>)
        ensures
            final(self)@ == format_step(old(self)@, args@).0,
            string_views(final(out)@) == string_views(old(out)@) + format_step(old(self)@, args@).1,
    {
        let ghost o = string_views(out@);
        if args.unicode_len() == 0 {
            emit(out, concat3("\x1b[36mCurrent: ", self.formatter.config.preset.as_str(), "\x1b[0m"));
            emit(out, string_from("\x1b[2mAvailable: compact, threadtime, verbose, minimal, json\x1b[0m"));
        } else {
            match Preset::from_name(args) {
                Some(p) => {
                    self.formatter.config.apply_preset(p);
                    emit(out, concat3("\x1b[32mFormat: ", p.as_str(), "\x1b[0m"));
                },
                None => {
                    emit(out, concat3("\x1b[31mUnknown preset: ", args, "\x1b[0m"));
                },
            }
        }
        assert(string_views(out@) =~= o + format_step(old(self)@, args@).1);
    }

    /// `/stop`.
    pub fn cmd_stop(&mut self, out: &mut Vec<String>)
        ensures
            final(self)@ == stop_step(old(self)@).0,
            string_views(final(out)@) == string_views(old(out)@) + stop_step(old(self)@).1,
    {
        self.streaming = false;
        self.paused = false;
        let ghost o = string_views(out@);
        emit(out, string_from("\x1b[33mStopped — log stream ended. Use /app or /pid to restart.\x1b[0m"));
        assert(string_views(out@) =~= o + stop_step(old(self)@).1);
    }

    /// `/pause`.
    pub fn cmd_pause(&mut self, out: &mut Vec<String>)
        ensures
            final(self)@ == pause_step(old(self)@).0,
            string_views(final(out)@) == string_views(old(out)@) + pause_step(old(self)@).1,
    {
        let ghost o = string_views(out@);
        if self.paused {
            self.paused = false;
            emit(out, string_from("\x1b[32mResumed\x1b[0m"));
        } else {
            self.paused = true;
            emit(out, string_from("\x1b[33mPaused — /pause again to resume\x1b[0m"));
        }
        assert(string_views(out@) =~= o + pause_step(old(self)@).1);
    }

    /// `/resume`.
    pub fn cmd_resume(&mut self, out: &mut Vec<String>)
        ensures
            final(self)@ == resume_step(old(self)@).0,
            string_views(final(out)@) == string_views(old(out)@) + resume_step(old(self)@).1,
    {
        self.paused = false;
        let ghost o = string_views(out@);
        emit(out, string_from("\x1b[32mResumed\x1b[0m"));
        assert(string_views(out@) =~= o + resume_step(old(self)@).1);
    }

    /// `/fields ARGS`. A word whose first character is not ASCII cannot be
    /// read (the byte after it is no character boundary).
    pub fn cmd_fields(&mut self, args: &str, out: &mut Vec<String>)
        requires
            forall|i: int| 0 <= i < words(args@).len() ==> field_word_ok(#[trigger] words(args@)[i]),
        ensures
            final(self)@ == fields_step(old(self)@, args@).0,
            string_views(final(out)@) == string_views(old(out)@) + fields_step(old(self)@, args@).1,
    {
        let ghost o = string_views(out@);
        if args.unicode_len() == 0 {
            let c = self.formatter.config;
            let mut line = string_from("Fields: ");
            push_flag(&mut line, "timestamp", c.timestamp);
            push_flag(&mut line, "level", c.level);
            push_flag(&mut line, "tag", c.tag);
            push_flag(&mut line, "pid", c.pid);
            push_flag(&mut line, "tid", c.tid);
            push_flag(&mut line, "message", c.message);
            emit(out, line);
            assert(string_views(out@) =~= o + fields_step(old(self)@, args@).1);
            return;
        }
        let cs = to_chars(args);
        let toks = split_words(&cs);
        let ghost tv = char_views(toks@);
        let mut i: usize = 0;
        while i < toks.len()
            invariant
                i <= toks@.len(),
                tv == char_views(toks@),
                tv == words(args@),
                self@ == (AppView { format: fields_fold(old(self)@.format, tv, i as int).0, ..old(self)@ }),
                string_views(out@) == o + fields_fold(old(self)@.format, tv, i as int).1,
            decreases toks@.len() - i,
        {
            let t = &toks[i];
            assert(tv[i as int] == t@);
            if t.len() < 2 {
                let ts = crate::text::from_chars(t.as_slice());
                emit(out, concat3("\x1b[31mInvalid: ", ts.as_str(), "\x1b[0m"));
            } else {
                let on = t[0] == '+';
                let name = string_of_range(t, 1, t.len());
                if self.formatter.config.toggle_field(name.as_str(), on) {
                    let mut m = string_from("\x1b[32m");
                    push_str(&mut m, name.as_str());
                    push_str(&mut m, ": ");
                    push_str(&mut m, if on { "on" } else { "off" });
                    push_str(&mut m, "\x1b[0m");
                    emit(out, m);
                } else {
                    emit(out, concat3("\x1b[31mUnknown field: ", name.as_str(), "\x1b[0m"));
                }
            }
            i = i + 1;
        }
    }
}

fn push_flag(s: &mut String, name: &str, on: bool)
    ensures
        final(s)@ == old(s)@ + field_flag(name@, on),
{
    if on {
        push_str(s, "\x1b[32m+");
    } else {
        push_str(s, "\x1b[31m-");
    }
    push_str(s, name);
    push_str(s, "\x1b[0m ");
    assert(final(s)@ =~= old(s)@ + field_flag(name@, on));
}

// ---------------------------------------------------------------------------
// /regex, /exclude, /filter
// ---------------------------------------------------------------------------

/// `/regex ARGS` when the pattern compiles, or to clear the filter.
pub open spec fn regex_step(v: AppView, args: Seq<char>) -> (AppView, Seq<Seq<char>>) {
    if args.len() == 0 || args == "reset"@ {
        (
            AppView { filters: FilterView { regex: None, ..v.filters }, ..v },
            seq!["\x1b[32mRegex filter cleared\x1b[0m"@],
        )
    } else if !regex_compiles(insensitive(args)) {
        (v, seq!["\x1b[31mInvalid regex: "@ + regex_error_text(insensitive(args)) + "\x1b[0m"@])
    } else {
        (
            AppView { filters: FilterView { regex: Some(insensitive(args)), ..v.filters }, ..v },
            seq!["\x1b[32mFilter: regex '"@ + args + "'\x1b[0m"@],
        )
    }
}

/// The usage lines of `/exclude`.
pub open spec fn exclude_usage() -> Seq<Seq<char>> {
    seq![
        "\x1b[31mUsage: /exclude tag|msg|show|reset|remove\x1b[0m"@,
        "\x1b[2m  /exclude tag System.out     -- hide lines with this tag\x1b[0m"@,
        "\x1b[2m  /exclude msg \"[socket]:\"    -- hide lines containing text\x1b[0m"@,
        "\x1b[2m  /exclude show               -- list exclusions\x1b[0m"@,
        "\x1b[2m  /exclude reset              -- clear all exclusions\x1b[0m"@,
        "\x1b[2m  /exclude remove <value>     -- remove one exclusion\x1b[0m"@,
    ]
}

/// The lines of `/exclude show`.
pub open spec fn exclusion_lines(f: FilterView) -> Seq<Seq<char>> {
    if f.exclude_tags.len() == 0 && f.exclude_texts.len() == 0 {
        seq!["\x1b[2mNo exclusion filters\x1b[0m"@]
    } else {
        seq!["\x1b[36mExclusion filters (none of these pass):\x1b[0m"@] + f.exclude_tags.map_values(
            |t: Seq<char>| "  \x1b[33mtag contains '"@ + t + "'\x1b[0m"@,
        ) + f.exclude_texts.map_values(|t: Seq<char>| "  \x1b[33mmsg contains '"@ + t + "'\x1b[0m"@)
    }
}

/// `/exclude SUB VALUE` (the subcommand in any case).
pub open spec fn exclude_step(v: AppView, args: Seq<char>) -> (AppView, Seq<Seq<char>>) {
    let sub = lowercase(split_command(args).0);
    let value = split_command(args).1;
    let f = v.filters;
    if sub == "tag"@ {
        if value.len() == 0 {
            (v, seq!["\x1b[31mUsage: /exclude tag <name>\x1b[0m"@])
        } else {
            (
                AppView { filters: FilterView { exclude_tags: with_unique(f.exclude_tags, value), ..f }, ..v },
                seq!["\x1b[33mExcluding tag: '"@ + value + "'\x1b[0m"@],
            )
        }
    } else if sub == "msg"@ || sub == "message"@ || sub == "text"@ {
        if value.len() == 0 {
            (v, seq!["\x1b[31mUsage: /exclude msg <text>\x1b[0m"@])
        } else {
            (
                AppView { filters: FilterView { exclude_texts: f.exclude_texts.push(value), ..f }, ..v },
                seq!["\x1b[33mExcluding messages containing: '"@ + value + "'\x1b[0m"@],
            )
        }
    } else if sub == "show"@ {
        (v, exclusion_lines(f))
    } else if sub == "reset"@ {
        (
            AppView {
                filters: FilterView { exclude_tags: Seq::empty(), exclude_texts: Seq::empty(), ..f },
                ..v
            },
            seq!["\x1b[32mAll exclusion filters cleared\x1b[0m"@],
        )
    } else if sub == "remove"@ {
        if value.len() == 0 {
            (v, seq!["\x1b[31mUsage: /exclude remove <tag_or_text>\x1b[0m"@])
        } else {
            (
                AppView {
                    filters: FilterView {
                        exclude_tags: without_all(f.exclude_tags, value),
                        exclude_texts: without_first(f.exclude_texts, value),
                        ..f
                    },
                    ..v
                },
                seq![
                    if f.exclude_tags.contains(value) || f.exclude_texts.contains(value) {
                        "\x1b[32mRemoved exclusion: '"@ + value + "'\x1b[0m"@
                    } else {
                        "\x1b[31mExclusion not found: '"@ + value + "'\x1b[0m"@
                    },
                ],
            )
        }
    } else {
        (v, exclude_usage())
    }
}

fn emit_all(out: &mut Vec<String>, lines: Vec<String>)
    ensures
        string_views(final(out)@) == string_views(old(out)@) + string_views(lines@),
{
    let ghost o = string_views(out@);
    let mut i: usize = 0;
    while i < lines.len()
        invariant
            i <= lines@.len(),
            string_views(out@) == o + string_views(lines@).take(i as int),
        decreases lines@.len() - i,
    {
        emit(out, lines[i].clone());
        assert(string_views(lines@).take(i + 1) =~= string_views(lines@).take(i as int).push(
            lines@[i as int]@,
        ));
        i = i + 1;
    }
    assert(string_views(lines@).take(lines@.len() as int) =~= string_views(lines@));
}

/// `prefix + item + suffix` for each item.
fn framed_items(items: &Vec<String>, prefix: &str, suffix: &str) -> (r: Vec<String>)
    ensures
        string_views(r@) == string_views(items@).map_values(|t: Seq<char>| prefix@ + t + suffix@),
{
    let mut r: Vec<String> = Vec::new();
    let mut i: usize = 0;
    while i < items.len()
        invariant
            i <= items@.len(),
            string_views(r@) == string_views(items@).take(i as int).map_values(
                |t: Seq<char>| prefix@ + t + suffix@,
            ),
        decreases items@.len() - i,
    {
        let ghost before = string_views(r@);
        r.push(concat3(prefix, items[i].as_str(), suffix));
        assert(string_views(r@) =~= before.push(prefix@ + items@[i as int]@ + suffix@));
        assert(string_views(items@).take(i + 1) =~= string_views(items@).take(i as int).push(
            items@[i as int]@,
        ));
        i = i + 1;
    }
    assert(string_views(items@).take(items@.len() as int) =~= string_views(items@));
    r
}

/// What `/filter` leaves to the caller.
pub enum FilterNext {
    Done,
    /// Store this one-line form among the recent filters.
    Remember(String),
    /// Run `/app` with this package.
    App(String),
    /// Load the preset of this name.
    LoadPreset(String),
}

impl App {
    /// `/regex ARGS`. When the pattern does not compile, the filters stay
    /// as they were and the compile error is shown.
    pub fn cmd_regex(&mut self, args: &str, out: &mut Vec<String>)
        ensures
            final(self)@ == regex_step(old(self)@, args@).0,
            string_views(final(out)@) == string_views(old(out)@) + regex_step(old(self)@, args@).1,
    {
        let ghost o = string_views(out@);
        if args.unicode_len() == 0 || str_eq(args, "reset") {
            self.filters.clear_regex();
            emit(out, string_from("\x1b[32mRegex filter cleared\x1b[0m"));
            assert(string_views(out@) =~= o + regex_step(old(self)@, args@).1);
            return;
        }
        match self.filters.set_regex(args) {
            Ok(()) => {
                emit(out, concat3("\x1b[32mFilter: regex '", args, "'\x1b[0m"));
                assert(string_views(out@) =~= o + regex_step(old(self)@, args@).1);
            },
            Err(e) => {
                emit(out, concat3("\x1b[31mInvalid regex: ", e.message.as_str(), "\x1b[0m"));
                assert(string_views(out@) =~= o + regex_step(old(self)@, args@).1);
            },
        }
    }

    /// `/exclude SUB VALUE`.
    pub fn cmd_exclude(&mut self, args: &str, out: &mut Vec<String>)
        ensures
            final(self)@ == exclude_step(old(self)@, args@).0,
            string_views(final(out)@) == string_views(old(out)@) + exclude_step(old(self)@, args@).1,
    {
        let ghost o = string_views(out@);
        let (sub0, value) = split_first(args);
        let subl = to_lower(sub0.as_str());
        let sub = subl.as_str();
        let v = value.as_str();
        if str_eq(sub, "tag") {
            if v.unicode_len() == 0 {
                emit(out, string_from("\x1b[31mUsage: /exclude tag <name>\x1b[0m"));
            } else {
                self.filters.add_exclude_tag(v);
                emit(out, concat3("\x1b[33mExcluding tag: '", v, "'\x1b[0m"));
            }
        } else if str_eq(sub, "msg") || str_eq(sub, "message") || str_eq(sub, "text") {
            if v.unicode_len() == 0 {
                emit(out, string_from("\x1b[31mUsage: /exclude msg <text>\x1b[0m"));
            } else {
                self.filters.add_exclude_text(v);
                emit(out, concat3("\x1b[33mExcluding messages containing: '", v, "'\x1b[0m"));
            }
        } else if str_eq(sub, "show") {
            if self.filters.exclude_tags.len() == 0 && self.filters.exclude_texts.len() == 0 {
                emit(out, string_from("\x1b[2mNo exclusion filters\x1b[0m"));
            } else {
                emit(out, string_from("\x1b[36mExclusion filters (none of these pass):\x1b[0m"));
                let a = framed_items(&self.filters.exclude_tags, "  \x1b[33mtag contains '", "'\x1b[0m");
                emit_all(out, a);
                let b = framed_items(&self.filters.exclude_texts, "  \x1b[33mmsg contains '", "'\x1b[0m");
                emit_all(out, b);
            }
        } else if str_eq(sub, "reset") {
            self.filters.clear_exclusions();
            emit(out, string_from("\x1b[32mAll exclusion filters cleared\x1b[0m"));
        } else if str_eq(sub, "remove") {
            if v.unicode_len() == 0 {
                emit(out, string_from("\x1b[31mUsage: /exclude remove <tag_or_text>\x1b[0m"));
            } else {
                if self.filters.remove_exclusion(v) {
                    emit(out, concat3("\x1b[32mRemoved exclusion: '", v, "'\x1b[0m"));
                } else {
                    emit(out, concat3("\x1b[31mExclusion not found: '", v, "'\x1b[0m"));
                }
            }
        } else {
            emit(out, string_from("\x1b[31mUsage: /exclude tag|msg|show|reset|remove\x1b[0m"));
            emit(out, string_from("\x1b[2m  /exclude tag System.out     -- hide lines with this tag\x1b[0m"));
            emit(out, string_from("\x1b[2m  /exclude msg \"[socket]:\"    -- hide lines containing text\x1b[0m"));
            emit(out, string_from("\x1b[2m  /exclude show               -- list exclusions\x1b[0m"));
            emit(out, string_from("\x1b[2m  /exclude reset              -- clear all exclusions\x1b[0m"));
            emit(out, string_from("\x1b[2m  /exclude remove <value>     -- remove one exclusion\x1b[0m"));
        }
        assert(string_views(out@) =~= o + exclude_step(old(self)@, args@).1);
    }
}

/// The `/filter set` value without a trailing `  # comment`, trimmed.
pub open spec fn clean_value(value: Seq<char>) -> Seq<char> {
    match find_from(value, "  #"@, 0) {
        Some(pos) => trim(value.subrange(0, pos)),
        None => value,
    }
}

pub enum FilterNextView {
    Done,
    Remember(Seq<char>),
    App(Seq<char>),
    LoadPreset(Seq<char>),
}

impl View for FilterNext {
    type V = FilterNextView;

    open spec fn view(&self) -> FilterNextView {
        match self {
            FilterNext::Done => FilterNextView::Done,
            FilterNext::Remember(s) => FilterNextView::Remember(s@),
            FilterNext::App(s) => FilterNextView::App(s@),
            FilterNext::LoadPreset(s) => FilterNextView::LoadPreset(s@),
        }
    }
}

/// What `/filter SUB VALUE` does: the state after it, given the state
/// before (`v`), the lines printed after the earlier output (`added`) and
/// what is left to do (`next`). `show` and `set` print a description of the
/// filters, with the PIDs and thread ids in set order.
pub open spec fn filter_done(
    v: AppView,
    args: Seq<char>,
    w: AppView,
    added: Seq<Seq<char>>,
    next: FilterNextView,
) -> bool {
    let sub = split_command(args).0;
    let value = split_command(args).1;
    if sub == "reset"@ {
        &&& w == AppView { filters: empty_filters(), highlight: Seq::empty(), ..v }
        &&& added == seq!["\x1b[32mAll filters cleared\x1b[0m"@]
        &&& next == FilterNextView::Done
    } else if sub == "show"@ {
        &&& w == v
        &&& next == FilterNextView::Done
        &&& exists|pl: Seq<u32>, tl: Seq<u32>|
            lists(pl, v.filters.pids) && lists(tl, v.filters.threads) && added == seq![
                "\x1b[36mActive filters: "@ + description_text(v.filters, pl, tl) + "\x1b[0m"@,
            ]
    } else if sub == "edit"@ {
        w == v && added.len() == 0 && next == FilterNextView::Done
    } else if sub == "set"@ {
        if value.len() == 0 {
            &&& w == v
            &&& added == seq!["\x1b[31mUsage: /filter set app=com.pkg tag=X level=W !tag=Y\x1b[0m"@]
            &&& next == FilterNextView::Done
        } else {
            let f = edited(clean_value(value));
            &&& w == AppView { filters: f, highlight: f.text, streaming: true, ..v }
            &&& next == FilterNextView::Remember(edit_string(f))
            &&& exists|pl: Seq<u32>, tl: Seq<u32>|
                lists(pl, f.pids) && lists(tl, f.threads) && added == seq![
                    "\x1b[32mFilters updated: "@ + description_text(f, pl, tl) + "\x1b[0m"@,
                ]
        }
    } else if sub == "tag"@ {
        (w, added, next) == (tag_step(v, value).0, tag_step(v, value).1, FilterNextView::Done)
    } else if sub == "level"@ {
        (w, added, next) == (level_step(v, value).0, level_step(v, value).1, FilterNextView::Done)
    } else if sub == "grep"@ || sub == "text"@ {
        (w, added, next) == (grep_step(v, value).0, grep_step(v, value).1, FilterNextView::Done)
    } else if sub == "msg"@ || sub == "message"@ {
        (w, added, next) == (msg_step(v, value).0, msg_step(v, value).1, FilterNextView::Done)
    } else if sub == "regex"@ {
        (w, added, next) == (regex_step(v, value).0, regex_step(v, value).1, FilterNextView::Done)
    } else if sub == "exclude"@ {
        (w, added, next) == (exclude_step(v, value).0, exclude_step(v, value).1, FilterNextView::Done)
    } else if sub == "app"@ {
        w == v && added.len() == 0 && next == FilterNextView::App(value)
    } else if sub.len() == 0 {
        &&& w == v
        &&& added == seq!["\x1b[31mUsage: /filter tag|level|grep|msg|regex|exclude|reset|show|<preset>\x1b[0m"@]
        &&& next == FilterNextView::Done
    } else {
        w == v && added.len() == 0 && next == FilterNextView::LoadPreset(sub)
    }
}

impl App {
    /// `/filter SUB VALUE`.
    pub fn cmd_filter(&mut self, args: &str, out: &mut Vec<String>) -> (next: FilterNext)
        ensures
            exists|added: Seq<Seq<char>>|
                string_views(final(out)@) == string_views(old(out)@) + added && filter_done(
                    old(self)@,
                    args@,
                    final(self)@,
                    added,
                    next@,
                ),
    {
        let ghost o = string_views(out@);
        let (sub_s, value_s) = split_first(args);
        let sub = sub_s.as_str();
        let value = value_s.as_str();
        let mut next = FilterNext::Done;
        let ghost mut added: Seq<Seq<char>> = Seq::empty();
        if str_eq(sub, "reset") {
            self.filters.reset();
            self.formatter.highlight_text = String::new();
            emit(out, string_from("\x1b[32mAll filters cleared\x1b[0m"));
            proof {
                added = seq!["\x1b[32mAll filters cleared\x1b[0m"@];
            }
        } else if str_eq(sub, "show") {
            let d = self.filters.description();
            let line = concat3("\x1b[36mActive filters: ", d.as_str(), "\x1b[0m");
            proof {
                added = seq![line@];
                let (pl, tl) = choose|pl: Seq<u32>, tl: Seq<u32>|
                    lists(pl, self@.filters.pids) && lists(tl, self@.filters.threads) && d@
                        == description_text(self@.filters, pl, tl);
                assert(lists(pl, old(self)@.filters.pids) && lists(tl, old(self)@.filters.threads)
                    && added == seq![
                    "\x1b[36mActive filters: "@ + description_text(old(self)@.filters, pl, tl)
                        + "\x1b[0m"@,
                ]);
            }
            emit(out, line);
        } else if str_eq(sub, "edit") {
        } else if str_eq(sub, "set") {
            if value.unicode_len() == 0 {
                emit(out, string_from("\x1b[31mUsage: /filter set app=com.pkg tag=X level=W !tag=Y\x1b[0m"));
                proof {
                    added = seq!["\x1b[31mUsage: /filter set app=com.pkg tag=X level=W !tag=Y\x1b[0m"@];
                }
            } else {
                let vc = to_chars(value);
                let pat = to_chars("  #");
                let clean = match find_chars(&vc, &pat) {
                    Some(pos) => {
                        let (a, b) = trim_range(&vc, 0, pos);
                        string_of_range(&vc, a, b)
                    },
                    None => string_from(value),
                };
                assert(clean@ == clean_value(value@));
                self.filters.apply_edit_string(clean.as_str());
                self.formatter.highlight_text = self.filters.text.clone();
                let e = self.filters.to_edit_string();
                let d = self.filters.description();
                let line = concat3("\x1b[32mFilters updated: ", d.as_str(), "\x1b[0m");
                proof {
                    added = seq![line@];
                    let (pl, tl) = choose|pl: Seq<u32>, tl: Seq<u32>|
                        lists(pl, self@.filters.pids) && lists(tl, self@.filters.threads) && d@
                            == description_text(self@.filters, pl, tl);
                    assert(lists(pl, self@.filters.pids) && lists(tl, self@.filters.threads)
                        && added == seq![
                        "\x1b[32mFilters updated: "@ + description_text(self@.filters, pl, tl)
                            + "\x1b[0m"@,
                    ]);
                }
                emit(out, line);
                self.streaming = true;
                next = FilterNext::Remember(e);
            }
        } else if str_eq(sub, "tag") {
            self.cmd_tag(value, out);
            proof {
                added = tag_step(old(self)@, value@).1;
            }
        } else if str_eq(sub, "level") {
            self.cmd_level(value, out);
            proof {
                added = level_step(old(self)@, value@).1;
            }
        } else if str_eq(sub, "grep") || str_eq(sub, "text") {
            self.cmd_grep(value, out);
            proof {
                added = grep_step(old(self)@, value@).1;
            }
        } else if str_eq(sub, "msg") || str_eq(sub, "message") {
            self.cmd_msg(value, out);
            proof {
                added = msg_step(old(self)@, value@).1;
            }
        } else if str_eq(sub, "regex") {
            self.cmd_regex(value, out);
            proof {
                added = regex_step(old(self)@, value@).1;
            }
        } else if str_eq(sub, "exclude") {
            self.cmd_exclude(value, out);
            proof {
                added = exclude_step(old(self)@, value@).1;
            }
        } else if str_eq(sub, "app") {
            next = FilterNext::App(value_s);
        } else if sub.unicode_len() == 0 {
            emit(out, string_from("\x1b[31mUsage: /filter tag|level|grep|msg|regex|exclude|reset|show|<preset>\x1b[0m"));
            proof {
                added = seq!["\x1b[31mUsage: /filter tag|level|grep|msg|regex|exclude|reset|show|<preset>\x1b[0m"@];
            }
        } else {
            next = FilterNext::LoadPreset(sub_s);
        }
        assert(string_views(out@) =~= o + added);
        assert(filter_done(old(self)@, args@, self@, added, next@));
        next
    }
}

// ---------------------------------------------------------------------------
// Device commands
// ---------------------------------------------------------------------------

/// `USB` or `TCP`.
pub open spec fn conn_name(serial: Seq<char>) -> Seq<char> {
    match connection_of(serial) {
        ConnectionType::Usb => "USB"@,
        ConnectionType::Tcp => "TCP"@,
    }
}

/// One row of `/devices`, marked when it is the selected device.
pub open spec fn device_row(d: DeviceView, selected: Option<DeviceView>) -> Seq<char> {
    "  "@ + pad_right(d.serial, 24) + " \x1b["@ + (if d.state == StateView::Device {
        "32"@
    } else {
        "31"@
    }) + "m"@ + pad_right(state_text(d.state), 14) + "\x1b[0m "@ + pad_right(
        if d.model.len() == 0 {
            d.product
        } else {
            d.model
        },
        12,
    ) + " "@ + pad_right(conn_name(d.serial), 6) + " "@ + (if selected matches Some(s) && s.serial
        == d.serial {
        " <-"@
    } else {
        ""@
    })
}

pub open spec fn device_header() -> Seq<char> {
    "\x1b[1m"@ + pad_right("Serial"@, 24) + " "@ + pad_right("State"@, 14) + " "@ + pad_right(
        "Model"@,
        12,
    ) + " "@ + pad_right("Type"@, 6) + " \x1b[0m"@
}

/// The lines of `/devices` for a listing.
pub open spec fn device_lines(ds: Seq<DeviceView>, selected: Option<DeviceView>) -> Seq<Seq<char>> {
    if ds.len() == 0 {
        seq!["\x1b[33mNo devices found\x1b[0m"@]
    } else {
        seq![device_header()] + ds.map_values(|d: DeviceView| device_row(d, selected))
    }
}

/// What `adb connect` replied: success, and the text shown.
pub open spec fn connect_reply(outcome: Result<String, String>) -> (bool, Seq<char>) {
    match outcome {
        Ok(o) => (contains(lowercase(trim(o@)), "connected"@), trim(o@)),
        Err(e) => (false, "Error: "@ + e@),
    }
}

/// What `adb disconnect` replied, as shown.
pub open spec fn disconnect_reply(outcome: Result<String, String>) -> Seq<char> {
    match outcome {
        Ok(o) => trim(o@),
        Err(e) => "Error: "@ + e@,
    }
}

fn device_row_exec(d: &Device, selected: &Option<String>) -> (s: String)
    ensures
        selected is None ==> s@ == device_row(d@, None),
        selected matches Some(x) ==> forall|sd: DeviceView| sd.serial == x@ ==> s@ == device_row(d@, Some(sd)),
{
    let mut s = string_from("  ");
    push_padded(&mut s, d.serial.as_str(), 24);
    push_str(&mut s, " \x1b[");
    push_str(&mut s, if d.is_online() { "32" } else { "31" });
    push_str(&mut s, "m");
    push_padded(&mut s, d.state.as_str(), 14);
    push_str(&mut s, "\x1b[0m ");
    let model = if d.model.as_str().unicode_len() == 0 {
        d.product.as_str()
    } else {
        d.model.as_str()
    };
    push_padded(&mut s, model, 12);
    push_str(&mut s, " ");
    push_padded(
        &mut s,
        match d.connection_type() {
            ConnectionType::Usb => "USB",
            ConnectionType::Tcp => "TCP",
        },
        6,
    );
    push_str(&mut s, " ");
    let mark = match selected {
        Some(x) => str_eq(x.as_str(), d.serial.as_str()),
        None => false,
    };
    push_str(&mut s, if mark { " <-" } else { "" });
    s
}

/// What `/app` leaves to the caller after the device check.
#[derive(Clone, Copy, Debug, PartialEq, Eq, Structural)]
pub enum AppStep {
    /// Stop: a usage line or a missing device was reported.
    Stop,
    /// Look up the package's PID, then call `cmd_app_track`.
    LookUpPid,
}

impl App {
    /// `/devices` with the listing `listing` (`adb devices -l` output).
    pub fn cmd_devices(&mut self, listing: Option<&str>, out: &mut Vec<String>)
        ensures
            final(self).adb.known() == match listing {
                Some(o) => parse_device_list(o@),
                None => old(self).adb.known(),
            },
            final(self).adb.selected() == old(self).adb.selected(),
            final(self).adb.path() == old(self).adb.path(),
            final(self)@ == (AppView { adb: final(self).adb, ..old(self)@ }),
            string_views(final(out)@) == string_views(old(out)@) + device_lines(
                final(self).adb.known(),
                final(self).adb.selected(),
            ),
    {
        let ghost o = string_views(out@);
        let sel: Option<String> = match self.adb.device_serial() {
            Some(x) => Some(string_from(x)),
            None => None,
        };
        let ghost seld = self.adb.selected();
        let devices = self.adb.list_devices(listing);
        let ghost ds = device_views(devices@);
        if devices.len() == 0 {
            emit(out, string_from("\x1b[33mNo devices found\x1b[0m"));
            assert(string_views(out@) =~= o + device_lines(ds, seld));
            return;
        }
        let mut h = string_from("\x1b[1m");
        push_padded(&mut h, "Serial", 24);
        push_str(&mut h, " ");
        push_padded(&mut h, "State", 14);
        push_str(&mut h, " ");
        push_padded(&mut h, "Model", 12);
        push_str(&mut h, " ");
        push_padded(&mut h, "Type", 6);
        push_str(&mut h, " \x1b[0m");
        assert(h@ =~= device_header());
        emit(out, h);
        let mut i: usize = 0;
        while i < devices.len()
            invariant
                i <= devices@.len(),
                ds == device_views(devices@),
                sel is None <==> seld is None,
                sel matches Some(x) ==> seld->0.serial == x@,
                string_views(out@) == o + seq![device_header()] + ds.take(i as int).map_values(
                    |d: DeviceView| device_row(d, seld),
                ),
            decreases devices@.len() - i,
        {
            let row = device_row_exec(&devices[i], &sel);
            assert(row@ == device_row(ds[i as int], seld));
            emit(out, row);
            assert(ds.take(i + 1).map_values(|d: DeviceView| device_row(d, seld))
                =~= ds.take(i as int).map_values(|d: DeviceView| device_row(d, seld)).push(
                device_row(ds[i as int], seld),
            ));
            i = i + 1;
        }
        assert(ds.take(ds.len() as int) =~= ds);
    }

    /// `/connect ADDRESS`: `outcome` is what `adb connect` printed (or why
    /// it could not run) and `listing` the device list taken after it; both
    /// are ignored when no address is given.
    pub fn cmd_connect(
        &mut self,
        args: &str,
        outcome: Result<String, String>,
        listing: Option<&str>,
        out: &mut Vec<String>,
    )
        ensures
            final(self).adb.path() == old(self).adb.path(),
            args@.len() == 0 ==> final(self)@ == old(self)@ && string_views(final(out)@)
                == string_views(old(out)@).push("\x1b[31mUsage: /connect <ip:port>\x1b[0m"@),
            args@.len() > 0 ==> ({
                let (ok, msg) = connect_reply(outcome);
                &&& final(self)@ == (AppView {
                    adb: final(self).adb,
                    streaming: old(self)@.streaming || ok,
                    ..old(self)@
                })
                &&& string_views(final(out)@) == string_views(old(out)@).push(
                    (if ok {
                        "\x1b[32m"@
                    } else {
                        "\x1b[31m"@
                    }) + msg + "\x1b[0m"@,
                )
                &&& !ok ==> final(self).adb.known() == old(self).adb.known() && final(self).adb.selected()
                    == old(self).adb.selected()
                &&& ok ==> final(self).adb.known() == match listing {
                    Some(o) => parse_device_list(o@),
                    None => old(self).adb.known(),
                }
                &&& ok ==> selected_by_serial(
                    final(self).adb.known(),
                    connect_serial(args@),
                    old(self).adb.selected(),
                    final(self).adb.selected(),
                )
            }),
    {
        if args.unicode_len() == 0 {
            emit(out, string_from("\x1b[31mUsage: /connect <ip:port>\x1b[0m"));
            return;
        }
        let (ok, msg) = self.adb.connect_tcp(args, outcome, listing);
        emit(out, concat3(if ok { "\x1b[32m" } else { "\x1b[31m" }, msg.as_str(), "\x1b[0m"));
        if ok {
            self.streaming = true;
        }
    }

    /// `/disconnect`: `outcome` is what `adb disconnect` printed for the
    /// selected network device (see `AdbClient::disconnect_target`).
    pub fn cmd_disconnect(&mut self, outcome: Result<String, String>, out: &mut Vec<String>)
        ensures
            final(self)@ == (AppView { adb: final(self).adb, streaming: false, ..old(self)@ }),
            final(self).adb.known() == old(self).adb.known(),
            final(self).adb.path() == old(self).adb.path(),
            outcome is Ok ==> final(self).adb.selected() is None,
            outcome is Err ==> final(self).adb.selected() == old(self).adb.selected(),
            string_views(final(out)@) == string_views(old(out)@).push(
                "\x1b[33m"@ + disconnect_reply(outcome) + "\x1b[0m"@,
            ),
    {
        let (_, msg) = self.adb.disconnect(None, outcome);
        emit(out, concat3("\x1b[33m", msg.as_str(), "\x1b[0m"));
        self.streaming = false;
    }

    /// `/app PACKAGE`, first part: a device must be selected; without one,
    /// the only online device of `listing` is selected.
    pub fn cmd_app_select(&mut self, args: &str, listing: Option<&str>, out: &mut Vec<String>) -> (step: AppStep)
        ensures
            final(self).adb.path() == old(self).adb.path(),
            final(self)@ == (AppView { adb: final(self).adb, ..old(self)@ }),
            args@.len() == 0 ==> step == AppStep::Stop && final(self).adb == old(self).adb
                && string_views(final(out)@) == string_views(old(out)@).push(
                "\x1b[31mUsage: /app <package.name>\x1b[0m"@,
            ),
            args@.len() > 0 && old(self).adb.selected() is Some ==> step == AppStep::LookUpPid
                && final(self).adb == old(self).adb && final(out)@ == old(out)@,
            args@.len() > 0 && old(self).adb.selected() is None ==> {
                &&& final(self).adb.known() == match listing {
                    Some(o) => parse_device_list(o@),
                    None => old(self).adb.known(),
                }
                &&& online_count(final(self).adb.known()) == 1 ==> step == AppStep::LookUpPid
                    && final(self).adb.selected() == Some(first_online(final(self).adb.known()))
                    && string_views(final(out)@) == string_views(old(out)@).push(
                    "\x1b[32mAuto-selected: "@ + display_name_of(first_online(final(self).adb.known()))
                        + "\x1b[0m"@,
                )
                &&& online_count(final(self).adb.known()) != 1 ==> step == AppStep::Stop
                    && final(self).adb.selected() is None && string_views(final(out)@)
                    == string_views(old(out)@).push(
                    "\x1b[31mNo device selected. Use /devices then /connect\x1b[0m"@,
                )
            },
    {
        if args.unicode_len() == 0 {
            emit(out, string_from("\x1b[31mUsage: /app <package.name>\x1b[0m"));
            return AppStep::Stop;
        }
        if !self.adb.has_selection() {
            let name = match self.adb.auto_select(listing) {
                Some(d) => Some(d.display_name()),
                None => None,
            };
            match name {
                None => {
                    emit(out, string_from("\x1b[31mNo device selected. Use /devices then /connect\x1b[0m"));
                    return AppStep::Stop;
                },
                Some(n) => {
                    emit(out, concat3("\x1b[32mAuto-selected: ", n.as_str(), "\x1b[0m"));
                },
            }
        }
        AppStep::LookUpPid
    }

    /// `/app PACKAGE`, second part: follows the package with the PID found
    /// in the `pidof` / `ps` outputs; restores the filters last used for it
    /// (`saved`, their one-line form), keeping the package and its PID.
    pub fn cmd_app_track(
        &mut self,
        args: &str,
        pidof_out: Option<&str>,
        ps_out: Option<&str>,
        saved: Option<&str>,
        out: &mut Vec<String>,
    )
        ensures
            ({
                let pid = pid_lookup(args@, pidof_out, ps_out);
                let pids = match pid {
                    Some(p) => set![p],
                    None => Set::empty(),
                };
                let f = match saved {
                    Some(s) => edited(s@),
                    None => old(self)@.filters,
                };
                let following = FilterView {
                    package: args@,
                    pids,
                    package_tracking: args@.len() > 0,
                    ..f
                };
                let first = match pid {
                    Some(p) => "\x1b[32mTracking app: "@ + args@ + " (PID: "@ + decimal(p as nat)
                        + ")\x1b[0m"@,
                    None => "\x1b[33mApp "@ + args@ + " not running — will track when started\x1b[0m"@,
                };
                &&& final(self)@ == (AppView { filters: following, streaming: true, ..old(self)@ })
                &&& string_views(final(out)@) == string_views(old(out)@) + match saved {
                    Some(s) => seq![first, "\x1b[36mRestored filters: "@ + s@ + "\x1b[0m"@],
                    None => seq![first],
                }
            }),
    {
        let ghost o = string_views(out@);
        let pid = AdbClient::get_pid(args, pidof_out, ps_out);
        self.filters.set_package(args, pid);
        let first = match pid {
            Some(p) => {
                let mut m = string_from("\x1b[32mTracking app: ");
                push_str(&mut m, args);
                push_str(&mut m, " (PID: ");
                push_decimal(&mut m, p as u64);
                push_str(&mut m, ")\x1b[0m");
                m
            },
            None => concat3("\x1b[33mApp ", args, " not running — will track when started\x1b[0m"),
        };
        emit(out, first);
        match saved {
            Some(s) => {
                let pkg = self.filters.package.clone();
                let mut pids: std::collections::HashSet<u32> = std::collections::HashSet::new();
                core::mem::swap(&mut pids, &mut self.filters.pids);
                let tracking = self.filters.package_tracking;
                self.filters.apply_edit_string(s);
                self.filters.package = pkg;
                self.filters.pids = pids;
                self.filters.package_tracking = tracking;
                emit(out, concat3("\x1b[36mRestored filters: ", s, "\x1b[0m"));
            },
            None => {},
        }
        self.streaming = true;
        assert(string_views(out@) =~= o + match saved {
            Some(s) => seq![first@, "\x1b[36mRestored filters: "@ + s@ + "\x1b[0m"@],
            None => seq![first@],
        });
    }
}

// ---------------------------------------------------------------------------
// /preset, /traffic, /mock, /save
// ---------------------------------------------------------------------------

/// What `/preset` asks the caller to do with the preset files.
pub enum PresetRequest {
    /// Nothing (a usage line was printed).
    Usage,
    Save(String),
    Load(String),
    List,
    Delete(String),
}

pub enum PresetRequestView {
    Usage,
    Save(Seq<char>),
    Load(Seq<char>),
    List,
    Delete(Seq<char>),
}

impl View for PresetRequest {
    type V = PresetRequestView;

    open spec fn view(&self) -> PresetRequestView {
        match self {
            PresetRequest::Usage => PresetRequestView::Usage,
            PresetRequest::Save(n) => PresetRequestView::Save(n@),
            PresetRequest::Load(n) => PresetRequestView::Load(n@),
            PresetRequest::List => PresetRequestView::List,
            PresetRequest::Delete(n) => PresetRequestView::Delete(n@),
        }
    }
}

/// `/preset SUB NAME` (the subcommand in any case): the request and the
/// lines printed.
pub open spec fn preset_step(args: Seq<char>) -> (PresetRequestView, Seq<Seq<char>>) {
    let sub = lowercase(split_command(args).0);
    let name = split_command(args).1;
    if sub == "save"@ {
        if name.len() == 0 {
            (PresetRequestView::Usage, seq!["\x1b[31mUsage: /preset save <name>\x1b[0m"@])
        } else {
            (PresetRequestView::Save(name), Seq::empty())
        }
    } else if sub == "load"@ {
        if name.len() == 0 {
            (PresetRequestView::Usage, seq!["\x1b[31mUsage: /preset load <name>\x1b[0m"@])
        } else {
            (PresetRequestView::Load(name), Seq::empty())
        }
    } else if sub == "list"@ {
        (PresetRequestView::List, Seq::empty())
    } else if sub == "delete"@ {
        if name.len() == 0 {
            (PresetRequestView::Usage, seq!["\x1b[31mUsage: /preset delete <name>\x1b[0m"@])
        } else {
            (PresetRequestView::Delete(name), Seq::empty())
        }
    } else {
        (PresetRequestView::Usage, seq!["\x1b[31mUsage: /preset save|load|list|delete <name>\x1b[0m"@])
    }
}

/// `/preset SUB NAME`.
pub fn cmd_preset(args: &str, out: &mut Vec<String>) -> (r: PresetRequest)
    ensures
        r@ == preset_step(args@).0,
        string_views(final(out)@) == string_views(old(out)@) + preset_step(args@).1,
{
    let ghost o = string_views(out@);
    let (sub0, name) = split_first(args);
    let subl = to_lower(sub0.as_str());
    let sub = subl.as_str();
    let n = name.as_str().unicode_len();
    let r = if str_eq(sub, "save") {
        if n == 0 {
            emit(out, string_from("\x1b[31mUsage: /preset save <name>\x1b[0m"));
            PresetRequest::Usage
        } else {
            PresetRequest::Save(name)
        }
    } else if str_eq(sub, "load") {
        if n == 0 {
            emit(out, string_from("\x1b[31mUsage: /preset load <name>\x1b[0m"));
            PresetRequest::Usage
        } else {
            PresetRequest::Load(name)
        }
    } else if str_eq(sub, "list") {
        PresetRequest::List
    } else if str_eq(sub, "delete") {
        if n == 0 {
            emit(out, string_from("\x1b[31mUsage: /preset delete <name>\x1b[0m"));
            PresetRequest::Usage
        } else {
            PresetRequest::Delete(name)
        }
    } else {
        emit(out, string_from("\x1b[31mUsage: /preset save|load|list|delete <name>\x1b[0m"));
        PresetRequest::Usage
    };
    assert(string_views(out@) =~= o + preset_step(args@).1);
    r
}

/// Reports `/preset save NAME`: the file written, or the error.
pub fn preset_saved(name: &str, result: Result<String, String>, out: &mut Vec<String>)
    ensures
        string_views(final(out)@) == string_views(old(out)@).push(
            match result {
                Ok(path) => "\x1b[32mPreset saved: "@ + name@ + " -> "@ + path@ + "\x1b[0m"@,
                Err(e) => "\x1b[31mError: "@ + e@ + "\x1b[0m"@,
            },
        ),
{
    match result {
        Ok(path) => {
            let mut m = string_from("\x1b[32mPreset saved: ");
            push_str(&mut m, name);
            push_str(&mut m, " -> ");
            push_str(&mut m, path.as_str());
            push_str(&mut m, "\x1b[0m");
            emit(out, m);
        },
        Err(e) => emit(out, concat3("\x1b[31mError: ", e.as_str(), "\x1b[0m")),
    }
}

/// Reports `/preset list`.
pub fn preset_listed(names: &Vec<String>, out: &mut Vec<String>)
    ensures
        string_views(final(out)@) == string_views(old(out)@).push(
            if names@.len() == 0 {
                "\x1b[2mNo saved presets\x1b[0m"@
            } else {
                "\x1b[36mSaved presets:\x1b[0m "@ + join(string_views(names@), ", "@)
            },
        ),
{
    if names.len() == 0 {
        emit(out, string_from("\x1b[2mNo saved presets\x1b[0m"));
    } else {
        let j = join_strings(names, ", ");
        let mut m = string_from("\x1b[36mSaved presets:\x1b[0m ");
        push_str(&mut m, j.as_str());
        emit(out, m);
    }
}

/// Reports `/preset delete NAME`.
pub fn preset_deleted(name: &str, deleted: bool, out: &mut Vec<String>)
    ensures
        string_views(final(out)@) == string_views(old(out)@).push(
            if deleted {
                "\x1b[32mDeleted: "@ + name@ + "\x1b[0m"@
            } else {
                "\x1b[31mNot found: "@ + name@ + "\x1b[0m"@
            },
        ),
{
    if deleted {
        emit(out, concat3("\x1b[32mDeleted: ", name, "\x1b[0m"));
    } else {
        emit(out, concat3("\x1b[31mNot found: ", name, "\x1b[0m"));
    }
}

impl App {
    /// Applies a preset read from its file (`/preset load NAME`, or
    /// `/filter NAME` when `from_filter`), or reports why it could not be
    /// read. Returns whether to record it for the current app.
    pub fn preset_loaded(
        &mut self,
        name: &str,
        result: Result<PresetData, String>,
        from_filter: bool,
        out: &mut Vec<String>,
    ) -> (record: bool)
        ensures
            match result {
                Ok(d) => {
                    &&& final(self)@ == (AppView {
                        filters: with_preset_filters(
                            old(self)@.filters,
                            d.package@,
                            string_views(d.tags@),
                            d.min_level,
                            d.text@,
                            match d.regex {
                                Some(r) => Some(r@),
                                None => None,
                            },
                        ),
                        format: d.format,
                        streaming: old(self)@.streaming || from_filter,
                        ..old(self)@
                    })
                    &&& record == (d.package@.len() > 0)
                    &&& string_views(final(out)@) == string_views(old(out)@).push(
                        (if from_filter {
                            "\x1b[32mFilter preset loaded: "@
                        } else {
                            "\x1b[32mPreset loaded: "@
                        }) + name@ + "\x1b[0m"@,
                    )
                },
                Err(e) => {
                    &&& final(self)@ == old(self)@
                    &&& !record
                    &&& string_views(final(out)@) == string_views(old(out)@).push(
                        "\x1b[31m"@ + e@ + "\x1b[0m"@,
                    )
                },
            },
    {
        match result {
            Ok(d) => {
                apply_preset_data(d, &mut self.filters, &mut self.formatter.config);
                emit(
                    out,
                    concat3(
                        if from_filter {
                            "\x1b[32mFilter preset loaded: "
                        } else {
                            "\x1b[32mPreset loaded: "
                        },
                        name,
                        "\x1b[0m",
                    ),
                );
                if from_filter {
                    self.streaming = true;
                }
                self.filters.package.as_str().unicode_len() > 0
            },
            Err(e) => {
                emit(out, concat3("\x1b[31m", e.as_str(), "\x1b[0m"));
                false
            },
        }
    }

    /// Reports opening the save file of `/save` reached through the command
    /// table: matching entries are appended to `path` from now on.
    pub fn save_opened(&mut self, path: String, result: Result<(), String>, out: &mut Vec<String>)
        ensures
            match result {
                Ok(()) => final(self)@ == (AppView { save_path: Some(path@), ..old(self)@ })
                    && string_views(final(out)@) == string_views(old(out)@).push(
                    "\x1b[32mSaving matching logs to: "@ + path@ + "\x1b[0m"@,
                ),
                Err(e) => final(self)@ == old(self)@ && string_views(final(out)@) == string_views(
                    old(out)@,
                ).push("\x1b[31mSave failed: "@ + path@ + ": "@ + e@ + "\x1b[0m"@),
            },
    {
        match result {
            Ok(()) => {
                emit(out, concat3("\x1b[32mSaving matching logs to: ", path.as_str(), "\x1b[0m"));
                self.save_path = Some(path);
            },
            Err(e) => {
                let mut m = string_from("\x1b[31mSave failed: ");
                push_str(&mut m, path.as_str());
                push_str(&mut m, ": ");
                push_str(&mut m, e.as_str());
                push_str(&mut m, "\x1b[0m");
                emit(out, m);
            },
        }
    }
}

/// What `/traffic` asks the caller to do with the proxy.
#[derive(Clone, Copy, Debug, PartialEq, Eq, Structural)]
pub enum TrafficNext {
    Done,
    Open,
    Close,
}

/// `/traffic SUB REST` (the subcommand in any case) on the captured
/// traffic: the state after it, the lines printed and the proxy request.
pub open spec fn traffic_done(
    s: TrafficStateView,
    args: Seq<char>,
    s2: TrafficStateView,
    added: Seq<Seq<char>>,
    next: TrafficNext,
) -> bool {
    let sub = lowercase(split_command(args).0);
    let rest = split_command(args).1;
    if sub == "open"@ {
        s2 == s && added.len() == 0 && next == TrafficNext::Open
    } else if sub == "close"@ {
        s2 == s && added.len() == 0 && next == TrafficNext::Close
    } else if sub == "list"@ {
        s2 == s && added == traffic_list_lines(s) && next == TrafficNext::Done
    } else if sub == "inspect"@ {
        &&& s2 == s
        &&& next == TrafficNext::Done
        &&& match parse_usize_spec(rest) {
            None => added == seq!["\x1b[31mUsage: /traffic inspect <id>\x1b[0m"@],
            Some(id) => if has_id(s.entries, id) {
                exists|i: int, req: Seq<(String, String)>, resp: Seq<(String, String)>|
                    first_with_id(s.entries, id, i) && lists_entries(req, s.entries[i].request_headers)
                        && lists_entries(resp, s.entries[i].response_headers) && added
                        == inspect_lines(s.entries[i], req, resp)
            } else {
                added == seq!["\x1b[31mEntry #"@ + rest + " not found\x1b[0m"@]
            },
        }
    } else if sub == "filter"@ {
        &&& s2 == TrafficStateView {
            filter: if rest.len() == 0 {
                no_traffic_filter()
            } else {
                filter_words(s.filter, words(rest), words(rest).len() as int)
            },
            ..s
        }
        &&& added == seq![
            if rest.len() == 0 {
                "\x1b[32mTraffic filter cleared\x1b[0m"@
            } else {
                "\x1b[32mTraffic filter updated\x1b[0m"@
            },
        ]
        &&& next == TrafficNext::Done
    } else if sub == "clear"@ {
        &&& s2 == TrafficStateView { entries: Seq::empty(), counter: 0, ..s }
        &&& added == seq!["\x1b[32mTraffic cleared\x1b[0m"@]
        &&& next == TrafficNext::Done
    } else {
        &&& s2 == s
        &&& added == seq!["\x1b[31mUsage: /traffic open|close|list|inspect|filter|clear\x1b[0m"@]
        &&& next == TrafficNext::Done
    }
}

/// `/traffic SUB REST` on the captured traffic `state`.
pub fn cmd_traffic(state: &mut TrafficState, args: &str, out: &mut Vec<String>) -> (next: TrafficNext)
    ensures
        exists|added: Seq<Seq<char>>|
            string_views(final(out)@) == string_views(old(out)@) + added && traffic_done(
                old(state)@,
                args@,
                final(state)@,
                added,
                next,
            ),
{
    let ghost o = string_views(out@);
    let (sub0, rest_s) = split_first(args);
    let subl = to_lower(sub0.as_str());
    let sub = subl.as_str();
    let rest = rest_s.as_str();
    let mut next = TrafficNext::Done;
    let ghost mut added: Seq<Seq<char>> = Seq::empty();
    if str_eq(sub, "open") {
        next = TrafficNext::Open;
    } else if str_eq(sub, "close") {
        next = TrafficNext::Close;
    } else if str_eq(sub, "list") {
        state.list_lines(out);
        proof {
            added = traffic_list_lines(old(state)@);
        }
    } else if str_eq(sub, "inspect") {
        state.inspect(rest, out);
        proof {
            added = string_views(out@).subrange(o.len() as int, string_views(out@).len() as int);
            match parse_usize_spec(rest@) {
                None => {
                    assert(added =~= seq!["\x1b[31mUsage: /traffic inspect <id>\x1b[0m"@]);
                },
                Some(id) => {
                    if has_id(old(state)@.entries, id) {
                        let (i, req, resp) = choose|i: int, req: Seq<(String, String)>, resp: Seq<(String, String)>|
                            first_with_id(old(state)@.entries, id, i) && lists_entries(
                                req,
                                old(state)@.entries[i].request_headers,
                            ) && lists_entries(resp, old(state)@.entries[i].response_headers)
                                && string_views(out@) == o + inspect_lines(old(state)@.entries[i], req, resp);
                        assert(added =~= inspect_lines(old(state)@.entries[i], req, resp));
                    } else {
                        assert(added =~= seq!["\x1b[31mEntry #"@ + rest@ + " not found\x1b[0m"@]);
                    }
                },
            }
            assert(string_views(out@) =~= o + added);
        }
    } else if str_eq(sub, "filter") {
        state.apply_filter_words(rest, out);
        proof {
            added = seq![
                if rest@.len() == 0 {
                    "\x1b[32mTraffic filter cleared\x1b[0m"@
                } else {
                    "\x1b[32mTraffic filter updated\x1b[0m"@
                },
            ];
        }
    } else if str_eq(sub, "clear") {
        state.clear();
        emit(out, string_from("\x1b[32mTraffic cleared\x1b[0m"));
        proof {
            added = seq!["\x1b[32mTraffic cleared\x1b[0m"@];
        }
    } else {
        emit(out, string_from("\x1b[31mUsage: /traffic open|close|list|inspect|filter|clear\x1b[0m"));
        proof {
            added = seq!["\x1b[31mUsage: /traffic open|close|list|inspect|filter|clear\x1b[0m"@];
        }
    }
    assert(string_views(out@) =~= o + added);
    assert(traffic_done(old(state)@, args@, state@, added, next));
    next
}

/// Reports `/traffic open`: the proxy's message, and the port to set on
/// the device; or the error.
pub fn traffic_opened(result: Result<String, String>, port: u16, out: &mut Vec<String>)
    ensures
        string_views(final(out)@) == string_views(old(out)@) + match result {
            Ok(m) => seq![
                "\x1b[32m"@ + m@ + "\x1b[0m"@,
                "\x1b[2mConfigure device proxy to port "@ + decimal(port as nat) + "\x1b[0m"@,
            ],
            Err(m) => seq!["\x1b[31m"@ + m@ + "\x1b[0m"@],
        },
{
    let ghost o = string_views(out@);
    match result {
        Ok(m) => {
            emit(out, concat3("\x1b[32m", m.as_str(), "\x1b[0m"));
            let mut l = string_from("\x1b[2mConfigure device proxy to port ");
            push_decimal(&mut l, port as u64);
            push_str(&mut l, "\x1b[0m");
            emit(out, l);
        },
        Err(m) => emit(out, concat3("\x1b[31m", m.as_str(), "\x1b[0m")),
    }
    assert(string_views(out@) =~= o + match result {
        Ok(m) => seq![
            "\x1b[32m"@ + m@ + "\x1b[0m"@,
            "\x1b[2mConfigure device proxy to port "@ + decimal(port as nat) + "\x1b[0m"@,
        ],
        Err(m) => seq!["\x1b[31m"@ + m@ + "\x1b[0m"@],
    });
}

/// Reports `/traffic close`.
pub fn traffic_closed(result: Result<String, String>, out: &mut Vec<String>)
    ensures
        string_views(final(out)@) == string_views(old(out)@).push(
            match result {
                Ok(m) => "\x1b[33m"@ + m@ + "\x1b[0m"@,
                Err(m) => "\x1b[31m"@ + m@ + "\x1b[0m"@,
            },
        ),
{
    match result {
        Ok(m) => emit(out, concat3("\x1b[33m", m.as_str(), "\x1b[0m")),
        Err(m) => emit(out, concat3("\x1b[31m", m.as_str(), "\x1b[0m")),
    }
}

/// What `/mock` asks the caller to do with the rules file.
pub enum MockNext {
    Done,
    /// Read and load the rules file at this path.
    Load(String),
    /// Read the rules file again (`MockEngine::reload` names it).
    Reload,
}

pub enum MockNextView {
    Done,
    Load(Seq<char>),
    Reload,
}

impl View for MockNext {
    type V = MockNextView;

    open spec fn view(&self) -> MockNextView {
        match self {
            MockNext::Done => MockNextView::Done,
            MockNext::Load(p) => MockNextView::Load(p@),
            MockNext::Reload => MockNextView::Reload,
        }
    }
}

/// Reports the outcome of loading or reloading the rules.
pub fn mock_result(result: Result<String, String>, out: &mut Vec<String>)
    ensures
        string_views(final(out)@) == string_views(old(out)@).push(
            match result {
                Ok(m) => "\x1b[32m"@ + m@ + "\x1b[0m"@,
                Err(m) => "\x1b[31m"@ + m@ + "\x1b[0m"@,
            },
        ),
{
    match result {
        Ok(m) => emit(out, concat3("\x1b[32m", m.as_str(), "\x1b[0m")),
        Err(m) => emit(out, concat3("\x1b[31m", m.as_str(), "\x1b[0m")),
    }
}

/// `/mock SUB REST` (the subcommand in any case): the state after it, the
/// lines printed and what is left to the caller.
pub open spec fn mock_done(v: AppView, args: Seq<char>, w: AppView, added: Seq<Seq<char>>, next: MockNextView) -> bool {
    let sub = lowercase(split_command(args).0);
    let rest = split_command(args).1;
    if sub == "load"@ {
        w == v && if rest.len() == 0 {
            next == MockNextView::Done && added == seq!["\x1b[31mUsage: /mock load <rules.yaml>\x1b[0m"@]
        } else {
            next == MockNextView::Load(rest) && added.len() == 0
        }
    } else if sub == "list"@ {
        w == v && next == MockNextView::Done && added == rule_list_lines(v.mock_engine@)
    } else if sub == "enable"@ || sub == "disable"@ {
        let on = sub == "enable"@;
        &&& next == MockNextView::Done
        &&& rest.len() == 0 ==> w == v && added == seq![
            (if on {
                "\x1b[31mUsage: /mock enable <rule_id>\x1b[0m"@
            } else {
                "\x1b[31mUsage: /mock disable <rule_id>\x1b[0m"@
            }),
        ]
        &&& rest.len() > 0 ==> w == (AppView { mock_engine: w.mock_engine, ..v })
            && w.mock_engine.source() == v.mock_engine.source() && w.mock_engine@ == with_enabled(
            v.mock_engine@,
            rest,
            on,
        ) && added == seq![
            if rule_has_id(v.mock_engine@, rest) {
                (if on {
                    "\x1b[32mEnabled: "@
                } else {
                    "\x1b[33mDisabled: "@
                }) + rest + "\x1b[0m"@
            } else {
                "\x1b[31mRule not found: "@ + rest + "\x1b[0m"@
            },
        ]
    } else if sub == "reload"@ {
        w == v && next == MockNextView::Reload && added.len() == 0
    } else {
        w == v && next == MockNextView::Done && added == seq![
            "\x1b[31mUsage: /mock load|list|enable|disable|reload\x1b[0m"@,
        ]
    }
}

impl App {
    /// `/mock SUB REST` (the subcommand in any case).
    pub fn cmd_mock(&mut self, args: &str, out: &mut Vec<String>) -> (next: MockNext)
        ensures
            exists|added: Seq<Seq<char>>|
                string_views(final(out)@) == string_views(old(out)@) + added && mock_done(
                    old(self)@,
                    args@,
                    final(self)@,
                    added,
                    next@,
                ),
    {
        let ghost o = string_views(out@);
        let (sub0, rest_s) = split_first(args);
        let subl = to_lower(sub0.as_str());
        let sub = subl.as_str();
        let rest = rest_s.as_str();
        let mut next = MockNext::Done;
        let ghost mut added: Seq<Seq<char>> = Seq::empty();
        if str_eq(sub, "load") {
            if rest.unicode_len() == 0 {
                emit(out, string_from("\x1b[31mUsage: /mock load <rules.yaml>\x1b[0m"));
                proof {
                    added = seq!["\x1b[31mUsage: /mock load <rules.yaml>\x1b[0m"@];
                }
            } else {
                next = MockNext::Load(rest_s);
            }
        } else if str_eq(sub, "list") {
            self.mock_engine.list_lines(out);
            proof {
                added = rule_list_lines(old(self)@.mock_engine@);
            }
        } else if str_eq(sub, "enable") || str_eq(sub, "disable") {
            let on = str_eq(sub, "enable");
            if rest.unicode_len() == 0 {
                let u = string_from(
                    if on {
                        "\x1b[31mUsage: /mock enable <rule_id>\x1b[0m"
                    } else {
                        "\x1b[31mUsage: /mock disable <rule_id>\x1b[0m"
                    },
                );
                proof {
                    added = seq![u@];
                }
                emit(out, u);
            } else {
                let ghost before = self.mock_engine@;
                let found = if on {
                    self.mock_engine.enable_rule(rest)
                } else {
                    self.mock_engine.disable_rule(rest)
                };
                proof {
                    crate::mock::lemma_first_id(before, rest@);
                }
                let line = if found {
                    concat3(if on { "\x1b[32mEnabled: " } else { "\x1b[33mDisabled: " }, rest, "\x1b[0m")
                } else {
                    concat3("\x1b[31mRule not found: ", rest, "\x1b[0m")
                };
                proof {
                    added = seq![line@];
                }
                emit(out, line);
            }
        } else if str_eq(sub, "reload") {
            next = MockNext::Reload;
        } else {
            emit(out, string_from("\x1b[31mUsage: /mock load|list|enable|disable|reload\x1b[0m"));
            proof {
                added = seq!["\x1b[31mUsage: /mock load|list|enable|disable|reload\x1b[0m"@];
            }
        }
        assert(string_views(out@) =~= o + added);
        assert(mock_done(old(self)@, args@, self@, added, next@));
        next
    }
}

// ---------------------------------------------------------------------------
// The dispatcher
// ---------------------------------------------------------------------------

/// What a command leaves to the caller.
pub enum Dispatch {
    Done,
    /// Quit the program.
    Exit,
    /// List the devices, then call `cmd_devices`.
    Devices,
    /// Run `adb connect` with the address (when there is one), then call
    /// `cmd_connect`.
    Connect(String),
    /// Run `adb disconnect`, then call `cmd_disconnect`.
    Disconnect,
    /// Run `/app` with the package: `cmd_app_select`, then the PID lookup
    /// and `cmd_app_track`.
    App(String),
    Filter(FilterNext),
    /// Open the file for appending, then call `save_opened`.
    Save(String),
    Preset(PresetRequest),
    Traffic(TrafficNext),
    Mock(MockNext),
}

pub enum DispatchView {
    Done,
    Exit,
    Devices,
    Connect(Seq<char>),
    Disconnect,
    App(Seq<char>),
    Filter(FilterNextView),
    Save(Seq<char>),
    Preset(PresetRequestView),
    Traffic(TrafficNext),
    Mock(MockNextView),
}

impl View for Dispatch {
    type V = DispatchView;

    open spec fn view(&self) -> DispatchView {
        match self {
            Dispatch::Done => DispatchView::Done,
            Dispatch::Exit => DispatchView::Exit,
            Dispatch::Devices => DispatchView::Devices,
            Dispatch::Connect(a) => DispatchView::Connect(a@),
            Dispatch::Disconnect => DispatchView::Disconnect,
            Dispatch::App(a) => DispatchView::App(a@),
            Dispatch::Filter(f) => DispatchView::Filter(f@),
            Dispatch::Save(a) => DispatchView::Save(a@),
            Dispatch::Preset(p) => DispatchView::Preset(p@),
            Dispatch::Traffic(t) => DispatchView::Traffic(*t),
            Dispatch::Mock(m) => DispatchView::Mock(m@),
        }
    }
}

/// The command word of a line, lower-cased.
pub open spec fn command_word(line: Seq<char>) -> Seq<char> {
    lowercase(split_command(line).0)
}

/// A step that prints lines and changes the state, nothing left to do.
pub open spec fn plain_step(
    r: (AppView, Seq<Seq<char>>),
    w: AppView,
    added: Seq<Seq<char>>,
    next: DispatchView,
) -> bool {
    w == r.0 && added == r.1 && next == DispatchView::Done
}

/// What a command line does: the state and the captured traffic after it
/// (`w`, `s2`), the lines printed and what is left to the caller.
pub open spec fn dispatch_done(
    v: AppView,
    line: Seq<char>,
    s: TrafficStateView,
    w: AppView,
    s2: TrafficStateView,
    added: Seq<Seq<char>>,
    next: DispatchView,
) -> bool {
    let cmd = command_word(line);
    let args = split_command(line).1;
    let untouched = w == v && s2 == s && added.len() == 0;
    if cmd == "/help"@ {
        w == v && s2 == s && added == help_lines() && next == DispatchView::Done
    } else if cmd == "/exit"@ || cmd == "/quit"@ || cmd == "/q"@ {
        untouched && next == DispatchView::Exit
    } else if cmd == "/clear"@ {
        untouched && next == DispatchView::Done
    } else if cmd == "/devices"@ {
        untouched && next == DispatchView::Devices
    } else if cmd == "/connect"@ {
        untouched && next == DispatchView::Connect(args)
    } else if cmd == "/disconnect"@ {
        untouched && next == DispatchView::Disconnect
    } else if cmd == "/app"@ {
        untouched && next == DispatchView::App(args)
    } else if cmd == "/pid"@ {
        s2 == s && plain_step(pid_step(v, args), w, added, next)
    } else if cmd == "/tag"@ {
        s2 == s && plain_step(tag_step(v, args), w, added, next)
    } else if cmd == "/level"@ {
        s2 == s && plain_step(level_step(v, args), w, added, next)
    } else if cmd == "/grep"@ {
        s2 == s && plain_step(grep_step(v, args), w, added, next)
    } else if cmd == "/msg"@ {
        s2 == s && plain_step(msg_step(v, args), w, added, next)
    } else if cmd == "/regex"@ {
        s2 == s && plain_step(regex_step(v, args), w, added, next)
    } else if cmd == "/filter"@ {
        s2 == s && exists|f: FilterNextView|
            next == DispatchView::Filter(f) && filter_done(v, args, w, added, f)
    } else if cmd == "/exclude"@ {
        s2 == s && plain_step(exclude_step(v, args), w, added, next)
    } else if cmd == "/format"@ {
        s2 == s && plain_step(format_step(v, args), w, added, next)
    } else if cmd == "/fields"@ {
        s2 == s && plain_step(fields_step(v, args), w, added, next)
    } else if cmd == "/stop"@ {
        s2 == s && plain_step(stop_step(v), w, added, next)
    } else if cmd == "/pause"@ {
        s2 == s && plain_step(pause_step(v), w, added, next)
    } else if cmd == "/resume"@ {
        s2 == s && plain_step(resume_step(v), w, added, next)
    } else if cmd == "/save"@ {
        s2 == s && if args.len() == 0 {
            w == AppView { save_path: None, ..v } && added == seq!["\x1b[33mSave stopped\x1b[0m"@]
                && next == DispatchView::Done
        } else {
            w == v && added.len() == 0 && next == DispatchView::Save(args)
        }
    } else if cmd == "/preset"@ {
        w == v && s2 == s && added == preset_step(args).1 && next == DispatchView::Preset(
            preset_step(args).0,
        )
    } else if cmd == "/traffic"@ {
        w == v && exists|t: TrafficNext|
            next == DispatchView::Traffic(t) && traffic_done(s, args, s2, added, t)
    } else if cmd == "/mock"@ {
        s2 == s && exists|m: MockNextView| next == DispatchView::Mock(m) && mock_done(v, args, w, added, m)
    } else {
        &&& w == v
        &&& s2 == s
        &&& added == seq!["\x1b[31mUnknown command: "@ + cmd + "\x1b[0m — type /help"@]
        &&& next == DispatchView::Done
    }
}

impl App {
    /// Runs a command line as far as no outside service is needed; tells
    /// the caller what is left. `traffic` is the captured traffic.
    #[verifier::rlimit(60)]
    pub fn dispatch(&mut self, line: &str, traffic: &mut TrafficState, out: &mut Vec<String>) -> (next: Dispatch)
        requires
            command_word(line@) == "/fields"@ ==> forall|i: int|
                0 <= i < words(split_command(line@).1).len() ==> field_word_ok(
                    #[trigger] words(split_command(line@).1)[i],
                ),
        ensures
            exists|added: Seq<Seq<char>>|
                string_views(final(out)@) == string_views(old(out)@) + added && dispatch_done(
                    old(self)@,
                    line@,
                    old(traffic)@,
                    final(self)@,
                    final(traffic)@,
                    added,
                    next@,
                ),
    {
        let ghost o = string_views(out@);
        let (c0, args_s) = split_first(line);
        let cl = to_lower(c0.as_str());
        let c = cl.as_str();
        let args = args_s.as_str();
        let mut next = Dispatch::Done;
        let ghost mut added: Seq<Seq<char>> = Seq::empty();
        let ghost v = self@;
        assert(args@ == split_command(line@).1);
        assert(c@ == command_word(line@));
        if str_eq(c, "/help") {
            cmd_help(out);
            proof { added = help_lines(); }
        } else if str_eq(c, "/exit") || str_eq(c, "/quit") || str_eq(c, "/q") {
            next = Dispatch::Exit;
        } else if str_eq(c, "/clear") {
        } else if str_eq(c, "/devices") {
            next = Dispatch::Devices;
        } else if str_eq(c, "/connect") {
            next = Dispatch::Connect(args_s);
        } else if str_eq(c, "/disconnect") {
            next = Dispatch::Disconnect;
        } else if str_eq(c, "/app") {
            next = Dispatch::App(args_s);
        } else if str_eq(c, "/pid") {
            self.cmd_pid(args, out);
            proof { added = pid_step(v, args@).1; }
        } else if str_eq(c, "/tag") {
            self.cmd_tag(args, out);
            proof { added = tag_step(v, args@).1; }
        } else if str_eq(c, "/level") {
            self.cmd_level(args, out);
            proof { added = level_step(v, args@).1; }
        } else if str_eq(c, "/grep") {
            self.cmd_grep(args, out);
            proof { added = grep_step(v, args@).1; }
        } else if str_eq(c, "/msg") {
            self.cmd_msg(args, out);
            proof { added = msg_step(v, args@).1; }
        } else if str_eq(c, "/regex") {
            self.cmd_regex(args, out);
            proof { added = regex_step(v, args@).1; }
        } else if str_eq(c, "/filter") {
            let f = self.cmd_filter(args, out);
            proof {
                let a0 = choose|a0: Seq<Seq<char>>|
                    string_views(out@) == o + a0 && filter_done(v, args@, self@, a0, f@);
                added = a0;
            }
            next = Dispatch::Filter(f);
        } else if str_eq(c, "/exclude") {
            self.cmd_exclude(args, out);
            proof { added = exclude_step(v, args@).1; }
        } else if str_eq(c, "/format") {
            self.cmd_format(args, out);
            proof { added = format_step(v, args@).1; }
        } else if str_eq(c, "/fields") {
            self.cmd_fields(args, out);
            proof { added = fields_step(v, args@).1; }
        } else if str_eq(c, "/stop") {
            self.cmd_stop(out);
            proof { added = stop_step(v).1; }
        } else if str_eq(c, "/pause") {
            self.cmd_pause(out);
            proof { added = pause_step(v).1; }
        } else if str_eq(c, "/resume") {
            self.cmd_resume(out);
            proof { added = resume_step(v).1; }
        } else if str_eq(c, "/save") {
            if args.unicode_len() == 0 {
                self.save_path = None;
                emit(out, string_from("\x1b[33mSave stopped\x1b[0m"));
                proof { added = seq!["\x1b[33mSave stopped\x1b[0m"@]; }
            } else {
                next = Dispatch::Save(args_s);
            }
        } else if str_eq(c, "/preset") {
            let r = cmd_preset(args, out);
            proof { added = preset_step(args@).1; }
            next = Dispatch::Preset(r);
        } else if str_eq(c, "/traffic") {
            let t = cmd_traffic(traffic, args, out);
            proof {
                let a0 = choose|a0: Seq<Seq<char>>|
                    string_views(out@) == o + a0 && traffic_done(old(traffic)@, args@, traffic@, a0, t);
                added = a0;
            }
            next = Dispatch::Traffic(t);
        } else if str_eq(c, "/mock") {
            let m = self.cmd_mock(args, out);
            proof {
                let a0 = choose|a0: Seq<Seq<char>>|
                    string_views(out@) == o + a0 && mock_done(v, args@, self@, a0, m@);
                added = a0;
            }
            next = Dispatch::Mock(m);
        } else {
            let mut m = string_from("\x1b[31mUnknown command: ");
            push_str(&mut m, c);
            push_str(&mut m, "\x1b[0m — type /help");
            proof { added = seq![m@]; }
            emit(out, m);
        }
        assert(string_views(out@) =~= o + added);
        assert(dispatch_done(old(self)@, line@, old(traffic)@, self@, traffic@, added, next@));
        next
    }
}

/// The path `/save` writes to: `~` and a leading `~/` stand for the home
/// directory when it is known.
pub open spec fn expand_home(arg: Seq<char>, home: Option<Seq<char>>) -> Seq<char> {
    if starts_with(arg, "~/"@) {
        match home {
            Some(h) => h + "/"@ + arg.subrange(2, arg.len() as int),
            None => arg,
        }
    } else if arg == "~"@ {
        match home {
            Some(h) => h,
            None => arg,
        }
    } else {
        arg
    }
}

/// `/save ARG`: with no argument saving stops; otherwise the path to open.
pub open spec fn save_request(v: AppView, args: Seq<char>, home: Option<Seq<char>>) -> (AppView, Seq<Seq<char>>, Option<Seq<char>>) {
    let arg = trim(args);
    if arg.len() == 0 {
        (AppView { save_path: None, ..v }, seq!["\x1b[33mSave stopped\x1b[0m"@], None)
    } else {
        (v, Seq::empty(), Some(expand_home(arg, home)))
    }
}

impl App {
    /// `/save ARG`: stops saving when `ARG` is empty, else gives the path
    /// to open (with `~` read as `home`); the caller opens it and reports
    /// through [`App::save_opened`].
    pub fn save_request(&mut self, args: &str, home: Option<&str>, out: &mut Vec<String>) -> (path: Option<String>)
        ensures
            ({
                let (v2, added, p) = save_request(
                    old(self)@,
                    args@,
                    match home {
                        Some(h) => Some(h@),
                        None => None,
                    },
                );
                &&& final(self)@ == v2
                &&& string_views(final(out)@) == string_views(old(out)@) + added
                &&& match path {
                    Some(q) => p == Some(q@),
                    None => p is None,
                }
            }),
    {
        let v = to_chars(args);
        let (a, b) = trim_range(&v, 0, v.len());
        assert(v@.subrange(0, v@.len() as int) =~= v@);
        let arg = string_of_range(&v, a, b);
        if b == a {
            self.save_path = None;
            let ghost before = string_views(out@);
            emit(out, string_from("\x1b[33mSave stopped\x1b[0m"));
            assert(string_views(out@) =~= before + seq!["\x1b[33mSave stopped\x1b[0m"@]);
            return None;
        }
        let p = if str_starts_with(arg.as_str(), "~/") {
            match home {
                Some(h) => {
                    let av = to_chars(arg.as_str());
                    proof {
                        reveal_strlit("~/");
                    }
                    let rest = string_of_range(&av, 2, av.len());
                    concat3(h, "/", rest.as_str())
                },
                None => arg,
            }
        } else if str_eq(arg.as_str(), "~") {
            match home {
                Some(h) => string_from(h),
                None => arg,
            }
        } else {
            arg
        };
        Some(p)
    }
}

} // verus!
