//! Tab completion for the command line.
use vstd::prelude::*;
use crate::text::{
    contains, push_str, starts_with, str_contains, str_eq, str_starts_with, string_from,
    string_of_range, string_views, to_chars, trim, trim_range, trim_start, trim_start_range,
    is_ws, is_whitespace_char,
};

verus! {

/// Number of commands in the command table.
pub const COMMAND_COUNT: usize = 28;

pub open spec fn str_views(v: Seq<&str>) -> Seq<Seq<char>> {
    v.map_values(|s: &str| s@)
}

/// The command table: name, description and subcommands of each command.
pub open spec fn command_name(i: int) -> Seq<char> {
    if i == 0 {
        "/help"@
    } else if i == 1 {
        "/exit"@
    } else if i == 2 {
        "/clear"@
    } else if i == 3 {
        "/devices"@
    } else if i == 4 {
        "/connect"@
    } else if i == 5 {
        "/disconnect"@
    } else if i == 6 {
        "/app"@
    } else if i == 7 {
        "/pid"@
    } else if i == 8 {
        "/tag"@
    } else if i == 9 {
        "/level"@
    } else if i == 10 {
        "/grep"@
    } else if i == 11 {
        "/msg"@
    } else if i == 12 {
        "/regex"@
    } else if i == 13 {
        "/filter"@
    } else if i == 14 {
        "/exclude"@
    } else if i == 15 {
        "/format"@
    } else if i == 16 {
        "/fields"@
    } else if i == 17 {
        "/stop"@
    } else if i == 18 {
        "/pause"@
    } else if i == 19 {
        "/resume"@
    } else if i == 20 {
        "/save"@
    } else if i == 21 {
        "/preset"@
    } else if i == 22 {
        "/traffic"@
    } else if i == 23 {
        "/mock"@
    } else if i == 24 {
        "/mouse"@
    } else if i == 25 {
        "/copy"@
    } else if i == 26 {
        "/width"@
    } else if i == 27 {
        "/forget"@
    } else {
        Seq::empty()
    }
}

pub open spec fn command_desc(i: int) -> Seq<char> {
    if i == 0 {
        "Show help for all commands"@
    } else if i == 1 {
        "Exit logux"@
    } else if i == 2 {
        "Clear the log view"@
    } else if i == 3 {
        "List connected ADB devices"@
    } else if i == 4 {
        "Connect to device over TCP (ip:port)"@
    } else if i == 5 {
        "Disconnect current device"@
    } else if i == 6 {
        "Filter by app package (with PID tracking)"@
    } else if i == 7 {
        "Filter by process ID"@
    } else if i == 8 {
        "Add tag filter (reset to clear)"@
    } else if i == 9 {
        "Set minimum log level"@
    } else if i == 10 {
        "Search by text in tag + message"@
    } else if i == 11 {
        "Search by text in message only"@
    } else if i == 12 {
        "Filter by regex pattern"@
    } else if i == 13 {
        "Edit, show, or load filter presets"@
    } else if i == 14 {
        "Exclude tags or messages from output"@
    } else if i == 15 {
        "Switch output format preset"@
    } else if i == 16 {
        "Toggle visible columns"@
    } else if i == 17 {
        "Stop the log stream completely"@
    } else if i == 18 {
        "Pause or resume display (toggle)"@
    } else if i == 19 {
        "Resume display after pause"@
    } else if i == 20 {
        "Save matching logs to file"@
    } else if i == 21 {
        "Save and load configuration presets"@
    } else if i == 22 {
        "HTTP(S) proxy inspection"@
    } else if i == 23 {
        "YAML-based mock response rules"@
    } else if i == 24 {
        "Toggle mouse capture (enables wheel scroll; blocks selection)"@
    } else if i == 25 {
        "Copy last N log messages (no column padding) to clipboard"@
    } else if i == 26 {
        "Set column widths: /width tag=30 ts=25 …"@
    } else if i == 27 {
        "Clear all auto-saved filter presets and per-app filter memory"@
    } else {
        Seq::empty()
    }
}

pub open spec fn command_subs(i: int) -> Seq<Seq<char>> {
    if i == 0 {
        seq![]
    } else if i == 1 {
        seq![]
    } else if i == 2 {
        seq![]
    } else if i == 3 {
        seq![]
    } else if i == 4 {
        seq![]
    } else if i == 5 {
        seq![]
    } else if i == 6 {
        seq![]
    } else if i == 7 {
        seq![]
    } else if i == 8 {
        seq!["reset"@]
    } else if i == 9 {
        seq!["verbose"@, "debug"@, "info"@, "warn"@, "error"@, "fatal"@]
    } else if i == 10 {
        seq!["reset"@]
    } else if i == 11 {
        seq!["reset"@]
    } else if i == 12 {
        seq!["reset"@]
    } else if i == 13 {
        seq!["reset"@, "show"@, "edit"@, "set"@, "tag"@, "level"@, "grep"@, "msg"@, "regex"@, "exclude"@, "app"@]
    } else if i == 14 {
        seq!["tag"@, "msg"@, "show"@, "reset"@, "remove"@]
    } else if i == 15 {
        seq!["compact"@, "threadtime"@, "verbose"@, "minimal"@, "json"@]
    } else if i == 16 {
        seq!["+timestamp"@, "-timestamp"@, "+level"@, "-level"@, "+tag"@, "-tag"@, "+pid"@, "-pid"@, "+tid"@, "-tid"@]
    } else if i == 17 {
        seq![]
    } else if i == 18 {
        seq![]
    } else if i == 19 {
        seq![]
    } else if i == 20 {
        seq![]
    } else if i == 21 {
        seq!["save"@, "load"@, "list"@, "delete"@]
    } else if i == 22 {
        seq!["open"@, "close"@, "list"@, "inspect"@, "filter"@, "clear"@]
    } else if i == 23 {
        seq!["load"@, "list"@, "enable"@, "disable"@, "reload"@]
    } else if i == 24 {
        seq!["on"@, "off"@, "toggle"@]
    } else if i == 25 {
        seq![]
    } else if i == 26 {
        seq!["show"@, "reset"@, "timestamp="@, "level="@, "tag="@, "pid="@, "tid="@]
    } else if i == 27 {
        seq![]
    } else {
        Seq::empty()
    }
}

fn command_name_at(i: usize) -> (s: &'static str)
    requires
        i < 28,
    ensures
        s@ == command_name(i as int),
{
    match i {
        0 => "/help",
        1 => "/exit",
        2 => "/clear",
        3 => "/devices",
        4 => "/connect",
        5 => "/disconnect",
        6 => "/app",
        7 => "/pid",
        8 => "/tag",
        9 => "/level",
        10 => "/grep",
        11 => "/msg",
        12 => "/regex",
        13 => "/filter",
        14 => "/exclude",
        15 => "/format",
        16 => "/fields",
        17 => "/stop",
        18 => "/pause",
        19 => "/resume",
        20 => "/save",
        21 => "/preset",
        22 => "/traffic",
        23 => "/mock",
        24 => "/mouse",
        25 => "/copy",
        26 => "/width",
        _ => "/forget",
    }
}

fn command_desc_at(i: usize) -> (s: &'static str)
    requires
        i < 28,
    ensures
        s@ == command_desc(i as int),
{
    match i {
        0 => "Show help for all commands",
        1 => "Exit logux",
        2 => "Clear the log view",
        3 => "List connected ADB devices",
        4 => "Connect to device over TCP (ip:port)",
        5 => "Disconnect current device",
        6 => "Filter by app package (with PID tracking)",
        7 => "Filter by process ID",
        8 => "Add tag filter (reset to clear)",
        9 => "Set minimum log level",
        10 => "Search by text in tag + message",
        11 => "Search by text in message only",
        12 => "Filter by regex pattern",
        13 => "Edit, show, or load filter presets",
        14 => "Exclude tags or messages from output",
        15 => "Switch output format preset",
        16 => "Toggle visible columns",
        17 => "Stop the log stream completely",
        18 => "Pause or resume display (toggle)",
        19 => "Resume display after pause",
        20 => "Save matching logs to file",
        21 => "Save and load configuration presets",
        22 => "HTTP(S) proxy inspection",
        23 => "YAML-based mock response rules",
        24 => "Toggle mouse capture (enables wheel scroll; blocks selection)",
        25 => "Copy last N log messages (no column padding) to clipboard",
        26 => "Set column widths: /width tag=30 ts=25 …",
        _ => "Clear all auto-saved filter presets and per-app filter memory",
    }
}

fn command_subs_at(i: usize) -> (v: Vec<&'static str>)
    requires
        i < 28,
    ensures
        str_views(v@) == command_subs(i as int),
{
    let v: Vec<&'static str> = match i {
        0 => vec![],
        1 => vec![],
        2 => vec![],
        3 => vec![],
        4 => vec![],
        5 => vec![],
        6 => vec![],
        7 => vec![],
        8 => vec!["reset"],
        9 => vec!["verbose", "debug", "info", "warn", "error", "fatal"],
        10 => vec!["reset"],
        11 => vec!["reset"],
        12 => vec!["reset"],
        13 => vec!["reset", "show", "edit", "set", "tag", "level", "grep", "msg", "regex", "exclude", "app"],
        14 => vec!["tag", "msg", "show", "reset", "remove"],
        15 => vec!["compact", "threadtime", "verbose", "minimal", "json"],
        16 => vec!["+timestamp", "-timestamp", "+level", "-level", "+tag", "-tag", "+pid", "-pid", "+tid", "-tid"],
        17 => vec![],
        18 => vec![],
        19 => vec![],
        20 => vec![],
        21 => vec!["save", "load", "list", "delete"],
        22 => vec!["open", "close", "list", "inspect", "filter", "clear"],
        23 => vec!["load", "list", "enable", "disable", "reload"],
        24 => vec!["on", "off", "toggle"],
        25 => vec![],
        26 => vec!["show", "reset", "timestamp=", "level=", "tag=", "pid=", "tid="],
        _ => vec![],
    };
    assert(str_views(v@) =~= command_subs(i as int));
    v
}

/// Description of a `/filter` subcommand.
pub open spec fn filter_sub_desc(sub: Seq<char>) -> Seq<char> {
    if sub == "reset"@ {
        "Clear all filters"@
    } else if sub == "show"@ {
        "Show active filters"@
    } else if sub == "edit"@ {
        "Edit filters inline"@
    } else if sub == "set"@ {
        "Apply filters from a key=value string"@
    } else if sub == "tag"@ {
        "Add/remove tag filter"@
    } else if sub == "level"@ {
        "Set minimum level"@
    } else if sub == "grep"@ {
        "Text search (tag + message)"@
    } else if sub == "msg"@ {
        "Text search (message only)"@
    } else if sub == "regex"@ {
        "Regex filter"@
    } else if sub == "exclude"@ {
        "Manage exclusion filters"@
    } else if sub == "app"@ {
        "Set app package filter"@
    } else {
        Seq::empty()
    }
}

fn filter_sub_desc_exec(sub: &str) -> (d: &'static str)
    ensures
        d@ == filter_sub_desc(sub@),
{
    proof {
        reveal_strlit("reset");
        reveal_strlit("show");
        reveal_strlit("edit");
        reveal_strlit("set");
        reveal_strlit("tag");
        reveal_strlit("level");
        reveal_strlit("grep");
        reveal_strlit("msg");
        reveal_strlit("regex");
        reveal_strlit("exclude");
        reveal_strlit("app");
        reveal_strlit("");
    }
    if str_eq(sub, "reset") {
        "Clear all filters"
    } else if str_eq(sub, "show") {
        "Show active filters"
    } else if str_eq(sub, "edit") {
        "Edit filters inline"
    } else if str_eq(sub, "set") {
        "Apply filters from a key=value string"
    } else if str_eq(sub, "tag") {
        "Add/remove tag filter"
    } else if str_eq(sub, "level") {
        "Set minimum level"
    } else if str_eq(sub, "grep") {
        "Text search (tag + message)"
    } else if str_eq(sub, "msg") {
        "Text search (message only)"
    } else if str_eq(sub, "regex") {
        "Regex filter"
    } else if str_eq(sub, "exclude") {
        "Manage exclusion filters"
    } else if str_eq(sub, "app") {
        "Set app package filter"
    } else {
        ""
    }
}

/// One completion: `text` is inserted on Tab, `display` is shown in the
/// list, `desc` explains it.
pub struct Suggestion {
    pub text: String,
    pub display: String,
    pub desc: String,
}

pub struct SuggestionView {
    pub text: Seq<char>,
    pub display: Seq<char>,
    pub desc: Seq<char>,
}

impl View for Suggestion {
    type V = SuggestionView;

    open spec fn view(&self) -> SuggestionView {
        SuggestionView { text: self.text@, display: self.display@, desc: self.desc@ }
    }
}

pub open spec fn sug_views(v: Seq<Suggestion>) -> Seq<SuggestionView> {
    v.map_values(|s: Suggestion| s@)
}

/// A suggestion shown as it is inserted.
pub open spec fn plain(text: Seq<char>, desc: Seq<char>) -> SuggestionView {
    SuggestionView { text, display: text, desc }
}

impl Suggestion {
    pub fn new(text: String, desc: String) -> (s: Suggestion)
        ensures
            s@ == plain(text@, desc@),
    {
        let display = text.clone();
        Suggestion { text, display, desc }
    }

    pub fn with_display(text: String, display: String, desc: String) -> (s: Suggestion)
        ensures
            s@ == (SuggestionView { text: text@, display: display@, desc: desc@ }),
    {
        Suggestion { text, display, desc }
    }
}

/// How a command is listed: with its aliases (`/exit (quit)`).
pub open spec fn command_display(name: Seq<char>) -> Seq<char> {
    if name == "/exit"@ {
        "/exit (quit)"@
    } else {
        name
    }
}

fn command_display_exec(name: &str) -> (d: String)
    ensures
        d@ == command_display(name@),
{
    if str_eq(name, "/exit") {
        string_from("/exit (quit)")
    } else {
        string_from(name)
    }
}

/// Names among the first `n` commands that start with `prefix`, in table
/// order.
pub open spec fn names_with_prefix(prefix: Seq<char>, n: int) -> Seq<Seq<char>>
    decreases n,
{
    if n <= 0 {
        Seq::empty()
    } else {
        names_with_prefix(prefix, n - 1) + (if starts_with(command_name(n - 1), prefix) {
            seq![command_name(n - 1)]
        } else {
            Seq::empty()
        })
    }
}

/// Commands a partly typed name can stand for: those it begins, plus
/// `/exit` when it begins the alias `/quit`.
pub open spec fn matched_names(prefix: Seq<char>) -> Seq<Seq<char>> {
    let m = names_with_prefix(prefix, COMMAND_COUNT as int);
    if starts_with("/quit"@, prefix) && !m.contains("/exit"@) {
        m.push("/exit"@)
    } else {
        m
    }
}

/// Description of the first command called `name` among the first `n`.
pub open spec fn desc_of_upto(name: Seq<char>, n: int) -> Seq<char>
    decreases n,
{
    if n <= 0 {
        Seq::empty()
    } else if desc_index_found(name, n - 1) {
        desc_of_upto(name, n - 1)
    } else if command_name(n - 1) == name {
        command_desc(n - 1)
    } else {
        Seq::empty()
    }
}

/// Some command before `n` is called `name`.
pub open spec fn desc_index_found(name: Seq<char>, n: int) -> bool {
    exists|i: int| 0 <= i < n && command_name(i) == name
}

pub open spec fn desc_of(name: Seq<char>) -> Seq<char> {
    desc_of_upto(name, COMMAND_COUNT as int)
}

pub open spec fn name_suggestions(prefix: Seq<char>) -> Seq<SuggestionView> {
    matched_names(prefix).map_values(
        |c: Seq<char>| SuggestionView { text: c, display: command_display(c), desc: desc_of(c) },
    )
}

/// `list` with `s` added unless a suggestion with the same text is there.
pub open spec fn add_unique(list: Seq<SuggestionView>, s: SuggestionView) -> Seq<SuggestionView> {
    if exists|i: int| 0 <= i < list.len() && (#[trigger] list[i]).text == s.text {
        list
    } else {
        list.push(s)
    }
}

/// `base` extended, without repeats, by `prefix + item` for each of the
/// first `n` items that contain `arg`.
pub open spec fn history_fold(
    base: Seq<SuggestionView>,
    items: Seq<Seq<char>>,
    arg: Seq<char>,
    prefix: Seq<char>,
    desc: Seq<char>,
    n: int,
) -> Seq<SuggestionView>
    decreases n,
{
    if n <= 0 {
        base
    } else {
        let l = history_fold(base, items, arg, prefix, desc, n - 1);
        if contains(items[n - 1], arg) {
            add_unique(l, plain(prefix + items[n - 1], desc))
        } else {
            l
        }
    }
}

/// `/app` completions: the foreground app, the current package, then the
/// package history, each once, if they contain what was typed.
pub open spec fn app_suggestions(
    arg: Seq<char>,
    history: Seq<Seq<char>>,
    fg: Option<Seq<char>>,
    current: Seq<char>,
) -> Seq<SuggestionView> {
    let l0 = match fg {
        Some(f) => if f.len() > 0 && contains(f, arg) {
            seq![plain("/app "@ + f, "foreground app"@)]
        } else {
            Seq::empty()
        },
        None => Seq::empty(),
    };
    let l1 = if current.len() > 0 && contains(current, arg) {
        add_unique(l0, plain("/app "@ + current, "current package"@))
    } else {
        l0
    };
    history_fold(l1, history, arg, "/app "@, "from history"@, history.len() as int)
}

/// Subcommands among the first `n` of `subs` that start with `arg`, as
/// `cmd sub` completions described by `desc_fn`.
pub open spec fn sub_fold(
    cmd: Seq<char>,
    subs: Seq<Seq<char>>,
    arg: Seq<char>,
    with_desc: bool,
    n: int,
) -> Seq<SuggestionView>
    decreases n,
{
    if n <= 0 {
        Seq::empty()
    } else {
        sub_fold(cmd, subs, arg, with_desc, n - 1) + (if starts_with(subs[n - 1], arg) {
            seq![
                plain(
                    cmd + " "@ + subs[n - 1],
                    if with_desc {
                        filter_sub_desc(subs[n - 1])
                    } else {
                        Seq::empty()
                    },
                ),
            ]
        } else {
            Seq::empty()
        })
    }
}

/// `/filter` completions: its subcommands, then the presets recorded for
/// the current app, then all saved presets (each preset once).
pub open spec fn filter_suggestions(
    arg: Seq<char>,
    current: Seq<char>,
    app_presets: Seq<Seq<char>>,
    presets: Seq<Seq<char>>,
) -> Seq<SuggestionView> {
    let l0 = sub_fold("/filter"@, command_subs(13), arg, true, command_subs(13).len() as int);
    let l1 = if current.len() > 0 {
        history_fold(l0, app_presets, arg, "/filter "@, "preset (app history)"@, app_presets.len() as int)
    } else {
        l0
    };
    history_fold(l1, presets, arg, "/filter "@, "saved preset"@, presets.len() as int)
}

/// Saved presets containing `ft`, as `/preset load NAME` completions.
pub open spec fn preset_load_fold(presets: Seq<Seq<char>>, ft: Seq<char>, n: int) -> Seq<SuggestionView>
    decreases n,
{
    if n <= 0 {
        Seq::empty()
    } else {
        preset_load_fold(presets, ft, n - 1) + (if contains(presets[n - 1], ft) {
            seq![plain("/preset load "@ + presets[n - 1], "saved preset"@)]
        } else {
            Seq::empty()
        })
    }
}

/// Index of the first whitespace character (the length if none).
pub open spec fn first_ws(s: Seq<char>) -> int
    decreases s.len(),
{
    if s.len() == 0 {
        0
    } else if is_ws(s[0]) {
        0
    } else {
        1 + first_ws(s.drop_first())
    }
}

/// Index of the command called `cmd` among the first `n`, if any.
pub open spec fn command_index(cmd: Seq<char>, n: int) -> Option<int>
    decreases n,
{
    if n <= 0 {
        None
    } else if command_index(cmd, n - 1) is Some {
        command_index(cmd, n - 1)
    } else if command_name(n - 1) == cmd {
        Some(n - 1)
    } else {
        None
    }
}

/// The completions offered for `input`.
pub open spec fn completions(
    input: Seq<char>,
    history: Seq<Seq<char>>,
    fg: Option<Seq<char>>,
    current: Seq<char>,
    app_presets: Seq<Seq<char>>,
    presets: Seq<Seq<char>>,
) -> Seq<SuggestionView> {
    if !starts_with(input, "/"@) {
        Seq::empty()
    } else if first_ws(input) >= input.len() {
        name_suggestions(input)
    } else {
        let w = first_ws(input);
        let cmd = input.subrange(0, w);
        let arg = trim_start(input.subrange(w + 1, input.len() as int));
        if cmd == "/app"@ {
            app_suggestions(arg, history, fg, current)
        } else if cmd == "/filter"@ {
            filter_suggestions(arg, current, app_presets, presets)
        } else if cmd == "/preset"@ && (starts_with(arg, "load "@) || arg == "load"@) {
            preset_load_fold(presets, trim(arg.subrange(4, arg.len() as int)), presets.len() as int)
        } else {
            match command_index(cmd, COMMAND_COUNT as int) {
                Some(i) => sub_fold(cmd, command_subs(i), arg, false, command_subs(i).len() as int),
                None => Seq::empty(),
            }
        }
    }
}

fn concat3(a: &str, b: &str) -> (s: String)
    ensures
        s@ == a@ + b@,
{
    let mut s = string_from(a);
    push_str(&mut s, b);
    s
}

fn push_unique(list: &mut Vec<Suggestion>, s: Suggestion)
    ensures
        sug_views(final(list)@) == add_unique(sug_views(old(list)@), s@),
{
    let ghost before = sug_views(list@);
    let mut i: usize = 0;
    while i < list.len()
        invariant
            i <= list@.len(),
            before == sug_views(list@),
            forall|j: int| 0 <= j < i ==> (#[trigger] before[j]).text != s@.text,
        decreases list@.len() - i,
    {
        if str_eq(list[i].text.as_str(), s.text.as_str()) {
            assert(before[i as int].text == s@.text);
            return;
        }
        i = i + 1;
    }
    list.push(s);
    assert(sug_views(list@) =~= before.push(s@));
}

fn push_plain(list: &mut Vec<Suggestion>, s: Suggestion)
    ensures
        sug_views(final(list)@) == sug_views(old(list)@).push(s@),
{
    let ghost before = sug_views(list@);
    list.push(s);
    assert(sug_views(list@) =~= before.push(s@));
}

fn fold_history(
    list: &mut Vec<Suggestion>,
    items: &[String],
    arg: &str,
    prefix: &str,
    desc: &str,
)
    ensures
        sug_views(final(list)@) == history_fold(
            sug_views(old(list)@),
            string_views(items@),
            arg@,
            prefix@,
            desc@,
            items@.len() as int,
        ),
{
    let ghost base = sug_views(list@);
    let ghost iv = string_views(items@);
    let mut i: usize = 0;
    while i < items.len()
        invariant
            i <= items@.len(),
            iv == string_views(items@),
            sug_views(list@) == history_fold(base, iv, arg@, prefix@, desc@, i as int),
        decreases items@.len() - i,
    {
        assert(iv[i as int] == items@[i as int]@);
        if str_contains(items[i].as_str(), arg) {
            let s = Suggestion::new(concat3(prefix, items[i].as_str()), string_from(desc));
            push_unique(list, s);
        }
        i = i + 1;
    }
}

fn fold_subs(list: &mut Vec<Suggestion>, cmd: &str, subs: &Vec<&'static str>, arg: &str, with_desc: bool)
    requires
        sug_views(old(list)@) == Seq::<SuggestionView>::empty(),
    ensures
        sug_views(final(list)@) == sub_fold(cmd@, str_views(subs@), arg@, with_desc, subs@.len() as int),
{
    let ghost sv = str_views(subs@);
    let mut i: usize = 0;
    while i < subs.len()
        invariant
            i <= subs@.len(),
            sv == str_views(subs@),
            sug_views(list@) == sub_fold(cmd@, sv, arg@, with_desc, i as int),
        decreases subs@.len() - i,
    {
        assert(sv[i as int] == subs@[i as int]@);
        if str_starts_with(subs[i], arg) {
            let mut t = concat3(cmd, " ");
            push_str(&mut t, subs[i]);
            let d = if with_desc {
                string_from(filter_sub_desc_exec(subs[i]))
            } else {
                String::new()
            };
            push_plain(list, Suggestion::new(t, d));
        }
        proof {
            assert(sub_fold(cmd@, sv, arg@, with_desc, i + 1) =~= sub_fold(cmd@, sv, arg@, with_desc, i as int) + (if starts_with(sv[i as int], arg@) {
                seq![
                    plain(
                        cmd@ + " "@ + sv[i as int],
                        if with_desc {
                            filter_sub_desc(sv[i as int])
                        } else {
                            Seq::empty()
                        },
                    ),
                ]
            } else {
                Seq::empty()
            }));
        }
        i = i + 1;
    }
}

fn names_with_prefix_exec(prefix: &str) -> (v: Vec<&'static str>)
    ensures
        str_views(v@) == names_with_prefix(prefix@, COMMAND_COUNT as int),
{
    let mut v: Vec<&'static str> = Vec::new();
    let mut i: usize = 0;
    while i < COMMAND_COUNT
        invariant
            i <= COMMAND_COUNT,
            str_views(v@) == names_with_prefix(prefix@, i as int),
        decreases COMMAND_COUNT - i,
    {
        let name = command_name_at(i);
        let ghost before = str_views(v@);
        if str_starts_with(name, prefix) {
            v.push(name);
            assert(str_views(v@) =~= before + seq![name@]);
        } else {
            assert(before =~= before + Seq::<Seq<char>>::empty());
        }
        i = i + 1;
    }
    v
}

fn desc_of_exec(name: &str) -> (d: &'static str)
    ensures
        d@ == desc_of(name@),
{
    let mut i: usize = 0;
    while i < COMMAND_COUNT
        invariant
            i <= COMMAND_COUNT,
            !desc_index_found(name@, i as int),
        decreases COMMAND_COUNT - i,
    {
        if str_eq(command_name_at(i), name) {
            let d = command_desc_at(i);
            proof {
                assert(desc_of_upto(name@, i + 1) == command_desc(i as int));
                lemma_desc_stable(name@, i + 1, COMMAND_COUNT as int);
            }
            return d;
        }
        i = i + 1;
    }
    proof {
        lemma_desc_none(name@, COMMAND_COUNT as int);
        reveal_strlit("");
    }
    ""
}

proof fn lemma_desc_stable(name: Seq<char>, a: int, b: int)
    requires
        1 <= a <= b,
        desc_index_found(name, a),
    ensures
        desc_of_upto(name, b) == desc_of_upto(name, a),
    decreases b - a,
{
    if b > a {
        lemma_desc_stable(name, a, b - 1);
        assert(desc_index_found(name, b - 1)) by {
            let i = choose|i: int| 0 <= i < a && command_name(i) == name;
            assert(0 <= i < b - 1);
        }
    }
}

proof fn lemma_desc_none(name: Seq<char>, n: int)
    requires
        !desc_index_found(name, n),
    ensures
        desc_of_upto(name, n) == Seq::<char>::empty(),
    decreases n,
{
    if n > 0 {
        assert(!desc_index_found(name, n - 1)) by {
            if desc_index_found(name, n - 1) {
                let i = choose|i: int| 0 <= i < n - 1 && command_name(i) == name;
                assert(0 <= i < n);
            }
        }
        lemma_desc_none(name, n - 1);
    }
}

fn command_index_exec(cmd: &str) -> (r: Option<usize>)
    ensures
        match r {
            Some(i) => command_index(cmd@, COMMAND_COUNT as int) == Some(i as int) && i < COMMAND_COUNT,
            None => command_index(cmd@, COMMAND_COUNT as int) is None,
        },
{
    let mut i: usize = 0;
    while i < COMMAND_COUNT
        invariant
            i <= COMMAND_COUNT,
            command_index(cmd@, i as int) is None,
        decreases COMMAND_COUNT - i,
    {
        if str_eq(command_name_at(i), cmd) {
            proof {
                assert(command_index(cmd@, i + 1) == Some(i as int));
                lemma_index_stable(cmd@, i + 1, COMMAND_COUNT as int);
            }
            return Some(i);
        }
        i = i + 1;
    }
    None
}

proof fn lemma_index_stable(cmd: Seq<char>, a: int, b: int)
    requires
        1 <= a <= b,
        command_index(cmd, a) is Some,
    ensures
        command_index(cmd, b) == command_index(cmd, a),
    decreases b - a,
{
    if b > a {
        lemma_index_stable(cmd, a, b - 1);
    }
}

fn name_completions(input: &str) -> (r: Vec<Suggestion>)
    ensures
        sug_views(r@) == name_suggestions(input@),
{
    let names = names_with_prefix_exec(input);
    let ghost m0 = str_views(names@);
    let mut all: Vec<&'static str> = names;
    let mut has_exit = false;
    let mut k: usize = 0;
    while k < all.len()
        invariant
            k <= all@.len(),
            str_views(all@) == m0,
            has_exit == exists|j: int| 0 <= j < k && m0[j] == "/exit"@,
        decreases all@.len() - k,
    {
        assert(m0[k as int] == all@[k as int]@);
        if str_eq(all[k], "/exit") {
            has_exit = true;
        }
        k = k + 1;
    }
    assert(has_exit == m0.contains("/exit"@));
    if str_starts_with("/quit", input) && !has_exit {
        all.push("/exit");
        assert(str_views(all@) =~= m0.push("/exit"@));
    }
    let ghost mv = str_views(all@);
    assert(mv == matched_names(input@));
    let mut r: Vec<Suggestion> = Vec::new();
    let mut i: usize = 0;
    while i < all.len()
        invariant
            i <= all@.len(),
            mv == str_views(all@),
            sug_views(r@) == mv.take(i as int).map_values(
                |c: Seq<char>| SuggestionView { text: c, display: command_display(c), desc: desc_of(c) },
            ),
        decreases all@.len() - i,
    {
        let c = all[i];
        assert(mv[i as int] == c@);
        let s = Suggestion::with_display(string_from(c), command_display_exec(c), string_from(desc_of_exec(c)));
        let ghost before = sug_views(r@);
        r.push(s);
        assert(sug_views(r@) =~= before.push(s@));
        assert(mv.take(i + 1) =~= mv.take(i as int).push(mv[i as int]));
        i = i + 1;
    }
    assert(mv.take(mv.len() as int) =~= mv);
    r
}

/// Completions for `input`: command names while the first word is being
/// typed, then subcommands; `/app` offers the foreground app, the current
/// package and the package history; `/filter` its subcommands and saved
/// presets (`app_presets`: those recorded for the current app); `/preset
/// load` the saved presets. Nothing for input that is not a command.
pub fn complete(
    input: &str,
    app_history: &[String],
    foreground_package: Option<&str>,
    current_package: &str,
    app_presets: &[String],
    saved_presets: &[String],
) -> (r: Vec<Suggestion>)
    ensures
        sug_views(r@) == completions(
            input@,
            string_views(app_history@),
            match foreground_package {
                Some(f) => Some(f@),
                None => None,
            },
            current_package@,
            string_views(app_presets@),
            string_views(saved_presets@),
        ),
{
    let v = to_chars(input);
    if !str_starts_with(input, "/") {
        let r: Vec<Suggestion> = Vec::new();
        assert(sug_views(r@) =~= Seq::<SuggestionView>::empty());
        return r;
    }
    let mut w: usize = 0;
    assert(v@.subrange(0, v@.len() as int) =~= v@);
    while w < v.len() && !is_whitespace_char(v[w])
        invariant
            w <= v@.len(),
            v@ == input@,
            first_ws(v@) == w + first_ws(v@.subrange(w as int, v@.len() as int)),
        decreases v@.len() - w,
    {
        assert(v@.subrange(w as int, v@.len() as int).drop_first() =~= v@.subrange(w + 1, v@.len() as int));
        w = w + 1;
    }
    proof {
        if w < v@.len() {
            assert(v@.subrange(w as int, v@.len() as int)[0] == v@[w as int]);
        }
        assert(first_ws(v@) == w);
    }
    if w == v.len() {
        return name_completions(input);
    }
    let cmd_s = string_of_range(&v, 0, w);
    let a = trim_start_range(&v, w + 1, v.len());
    let arg_s = string_of_range(&v, a, v.len());
    let cmd = cmd_s.as_str();
    let arg = arg_s.as_str();
    if str_eq(cmd, "/app") {
        let mut r: Vec<Suggestion> = Vec::new();
        assert(sug_views(r@) =~= Seq::<SuggestionView>::empty());
        match foreground_package {
            Some(fg) => {
                if !fg.is_empty() && str_contains(fg, arg) {
                    push_plain(&mut r, Suggestion::new(concat3("/app ", fg), string_from("foreground app")));
                    assert(sug_views(r@) =~= seq![plain("/app "@ + fg@, "foreground app"@)]);
                }
            },
            None => {},
        }
        if !current_package.is_empty() && str_contains(current_package, arg) {
            push_unique(&mut r, Suggestion::new(concat3("/app ", current_package), string_from("current package")));
        }
        fold_history(&mut r, app_history, arg, "/app ", "from history");
        return r;
    }
    if str_eq(cmd, "/filter") {
        let mut r: Vec<Suggestion> = Vec::new();
        let subs = command_subs_at(13);
        assert(sug_views(r@) =~= Seq::<SuggestionView>::empty());
        fold_subs(&mut r, "/filter", &subs, arg, true);
        if !current_package.is_empty() {
            fold_history(&mut r, app_presets, arg, "/filter ", "preset (app history)");
        }
        fold_history(&mut r, saved_presets, arg, "/filter ", "saved preset");
        return r;
    }
    if str_eq(cmd, "/preset") && (str_starts_with(arg, "load ") || str_eq(arg, "load")) {
        let av = to_chars(arg);
        proof {
            reveal_strlit("load ");
            reveal_strlit("load");
        }
        let (fa, fb) = trim_range(&av, 4, av.len());
        let ft = string_of_range(&av, fa, fb);
        let mut r: Vec<Suggestion> = Vec::new();
        let ghost pv = string_views(saved_presets@);
        let mut i: usize = 0;
        while i < saved_presets.len()
            invariant
                i <= saved_presets@.len(),
                pv == string_views(saved_presets@),
                ft@ == trim(arg@.subrange(4, arg@.len() as int)),
                sug_views(r@) == preset_load_fold(pv, ft@, i as int),
            decreases saved_presets@.len() - i,
        {
            assert(pv[i as int] == saved_presets@[i as int]@);
            let ghost before = sug_views(r@);
            if str_contains(saved_presets[i].as_str(), ft.as_str()) {
                push_plain(&mut r, Suggestion::new(concat3("/preset load ", saved_presets[i].as_str()), string_from("saved preset")));
            }
            assert(sug_views(r@) =~= before + (if contains(pv[i as int], ft@) {
                seq![plain("/preset load "@ + pv[i as int], "saved preset"@)]
            } else {
                Seq::empty()
            }));
            i = i + 1;
        }
        return r;
    }
    match command_index_exec(cmd) {
        Some(i) => {
            let subs = command_subs_at(i);
            let mut r: Vec<Suggestion> = Vec::new();
            assert(sug_views(r@) =~= Seq::<SuggestionView>::empty());
            fold_subs(&mut r, cmd, &subs, arg, false);
            r
        },
        None => {
            let r: Vec<Suggestion> = Vec::new();
            assert(sug_views(r@) =~= Seq::<SuggestionView>::empty());
            r
        },
    }
}

} // verus!
