//! Logcat output parser: turns raw `adb logcat` lines into structured entries.
//!
//! Two line formats are recognised, in this order:
//!
//! * threadtime: `MM-DD HH:MM:SS.mmm  PID  TID LEVEL TAG: MESSAGE`
//! * brief:      `LEVEL/TAG(PID): MESSAGE`
//!
//! Any other non-empty line that is not a `---------` section header is kept
//! as a continuation entry whose message is the whole line.
use vstd::prelude::*;
use crate::logs::pattern::{regex_compiles, regex_is_match, Pattern};
use crate::text::{
    ascii_upper, ascii_upper_char, is_digit, is_digit_char, is_ws, push_char,
    is_whitespace_char, lemma_line_end_bounds, lemma_ws_run_bounds,
    line_end, line_end_at, lowercase, no_newline, parse_u32_range, parse_u32_spec, str_eq,
    string_of_range, to_chars, to_lower, trim, trim_end, trim_end_range, trim_range, ws_run,
    ws_run_at,
};

verus! {

/// Android log priority, from least to most severe.
#[derive(Debug, Clone, Copy, PartialEq, Eq, Structural, PartialOrd, Ord, Hash)]
pub enum LogLevel {
    Verbose,
    Debug,
    Info,
    Warn,
    Error,
    Fatal,
    Silent,
}

/// Position of a level in the severity order (Verbose = 0 … Silent = 6).
pub open spec fn level_rank(l: LogLevel) -> u8 {
    match l {
        LogLevel::Verbose => 0,
        LogLevel::Debug => 1,
        LogLevel::Info => 2,
        LogLevel::Warn => 3,
        LogLevel::Error => 4,
        LogLevel::Fatal => 5,
        LogLevel::Silent => 6,
    }
}

/// The level a logcat priority letter stands for (case-insensitive); an
/// unknown letter counts as Verbose.
pub open spec fn level_of_char(c: char) -> LogLevel {
    let u = ascii_upper(c);
    if u == 'V' {
        LogLevel::Verbose
    } else if u == 'D' {
        LogLevel::Debug
    } else if u == 'I' {
        LogLevel::Info
    } else if u == 'W' {
        LogLevel::Warn
    } else if u == 'E' {
        LogLevel::Error
    } else if u == 'F' {
        LogLevel::Fatal
    } else if u == 'S' {
        LogLevel::Silent
    } else {
        LogLevel::Verbose
    }
}

pub open spec fn level_letter(l: LogLevel) -> char {
    match l {
        LogLevel::Verbose => 'V',
        LogLevel::Debug => 'D',
        LogLevel::Info => 'I',
        LogLevel::Warn => 'W',
        LogLevel::Error => 'E',
        LogLevel::Fatal => 'F',
        LogLevel::Silent => 'S',
    }
}

/// The level named by an already lower-cased name.
pub open spec fn level_by_lower_name(s: Seq<char>) -> Option<LogLevel> {
    if s == "v"@ || s == "verbose"@ {
        Some(LogLevel::Verbose)
    } else if s == "d"@ || s == "debug"@ {
        Some(LogLevel::Debug)
    } else if s == "i"@ || s == "info"@ {
        Some(LogLevel::Info)
    } else if s == "w"@ || s == "warn"@ || s == "warning"@ {
        Some(LogLevel::Warn)
    } else if s == "e"@ || s == "error"@ {
        Some(LogLevel::Error)
    } else if s == "f"@ || s == "fatal"@ {
        Some(LogLevel::Fatal)
    } else if s == "s"@ || s == "silent"@ {
        Some(LogLevel::Silent)
    } else {
        None
    }
}

pub open spec fn level_color(l: LogLevel) -> Seq<char> {
    match l {
        LogLevel::Verbose => "37"@,
        LogLevel::Debug => "34"@,
        LogLevel::Info => "32"@,
        LogLevel::Warn => "33"@,
        LogLevel::Error => "31"@,
        LogLevel::Fatal => "1;37;41"@,
        LogLevel::Silent => "2;37"@,
    }
}

impl LogLevel {
    /// The level of a logcat priority letter; unknown letters give Verbose.
    pub fn from_char(c: char) -> (l: LogLevel)
        ensures
            l == level_of_char(c),
    {
        let u = ascii_upper_char(c);
        if u == 'V' {
            LogLevel::Verbose
        } else if u == 'D' {
            LogLevel::Debug
        } else if u == 'I' {
            LogLevel::Info
        } else if u == 'W' {
            LogLevel::Warn
        } else if u == 'E' {
            LogLevel::Error
        } else if u == 'F' {
            LogLevel::Fatal
        } else if u == 'S' {
            LogLevel::Silent
        } else {
            LogLevel::Verbose
        }
    }

    /// The priority letter of the level.
    pub fn char(&self) -> (c: char)
        ensures
            c == level_letter(*self),
    {
        match self {
            LogLevel::Verbose => 'V',
            LogLevel::Debug => 'D',
            LogLevel::Info => 'I',
            LogLevel::Warn => 'W',
            LogLevel::Error => 'E',
            LogLevel::Fatal => 'F',
            LogLevel::Silent => 'S',
        }
    }

    /// Severity rank (Verbose = 0 … Silent = 6).
    pub fn rank(&self) -> (r: u8)
        ensures
            r == level_rank(*self),
    {
        match self {
            LogLevel::Verbose => 0,
            LogLevel::Debug => 1,
            LogLevel::Info => 2,
            LogLevel::Warn => 3,
            LogLevel::Error => 4,
            LogLevel::Fatal => 5,
            LogLevel::Silent => 6,
        }
    }

    /// The level named `name` (a letter or a full name, any case).
    pub fn from_name(name: &str) -> (r: Option<LogLevel>)
        ensures
            r == level_by_lower_name(lowercase(name@)),
    {
        let lower = to_lower(name);
        let s = lower.as_str();
        if str_eq(s, "v") || str_eq(s, "verbose") {
            Some(LogLevel::Verbose)
        } else if str_eq(s, "d") || str_eq(s, "debug") {
            Some(LogLevel::Debug)
        } else if str_eq(s, "i") || str_eq(s, "info") {
            Some(LogLevel::Info)
        } else if str_eq(s, "w") || str_eq(s, "warn") || str_eq(s, "warning") {
            Some(LogLevel::Warn)
        } else if str_eq(s, "e") || str_eq(s, "error") {
            Some(LogLevel::Error)
        } else if str_eq(s, "f") || str_eq(s, "fatal") {
            Some(LogLevel::Fatal)
        } else if str_eq(s, "s") || str_eq(s, "silent") {
            Some(LogLevel::Silent)
        } else {
            None
        }
    }

    /// ANSI SGR parameters used to colour the level.
    pub fn color_code(&self) -> (s: &'static str)
        ensures
            s@ == level_color(*self),
    {
        match self {
            LogLevel::Verbose => "37",
            LogLevel::Debug => "34",
            LogLevel::Info => "32",
            LogLevel::Warn => "33",
            LogLevel::Error => "31",
            LogLevel::Fatal => "1;37;41",
            LogLevel::Silent => "2;37",
        }
    }
}

/// Reading a level's letter back gives the same level.
pub proof fn lemma_level_letter_roundtrip(l: LogLevel)
    ensures
        level_of_char(level_letter(l)) == l,
{
}

/// One parsed logcat line.
#[derive(Debug, Clone)]
pub struct LogEntry {
    pub timestamp: String,
    pub pid: u32,
    pub tid: u32,
    pub level: LogLevel,
    pub tag: String,
    pub message: String,
    pub raw: String,
}

/// The abstract content of a [`LogEntry`].
pub struct EntryView {
    pub timestamp: Seq<char>,
    pub pid: u32,
    pub tid: u32,
    pub level: LogLevel,
    pub tag: Seq<char>,
    pub message: Seq<char>,
    pub raw: Seq<char>,
}

impl View for LogEntry {
    type V = EntryView;

    open spec fn view(&self) -> EntryView {
        EntryView {
            timestamp: self.timestamp@,
            pid: self.pid,
            tid: self.tid,
            level: self.level,
            tag: self.tag@,
            message: self.message@,
            raw: self.raw@,
        }
    }
}

impl LogEntry {
    /// A copy of the entry.
    pub fn duplicate(&self) -> (r: LogEntry)
        ensures
            r@ == self@,
    {
        LogEntry {
            timestamp: self.timestamp.clone(),
            pid: self.pid,
            tid: self.tid,
            level: self.level,
            tag: self.tag.clone(),
            message: self.message.clone(),
            raw: self.raw.clone(),
        }
    }
}

pub open spec fn entry_opt_view(e: Option<LogEntry>) -> Option<EntryView> {
    match e {
        Some(x) => Some(x@),
        None => None,
    }
}

// ---------------------------------------------------------------------------
// The line grammar
// ---------------------------------------------------------------------------

/// A digit as the grammar's `\d` reads it: an ASCII digit, or a character
/// beyond ASCII that the regular expression `^\d$` matches (a Unicode
/// decimal digit).
pub open spec fn log_digit(c: char) -> bool {
    if (c as u32) < 0x80 {
        is_digit(c)
    } else {
        regex_compiles("^\\d$"@) && regex_is_match("^\\d$"@, seq![c])
    }
}

/// Length of the longest run of grammar digits in `s` that starts at `i`.
pub open spec fn num_run(s: Seq<char>, i: int) -> nat
    decreases s.len() - i,
{
    if 0 <= i < s.len() && log_digit(s[i]) {
        1 + num_run(s, i + 1)
    } else {
        0
    }
}

pub proof fn lemma_num_run_bounds(s: Seq<char>, i: int)
    requires
        0 <= i <= s.len(),
    ensures
        i + num_run(s, i) <= s.len(),
        forall|k: int| i <= k < i + num_run(s, i) ==> log_digit(#[trigger] s[k]),
        i + num_run(s, i) < s.len() ==> !log_digit(s[i + num_run(s, i)]),
    decreases s.len() - i,
{
    if i < s.len() && log_digit(s[i]) {
        lemma_num_run_bounds(s, i + 1);
    }
}

fn log_digit_exec(c: char) -> (b: bool)
    ensures
        b == log_digit(c),
{
    if (c as u32) < 0x80 {
        is_digit_char(c)
    } else {
        match Pattern::compile("^\\d$") {
            Ok(p) => {
                let mut t = String::new();
                push_char(&mut t, c);
                assert(t@ =~= seq![c]);
                p.is_match(t.as_str())
            },
            Err(_) => false,
        }
    }
}

fn num_run_at(s: &Vec<char>, i: usize) -> (n: usize)
    requires
        i <= s@.len(),
    ensures
        n == num_run(s@, i as int),
        i + n <= s@.len(),
{
    let mut j = i;
    while j < s.len() && log_digit_exec(s[j])
        invariant
            i <= j <= s@.len(),
            num_run(s@, i as int) == (j - i) + num_run(s@, j as int),
        decreases s@.len() - j,
    {
        j = j + 1;
    }
    proof {
        lemma_num_run_bounds(s@, i as int);
    }
    j - i
}

pub open spec fn is_level_char(c: char) -> bool {
    c == 'V' || c == 'D' || c == 'I' || c == 'W' || c == 'E' || c == 'F' || c == 'S'
}

/// `HH:MM:SS.mmm` starts at `a`.
pub open spec fn clock_at(l: Seq<char>, a: int) -> bool {
    &&& 0 <= a
    &&& a + 12 <= l.len()
    &&& log_digit(l[a]) && log_digit(l[a + 1]) && l[a + 2] == ':'
    &&& log_digit(l[a + 3]) && log_digit(l[a + 4]) && l[a + 5] == ':'
    &&& log_digit(l[a + 6]) && log_digit(l[a + 7]) && l[a + 8] == '.'
    &&& log_digit(l[a + 9]) && log_digit(l[a + 10]) && log_digit(l[a + 11])
}

/// The fixed head of a threadtime line, up to and including the level letter:
/// `MM-DD<ws>HH:MM:SS.mmm<ws>PID<ws>TID<ws>L`. Gives the end of the
/// timestamp, the PID and TID digit ranges and the position of the letter.
pub open spec fn tt_head(l: Seq<char>) -> Option<(int, int, int, int, int, int)> {
    if !(l.len() >= 5 && log_digit(l[0]) && log_digit(l[1]) && l[2] == '-' && log_digit(l[3])
        && log_digit(l[4])) {
        None
    } else {
        let a: int = 5 + ws_run(l, 5) as int;
        let ts_end: int = a + 12;
        if ws_run(l, 5) == 0 || !clock_at(l, a) {
            None
        } else {
            let p: int = ts_end + ws_run(l, ts_end);
            let q: int = p + num_run(l, p);
            let t: int = q + ws_run(l, q);
            let r: int = t + num_run(l, t);
            let lv: int = r + ws_run(l, r);
            if ws_run(l, ts_end) == 0 || num_run(l, p) == 0 || ws_run(l, q) == 0 || num_run(
                l,
                t,
            ) == 0 || ws_run(l, r) == 0 || !(lv < l.len() && is_level_char(l[lv])) {
                None
            } else {
                Some((ts_end, p, q, t, r, lv))
            }
        }
    }
}

/// Optional whitespace, `:`, then at least one whitespace character, at `e`.
pub open spec fn colon_sep_at(l: Seq<char>, e: int) -> bool {
    let c: int = e + ws_run(l, e);
    c + 1 < l.len() && l[c] == ':' && is_ws(l[c + 1])
}

/// Where the message starts once the `: ` separator at `e` is skipped.
pub open spec fn message_start(l: Seq<char>, e: int) -> int {
    let c: int = e + ws_run(l, e);
    c + 1 + ws_run(l, c + 1)
}

/// `l[s..e]` can be the tag of a threadtime line.
pub open spec fn tag_end_ok(l: Seq<char>, s: int, e: int) -> bool {
    s < e <= l.len() && no_newline(l, s, e) && colon_sep_at(l, e)
}

pub open spec fn has_tag_end(l: Seq<char>, s: int) -> bool {
    exists|e: int| tag_end_ok(l, s, e)
}

/// `e` is the shortest tag end from `s`.
pub open spec fn first_tag_end(l: Seq<char>, s: int, e: int) -> bool {
    tag_end_ok(l, s, e) && forall|e2: int| s < e2 < e ==> !tag_end_ok(l, s, e2)
}

/// The tag spans `l[s..e]` when the whitespace after the level letter is
/// `l[from..to]`: the tag starts as late as possible in that run, and is
/// as short as possible.
pub open spec fn tt_split(l: Seq<char>, from: int, to: int, s: int, e: int) -> bool {
    &&& from < s <= to
    &&& first_tag_end(l, s, e)
    &&& forall|s2: int| s < s2 <= to ==> !has_tag_end(l, s2)
}

/// The entry a threadtime line denotes, if it is one.
pub open spec fn spec_threadtime(l: Seq<char>) -> Option<EntryView> {
    match tt_head(l) {
        None => None,
        Some((ts_end, p, q, t, r, lv)) => {
            let from: int = lv + 1;
            let to: int = from + ws_run(l, from);
            if exists|s: int, e: int| tt_split(l, from, to, s, e) {
                let (s, e) = choose|s: int, e: int| tt_split(l, from, to, s, e);
                let m: int = message_start(l, e);
                Some(
                    EntryView {
                        timestamp: l.subrange(0, ts_end),
                        pid: match parse_u32_spec(l.subrange(p, q)) {
                            Some(v) => v,
                            None => 0,
                        },
                        tid: match parse_u32_spec(l.subrange(t, r)) {
                            Some(v) => v,
                            None => 0,
                        },
                        level: level_of_char(l[lv]),
                        tag: trim(l.subrange(s, e)),
                        message: l.subrange(m, line_end(l, m)),
                        raw: l,
                    },
                )
            } else {
                None
            }
        }
    }
}

/// The tail of a brief line after the tag ending at `e`:
/// `(<ws>PID):<ws>`. Gives the PID digit range and the message start.
pub open spec fn brief_tail(l: Seq<char>, e: int) -> Option<(int, int, int)> {
    if !(0 <= e < l.len() && l[e] == '(') {
        None
    } else {
        let a: int = e + 1 + ws_run(l, e + 1);
        let d: int = num_run(l, a) as int;
        if d > 0 && a + d + 2 < l.len() && l[a + d] == ')' && l[a + d + 1] == ':' && is_ws(
            l[a + d + 2],
        ) {
            Some((a, a + d, a + d + 2 + ws_run(l, a + d + 2)))
        } else {
            None
        }
    }
}

/// `l[2..e]` can be the tag of a brief line.
pub open spec fn brief_end_ok(l: Seq<char>, e: int) -> bool {
    2 < e <= l.len() && no_newline(l, 2, e) && brief_tail(l, e) is Some
}

pub open spec fn first_brief_end(l: Seq<char>, e: int) -> bool {
    brief_end_ok(l, e) && forall|e2: int| 2 < e2 < e ==> !brief_end_ok(l, e2)
}

/// The entry a brief line denotes, if it is one.
pub open spec fn spec_brief(l: Seq<char>) -> Option<EntryView> {
    if l.len() >= 2 && is_level_char(l[0]) && l[1] == '/' && exists|e: int|
        first_brief_end(l, e) {
        let e = choose|e: int| first_brief_end(l, e);
        let (a, b, m) = brief_tail(l, e)->0;
        Some(
            EntryView {
                timestamp: Seq::empty(),
                pid: match parse_u32_spec(l.subrange(a, b)) {
                    Some(v) => v,
                    None => 0,
                },
                tid: 0,
                level: level_of_char(l[0]),
                tag: trim(l.subrange(2, e)),
                message: l.subrange(m, line_end(l, m)),
                raw: l,
            },
        )
    } else {
        None
    }
}

/// A logcat section header such as `--------- beginning of main`.
pub open spec fn is_section_header(l: Seq<char>) -> bool {
    l.len() >= 9 && forall|i: int| 0 <= i < 9 ==> l[i] == '-'
}

/// What a raw logcat line denotes: nothing for blank lines and section
/// headers, otherwise a threadtime entry, a brief entry, or a continuation
/// line carrying the whole (right-trimmed) text as its message.
pub open spec fn spec_parse_line(line: Seq<char>) -> Option<EntryView> {
    let l = trim_end(line);
    if l.len() == 0 || is_section_header(l) {
        None
    } else if spec_threadtime(l) is Some {
        spec_threadtime(l)
    } else if spec_brief(l) is Some {
        spec_brief(l)
    } else {
        Some(
            EntryView {
                timestamp: Seq::empty(),
                pid: 0,
                tid: 0,
                level: LogLevel::Verbose,
                tag: Seq::empty(),
                message: l,
                raw: l,
            },
        )
    }
}

// ---------------------------------------------------------------------------
// Parsing
// ---------------------------------------------------------------------------

fn is_level_letter(c: char) -> (b: bool)
    ensures
        b == is_level_char(c),
{
    c == 'V' || c == 'D' || c == 'I' || c == 'W' || c == 'E' || c == 'F' || c == 'S'
}

fn clock_at_exec(l: &Vec<char>, a: usize) -> (b: bool)
    ensures
        b == clock_at(l@, a as int),
{
    if a > l.len() || l.len() - a < 12 {
        return false;
    }
    log_digit_exec(l[a]) && log_digit_exec(l[a + 1]) && l[a + 2] == ':' && log_digit_exec(l[a + 3])
        && log_digit_exec(l[a + 4]) && l[a + 5] == ':' && log_digit_exec(l[a + 6]) && log_digit_exec(
        l[a + 7],
    ) && l[a + 8] == '.' && log_digit_exec(l[a + 9]) && log_digit_exec(l[a + 10])
        && log_digit_exec(l[a + 11])
}

fn tt_head_exec(l: &Vec<char>) -> (r: Option<(usize, usize, usize, usize, usize, usize)>)
    ensures
        match r {
            Some((ts_end, p, q, t, rr, lv)) => tt_head(l@) == Some(
                (ts_end as int, p as int, q as int, t as int, rr as int, lv as int),
            ) && ts_end <= p <= q <= t <= rr <= lv && lv < l.len(),
            None => tt_head(l@) is None,
        },
{
    if !(l.len() >= 5 && log_digit_exec(l[0]) && log_digit_exec(l[1]) && l[2] == '-'
        && log_digit_exec(l[3]) && log_digit_exec(l[4])) {
        return None;
    }
    let w0 = ws_run_at(l, 5);
    let a = 5 + w0;
    if w0 == 0 || !clock_at_exec(l, a) {
        return None;
    }
    let ts_end = a + 12;
    let w1 = ws_run_at(l, ts_end);
    let p = ts_end + w1;
    let d1 = num_run_at(l, p);
    let q = p + d1;
    let w2 = ws_run_at(l, q);
    let t = q + w2;
    let d2 = num_run_at(l, t);
    let rr = t + d2;
    let w3 = ws_run_at(l, rr);
    let lv = rr + w3;
    if w1 == 0 || d1 == 0 || w2 == 0 || d2 == 0 || w3 == 0 || !(lv < l.len() && is_level_letter(
        l[lv],
    )) {
        return None;
    }
    Some((ts_end, p, q, t, rr, lv))
}

fn colon_sep_exec(l: &Vec<char>, e: usize) -> (b: bool)
    requires
        e <= l@.len(),
    ensures
        b == colon_sep_at(l@, e as int),
{
    let c = e + ws_run_at(l, e);
    c < l.len() && l.len() - c > 1 && l[c] == ':' && is_whitespace_char(l[c + 1])
}

fn message_start_exec(l: &Vec<char>, e: usize) -> (m: usize)
    requires
        e <= l@.len(),
        colon_sep_at(l@, e as int),
    ensures
        m == message_start(l@, e as int),
        m <= l@.len(),
{
    let c = e + ws_run_at(l, e);
    c + 1 + ws_run_at(l, c + 1)
}

/// The shortest threadtime tag end from `s`, if any.
fn find_tag_end(l: &Vec<char>, s: usize) -> (r: Option<usize>)
    requires
        s <= l@.len(),
    ensures
        match r {
            Some(e) => first_tag_end(l@, s as int, e as int),
            None => !has_tag_end(l@, s as int),
        },
{
    if s >= l.len() {
        assert forall|e: int| !tag_end_ok(l@, s as int, e) by {}
        return None;
    }
    let mut e = s + 1;
    loop
        invariant
            s < e <= l.len(),
            no_newline(l@, s as int, e - 1),
            forall|e2: int| s < e2 < e ==> !tag_end_ok(l@, s as int, e2),
        decreases l@.len() - e,
    {
        if l[e - 1] == '\n' {
            assert forall|e2: int| !tag_end_ok(l@, s as int, e2) by {
                if e2 >= e {
                    assert(!no_newline(l@, s as int, e2));
                }
            }
            return None;
        }
        if colon_sep_exec(l, e) {
            return Some(e);
        }
        if e == l.len() {
            assert forall|e2: int| !tag_end_ok(l@, s as int, e2) by {}
            return None;
        }
        e = e + 1;
    }
}

proof fn lemma_tt_split_unique(l: Seq<char>, from: int, to: int, s1: int, e1: int, s2: int, e2: int)
    requires
        tt_split(l, from, to, s1, e1),
        tt_split(l, from, to, s2, e2),
    ensures
        s1 == s2 && e1 == e2,
{
    if s1 < s2 {
        assert(tag_end_ok(l, s2, e2));
        assert(has_tag_end(l, s2));
    } else if s2 < s1 {
        assert(tag_end_ok(l, s1, e1));
        assert(has_tag_end(l, s1));
    }
}

proof fn lemma_brief_unique(l: Seq<char>, e1: int, e2: int)
    requires
        first_brief_end(l, e1),
        first_brief_end(l, e2),
    ensures
        e1 == e2,
{
}

fn build_entry(
    l: &Vec<char>,
    ts_end: usize,
    pid: u32,
    tid: u32,
    level: LogLevel,
    tag_from: usize,
    tag_to: usize,
    msg_from: usize,
    msg_to: usize,
) -> (e: LogEntry)
    requires
        ts_end <= l@.len(),
        tag_from <= tag_to <= l@.len(),
        msg_from <= msg_to <= l@.len(),
    ensures
        e@ == (EntryView {
            timestamp: l@.subrange(0, ts_end as int),
            pid,
            tid,
            level,
            tag: l@.subrange(tag_from as int, tag_to as int),
            message: l@.subrange(msg_from as int, msg_to as int),
            raw: l@,
        }),
{
    let raw = string_of_range(l, 0, l.len());
    assert(l@.subrange(0, l@.len() as int) =~= l@);
    LogEntry {
        timestamp: string_of_range(l, 0, ts_end),
        pid,
        tid,
        level,
        tag: string_of_range(l, tag_from, tag_to),
        message: string_of_range(l, msg_from, msg_to),
        raw,
    }
}

fn parse_or_zero(l: &Vec<char>, from: usize, to: usize) -> (v: u32)
    requires
        from <= to <= l@.len(),
    ensures
        v == (match parse_u32_spec(l@.subrange(from as int, to as int)) {
            Some(x) => x,
            None => 0,
        }),
{
    match parse_u32_range(l, from, to) {
        Some(x) => x,
        None => 0,
    }
}

/// Parses `l` as a threadtime line.
fn parse_threadtime(l: &Vec<char>) -> (r: Option<LogEntry>)
    ensures
        entry_opt_view(r) == spec_threadtime(l@),
{
    let head = tt_head_exec(l);
    let (ts_end, p, q, t, rr, lv) = match head {
        Some(h) => h,
        None => {
            return None;
        },
    };
    let from = lv + 1;
    let w = ws_run_at(l, from);
    let to = from + w;
    let mut k = w;
    while k > 0
        invariant
            k <= w,
            from + w == to,
            from == lv + 1,
            w == ws_run(l@, from as int),
            ts_end <= p <= q <= t <= rr <= lv,
            lv < l.len(),
            tt_head(l@) == Some(
                (ts_end as int, p as int, q as int, t as int, rr as int, lv as int),
            ),
            to <= l@.len(),
            forall|s2: int| from + k < s2 <= to ==> !has_tag_end(l@, s2),
        decreases k,
    {
        let s = from + k;
        match find_tag_end(l, s) {
            Some(e) => {
                let ghost gs = s as int;
                let ghost ge = e as int;
                assert(tt_split(l@, from as int, to as int, gs, ge));
                proof {
                    let pair = choose|s: int, e: int| tt_split(l@, from as int, to as int, s, e);
                    lemma_tt_split_unique(l@, from as int, to as int, pair.0, pair.1, gs, ge);
                }
                let (ta, tb) = trim_range(l, s, e);
                let m = message_start_exec(l, e);
                proof {
                    lemma_line_end_bounds(l@, m as int);
                }
                let me = line_end_at(l, m);
                let pid = parse_or_zero(l, p, q);
                let tid = parse_or_zero(l, t, rr);
                let level = LogLevel::from_char(l[lv]);
                return Some(build_entry(l, ts_end, pid, tid, level, ta, tb, m, me));
            },
            None => {
                k = k - 1;
            },
        }
    }
    assert(!exists|s: int, e: int| tt_split(l@, from as int, to as int, s, e)) by {
        assert forall|s: int, e: int| !tt_split(l@, from as int, to as int, s, e) by {
            if tt_split(l@, from as int, to as int, s, e) {
                assert(tag_end_ok(l@, s, e));
                assert(has_tag_end(l@, s));
            }
        }
    }
    None
}

fn brief_tail_exec(l: &Vec<char>, e: usize) -> (r: Option<(usize, usize, usize)>)
    requires
        e <= l@.len(),
    ensures
        match r {
            Some((a, b, m)) => brief_tail(l@, e as int) == Some((a as int, b as int, m as int))
                && a <= b <= m <= l@.len(),
            None => brief_tail(l@, e as int) is None,
        },
{
    if !(e < l.len() && l[e] == '(') {
        return None;
    }
    let a = e + 1 + ws_run_at(l, e + 1);
    let d = num_run_at(l, a);
    let b = a + d;
    if d > 0 && b < l.len() && l.len() - b > 2 && l[b] == ')' && l[b + 1] == ':'
        && is_whitespace_char(l[b + 2]) {
        let m = b + 2 + ws_run_at(l, b + 2);
        Some((a, b, m))
    } else {
        None
    }
}

/// Parses `l` as a brief line.
fn parse_brief(l: &Vec<char>) -> (r: Option<LogEntry>)
    ensures
        entry_opt_view(r) == spec_brief(l@),
{
    if !(l.len() >= 2 && is_level_letter(l[0]) && l[1] == '/') {
        return None;
    }
    if l.len() < 3 {
        assert forall|e2: int| !first_brief_end(l@, e2) by {}
        return None;
    }
    let mut e: usize = 3;
    loop
        invariant
            3 <= e <= l.len(),
            l@.len() >= 2,
            is_level_char(l@[0]) && l@[1] == '/',
            no_newline(l@, 2, e - 1),
            forall|e2: int| 2 < e2 < e ==> !brief_end_ok(l@, e2),
        decreases l@.len() - e,
    {
        if l[e - 1] == '\n' {
            assert forall|e2: int| !first_brief_end(l@, e2) by {
                if e2 >= e {
                    assert(!no_newline(l@, 2, e2));
                }
            }
            return None;
        }
        match brief_tail_exec(l, e) {
            Some((a, b, m)) => {
                assert(first_brief_end(l@, e as int));
                proof {
                    let c = choose|e: int| first_brief_end(l@, e);
                    lemma_brief_unique(l@, c, e as int);
                }
                let (ta, tb) = trim_range(l, 2, e);
                proof {
                    lemma_line_end_bounds(l@, m as int);
                }
                let me = line_end_at(l, m);
                let pid = parse_or_zero(l, a, b);
                let level = LogLevel::from_char(l[0]);
                let entry = LogEntry {
                    timestamp: String::new(),
                    pid,
                    tid: 0,
                    level,
                    tag: string_of_range(l, ta, tb),
                    message: string_of_range(l, m, me),
                    raw: string_of_range(l, 0, l.len()),
                };
                assert(l@.subrange(0, l@.len() as int) =~= l@);
                return Some(entry);
            },
            None => {},
        }
        if e == l.len() {
            assert forall|e2: int| !first_brief_end(l@, e2) by {}
            return None;
        }
        e = e + 1;
    }
}

/// Parses one line of `adb logcat` output.
///
/// Blank lines and `---------` section headers give `None`. A threadtime
/// line, else a brief line, gives its fields (an unparsable PID or TID
/// counts as 0); any other line is a continuation whose message is the whole
/// right-trimmed line.
pub fn parse_logcat_line(line: &str) -> (r: Option<LogEntry>)
    ensures
        entry_opt_view(r) == spec_parse_line(line@),
{
    let all = to_chars(line);
    let n = trim_end_range(&all, 0, all.len());
    assert(all@.subrange(0, all@.len() as int) =~= all@);
    let mut l: Vec<char> = Vec::new();
    let mut i: usize = 0;
    while i < n
        invariant
            i <= n <= all@.len(),
            l@ == all@.subrange(0, i as int),
        decreases n - i,
    {
        l.push(all[i]);
        assert(all@.subrange(0, i + 1) =~= all@.subrange(0, i as int).push(all@[i as int]));
        i = i + 1;
    }
    if l.len() == 0 {
        return None;
    }
    if l.len() >= 9 {
        let mut j: usize = 0;
        while j < 9 && l[j] == '-'
            invariant
                j <= 9 <= l@.len(),
                forall|k: int| 0 <= k < j ==> l@[k] == '-',
            decreases 9 - j,
        {
            j = j + 1;
        }
        if j == 9 {
            return None;
        }
    }
    let tt = parse_threadtime(&l);
    if tt.is_some() {
        return tt;
    }
    let br = parse_brief(&l);
    if br.is_some() {
        return br;
    }
    let text = string_of_range(&l, 0, l.len());
    assert(l@.subrange(0, l@.len() as int) =~= l@);
    Some(
        LogEntry {
            timestamp: String::new(),
            pid: 0,
            tid: 0,
            level: LogLevel::Verbose,
            tag: String::new(),
            message: text.clone(),
            raw: text,
        },
    )
}

} // verus!
