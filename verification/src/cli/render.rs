//! What the log view, the status bar and the input box show, as lines of
//! styled text. Drawing them on the terminal is left to the caller.
use vstd::prelude::*;
use crate::logs::formatter::{FormatConfig, LayoutMode, Preset};
use crate::adb::{AdbClient, DeviceView};
use crate::cli::completer::{Suggestion, SuggestionView, sug_views};
use crate::cli::tui::{App, AppView, LineView, LogLine, line_views};
use crate::logs::parser::{level_letter, EntryView, LogEntry, LogLevel};
use crate::text::{
    split_on, str_eq, spaces,
    find_from, lowercase, pad_right, to_lower, decimal, from_chars, is_ws, is_whitespace_char, push_char, push_decimal, push_str,
    starts_with, string_from, string_of_range, string_views, to_chars, trim_start,
};

verus! {

/// The colours the interface uses.
#[derive(Clone, Copy, Debug, PartialEq, Eq, Structural)]
pub enum Color {
    Black,
    Red,
    Green,
    Yellow,
    Blue,
    Magenta,
    Cyan,
    White,
    Gray,
    DarkGray,
    LightRed,
    LightGreen,
    LightYellow,
    LightBlue,
    LightMagenta,
    LightCyan,
}

/// Colours and modifiers of a piece of text; the default style sets none.
#[derive(Clone, Copy, Debug, PartialEq, Eq, Structural)]
pub struct TextStyle {
    pub fg: Option<Color>,
    pub bg: Option<Color>,
    pub bold: bool,
    pub dim: bool,
    pub italic: bool,
    pub underlined: bool,
}

pub open spec fn plain_style() -> TextStyle {
    TextStyle { fg: None, bg: None, bold: false, dim: false, italic: false, underlined: false }
}

pub fn default_style() -> (s: TextStyle)
    ensures
        s == plain_style(),
{
    TextStyle { fg: None, bg: None, bold: false, dim: false, italic: false, underlined: false }
}

/// A piece of text in one style.
pub struct StyledSpan {
    pub text: String,
    pub style: TextStyle,
}

pub struct SpanView {
    pub text: Seq<char>,
    pub style: TextStyle,
}

impl View for StyledSpan {
    type V = SpanView;

    open spec fn view(&self) -> SpanView {
        SpanView { text: self.text@, style: self.style }
    }
}

pub open spec fn span_views(v: Seq<StyledSpan>) -> Seq<SpanView> {
    v.map_values(|s: StyledSpan| s@)
}

/// Lines of styled text.
pub open spec fn lines_view(v: Seq<Vec<StyledSpan>>) -> Seq<Seq<SpanView>> {
    v.map_values(|l: Vec<StyledSpan>| span_views(l@))
}

pub open spec fn sv(text: Seq<char>, style: TextStyle) -> SpanView {
    SpanView { text, style }
}

pub fn span(text: String, style: TextStyle) -> (s: StyledSpan)
    ensures
        s@ == sv(text@, style),
{
    StyledSpan { text, style }
}

fn push_span(line: &mut Vec<StyledSpan>, s: StyledSpan)
    ensures
        span_views(final(line)@) == span_views(old(line)@).push(s@),
{
    let ghost before = span_views(line@);
    line.push(s);
    assert(span_views(line@) =~= before.push(s@));
}

pub open spec fn fg(c: Color) -> TextStyle {
    TextStyle { fg: Some(c), ..plain_style() }
}

/// How a level is coloured.
pub open spec fn level_style(l: LogLevel) -> TextStyle {
    match l {
        LogLevel::Verbose => TextStyle { fg: Some(Color::White), dim: true, ..plain_style() },
        LogLevel::Debug => fg(Color::Blue),
        LogLevel::Info => fg(Color::Green),
        LogLevel::Warn => fg(Color::Yellow),
        LogLevel::Error => fg(Color::Red),
        LogLevel::Fatal => TextStyle {
            fg: Some(Color::White),
            bg: Some(Color::Red),
            bold: true,
            ..plain_style()
        },
        LogLevel::Silent => TextStyle { fg: Some(Color::White), dim: true, ..plain_style() },
    }
}

pub fn level_style_exec(l: LogLevel) -> (s: TextStyle)
    ensures
        s == level_style(l),
{
    let d = default_style();
    match l {
        LogLevel::Verbose => TextStyle { fg: Some(Color::White), dim: true, ..d },
        LogLevel::Debug => TextStyle { fg: Some(Color::Blue), ..d },
        LogLevel::Info => TextStyle { fg: Some(Color::Green), ..d },
        LogLevel::Warn => TextStyle { fg: Some(Color::Yellow), ..d },
        LogLevel::Error => TextStyle { fg: Some(Color::Red), ..d },
        LogLevel::Fatal => TextStyle { fg: Some(Color::White), bg: Some(Color::Red), bold: true, ..d },
        LogLevel::Silent => TextStyle { fg: Some(Color::White), dim: true, ..d },
    }
}

/// The hash std's `DefaultHasher` (as created by `DefaultHasher::new`)
/// gives a string; a function of the string alone.
pub uninterp spec fn default_hash(s: Seq<char>) -> u64;

/// `BuildHasher::hash_one` with a builder of fresh `DefaultHasher`s: hashes
/// the string with a new `DefaultHasher` and returns `Hasher::finish`; the
/// result is named `default_hash`.
#[verifier::external_body]
fn hash_text(s: &str) -> (h: u64)
    ensures
        h == default_hash(s@),
{
    std::hash::BuildHasher::hash_one(
        &std::hash::BuildHasherDefault::<std::collections::hash_map::DefaultHasher>::default(),
        s,
    )
}

/// The colours tags are drawn in.
pub open spec fn tag_color(i: int) -> Color {
    if i == 0 {
        Color::Cyan
    } else if i == 1 {
        Color::Magenta
    } else if i == 2 {
        Color::LightBlue
    } else if i == 3 {
        Color::LightGreen
    } else if i == 4 {
        Color::LightYellow
    } else if i == 5 {
        Color::LightMagenta
    } else if i == 6 {
        Color::LightCyan
    } else if i == 7 {
        Color::Blue
    } else if i == 8 {
        Color::LightRed
    } else {
        Color::Yellow
    }
}

/// A tag keeps one colour, picked by its hash (taken as a `usize`).
pub open spec fn tag_style(tag: Seq<char>) -> TextStyle {
    fg(tag_color(((default_hash(tag) as usize) % 10) as int))
}

pub fn tag_style_exec(tag: &str) -> (s: TextStyle)
    ensures
        s == tag_style(tag@),
{
    let i = (hash_text(tag) as usize) % 10;
    let c = if i == 0 {
        Color::Cyan
    } else if i == 1 {
        Color::Magenta
    } else if i == 2 {
        Color::LightBlue
    } else if i == 3 {
        Color::LightGreen
    } else if i == 4 {
        Color::LightYellow
    } else if i == 5 {
        Color::LightMagenta
    } else if i == 6 {
        Color::LightCyan
    } else if i == 7 {
        Color::Blue
    } else if i == 8 {
        Color::LightRed
    } else {
        Color::Yellow
    };
    TextStyle { fg: Some(c), ..default_style() }
}

// ---------------------------------------------------------------------------
// Column widths
// ---------------------------------------------------------------------------

/// Widths of the columns of a log row; the message takes what is left, at
/// least 10.
#[derive(Clone, Copy, Debug, PartialEq, Eq, Structural)]
pub struct ColumnLayout {
    pub ts_w: usize,
    pub level_w: usize,
    pub pid_w: usize,
    pub tid_w: usize,
    pub tag_w: usize,
    pub prefix_w: usize,
    pub msg_w: usize,
}

pub open spec fn layout_of(cfg: FormatConfig, total_w: u16) -> ColumnLayout {
    let ts_w: usize = if cfg.timestamp { cfg.widths.timestamp as usize } else { 0 };
    let level_w: usize = if cfg.level { cfg.widths.level as usize } else { 0 };
    let pid_w: usize = if cfg.pid { cfg.widths.pid as usize } else { 0 };
    let tid_w: usize = if cfg.tid { cfg.widths.tid as usize } else { 0 };
    let tag_w: usize = if cfg.tag { cfg.widths.tag as usize } else { 0 };
    let prefix = ts_w + level_w + pid_w + tid_w + tag_w;
    let rest = if total_w >= prefix { total_w - prefix } else { 0 };
    ColumnLayout {
        ts_w,
        level_w,
        pid_w,
        tid_w,
        tag_w,
        prefix_w: prefix as usize,
        msg_w: (if rest >= 10 { rest } else { 10 }) as usize,
    }
}

/// The column widths for a view `total_w` columns wide.
pub fn compute_layout(cfg: &FormatConfig, total_w: u16) -> (l: ColumnLayout)
    ensures
        l == layout_of(*cfg, total_w),
{
    let ts_w: usize = if cfg.timestamp { cfg.widths.timestamp as usize } else { 0 };
    let level_w: usize = if cfg.level { cfg.widths.level as usize } else { 0 };
    let pid_w: usize = if cfg.pid { cfg.widths.pid as usize } else { 0 };
    let tid_w: usize = if cfg.tid { cfg.widths.tid as usize } else { 0 };
    let tag_w: usize = if cfg.tag { cfg.widths.tag as usize } else { 0 };
    let prefix_w = ts_w + level_w + pid_w + tid_w + tag_w;
    let total = total_w as usize;
    let rest = if total >= prefix_w { total - prefix_w } else { 0 };
    let msg_w = if rest >= 10 { rest } else { 10 };
    ColumnLayout { ts_w, level_w, pid_w, tid_w, tag_w, prefix_w, msg_w }
}

// ---------------------------------------------------------------------------
// Truncation
// ---------------------------------------------------------------------------

/// `s` cut to at most `max` characters, an ellipsis replacing the end.
pub open spec fn truncated(s: Seq<char>, max: int) -> Seq<char> {
    if s.len() <= max {
        s
    } else if max <= 0 {
        Seq::empty()
    } else if max == 1 {
        seq!['…']
    } else {
        s.take(max - 1).push('…')
    }
}

pub fn truncate_to_width(s: &str, max: usize) -> (r: String)
    ensures
        r@ == truncated(s@, max as int),
{
    let cs = to_chars(s);
    if cs.len() <= max {
        return string_from(s);
    }
    if max == 0 {
        return String::new();
    }
    if max == 1 {
        let mut r = String::new();
        push_char(&mut r, '…');
        return r;
    }
    let mut r = string_of_range(&cs, 0, max - 1);
    push_char(&mut r, '…');
    assert(cs@.subrange(0, max - 1) =~= cs@.take(max - 1));
    r
}

// ---------------------------------------------------------------------------
// Wrapping a message
// ---------------------------------------------------------------------------

/// Bytes of a character in UTF-8.
pub open spec fn utf8_len(c: char) -> nat {
    if (c as u32) < 0x80 {
        1
    } else if (c as u32) < 0x800 {
        2
    } else if (c as u32) < 0x10000 {
        3
    } else {
        4
    }
}

/// Bytes of a text in UTF-8.
pub open spec fn byte_len(s: Seq<char>) -> nat
    decreases s.len(),
{
    if s.len() == 0 {
        0
    } else {
        byte_len(s.drop_last()) + utf8_len(s.last())
    }
}

fn utf8_len_exec(c: char) -> (n: usize)
    ensures
        n == utf8_len(c),
{
    let u = c as u32;
    if u < 0x80 {
        1
    } else if u < 0x800 {
        2
    } else if u < 0x10000 {
        3
    } else {
        4
    }
}

/// A whitespace byte in ASCII (`u8::is_ascii_whitespace`).
pub open spec fn ascii_ws(c: char) -> bool {
    c == ' ' || c == '\t' || c == '\n' || c == '\x0C' || c == '\r'
}

/// The end of the longest run `s[i..e]` that fits in `width` bytes.
pub open spec fn fit_end(s: Seq<char>, i: int, width: int) -> int
    decreases s.len() - i,
{
    if i >= s.len() || utf8_len(s[i]) > width {
        i
    } else {
        fit_end(s, i + 1, width - utf8_len(s[i]))
    }
}

/// The last whitespace character in `s[i..e]`, if any.
pub open spec fn last_ws(s: Seq<char>, i: int, e: int) -> Option<int>
    decreases e - i,
{
    if e <= i {
        None
    } else if is_ws(s[e - 1]) {
        Some(e - 1)
    } else {
        last_ws(s, i, e - 1)
    }
}

/// Skips the ASCII whitespace at `i`.
pub open spec fn skip_ascii_ws(s: Seq<char>, i: int) -> int
    decreases s.len() - i,
{
    if 0 <= i < s.len() && ascii_ws(s[i]) {
        skip_ascii_ws(s, i + 1)
    } else {
        i
    }
}

/// Where the line starting at `i` breaks: at its last whitespace when that
/// lies beyond the first quarter of the line (in bytes), else as far as
/// `width` bytes reach.
pub open spec fn break_at(s: Seq<char>, i: int, width: int) -> int {
    let e = fit_end(s, i, width);
    let chunk = byte_len(s.subrange(i, e));
    match last_ws(s, i, e) {
        Some(p) => if byte_len(s.subrange(i, p)) > chunk / 4 {
            p
        } else {
            e
        },
        None => e,
    }
}

/// The lines `s[i..]` wraps into, at most `width` bytes each.
pub open spec fn wrap_from(s: Seq<char>, i: int, width: int) -> Seq<Seq<char>>
    decreases s.len() - i,
{
    if i < 0 || i >= s.len() || width < 1 {
        Seq::empty()
    } else if byte_len(s.subrange(i, s.len() as int)) <= width {
        seq![s.subrange(i, s.len() as int)]
    } else {
        let b = break_at(s, i, width);
        if b <= i || b > s.len() {
            Seq::empty()
        } else {
            proof {
                lemma_skip_ge(s, b);
            }
            seq![s.subrange(i, b)] + wrap_from(s, skip_ascii_ws(s, b), width)
        }
    }
}

/// A message wrapped to `width` bytes per line, breaking at whitespace
/// when it can.
pub open spec fn wrapped(s: Seq<char>, width: int) -> Seq<Seq<char>> {
    if width == 0 {
        seq![s]
    } else if s.len() == 0 {
        seq![Seq::empty()]
    } else {
        let l = wrap_from(s, 0, width);
        if l.len() == 0 {
            seq![Seq::empty()]
        } else {
            l
        }
    }
}

pub proof fn lemma_skip_ge(s: Seq<char>, i: int)
    ensures
        skip_ascii_ws(s, i) >= i,
        0 <= i <= s.len() ==> skip_ascii_ws(s, i) <= s.len(),
    decreases s.len() - i,
{
    if 0 <= i < s.len() && ascii_ws(s[i]) {
        lemma_skip_ge(s, i + 1);
    }
}

proof fn lemma_byte_len_step(s: Seq<char>, i: int, k: int)
    requires
        0 <= i <= k < s.len(),
    ensures
        byte_len(s.subrange(i, k + 1)) == byte_len(s.subrange(i, k)) + utf8_len(s[k]),
{
    assert(s.subrange(i, k + 1).drop_last() =~= s.subrange(i, k));
}

proof fn lemma_fit_end_bounds(s: Seq<char>, i: int, width: int)
    requires
        0 <= i <= s.len(),
    ensures
        i <= fit_end(s, i, width) <= s.len(),
    decreases s.len() - i,
{
    if i < s.len() && utf8_len(s[i]) <= width {
        lemma_fit_end_bounds(s, i + 1, width - utf8_len(s[i]));
    }
}

pub proof fn lemma_last_ws_bounds(s: Seq<char>, i: int, e: int)
    ensures
        last_ws(s, i, e) matches Some(p) ==> i <= p < e,
    decreases e - i,
{
    if e > i && !is_ws(s[e - 1]) {
        lemma_last_ws_bounds(s, i, e - 1);
    }
}

/// End of the longest run from `i` that fits in `width` bytes, and its
/// length in bytes.
fn fit_end_exec(s: &Vec<char>, i: usize, width: usize) -> (r: (usize, usize))
    requires
        i <= s@.len(),
        width <= usize::MAX / 2,
    ensures
        r.0 == fit_end(s@, i as int, width as int),
        r.1 == byte_len(s@.subrange(i as int, r.0 as int)),
        i <= r.0 <= s@.len(),
        r.1 <= width,
{
    let mut k = i;
    let mut acc: usize = 0;
    assert(s@.subrange(i as int, i as int) =~= Seq::<char>::empty());
    while k < s.len() && acc + utf8_len_exec(s[k]) <= width
        invariant
            i <= k <= s@.len(),
            acc <= width,
            width <= usize::MAX / 2,
            acc == byte_len(s@.subrange(i as int, k as int)),
            fit_end(s@, i as int, width as int) == fit_end(s@, k as int, width - acc),
        decreases s@.len() - k,
    {
        proof {
            lemma_byte_len_step(s@, i as int, k as int);
        }
        acc = acc + utf8_len_exec(s[k]);
        k = k + 1;
    }
    (k, acc)
}

fn last_ws_exec(s: &Vec<char>, i: usize, e: usize) -> (r: Option<usize>)
    requires
        i <= e <= s@.len(),
    ensures
        match r {
            Some(p) => last_ws(s@, i as int, e as int) == Some(p as int),
            None => last_ws(s@, i as int, e as int) is None,
        },
{
    let mut k = e;
    while k > i && !is_whitespace_char(s[k - 1])
        invariant
            i <= k <= e <= s@.len(),
            last_ws(s@, i as int, e as int) == last_ws(s@, i as int, k as int),
        decreases k,
    {
        k = k - 1;
    }
    if k > i {
        Some(k - 1)
    } else {
        None
    }
}

fn byte_count(s: &Vec<char>, i: usize, e: usize, cap: usize) -> (r: usize)
    requires
        i <= e <= s@.len(),
        byte_len(s@.subrange(i as int, e as int)) <= cap,
        cap <= usize::MAX / 2,
    ensures
        r == byte_len(s@.subrange(i as int, e as int)),
{
    let mut k = i;
    let mut acc: usize = 0;
    assert(s@.subrange(i as int, i as int) =~= Seq::<char>::empty());
    while k < e
        invariant
            i <= k <= e <= s@.len(),
            acc == byte_len(s@.subrange(i as int, k as int)),
            byte_len(s@.subrange(i as int, e as int)) <= cap,
            cap <= usize::MAX / 2,
        decreases e - k,
    {
        proof {
            lemma_byte_len_step(s@, i as int, k as int);
            lemma_byte_len_prefix(s@, i as int, k + 1, e as int);
        }
        acc = acc + utf8_len_exec(s[k]);
        k = k + 1;
    }
    acc
}

proof fn lemma_byte_len_prefix(s: Seq<char>, i: int, k: int, e: int)
    requires
        0 <= i <= k <= e <= s.len(),
    ensures
        byte_len(s.subrange(i, k)) <= byte_len(s.subrange(i, e)),
    decreases e - k,
{
    if k < e {
        lemma_byte_len_prefix(s, i, k, e - 1);
        lemma_byte_len_step(s, i, e - 1);
    }
}

/// Whether `s[i..]` takes more than `width` bytes.
fn exceeds(s: &Vec<char>, i: usize, width: usize) -> (r: bool)
    requires
        i <= s@.len(),
        width <= usize::MAX / 2,
    ensures
        r == (byte_len(s@.subrange(i as int, s@.len() as int)) > width),
{
    let (e, n) = fit_end_exec(s, i, width);
    proof {
        lemma_fit_end_exact(s@, i as int, width as int);
    }
    e < s.len()
}

/// The run fitting in `width` bytes reaches the end exactly when the whole
/// rest fits.
proof fn lemma_fit_end_exact(s: Seq<char>, i: int, width: int)
    requires
        0 <= i <= s.len(),
        width >= 0,
    ensures
        (fit_end(s, i, width) == s.len()) <==> byte_len(s.subrange(i, s.len() as int)) <= width,
    decreases s.len() - i,
{
    if i == s.len() {
        assert(s.subrange(i, i) =~= Seq::<char>::empty());
        assert(byte_len(Seq::<char>::empty()) == 0);
    } else {
        lemma_rest_bytes(s, i);
        if utf8_len(s[i]) <= width {
            lemma_fit_end_exact(s, i + 1, width - utf8_len(s[i]));
        } else {
            lemma_fit_end_bounds(s, i, width);
        }
    }
}

/// The bytes from `i` on: those of `s[i]`, then the rest.
proof fn lemma_rest_bytes(s: Seq<char>, i: int)
    requires
        0 <= i < s.len(),
    ensures
        byte_len(s.subrange(i, s.len() as int)) == utf8_len(s[i]) + byte_len(
            s.subrange(i + 1, s.len() as int),
        ),
    decreases s.len() - i,
{
    lemma_bytes_split(s.subrange(i, s.len() as int), 1);
    assert(s.subrange(i, s.len() as int).subrange(0, 1) =~= seq![s[i]]);
    assert(s.subrange(i, s.len() as int).subrange(1, s.len() - i) =~= s.subrange(i + 1, s.len() as int));
    assert(seq![s[i]].drop_last() =~= Seq::<char>::empty());
    assert(byte_len(Seq::<char>::empty()) == 0);
    assert(byte_len(seq![s[i]]) == utf8_len(s[i]));
}

/// Bytes add up over a split.
pub proof fn lemma_bytes_split(s: Seq<char>, k: int)
    requires
        0 <= k <= s.len(),
    ensures
        byte_len(s) == byte_len(s.subrange(0, k)) + byte_len(s.subrange(k, s.len() as int)),
    decreases s.len() - k,
{
    if k == s.len() {
        assert(s.subrange(0, k) =~= s);
        assert(s.subrange(k, k) =~= Seq::<char>::empty());
    } else {
        lemma_bytes_split(s.drop_last(), if k < s.len() { k } else { k - 1 });
        assert(s.drop_last().subrange(0, k) =~= s.subrange(0, k));
        assert(s.subrange(k, s.len() as int).drop_last() =~= s.drop_last().subrange(k, s.len() - 1));
    }
}

/// Every character of `s` takes at most `width` bytes in UTF-8 (always so
/// from four bytes on).
pub open spec fn chars_fit(s: Seq<char>, width: int) -> bool {
    forall|k: int| 0 <= k < s.len() ==> utf8_len(#[trigger] s[k]) <= width
}

/// Wraps a message to lines of at most `width` bytes, breaking after the
/// last whitespace in the line when it lies past its first quarter. A
/// width of 0 leaves the text whole. A width below four bytes needs every
/// character to fit in it (any ASCII text does); otherwise a character
/// wider than the width could never be placed.
pub fn wrap_text(text: &str, width: usize) -> (r: Vec<String>)
    requires
        width == 0 || (width <= usize::MAX / 2 && (width >= 4 || chars_fit(text@, width as int))),
    ensures
        string_views(r@) == wrapped(text@, width as int),
{
    if width == 0 {
        let r = vec![string_from(text)];
        assert(string_views(r@) =~= seq![text@]);
        return r;
    }
    let s = to_chars(text);
    if s.len() == 0 {
        let r = vec![String::new()];
        assert(string_views(r@) =~= seq![Seq::<char>::empty()]);
        return r;
    }
    assert(chars_fit(s@, width as int)) by {
        assert forall|k: int| 0 <= k < s@.len() implies utf8_len(#[trigger] s@[k]) <= width by {
            if width < 4 {
                assert(utf8_len(text@[k]) <= width);
            }
        }
    }
    let mut lines: Vec<String> = Vec::new();
    let mut i: usize = 0;
    while i < s.len()
        invariant
            i <= s@.len(),
            1 <= width <= usize::MAX / 2,
            chars_fit(s@, width as int),
            s@ == text@,
            s@.len() > 0,
            string_views(lines@) + wrap_from(s@, i as int, width as int) == wrap_from(s@, 0, width as int),
            i > 0 ==> string_views(lines@).len() > 0,
        decreases s@.len() - i,
    {
        let ghost before = string_views(lines@);
        if !exceeds(&s, i, width) {
            lines.push(string_of_range(&s, i, s.len()));
            proof {
                assert(string_views(lines@) =~= before.push(s@.subrange(i as int, s@.len() as int)));
                assert(wrap_from(s@, s@.len() as int, width as int) =~= Seq::<Seq<char>>::empty());
            }
            i = s.len();
        } else {
            let (e, chunk) = fit_end_exec(&s, i, width);
            proof {
                lemma_fit_end_bounds(s@, i as int, width as int);
                lemma_last_ws_bounds(s@, i as int, e as int);
            }
            assert(e > i) by {
                assert(utf8_len(s@[i as int]) <= width);
                lemma_fit_end_bounds(s@, i + 1, width - utf8_len(s@[i as int]));
            }
            let b = match last_ws_exec(&s, i, e) {
                Some(p) => {
                    proof {
                        lemma_byte_len_prefix(s@, i as int, p as int, e as int);
                    }
                    let pb = byte_count(&s, i, p, width);
                    if pb > chunk / 4 {
                        p
                    } else {
                        e
                    }
                },
                None => e,
            };
            assert(b == break_at(s@, i as int, width as int));
            assert(b > i) by {
                if b != e {
                    assert(byte_len(s@.subrange(i as int, b as int)) > 0);
                    if b == i {
                        assert(s@.subrange(i as int, i as int) =~= Seq::<char>::empty());
                    }
                }
            }
            lines.push(string_of_range(&s, i, b));
            let mut j = b;
            while j < s.len() && (s[j] == ' ' || s[j] == '\t' || s[j] == '\n' || s[j] == '\x0C' || s[j] == '\r')
                invariant
                    b <= j <= s@.len(),
                    skip_ascii_ws(s@, b as int) == skip_ascii_ws(s@, j as int),
                decreases s@.len() - j,
            {
                j = j + 1;
            }
            proof {
                assert(string_views(lines@) =~= before.push(s@.subrange(i as int, b as int)));
                assert(seq![s@.subrange(i as int, b as int)] + wrap_from(s@, j as int, width as int)
                    == wrap_from(s@, i as int, width as int));
                assert(before + wrap_from(s@, i as int, width as int) =~= string_views(lines@)
                    + wrap_from(s@, j as int, width as int));
            }
            i = j;
        }
    }
    proof {
        assert(wrap_from(s@, i as int, width as int) =~= Seq::<Seq<char>>::empty());
        assert(string_views(lines@) =~= wrap_from(s@, 0, width as int));
    }
    lines
}

// ---------------------------------------------------------------------------
// Highlighting
// ---------------------------------------------------------------------------

/// How matches of the search text are shown.
pub open spec fn hl_style() -> TextStyle {
    TextStyle { fg: Some(Color::Black), bg: Some(Color::Yellow), bold: true, ..plain_style() }
}

/// Spans of `text[pos..]`: the matches of `ln` in `lower` (the lower-cased
/// text) highlighted, the rest in `base`.
pub open spec fn hl_from(text: Seq<char>, lower: Seq<char>, ln: Seq<char>, base: TextStyle, pos: int) -> Seq<SpanView>
    decreases text.len() - pos,
{
    if pos < 0 || pos > text.len() || ln.len() == 0 {
        Seq::empty()
    } else {
        match find_from(lower, ln, pos) {
            Some(abs) => if abs < pos || abs + ln.len() > text.len() {
                Seq::empty()
            } else {
                (if abs > pos {
                    seq![sv(text.subrange(pos, abs), base)]
                } else {
                    Seq::empty()
                }) + seq![sv(text.subrange(abs, abs + ln.len()), hl_style())] + hl_from(
                    text,
                    lower,
                    ln,
                    base,
                    abs + ln.len(),
                )
            },
            None => if pos < text.len() {
                seq![sv(text.subrange(pos, text.len() as int), base)]
            } else {
                Seq::empty()
            },
        }
    }
}

/// `text` in style `base` with the occurrences of `needle` (ignoring case)
/// highlighted. When lower-casing changes the length of the text or of the
/// search text, nothing is highlighted.
pub open spec fn highlighted(text: Seq<char>, needle: Seq<char>, base: TextStyle) -> Seq<SpanView> {
    let lower = lowercase(text);
    let ln = lowercase(needle);
    if needle.len() == 0 || lower.len() != text.len() || ln.len() != needle.len() {
        seq![sv(text, base)]
    } else {
        let r = hl_from(text, lower, ln, base, 0);
        if r.len() == 0 {
            seq![sv(text, base)]
        } else {
            r
        }
    }
}

/// First occurrence of `needle` in `hay` at or after `start`.
fn find_after(hay: &Vec<char>, needle: &Vec<char>, start: usize) -> (r: Option<usize>)
    requires
        start <= hay@.len(),
        needle@.len() >= 1,
    ensures
        match r {
            Some(i) => find_from(hay@, needle@, start as int) == Some(i as int) && start <= i
                && i + needle@.len() <= hay@.len(),
            None => find_from(hay@, needle@, start as int) is None,
        },
{
    let mut i = start;
    while i <= hay.len() && needle.len() <= hay.len() - i
        invariant
            start <= i <= hay@.len(),
            needle@.len() >= 1,
            find_from(hay@, needle@, start as int) == find_from(hay@, needle@, i as int),
        decreases hay@.len() + 1 - i,
    {
        if crate::text::occurs_at_exec(hay, needle, i) {
            return Some(i);
        }
        i = i + 1;
    }
    None
}

/// Highlights the occurrences of `needle` in `text`, ignoring case.
pub fn highlight_spans(text: &str, needle: &str, base: TextStyle) -> (r: Vec<StyledSpan>)
    ensures
        span_views(r@) == highlighted(text@, needle@, base),
{
    let lower_s = to_lower(text);
    let ln_s = to_lower(needle);
    let tv = to_chars(text);
    let lower = to_chars(lower_s.as_str());
    let ln = to_chars(ln_s.as_str());
    let nl = needle.unicode_len();
    let mut r: Vec<StyledSpan> = Vec::new();
    if nl == 0 || lower.len() != tv.len() || ln.len() != nl {
        push_span(&mut r, span(string_from(text), base));
        assert(span_views(r@) =~= seq![sv(text@, base)]);
        return r;
    }
    let hl = TextStyle { fg: Some(Color::Black), bg: Some(Color::Yellow), bold: true, ..default_style() };
    let mut pos: usize = 0;
    let mut done = false;
    while !done
        invariant
            pos <= tv@.len(),
            tv@ == text@,
            lower@ == lowercase(text@),
            ln@ == lowercase(needle@),
            lower@.len() == tv@.len(),
            ln@.len() == nl,
            nl >= 1,
            hl == hl_style(),
            !done ==> span_views(r@) + hl_from(tv@, lower@, ln@, base, pos as int) == hl_from(
                tv@,
                lower@,
                ln@,
                base,
                0,
            ),
            done ==> span_views(r@) == hl_from(tv@, lower@, ln@, base, 0),
        decreases tv@.len() - pos, (if done { 0int } else { 1int }),
    {
        let ghost before = span_views(r@);
        match find_after(&lower, &ln, pos) {
            Some(abs) => {
                assert(abs + ln@.len() <= lower@.len());
                let tlen: usize = tv.len();
                assert(abs + nl <= tlen);
                if abs > pos {
                    push_span(&mut r, span(string_of_range(&tv, pos, abs), base));
                }
                push_span(&mut r, span(string_of_range(&tv, abs, abs + nl), hl));
                proof {
                    let piece = (if abs > pos {
                        seq![sv(tv@.subrange(pos as int, abs as int), base)]
                    } else {
                        Seq::<SpanView>::empty()
                    }) + seq![sv(tv@.subrange(abs as int, abs + nl), hl_style())];
                    assert(span_views(r@) =~= before + piece);
                    assert(hl_from(tv@, lower@, ln@, base, pos as int) == piece + hl_from(
                        tv@,
                        lower@,
                        ln@,
                        base,
                        abs + nl,
                    ));
                    assert(before + hl_from(tv@, lower@, ln@, base, pos as int) =~= span_views(r@)
                        + hl_from(tv@, lower@, ln@, base, abs + nl));
                }
                pos = abs + nl;
            },
            None => {
                if pos < tv.len() {
                    push_span(&mut r, span(string_of_range(&tv, pos, tv.len()), base));
                }
                proof {
                    let piece = if pos < tv@.len() {
                        seq![sv(tv@.subrange(pos as int, tv@.len() as int), base)]
                    } else {
                        Seq::<SpanView>::empty()
                    };
                    assert(span_views(r@) =~= before + piece);
                }
                done = true;
            },
        }
    }
    if r.len() == 0 {
        push_span(&mut r, span(string_from(text), base));
        assert(span_views(r@) =~= seq![sv(text@, base)]);
    }
    r
}

// ---------------------------------------------------------------------------
// A log entry as lines
// ---------------------------------------------------------------------------

/// `s` with each `"` escaped as `\"`.
pub open spec fn escape_quotes(s: Seq<char>) -> Seq<char>
    decreases s.len(),
{
    if s.len() == 0 {
        s
    } else {
        escape_quotes(s.drop_last()) + if s.last() == '"' {
            seq!['\\', '"']
        } else {
            seq![s.last()]
        }
    }
}

/// `s` with each line break written as `\n`.
pub open spec fn escape_newlines(s: Seq<char>) -> Seq<char>
    decreases s.len(),
{
    if s.len() == 0 {
        s
    } else {
        escape_newlines(s.drop_last()) + if s.last() == '\n' {
            seq!['\\', 'n']
        } else {
            seq![s.last()]
        }
    }
}

fn escape_char(s: &str, c: char, rep: char) -> (r: String)
    ensures
        (c == '"' && rep == '"') ==> r@ == escape_quotes(s@),
        (c == '\n' && rep == 'n') ==> r@ == escape_newlines(s@),
{
    let v = to_chars(s);
    let mut r = String::new();
    let mut i: usize = 0;
    while i < v.len()
        invariant
            i <= v@.len(),
            v@ == s@,
            (c == '"' && rep == '"') ==> r@ == escape_quotes(v@.take(i as int)),
            (c == '\n' && rep == 'n') ==> r@ == escape_newlines(v@.take(i as int)),
        decreases v@.len() - i,
    {
        assert(v@.take(i + 1).drop_last() =~= v@.take(i as int));
        if v[i] == c {
            push_char(&mut r, '\\');
            push_char(&mut r, rep);
        } else {
            push_char(&mut r, v[i]);
        }
        i = i + 1;
    }
    assert(v@.take(v@.len() as int) =~= v@);
    r
}

/// The JSON form of an entry.
pub open spec fn entry_json(e: EntryView) -> Seq<char> {
    "{\"timestamp\":\""@ + e.timestamp + "\",\"level\":\""@ + seq![level_letter(e.level)]
        + "\",\"pid\":"@ + decimal(e.pid as nat) + ",\"tid\":"@ + decimal(e.tid as nat)
        + ",\"tag\":\""@ + escape_quotes(e.tag) + "\",\"message\":\""@ + escape_newlines(
        escape_quotes(e.message),
    ) + "\"}"@
}

pub open spec fn dim_style() -> TextStyle {
    TextStyle { dim: true, ..plain_style() }
}

pub open spec fn gray() -> TextStyle {
    fg(Color::Gray)
}

/// Markers of stack-trace lines.
pub open spec fn is_stack_line(m: Seq<char>) -> bool {
    let t = trim_start(m);
    starts_with(t, "at "@) || starts_with(t, "Caused by:"@) || starts_with(t, "java."@)
        || starts_with(t, "kotlin."@) || starts_with(t, "android."@)
}

/// How a stack-trace line is shown.
pub open spec fn stack_style() -> TextStyle {
    TextStyle { fg: Some(Color::Red), dim: true, italic: true, ..plain_style() }
}

pub open spec fn part_if_spans(cond: bool, spans: Seq<SpanView>) -> Seq<SpanView> {
    if cond {
        spans
    } else {
        Seq::empty()
    }
}

/// The spans that follow a column: none, one space or two.
pub open spec fn sep_spans(sep: int) -> Seq<SpanView> {
    if sep == 1 {
        seq![sv(" "@, plain_style())]
    } else if sep == 2 {
        seq![sv("  "@, plain_style())]
    } else {
        Seq::empty()
    }
}

/// A column shown when `cond` holds: its text, then its separator.
pub open spec fn column(cond: bool, text: Seq<char>, style: TextStyle, sep: int) -> Seq<SpanView> {
    part_if_spans(cond, seq![sv(text, style)] + sep_spans(sep))
}

/// The message of the compact line, cut to the message width and, when
/// there is a search text, highlighted.
pub open spec fn compact_message(e: EntryView, l: ColumnLayout, cfg: FormatConfig, hl: Seq<char>) -> Seq<SpanView> {
    part_if_spans(
        cfg.message && e.message.len() > 0,
        if hl.len() > 0 {
            highlighted(truncated(e.message, l.msg_w as int), hl, level_style(e.level))
        } else {
            seq![sv(truncated(e.message, l.msg_w as int), level_style(e.level))]
        },
    )
}

/// The single line of the compact layout: fixed-width columns, values
/// cut to fit, then the message cut to the message width.
pub open spec fn compact_line(e: EntryView, l: ColumnLayout, cfg: FormatConfig, hl: Seq<char>) -> Seq<SpanView> {
    column(
        cfg.timestamp && l.ts_w > 0,
        pad_right(truncated(e.timestamp, l.ts_w as int), l.ts_w as int),
        gray(),
        2,
    ) + column(cfg.level && l.level_w > 0, seq![' ', level_letter(e.level), ' '], level_style(e.level), 1)
        + column(
        cfg.pid && l.pid_w > 0,
        pad_right(truncated(decimal(e.pid as nat), l.pid_w as int), l.pid_w as int),
        dim_style(),
        1,
    ) + column(
        cfg.tid && l.tid_w > 0,
        pad_right(truncated(decimal(e.tid as nat), l.tid_w as int), l.tid_w as int),
        dim_style(),
        1,
    ) + column(
        cfg.tag && l.tag_w > 0,
        pad_right(truncated(e.tag, l.tag_w as int), l.tag_w as int),
        tag_style(e.tag),
        2,
    ) + compact_message(e, l, cfg, hl)
}

/// The metadata line of the linear layout.
pub open spec fn metadata_line(e: EntryView, l: ColumnLayout, cfg: FormatConfig) -> Seq<SpanView> {
    column(cfg.timestamp && l.ts_w > 0, e.timestamp, gray(), 2) + column(
        cfg.level && l.level_w > 0,
        seq![' ', level_letter(e.level), ' '],
        level_style(e.level),
        1,
    ) + column(cfg.pid && l.pid_w > 0, decimal(e.pid as nat), dim_style(), 1) + column(
        cfg.tid && l.tid_w > 0,
        decimal(e.tid as nat),
        dim_style(),
        1,
    ) + column(cfg.tag && l.tag_w > 0, e.tag, tag_style(e.tag), 0)
}

/// One wrapped message line, indented by four spaces.
pub open spec fn message_line(chunk: Seq<char>, hl: Seq<char>, stack: bool, style: TextStyle) -> Seq<SpanView> {
    seq![sv("    "@, plain_style())] + if hl.len() > 0 && !stack {
        highlighted(chunk, hl, style)
    } else {
        seq![sv(chunk, style)]
    }
}

/// The width messages wrap at in the linear layout.
pub open spec fn message_width(l: ColumnLayout) -> int {
    if l.prefix_w + l.msg_w >= 20 {
        l.prefix_w + l.msg_w
    } else {
        20
    }
}

/// An entry as lines: the JSON preset gives one raw line; the compact
/// layout one line of columns; the linear layout a blank line, the
/// metadata, then the message wrapped and indented (stack-trace lines
/// dimmed in red, others in the level's colour with the search text
/// highlighted).
pub open spec fn entry_lines(e: EntryView, l: ColumnLayout, cfg: FormatConfig, hl: Seq<char>) -> Seq<Seq<SpanView>> {
    if cfg.preset == Preset::Json {
        seq![seq![sv(entry_json(e), plain_style())]]
    } else if cfg.layout_mode == LayoutMode::Compact {
        seq![compact_line(e, l, cfg, hl)]
    } else {
        let stack = is_stack_line(e.message);
        let style = if stack {
            stack_style()
        } else {
            level_style(e.level)
        };
        seq![Seq::empty(), metadata_line(e, l, cfg)] + if e.message.len() > 0 {
            wrapped(e.message, message_width(l)).map_values(
                |c: Seq<char>| message_line(c, hl, stack, style),
            )
        } else {
            Seq::empty()
        }
    }
}

fn decimal_string(n: u32) -> (s: String)
    ensures
        s@ == decimal(n as nat),
{
    let mut s = String::new();
    push_decimal(&mut s, n as u64);
    s
}

fn padded(s: &str, w: usize) -> (r: String)
    ensures
        r@ == pad_right(truncated(s@, w as int), w as int),
{
    let t = truncate_to_width(s, w);
    let mut r = String::new();
    crate::text::push_padded(&mut r, t.as_str(), w);
    r
}

fn level_text(l: LogLevel) -> (s: String)
    ensures
        s@ == seq![' ', level_letter(l), ' '],
{
    let mut s = String::new();
    push_char(&mut s, ' ');
    push_char(&mut s, l.char());
    push_char(&mut s, ' ');
    s
}

fn spaces_span(n: usize) -> (s: StyledSpan)
    requires
        n == 1 || n == 2,
    ensures
        n == 1 ==> s@ == sv(" "@, plain_style()),
        n == 2 ==> s@ == sv("  "@, plain_style()),
{
    if n == 1 {
        span(string_from(" "), default_style())
    } else {
        span(string_from("  "), default_style())
    }
}

fn append_spans(line: &mut Vec<StyledSpan>, more: Vec<StyledSpan>)
    ensures
        span_views(final(line)@) == span_views(old(line)@) + span_views(more@),
{
    let ghost o = line@;
    let ghost m = more@;
    let mut more = more;
    line.append(&mut more);
    assert(span_views(line@) =~= span_views(o) + span_views(m));
}

fn push_part(r: &mut Vec<StyledSpan>, cond: bool, text: String, style: TextStyle, sep: usize)
    requires
        sep <= 2,
    ensures
        span_views(final(r)@) == span_views(old(r)@) + column(cond, text@, style, sep as int),
{
    let ghost o = span_views(r@);
    if cond {
        push_span(r, span(text, style));
        if sep > 0 {
            push_span(r, spaces_span(sep));
        }
        assert(span_views(r@) =~= o + (seq![sv(text@, style)] + sep_spans(sep as int)));
    } else {
        assert(span_views(r@) =~= o + Seq::<SpanView>::empty());
    }
}

fn push_compact_message(r: &mut Vec<StyledSpan>, e: &LogEntry, l: &ColumnLayout, cfg: &FormatConfig, hl: &str)
    ensures
        span_views(final(r)@) == span_views(old(r)@) + compact_message(e@, *l, *cfg, hl@),
{
    let ghost before = span_views(r@);
    if cfg.message && e.message.as_str().unicode_len() > 0 {
        let msg = truncate_to_width(e.message.as_str(), l.msg_w);
        let st = level_style_exec(e.level);
        if hl.unicode_len() > 0 {
            append_spans(r, highlight_spans(msg.as_str(), hl, st));
        } else {
            push_span(r, span(msg, st));
            assert(span_views(r@) =~= before + seq![sv(truncated(e@.message, l.msg_w as int), level_style(e@.level))]);
        }
    } else {
        assert(span_views(r@) =~= before + Seq::<SpanView>::empty());
    }
}

fn compact_line_exec(e: &LogEntry, l: &ColumnLayout, cfg: &FormatConfig, hl: &str) -> (r: Vec<StyledSpan>)
    ensures
        span_views(r@) == compact_line(e@, *l, *cfg, hl@),
{
    let mut r: Vec<StyledSpan> = Vec::new();
    let d = default_style();
    assert(span_views(r@) =~= Seq::<SpanView>::empty());
    push_part(&mut r, cfg.timestamp && l.ts_w > 0, padded(e.timestamp.as_str(), l.ts_w), TextStyle { fg: Some(Color::Gray), ..d }, 2);
    push_part(&mut r, cfg.level && l.level_w > 0, level_text(e.level), level_style_exec(e.level), 1);
    let ds = decimal_string(e.pid);
    push_part(&mut r, cfg.pid && l.pid_w > 0, padded(ds.as_str(), l.pid_w), TextStyle { dim: true, ..d }, 1);
    let ds = decimal_string(e.tid);
    push_part(&mut r, cfg.tid && l.tid_w > 0, padded(ds.as_str(), l.tid_w), TextStyle { dim: true, ..d }, 1);
    push_part(&mut r, cfg.tag && l.tag_w > 0, padded(e.tag.as_str(), l.tag_w), tag_style_exec(e.tag.as_str()), 2);
    push_compact_message(&mut r, e, l, cfg, hl);
    r
}

fn metadata_line_exec(e: &LogEntry, l: &ColumnLayout, cfg: &FormatConfig) -> (r: Vec<StyledSpan>)
    ensures
        span_views(r@) == metadata_line(e@, *l, *cfg),
{
    let mut r: Vec<StyledSpan> = Vec::new();
    let d = default_style();
    assert(span_views(r@) =~= Seq::<SpanView>::empty());
    push_part(&mut r, cfg.timestamp && l.ts_w > 0, e.timestamp.clone(), TextStyle { fg: Some(Color::Gray), ..d }, 2);
    push_part(&mut r, cfg.level && l.level_w > 0, level_text(e.level), level_style_exec(e.level), 1);
    push_part(&mut r, cfg.pid && l.pid_w > 0, decimal_string(e.pid), TextStyle { dim: true, ..d }, 1);
    push_part(&mut r, cfg.tid && l.tid_w > 0, decimal_string(e.tid), TextStyle { dim: true, ..d }, 1);
    push_part(&mut r, cfg.tag && l.tag_w > 0, e.tag.clone(), tag_style_exec(e.tag.as_str()), 0);
    r
}

fn entry_json_exec(e: &LogEntry) -> (s: String)
    ensures
        s@ == entry_json(e@),
{
    let mut s = String::new();
    push_str(&mut s, "{\"timestamp\":\"");
    push_str(&mut s, e.timestamp.as_str());
    push_str(&mut s, "\",\"level\":\"");
    push_char(&mut s, e.level.char());
    push_str(&mut s, "\",\"pid\":");
    push_decimal(&mut s, e.pid as u64);
    push_str(&mut s, ",\"tid\":");
    push_decimal(&mut s, e.tid as u64);
    push_str(&mut s, ",\"tag\":\"");
    let t = escape_char(e.tag.as_str(), '"', '"');
    push_str(&mut s, t.as_str());
    push_str(&mut s, "\",\"message\":\"");
    let m = escape_char(e.message.as_str(), '"', '"');
    let m = escape_char(m.as_str(), '\n', 'n');
    push_str(&mut s, m.as_str());
    push_str(&mut s, "\"}");
    s
}

fn is_stack_line_exec(m: &str) -> (b: bool)
    ensures
        b == is_stack_line(m@),
{
    let v = to_chars(m);
    let a = crate::text::trim_start_range(&v, 0, v.len());
    assert(v@.subrange(0, v@.len() as int) =~= v@);
    let t = string_of_range(&v, a, v.len());
    crate::text::str_starts_with(t.as_str(), "at ") || crate::text::str_starts_with(t.as_str(), "Caused by:")
        || crate::text::str_starts_with(t.as_str(), "java.") || crate::text::str_starts_with(
        t.as_str(),
        "kotlin.",
    ) || crate::text::str_starts_with(t.as_str(), "android.")
}

fn message_line_exec(chunk: &str, hl: &str, stack: bool, style: TextStyle) -> (r: Vec<StyledSpan>)
    ensures
        span_views(r@) == message_line(chunk@, hl@, stack, style),
{
    let mut r: Vec<StyledSpan> = Vec::new();
    push_span(&mut r, span(string_from("    "), default_style()));
    let ghost first = span_views(r@);
    assert(first =~= seq![sv("    "@, plain_style())]);
    if hl.unicode_len() > 0 && !stack {
        append_spans(&mut r, highlight_spans(chunk, hl, style));
    } else {
        push_span(&mut r, span(string_from(chunk), style));
        assert(span_views(r@) =~= first + seq![sv(chunk@, style)]);
    }
    r
}

/// An entry as the lines the log view shows for it.
pub fn render_entry(e: &LogEntry, l: &ColumnLayout, cfg: &FormatConfig, hl: &str) -> (r: Vec<Vec<StyledSpan>>)
    requires
        l.prefix_w + l.msg_w <= usize::MAX / 2,
    ensures
        lines_view(r@) == entry_lines(e@, *l, *cfg, hl@),
{
    if cfg.preset == Preset::Json {
        let mut line: Vec<StyledSpan> = Vec::new();
        push_span(&mut line, span(entry_json_exec(e), default_style()));
        let ghost lv = span_views(line@);
        assert(lv =~= seq![sv(entry_json(e@), plain_style())]);
        let mut r: Vec<Vec<StyledSpan>> = Vec::new();
        r.push(line);
        assert(lines_view(r@)[0] == lv);
        assert(lines_view(r@) =~= seq![lv]);
        return r;
    }
    if cfg.layout_mode == LayoutMode::Compact {
        let line = compact_line_exec(e, l, cfg, hl);
        let mut r: Vec<Vec<StyledSpan>> = Vec::new();
        r.push(line);
        assert(lines_view(r@)[0] == compact_line(e@, *l, *cfg, hl@));
        assert(lines_view(r@) =~= seq![compact_line(e@, *l, *cfg, hl@)]);
        return r;
    }
    let mut r: Vec<Vec<StyledSpan>> = Vec::new();
    let blank: Vec<StyledSpan> = Vec::new();
    assert(span_views(blank@) =~= Seq::<SpanView>::empty());
    r.push(blank);
    let meta = metadata_line_exec(e, l, cfg);
    r.push(meta);
    let ghost head = seq![Seq::<SpanView>::empty(), metadata_line(e@, *l, *cfg)];
    assert(lines_view(r@)[0] == head[0]);
    assert(lines_view(r@)[1] == head[1]);
    assert(lines_view(r@) =~= head);
    if e.message.as_str().unicode_len() > 0 {
        let stack = is_stack_line_exec(e.message.as_str());
        let style = if stack {
            TextStyle { fg: Some(Color::Red), dim: true, italic: true, ..default_style() }
        } else {
            level_style_exec(e.level)
        };
        let sum = l.prefix_w + l.msg_w;
        let w = if sum >= 20 { sum } else { 20 };
        let chunks = wrap_text(e.message.as_str(), w);
        let ghost ws = wrapped(e@.message, message_width(*l));
        let ghost f = |c: Seq<char>| message_line(c, hl@, stack, style);
        let mut k: usize = 0;
        while k < chunks.len()
            invariant
                k <= chunks@.len(),
                string_views(chunks@) == ws,
                r@.len() == k + 2,
                f == (|c: Seq<char>| message_line(c, hl@, stack, style)),
                lines_view(r@) == head + ws.take(k as int).map_values(f),
            decreases chunks@.len() - k,
        {
            let ghost before = lines_view(r@);
            let ghost rb = r@;
            let line = message_line_exec(chunks[k].as_str(), hl, stack, style);
            let ghost lv = span_views(line@);
            r.push(line);
            proof {
                assert(r@ == rb.push(line));
                assert(lines_view(r@)[k + 2] == lv);
                assert(f(ws[k as int]) == message_line(ws[k as int], hl@, stack, style));
                assert(lv == message_line(chunks@[k as int]@, hl@, stack, style));
                assert(f(ws[k as int]) == lv);
                assert(ws[k as int] == chunks@[k as int]@);
                assert(ws.take(k + 1).map_values(f) =~= ws.take(k as int).map_values(f).push(f(ws[k as int])));
                assert(lines_view(r@) =~= before.push(span_views(line@)));
            }
            k = k + 1;
        }
        proof {
            assert(ws.take(ws.len() as int) =~= ws);
        }
    } else {
        assert(head + Seq::<Seq<SpanView>>::empty() =~= head);
    }
    r
}

// ---------------------------------------------------------------------------
// Text with ANSI escape sequences
// ---------------------------------------------------------------------------

/// The foreground colour a select-graphic-rendition parameter sets.
pub open spec fn sgr_fg(p: Seq<char>) -> Option<Color> {
    if p == "30"@ {
        Some(Color::Black)
    } else if p == "31"@ {
        Some(Color::Red)
    } else if p == "32"@ {
        Some(Color::Green)
    } else if p == "33"@ {
        Some(Color::Yellow)
    } else if p == "34"@ {
        Some(Color::Blue)
    } else if p == "35"@ {
        Some(Color::Magenta)
    } else if p == "36"@ {
        Some(Color::Cyan)
    } else if p == "37"@ {
        Some(Color::White)
    } else if p == "90"@ {
        Some(Color::DarkGray)
    } else if p == "91"@ {
        Some(Color::LightRed)
    } else if p == "92"@ {
        Some(Color::LightGreen)
    } else if p == "93"@ {
        Some(Color::LightYellow)
    } else if p == "94"@ {
        Some(Color::LightBlue)
    } else if p == "95"@ {
        Some(Color::LightMagenta)
    } else if p == "96"@ {
        Some(Color::LightCyan)
    } else if p == "97"@ {
        Some(Color::White)
    } else {
        None
    }
}

/// The background colour a select-graphic-rendition parameter sets.
pub open spec fn sgr_bg(p: Seq<char>) -> Option<Color> {
    if p == "40"@ {
        Some(Color::Black)
    } else if p == "41"@ {
        Some(Color::Red)
    } else if p == "42"@ {
        Some(Color::Green)
    } else if p == "43"@ {
        Some(Color::Yellow)
    } else if p == "44"@ {
        Some(Color::Blue)
    } else if p == "45"@ {
        Some(Color::Magenta)
    } else if p == "46"@ {
        Some(Color::Cyan)
    } else if p == "47"@ {
        Some(Color::White)
    } else {
        None
    }
}

/// The style after one select-graphic-rendition parameter; unknown
/// parameters change nothing.
pub open spec fn sgr_param(st: TextStyle, p: Seq<char>) -> TextStyle {
    if p == "0"@ {
        plain_style()
    } else if p == "1"@ {
        TextStyle { bold: true, ..st }
    } else if p == "2"@ {
        TextStyle { dim: true, ..st }
    } else if p == "3"@ {
        TextStyle { italic: true, ..st }
    } else if p == "4"@ {
        TextStyle { underlined: true, ..st }
    } else if sgr_fg(p) is Some {
        TextStyle { fg: sgr_fg(p), ..st }
    } else if sgr_bg(p) is Some {
        TextStyle { bg: sgr_bg(p), ..st }
    } else {
        st
    }
}

/// The style the parameters give, applied in order to the default style.
pub open spec fn sgr_fold(params: Seq<Seq<char>>) -> TextStyle
    decreases params.len(),
{
    if params.len() == 0 {
        plain_style()
    } else {
        sgr_param(sgr_fold(params.drop_last()), params.last())
    }
}

/// The style of a select-graphic-rendition sequence: its parameters are
/// separated by `;`.
pub open spec fn sgr_style(seq: Seq<char>) -> TextStyle {
    sgr_fold(split_on(seq, ';'))
}

fn sgr_fg_exec(p: &str) -> (c: Option<Color>)
    ensures
        c == sgr_fg(p@),
{
    if str_eq(p, "30") {
        Some(Color::Black)
    } else if str_eq(p, "31") {
        Some(Color::Red)
    } else if str_eq(p, "32") {
        Some(Color::Green)
    } else if str_eq(p, "33") {
        Some(Color::Yellow)
    } else if str_eq(p, "34") {
        Some(Color::Blue)
    } else if str_eq(p, "35") {
        Some(Color::Magenta)
    } else if str_eq(p, "36") {
        Some(Color::Cyan)
    } else if str_eq(p, "37") {
        Some(Color::White)
    } else if str_eq(p, "90") {
        Some(Color::DarkGray)
    } else if str_eq(p, "91") {
        Some(Color::LightRed)
    } else if str_eq(p, "92") {
        Some(Color::LightGreen)
    } else if str_eq(p, "93") {
        Some(Color::LightYellow)
    } else if str_eq(p, "94") {
        Some(Color::LightBlue)
    } else if str_eq(p, "95") {
        Some(Color::LightMagenta)
    } else if str_eq(p, "96") {
        Some(Color::LightCyan)
    } else if str_eq(p, "97") {
        Some(Color::White)
    } else {
        None
    }
}

fn sgr_bg_exec(p: &str) -> (c: Option<Color>)
    ensures
        c == sgr_bg(p@),
{
    if str_eq(p, "40") {
        Some(Color::Black)
    } else if str_eq(p, "41") {
        Some(Color::Red)
    } else if str_eq(p, "42") {
        Some(Color::Green)
    } else if str_eq(p, "43") {
        Some(Color::Yellow)
    } else if str_eq(p, "44") {
        Some(Color::Blue)
    } else if str_eq(p, "45") {
        Some(Color::Magenta)
    } else if str_eq(p, "46") {
        Some(Color::Cyan)
    } else if str_eq(p, "47") {
        Some(Color::White)
    } else {
        None
    }
}

fn sgr_param_exec(st: TextStyle, p: &str) -> (r: TextStyle)
    ensures
        r == sgr_param(st, p@),
{
    if str_eq(p, "0") {
        default_style()
    } else if str_eq(p, "1") {
        TextStyle { bold: true, ..st }
    } else if str_eq(p, "2") {
        TextStyle { dim: true, ..st }
    } else if str_eq(p, "3") {
        TextStyle { italic: true, ..st }
    } else if str_eq(p, "4") {
        TextStyle { underlined: true, ..st }
    } else {
        let f = sgr_fg_exec(p);
        if f.is_some() {
            TextStyle { fg: f, ..st }
        } else {
            let b = sgr_bg_exec(p);
            if b.is_some() {
                TextStyle { bg: b, ..st }
            } else {
                st
            }
        }
    }
}

/// The style a select-graphic-rendition sequence (the text between `ESC [`
/// and `m`) sets.
pub fn parse_sgr(seq: &str) -> (st: TextStyle)
    ensures
        st == sgr_style(seq@),
{
    let params = crate::text::split_char(seq, ';');
    let ghost ps = string_views(params@);
    let mut st = default_style();
    let mut i: usize = 0;
    while i < params.len()
        invariant
            i <= params@.len(),
            ps == string_views(params@),
            ps == split_on(seq@, ';'),
            st == sgr_fold(ps.take(i as int)),
        decreases params@.len() - i,
    {
        assert(ps.take(i + 1).drop_last() =~= ps.take(i as int));
        st = sgr_param_exec(st, params[i].as_str());
        i = i + 1;
    }
    assert(ps.take(ps.len() as int) =~= ps);
    st
}

pub open spec fn is_ascii_alpha(c: char) -> bool {
    ('a' <= c && c <= 'z') || ('A' <= c && c <= 'Z')
}

/// The first position at or after `j` that holds an ASCII letter (the end
/// of a control sequence), or the length of `s`.
pub open spec fn csi_end(s: Seq<char>, j: int) -> int
    decreases s.len() - j,
{
    if j < 0 || j >= s.len() {
        s.len() as int
    } else if is_ascii_alpha(s[j]) {
        j
    } else {
        csi_end(s, j + 1)
    }
}

pub proof fn lemma_csi_end(s: Seq<char>, j: int)
    requires
        0 <= j,
    ensures
        j <= csi_end(s, j) || j > s.len(),
        csi_end(s, j) <= s.len(),
        csi_end(s, j) < s.len() ==> is_ascii_alpha(s[csi_end(s, j)]),
    decreases s.len() - j,
{
    if j < s.len() && !is_ascii_alpha(s[j]) {
        lemma_csi_end(s, j + 1);
    }
}

/// The pending text as a span, if there is any.
pub open spec fn flushed(text: Seq<char>, style: TextStyle) -> Seq<SpanView> {
    if text.len() > 0 {
        seq![sv(text, style)]
    } else {
        Seq::empty()
    }
}

/// The spans of `s[i..]`, `text` being the text read in `style` so far:
/// `ESC [ ... m` sets the style, other control sequences and lone `ESC`
/// characters are dropped.
pub open spec fn ansi_from(s: Seq<char>, i: int, text: Seq<char>, style: TextStyle) -> Seq<SpanView>
    decreases s.len() - i,
{
    if i < 0 || i >= s.len() {
        flushed(text, style)
    } else if s[i] == '\x1b' {
        if i + 1 < s.len() && s[i + 1] == '[' {
            let j = csi_end(s, i + 2);
            if j < s.len() {
                proof {
                    lemma_csi_end(s, i + 2);
                }
                flushed(text, style) + ansi_from(
                    s,
                    j + 1,
                    Seq::empty(),
                    if s[j] == 'm' {
                        sgr_style(s.subrange(i + 2, j))
                    } else {
                        style
                    },
                )
            } else {
                flushed(text, style)
            }
        } else {
            flushed(text, style) + ansi_from(s, i + 1, Seq::empty(), style)
        }
    } else {
        ansi_from(s, i + 1, text.push(s[i]), style)
    }
}

/// A line of text with ANSI colour codes as styled spans; a line with no
/// text gives one empty span.
pub open spec fn ansi_line(s: Seq<char>) -> Seq<SpanView> {
    let sp = ansi_from(s, 0, Seq::empty(), plain_style());
    if sp.len() == 0 {
        seq![sv(Seq::empty(), plain_style())]
    } else {
        sp
    }
}

fn flush_text(spans: &mut Vec<StyledSpan>, text: &Vec<char>, style: TextStyle)
    ensures
        span_views(final(spans)@) == span_views(old(spans)@) + flushed(text@, style),
{
    let ghost o = span_views(spans@);
    if text.len() > 0 {
        push_span(spans, span(from_chars(text.as_slice()), style));
        assert(span_views(spans@) =~= o + flushed(text@, style));
    } else {
        assert(span_views(spans@) =~= o + flushed(text@, style));
    }
}

fn csi_end_exec(s: &Vec<char>, j: usize) -> (r: usize)
    requires
        j <= s@.len(),
    ensures
        r == csi_end(s@, j as int),
        j <= r <= s@.len(),
{
    let mut k = j;
    while k < s.len() && !(('a' <= s[k] && s[k] <= 'z') || ('A' <= s[k] && s[k] <= 'Z'))
        invariant
            j <= k <= s@.len(),
            csi_end(s@, j as int) == csi_end(s@, k as int),
        decreases s@.len() - k,
    {
        k = k + 1;
    }
    k
}

/// A line of output with ANSI colour codes, as styled spans.
pub fn parse_ansi_line(line: &str) -> (r: Vec<StyledSpan>)
    ensures
        span_views(r@) == ansi_line(line@),
{
    let s = to_chars(line);
    let mut spans: Vec<StyledSpan> = Vec::new();
    let mut text: Vec<char> = Vec::new();
    let mut style = default_style();
    let mut i: usize = 0;
    let ghost whole = ansi_from(s@, 0, Seq::empty(), plain_style());
    assert(span_views(spans@) =~= Seq::<SpanView>::empty());
    assert(text@ =~= Seq::<char>::empty());
    while i < s.len()
        invariant
            i <= s@.len(),
            s@ == line@,
            whole == ansi_from(s@, 0, Seq::empty(), plain_style()),
            span_views(spans@) + ansi_from(s@, i as int, text@, style) == whole,
        decreases s@.len() - i,
    {
        let ghost before = span_views(spans@);
        if s[i] == '\x1b' {
            flush_text(&mut spans, &text, style);
            text = Vec::new();
            if i + 1 < s.len() && s[i + 1] == '[' {
                let j = csi_end_exec(&s, i + 2);
                if j < s.len() {
                    if s[j] == 'm' {
                        let seq = string_of_range(&s, i + 2, j);
                        style = parse_sgr(seq.as_str());
                    }
                    i = j + 1;
                } else {
                    i = s.len();
                }
            } else {
                i = i + 1;
            }
        } else {
            text.push(s[i]);
            i = i + 1;
        }
    }
    flush_text(&mut spans, &text, style);
    if spans.len() == 0 {
        push_span(&mut spans, span(String::new(), default_style()));
    }
    spans
}

// ---------------------------------------------------------------------------
// Wrapping styled lines
// ---------------------------------------------------------------------------

/// Number of characters in the first `n` spans.
pub open spec fn span_chars(sp: Seq<SpanView>, n: int) -> int
    decreases n,
{
    if n <= 0 || sp.len() == 0 {
        0
    } else if n > sp.len() {
        span_chars(sp, sp.len() as int)
    } else {
        span_chars(sp, n - 1) + sp[n - 1].text.len()
    }
}

pub open spec fn clamp(x: int, hi: int) -> int {
    if x < 0 {
        0
    } else if x > hi {
        hi
    } else {
        x
    }
}

/// The characters of `t`, which starts at position `start` of the line,
/// that fall in positions `lo..hi`.
pub open spec fn piece(t: Seq<char>, start: int, lo: int, hi: int) -> Seq<char> {
    t.subrange(clamp(lo - start, t.len() as int), clamp(hi - start, t.len() as int))
}

/// The part of the first `n` spans that falls in positions `lo..hi` of the
/// line, each span keeping its style; spans with nothing there are left out.
pub open spec fn row_of(sp: Seq<SpanView>, n: int, lo: int, hi: int) -> Seq<SpanView>
    decreases n,
{
    if n <= 0 || n > sp.len() {
        Seq::empty()
    } else {
        let p = piece(sp[n - 1].text, span_chars(sp, n - 1), lo, hi);
        row_of(sp, n - 1, lo, hi) + if p.len() > 0 {
            seq![sv(p, sp[n - 1].style)]
        } else {
            Seq::empty()
        }
    }
}

/// Rows of `w` characters of the line, from position `lo` on.
pub open spec fn rows_from(sp: Seq<SpanView>, lo: int, w: int) -> Seq<Seq<SpanView>>
    decreases if span_chars(sp, sp.len() as int) > lo {
        span_chars(sp, sp.len() as int) - lo
    } else {
        0
    },
{
    if w > 0 && lo < span_chars(sp, sp.len() as int) {
        seq![row_of(sp, sp.len() as int, lo, lo + w)] + rows_from(sp, lo + w, w)
    } else {
        Seq::empty()
    }
}

/// A styled line cut into rows of `w` characters; a width of 0 leaves it
/// whole, and a line with no text gives one empty row.
pub open spec fn styled_rows(sp: Seq<SpanView>, w: int) -> Seq<Seq<SpanView>> {
    if w <= 0 {
        seq![sp]
    } else if span_chars(sp, sp.len() as int) == 0 {
        seq![seq![sv(Seq::empty(), plain_style())]]
    } else {
        rows_from(sp, 0, w)
    }
}

proof fn lemma_span_chars_nonneg(sp: Seq<SpanView>, n: int)
    requires
        0 <= n <= sp.len(),
    ensures
        0 <= span_chars(sp, n),
    decreases n,
{
    if n > 0 {
        lemma_span_chars_nonneg(sp, n - 1);
    }
}

proof fn lemma_span_chars_mono(sp: Seq<SpanView>, m: int, n: int)
    requires
        0 <= m <= n <= sp.len(),
    ensures
        0 <= span_chars(sp, m) <= span_chars(sp, n),
    decreases n - m,
{
    lemma_span_chars_nonneg(sp, m);
    if m < n {
        lemma_span_chars_mono(sp, m, n - 1);
    }
}

fn piece_exec(t: &String, start: usize, lo: usize, hi: usize) -> (r: String)
    requires
        lo <= hi,
    ensures
        r@ == piece(t@, start as int, lo as int, hi as int),
{
    let v = to_chars(t.as_str());
    let len = v.len();
    let a = if lo <= start { 0 } else if lo - start > len { len } else { lo - start };
    let b = if hi <= start { 0 } else if hi - start > len { len } else { hi - start };
    string_of_range(&v, a, b)
}

fn row_exec(line: &Vec<StyledSpan>, starts: &Vec<usize>, lo: usize, hi: usize) -> (r: Vec<StyledSpan>)
    requires
        lo <= hi,
        starts@.len() == line@.len(),
        forall|n: int| 0 <= n < line@.len() ==> starts@[n] == span_chars(span_views(line@), n),
    ensures
        span_views(r@) == row_of(span_views(line@), line@.len() as int, lo as int, hi as int),
{
    let ghost sp = span_views(line@);
    let mut r: Vec<StyledSpan> = Vec::new();
    let mut n: usize = 0;
    assert(span_views(r@) =~= Seq::<SpanView>::empty());
    while n < line.len()
        invariant
            n <= line@.len(),
            lo <= hi,
            sp == span_views(line@),
            starts@.len() == line@.len(),
            forall|m: int| 0 <= m < line@.len() ==> starts@[m] == span_chars(sp, m),
            span_views(r@) == row_of(sp, n as int, lo as int, hi as int),
        decreases line@.len() - n,
    {
        let p = piece_exec(&line[n].text, starts[n], lo, hi);
        let ghost before = span_views(r@);
        assert(sp[n as int] == line@[n as int]@);
        if p.as_str().unicode_len() > 0 {
            push_span(&mut r, span(p, line[n].style));
        }
        assert(span_views(r@) =~= row_of(sp, n + 1, lo as int, hi as int));
        n = n + 1;
    }
    r
}

/// A styled line cut into rows `width` characters wide.
pub fn wrap_styled_line(line: Vec<StyledSpan>, width: usize) -> (r: Vec<Vec<StyledSpan>>)
    requires
        span_chars(span_views(line@), line@.len() as int) <= usize::MAX,
    ensures
        lines_view(r@) == styled_rows(span_views(line@), width as int),
{
    let ghost sp = span_views(line@);
    if width == 0 {
        let mut r: Vec<Vec<StyledSpan>> = Vec::new();
        r.push(line);
        assert(lines_view(r@) =~= seq![sp]);
        return r;
    }
    let mut starts: Vec<usize> = Vec::new();
    let mut total: usize = 0;
    let mut n: usize = 0;
    while n < line.len()
        invariant
            n <= line@.len(),
            sp == span_views(line@),
            span_chars(sp, line@.len() as int) <= usize::MAX,
            starts@.len() == n,
            total == span_chars(sp, n as int),
            forall|m: int| 0 <= m < n ==> starts@[m] == span_chars(sp, m),
        decreases line@.len() - n,
    {
        proof {
            lemma_span_chars_mono(sp, n + 1, line@.len() as int);
            assert(sp[n as int] == line@[n as int]@);
        }
        starts.push(total);
        let k = line[n].text.as_str().unicode_len();
        total = total + k;
        n = n + 1;
    }
    let mut r: Vec<Vec<StyledSpan>> = Vec::new();
    if total == 0 {
        let mut row: Vec<StyledSpan> = Vec::new();
        push_span(&mut row, span(String::new(), default_style()));
        let ghost rv = span_views(row@);
        assert(rv =~= seq![sv(Seq::<char>::empty(), plain_style())]);
        r.push(row);
        assert(lines_view(r@)[0] == rv);
        assert(lines_view(r@) =~= seq![rv]);
        return r;
    }
    let mut lo: usize = 0;
    let ghost all = rows_from(sp, 0, width as int);
    assert(lines_view(r@) =~= Seq::<Seq<SpanView>>::empty());
    while lo < total
        invariant
            sp == span_views(line@),
            total == span_chars(sp, line@.len() as int),
            width > 0,
            lo <= total,
            starts@.len() == line@.len(),
            forall|m: int| 0 <= m < line@.len() ==> starts@[m] == span_chars(sp, m),
            all == rows_from(sp, 0, width as int),
            lines_view(r@) + rows_from(sp, lo as int, width as int) == all,
        decreases total - lo,
    {
        let hi = if width >= total - lo { total } else { lo + width };
        let row = row_exec(&line, &starts, lo, hi);
        proof {
            assert forall|n: int| 0 <= n < sp.len() implies piece(sp[n].text, span_chars(sp, n), lo as int, hi as int)
                == piece(sp[n].text, span_chars(sp, n), lo as int, lo + width) by {
                lemma_span_chars_mono(sp, n + 1, sp.len() as int);
            }
            lemma_row_of_same(sp, sp.len() as int, lo as int, hi as int, lo + width);
        }
        let ghost before = lines_view(r@);
        let ghost rb = r@;
        let ghost rv = span_views(row@);
        let ghost lo0 = lo as int;
        r.push(row);
        proof {
            assert(r@ == rb.push(row));
            assert(lines_view(r@)[rb.len() as int] == rv);
            assert(lines_view(r@) =~= before.push(rv));
            assert(rows_from(sp, lo0, width as int) == seq![rv] + rows_from(sp, lo0 + width, width as int));
            if hi as int != lo0 + width {
                assert(rows_from(sp, lo0 + width, width as int) =~= Seq::<Seq<SpanView>>::empty());
                assert(rows_from(sp, hi as int, width as int) =~= Seq::<Seq<SpanView>>::empty());
            }
            assert(before.push(rv) + rows_from(sp, hi as int, width as int) =~= before + rows_from(sp, lo0, width as int));
        }
        lo = hi;
    }
    r
}

proof fn lemma_row_of_same(sp: Seq<SpanView>, n: int, lo: int, hi1: int, hi2: int)
    requires
        0 <= n <= sp.len(),
        forall|m: int| 0 <= m < sp.len() ==> piece(sp[m].text, span_chars(sp, m), lo, hi1)
            == piece(sp[m].text, span_chars(sp, m), lo, hi2),
    ensures
        row_of(sp, n, lo, hi1) == row_of(sp, n, lo, hi2),
    decreases n,
{
    if n > 0 {
        lemma_row_of_same(sp, n - 1, lo, hi1, hi2);
    }
}

// ---------------------------------------------------------------------------
// The log view
// ---------------------------------------------------------------------------

pub proof fn lemma_span_chars_concat(a: Seq<SpanView>, b: Seq<SpanView>)
    ensures
        span_chars(a + b, (a + b).len() as int) == span_chars(a, a.len() as int) + span_chars(b, b.len() as int),
    decreases b.len(),
{
    if b.len() > 0 {
        lemma_span_chars_concat(a, b.drop_last());
        assert((a + b).drop_last() =~= a + b.drop_last());
        assert(span_chars(a + b, (a + b).len() as int) == span_chars(a + b, (a + b).len() - 1) + (a + b)[(a + b).len() - 1].text.len());
        assert(span_chars(a + b, (a + b).len() - 1) == span_chars(a + b.drop_last(), (a + b).len() - 1)) by {
            lemma_span_chars_prefix(a + b, (a + b).len() - 1);
            lemma_span_chars_prefix(a + b.drop_last(), (a + b).len() - 1);
        }
        assert(span_chars(b, b.len() as int) == span_chars(b, b.len() - 1) + b[b.len() - 1].text.len());
        assert(span_chars(b, b.len() - 1) == span_chars(b.drop_last(), b.len() - 1)) by {
            lemma_span_chars_prefix(b, b.len() - 1);
            lemma_span_chars_prefix(b.drop_last(), b.len() - 1);
        }
    }
}

/// The characters of the first `n` spans depend on those spans alone.
proof fn lemma_span_chars_prefix(sp: Seq<SpanView>, n: int)
    requires
        0 <= n <= sp.len(),
    ensures
        span_chars(sp, n) == span_chars(sp.take(n), n),
    decreases n,
{
    if n > 0 {
        lemma_span_chars_prefix(sp, n - 1);
        lemma_span_chars_prefix(sp.take(n), n - 1);
        assert(sp.take(n).take(n - 1) =~= sp.take(n - 1));
    }
}

proof fn lemma_ansi_chars(s: Seq<char>, i: int, text: Seq<char>, style: TextStyle)
    requires
        0 <= i <= s.len(),
    ensures
        span_chars(ansi_from(s, i, text, style), ansi_from(s, i, text, style).len() as int) <= text.len() + s.len() - i,
    decreases s.len() - i,
{
    let f = flushed(text, style);
    assert(span_chars(f, f.len() as int) == text.len()) by {
        if text.len() > 0 {
            assert(span_chars(f, 0) == 0);
        }
    }
    if i < s.len() {
        if s[i] == '\x1b' {
            if i + 1 < s.len() && s[i + 1] == '[' {
                let j = csi_end(s, i + 2);
                lemma_csi_end(s, i + 2);
                if j < s.len() {
                    let st = if s[j] == 'm' {
                        sgr_style(s.subrange(i + 2, j))
                    } else {
                        style
                    };
                    lemma_ansi_chars(s, j + 1, Seq::empty(), st);
                    lemma_span_chars_concat(f, ansi_from(s, j + 1, Seq::empty(), st));
                }
            } else {
                lemma_ansi_chars(s, i + 1, Seq::empty(), style);
                lemma_span_chars_concat(f, ansi_from(s, i + 1, Seq::empty(), style));
            }
        } else {
            lemma_ansi_chars(s, i + 1, text.push(s[i]), style);
        }
    }
}

pub proof fn lemma_ansi_line_chars(s: Seq<char>)
    ensures
        span_chars(ansi_line(s), ansi_line(s).len() as int) <= s.len(),
{
    lemma_ansi_chars(s, 0, Seq::empty(), plain_style());
    let sp = ansi_from(s, 0, Seq::empty(), plain_style());
    if sp.len() == 0 {
        assert(span_chars(ansi_line(s), 0) == 0);
    }
}

/// The rows a line of output takes: each of its lines, colour codes read,
/// cut into rows of `w` characters.
pub open spec fn system_rows(s: Seq<char>, w: int) -> Seq<Seq<SpanView>> {
    split_on(s, '\n').map_values(|p: Seq<char>| styled_rows(ansi_line(p), w)).flatten()
}

/// The rows a buffered line takes in the log view.
pub open spec fn line_rows(l: LineView, layout: ColumnLayout, cfg: FormatConfig, hl: Seq<char>, w: int) -> Seq<Seq<SpanView>> {
    match l {
        LineView::System(s) => system_rows(s, w),
        LineView::Entry(e) => entry_lines(e, layout, cfg, hl),
    }
}

/// The rows of the first `n` buffered lines.
pub open spec fn rows_of_lines(lines: Seq<LineView>, n: int, layout: ColumnLayout, cfg: FormatConfig, hl: Seq<char>, w: int) -> Seq<Seq<SpanView>> {
    lines.take(n).map_values(|l: LineView| line_rows(l, layout, cfg, hl, w)).flatten()
}

pub open spec fn blank_row() -> Seq<SpanView> {
    seq![sv(Seq::empty(), plain_style())]
}

/// What a log view `height` rows high and `width` columns wide shows: the
/// last rows of the lines up to `scroll` lines before the newest, blank
/// rows filling the top.
pub open spec fn visible_rows(lines: Seq<LineView>, scroll: int, height: int, width: u16, cfg: FormatConfig, hl: Seq<char>) -> Seq<Seq<SpanView>> {
    let end = if lines.len() >= scroll {
        lines.len() - scroll
    } else {
        0
    };
    let all = rows_of_lines(lines, end, layout_of(cfg, width), cfg, hl, width as int);
    let shown = if all.len() >= height {
        all.subrange(all.len() - height, all.len() as int)
    } else {
        all
    };
    Seq::new((height - shown.len()) as nat, |i: int| blank_row()) + shown
}

fn system_rows_exec(s: &String, w: usize) -> (r: Vec<Vec<StyledSpan>>)
    ensures
        lines_view(r@) == system_rows(s@, w as int),
{
    let parts = crate::text::split_char(s.as_str(), '\n');
    let ghost ps = string_views(parts@);
    let ghost f = |p: Seq<char>| styled_rows(ansi_line(p), w as int);
    let mut r: Vec<Vec<StyledSpan>> = Vec::new();
    let mut k: usize = 0;
    assert(lines_view(r@) =~= Seq::<Seq<SpanView>>::empty());
    while k < parts.len()
        invariant
            k <= parts@.len(),
            ps == string_views(parts@),
            ps == split_on(s@, '\n'),
            f == (|p: Seq<char>| styled_rows(ansi_line(p), w as int)),
            lines_view(r@) == ps.take(k as int).map_values(f).flatten(),
        decreases parts@.len() - k,
    {
        let n = parts[k].as_str().unicode_len();
        let line = parse_ansi_line(parts[k].as_str());
        proof {
            assert(n == parts@[k as int]@.len());
            lemma_ansi_line_chars(parts@[k as int]@);
        }
        let rows = wrap_styled_line(line, w);
        let ghost before = lines_view(r@);
        let ghost add = lines_view(rows@);
        append_rows(&mut r, rows);
        proof {
            assert(ps.take(k + 1).map_values(f) =~= ps.take(k as int).map_values(f).push(f(ps[k as int])));
            ps.take(k as int).map_values(f).lemma_flatten_push(f(ps[k as int]));
        }
        k = k + 1;
    }
    assert(ps.take(ps.len() as int) =~= ps);
    r
}

fn append_rows(r: &mut Vec<Vec<StyledSpan>>, more: Vec<Vec<StyledSpan>>)
    ensures
        lines_view(final(r)@) == lines_view(old(r)@) + lines_view(more@),
{
    let ghost o = r@;
    let ghost m = more@;
    let mut more = more;
    r.append(&mut more);
    assert(lines_view(r@) =~= lines_view(o) + lines_view(m));
}

/// The rows of the buffered lines `idx..end`, in order.
pub open spec fn rows_between(lines: Seq<LineView>, idx: int, end: int, layout: ColumnLayout, cfg: FormatConfig, hl: Seq<char>, w: int) -> Seq<Seq<SpanView>> {
    lines.subrange(idx, end).map_values(|l: LineView| line_rows(l, layout, cfg, hl, w)).flatten()
}

proof fn lemma_rows_split(lines: Seq<LineView>, idx: int, end: int, layout: ColumnLayout, cfg: FormatConfig, hl: Seq<char>, w: int)
    requires
        0 <= idx <= end <= lines.len(),
    ensures
        rows_of_lines(lines, end, layout, cfg, hl, w) == rows_of_lines(lines, idx, layout, cfg, hl, w)
            + rows_between(lines, idx, end, layout, cfg, hl, w),
{
    let g = |l: LineView| line_rows(l, layout, cfg, hl, w);
    assert(lines.take(end).map_values(g) =~= lines.take(idx).map_values(g) + lines.subrange(idx, end).map_values(g));
    vstd::seq_lib::lemma_flatten_concat(lines.take(idx).map_values(g), lines.subrange(idx, end).map_values(g));
}

proof fn lemma_rows_step(lines: Seq<LineView>, idx: int, end: int, layout: ColumnLayout, cfg: FormatConfig, hl: Seq<char>, w: int)
    requires
        0 < idx <= end <= lines.len(),
    ensures
        rows_between(lines, idx - 1, end, layout, cfg, hl, w) == line_rows(lines[idx - 1], layout, cfg, hl, w)
            + rows_between(lines, idx, end, layout, cfg, hl, w),
{
    let g = |l: LineView| line_rows(l, layout, cfg, hl, w);
    let m = lines.subrange(idx - 1, end).map_values(g);
    assert(m.drop_first() =~= lines.subrange(idx, end).map_values(g));
    assert(m.first() == g(lines[idx - 1]));
}

impl App {
    /// The rows the log view shows when it is `height` rows high and
    /// `width` columns wide.
    pub fn visible_rows(&self, height: u16, width: u16) -> (r: Vec<Vec<StyledSpan>>)
        ensures
            lines_view(r@) == visible_rows(
                self@.log_lines,
                self.scroll_offset as int,
                height as int,
                width,
                self.formatter.config,
                self.formatter.highlight_text@,
            ),
    {
        let ghost lv = line_views(self.log_lines@);
        let cfg = self.formatter.config;
        let hl = self.formatter.highlight_text.as_str();
        let layout = compute_layout(&cfg, width);
        let ghost g = |l: LineView| line_rows(l, layout, cfg, hl@, width as int);
        let total = self.log_lines.len();
        let end = if total >= self.scroll_offset { total - self.scroll_offset } else { 0 };
        let limit = height as usize * 2;
        let mut idx = end;
        let mut suffix: Vec<Vec<StyledSpan>> = Vec::new();
        assert(lv.subrange(end as int, end as int).map_values(g) =~= Seq::<Seq<Seq<SpanView>>>::empty());
        assert(lines_view(suffix@) =~= Seq::<Seq<SpanView>>::empty());
        while idx > 0 && suffix.len() < limit
            invariant
                idx <= end <= lv.len(),
                lv == line_views(self.log_lines@),
                layout == layout_of(cfg, width),
                cfg == self.formatter.config,
                hl@ == self.formatter.highlight_text@,
                lines_view(suffix@) == rows_between(lv, idx as int, end as int, layout, cfg, hl@, width as int),
            decreases idx,
        {
            idx = idx - 1;
            let mut rows = match &self.log_lines[idx] {
                LogLine::System(t) => system_rows_exec(t, width as usize),
                LogLine::Entry(e) => render_entry(e, &layout, &cfg, hl),
            };
            proof {
                assert(lv[idx as int] == self.log_lines@[idx as int]@);
                lemma_rows_step(lv, idx + 1, end as int, layout, cfg, hl@, width as int);
            }
            append_rows(&mut rows, suffix);
            suffix = rows;
        }
        proof {
            lemma_rows_split(lv, idx as int, end as int, layout, cfg, hl@, width as int);
            if idx == 0 {
                assert(lv.take(0).map_values(g) =~= Seq::<Seq<Seq<SpanView>>>::empty());
            }
        }
        let ghost all = rows_of_lines(lv, end as int, layout, cfg, hl@, width as int);
        let ghost sv_ = lines_view(suffix@);
        let h = height as usize;
        let n = suffix.len();
        let shown = if n >= h {
            suffix.split_off(n - h)
        } else {
            suffix
        };
        proof {
            if n >= h {
                assert(lines_view(shown@) =~= sv_.subrange(n - h, n as int));
                if all.len() >= h {
                    assert(all.subrange(all.len() - h, all.len() as int) =~= sv_.subrange(n - h, n as int));
                }
            } else {
                assert(all =~= sv_);
            }
        }
        let mut r: Vec<Vec<StyledSpan>> = Vec::new();
        let pad = h - shown.len();
        let mut k: usize = 0;
        while k < pad
            invariant
                k <= pad,
                r@.len() == k,
                lines_view(r@) == Seq::new(k as nat, |i: int| blank_row()),
            decreases pad - k,
        {
            let mut row: Vec<StyledSpan> = Vec::new();
            push_span(&mut row, span(String::new(), default_style()));
            let ghost rb = r@;
            let ghost rv = span_views(row@);
            assert(rv =~= blank_row());
            r.push(row);
            assert(r@ == rb.push(row));
            assert(lines_view(r@) =~= lines_view(rb).push(rv));
            assert(lines_view(r@) =~= Seq::new((k + 1) as nat, |i: int| blank_row()));
            k = k + 1;
        }
        append_rows(&mut r, shown);
        r
    }
}

// ---------------------------------------------------------------------------
// The status bar
// ---------------------------------------------------------------------------

pub open spec fn on(f: Color, b: Color) -> TextStyle {
    TextStyle { fg: Some(f), bg: Some(b), ..plain_style() }
}

pub open spec fn bg_only(b: Color) -> TextStyle {
    TextStyle { bg: Some(b), ..plain_style() }
}

/// The name the status bar gives a device: its model, or its serial when
/// the model is unknown.
pub open spec fn device_label(model: Seq<char>, serial: Seq<char>) -> Seq<char> {
    if model.len() > 0 {
        model
    } else {
        serial
    }
}

/// The label of the selected device.
pub open spec fn device_part(d: Option<DeviceView>) -> Seq<SpanView> {
    match d {
        Some(d) => column(true, " "@ + device_label(d.model, d.serial) + " "@, on(Color::Black, Color::Green), 1),
        None => Seq::empty(),
    }
}

/// Whether the view is paused, waiting to resume, or streaming.
pub open spec fn mode_part(paused: bool, auto_scroll: bool, streaming: bool) -> Seq<SpanView> {
    if paused && !auto_scroll {
        seq![sv(" PageDown to resume "@, TextStyle { fg: Some(Color::Gray), dim: true, ..plain_style() })]
    } else if paused {
        seq![sv(" PAUSED "@, on(Color::White, Color::Red))]
    } else if streaming {
        seq![sv(" STREAMING "@, on(Color::Black, Color::Green))]
    } else {
        Seq::empty()
    }
}

pub open spec fn proxy_part(proxy: bool) -> Seq<SpanView> {
    part_if_spans(proxy, seq![sv(" "@, plain_style()), sv(" PROXY "@, on(Color::Black, Color::Magenta))])
}

/// The labelled parts at the left of the status bar: the device, the
/// package filter, how far the view is scrolled back, whether the view is
/// paused or streaming, and whether the proxy runs.
pub open spec fn status_parts(v: AppView, proxy: bool) -> Seq<SpanView> {
    device_part(v.adb.selected()) + column(
        v.filters.package.len() > 0,
        " "@ + v.filters.package + " "@,
        on(Color::Black, Color::Yellow),
        1,
    ) + column(
        v.scroll_offset > 0,
        " SCROLL +"@ + decimal(v.scroll_offset as nat) + " "@,
        on(Color::White, Color::Yellow),
        1,
    ) + mode_part(v.paused, v.auto_scroll, v.streaming) + proxy_part(proxy)
}

/// How many terminal columns a text takes, as `unicode-width` counts them
/// (wide characters two, combining marks none); a function of the text
/// alone.
pub uninterp spec fn display_width(s: Seq<char>) -> nat;

/// `ratatui::text::Span::width` of a span holding `s` (the text's
/// `unicode-width` width); the result is named `display_width`.
#[verifier::external_body]
fn text_width(s: &str) -> (w: usize)
    ensures
        w == display_width(s@),
{
    ratatui::text::Span::raw(s).width()
}

/// The display width of the first `n` spans.
pub open spec fn spans_width(sp: Seq<SpanView>, n: int) -> int
    decreases n,
{
    if n <= 0 || sp.len() == 0 {
        0
    } else if n > sp.len() {
        spans_width(sp, sp.len() as int)
    } else {
        spans_width(sp, n - 1) + display_width(sp[n - 1].text)
    }
}

proof fn lemma_spans_width_mono(sp: Seq<SpanView>, m: int, n: int)
    requires
        0 <= m <= n <= sp.len(),
    ensures
        0 <= spans_width(sp, m) <= spans_width(sp, n),
    decreases n,
{
    if m < n {
        lemma_spans_width_mono(sp, m, n - 1);
    } else if n > 0 {
        lemma_spans_width_mono(sp, n - 1, n - 1);
    }
}

/// The status bar `width` columns wide: the parts, then blank space, then
/// the number of lines in the view at the right end. The blank space fills
/// what the parts and the count leave of the width, by display width.
pub open spec fn status_bar(v: AppView, proxy: bool, width: int) -> Seq<SpanView> {
    let parts = status_parts(v, proxy);
    let count = " "@ + decimal(v.log_lines.len()) + " lines "@;
    let used = spans_width(parts, parts.len() as int) + count.len();
    parts + seq![
        sv(spaces(width - used), bg_only(Color::DarkGray)),
        sv(count, TextStyle { fg: Some(Color::Gray), bg: Some(Color::DarkGray), dim: true, ..plain_style() }),
    ]
}

fn label_span(a: &str, b: &str, c: &str, style: TextStyle) -> (s: StyledSpan)
    ensures
        s@ == sv(a@ + b@ + c@, style),
{
    let mut t = string_from(a);
    push_str(&mut t, b);
    push_str(&mut t, c);
    span(t, style)
}

/// The display width of the spans, or `cap` if that is smaller.
fn spans_width_capped(v: &Vec<StyledSpan>, cap: usize) -> (n: usize)
    ensures
        n as int == if spans_width(span_views(v@), v@.len() as int) < cap {
            spans_width(span_views(v@), v@.len() as int)
        } else {
            cap as int
        },
{
    let ghost sp = span_views(v@);
    let mut n: usize = 0;
    let mut k: usize = 0;
    while k < v.len()
        invariant
            k <= v@.len(),
            sp == span_views(v@),
            n as int == if spans_width(sp, k as int) < cap {
                spans_width(sp, k as int)
            } else {
                cap as int
            },
        decreases v@.len() - k,
    {
        proof {
            lemma_spans_width_mono(sp, k as int, k + 1);
            assert(sp[k as int] == v@[k as int]@);
        }
        let m = text_width(v[k].text.as_str());
        if n == cap || m >= cap - n {
            n = cap;
        } else {
            n = n + m;
        }
        k = k + 1;
    }
    n
}

fn push_device_part(r: &mut Vec<StyledSpan>, adb: &AdbClient)
    ensures
        span_views(final(r)@) == span_views(old(r)@) + device_part(adb.selected()),
{
    let ghost o = span_views(r@);
    match adb.selected_device_ref() {
        Some(dev) => {
            let name = if dev.model.as_str().unicode_len() > 0 {
                dev.model.as_str()
            } else {
                dev.serial.as_str()
            };
            let t = label_span(" ", name, " ", default_style()).text;
            push_part(r, true, t, TextStyle { fg: Some(Color::Black), bg: Some(Color::Green), ..default_style() }, 1);
        },
        None => {
            assert(span_views(r@) =~= o + Seq::<SpanView>::empty());
        },
    }
}

fn push_mode_part(r: &mut Vec<StyledSpan>, paused: bool, auto_scroll: bool, streaming: bool)
    ensures
        span_views(final(r)@) == span_views(old(r)@) + mode_part(paused, auto_scroll, streaming),
{
    let ghost o = span_views(r@);
    let d = default_style();
    if paused && !auto_scroll {
        push_span(r, span(string_from(" PageDown to resume "), TextStyle { fg: Some(Color::Gray), dim: true, ..d }));
    } else if paused {
        push_span(r, span(string_from(" PAUSED "), TextStyle { fg: Some(Color::White), bg: Some(Color::Red), ..d }));
    } else if streaming {
        push_span(r, span(string_from(" STREAMING "), TextStyle { fg: Some(Color::Black), bg: Some(Color::Green), ..d }));
    }
    assert(span_views(r@) =~= o + mode_part(paused, auto_scroll, streaming));
}

fn push_proxy_part(r: &mut Vec<StyledSpan>, proxy: bool)
    ensures
        span_views(final(r)@) == span_views(old(r)@) + proxy_part(proxy),
{
    let ghost o = span_views(r@);
    if proxy {
        push_span(r, spaces_span(1));
        push_span(r, span(string_from(" PROXY "), TextStyle { fg: Some(Color::Black), bg: Some(Color::Magenta), ..default_style() }));
    }
    assert(span_views(r@) =~= o + proxy_part(proxy));
}

impl App {
    fn status_parts(&self, proxy: bool) -> (r: Vec<StyledSpan>)
        ensures
            span_views(r@) == status_parts(self@, proxy),
    {
        let mut r: Vec<StyledSpan> = Vec::new();
        let d = default_style();
        assert(span_views(r@) =~= Seq::<SpanView>::empty());
        push_device_part(&mut r, &self.adb);
        let pk = self.filters.package.as_str();
        push_part(&mut r, pk.unicode_len() > 0, label_span(" ", pk, " ", d).text, TextStyle { fg: Some(Color::Black), bg: Some(Color::Yellow), ..d }, 1);
        let mut ds = String::new();
        push_decimal(&mut ds, self.scroll_offset as u64);
        push_part(&mut r, self.scroll_offset > 0, label_span(" SCROLL +", ds.as_str(), " ", d).text, TextStyle { fg: Some(Color::White), bg: Some(Color::Yellow), ..d }, 1);
        push_mode_part(&mut r, self.paused, self.auto_scroll, self.streaming);
        push_proxy_part(&mut r, proxy);
        r
    }

    /// The status bar `width` columns wide; `proxy` tells whether the
    /// traffic proxy runs.
    pub fn status_bar(&self, proxy: bool, width: u16) -> (r: Vec<StyledSpan>)
        ensures
            span_views(r@) == status_bar(self@, proxy, width as int),
    {
        let mut r = self.status_parts(proxy);
        let ghost parts = span_views(r@);
        let d = default_style();
        let mut count = string_from(" ");
        push_decimal(&mut count, self.log_lines.len() as u64);
        push_str(&mut count, " lines ");
        let cn = count.as_str().unicode_len();
        let used = spans_width_capped(&r, 100000);
        let remaining = if width as usize >= used && width as usize - used >= cn {
            width as usize - used - cn
        } else {
            0
        };
        let mut pad = String::new();
        crate::text::push_spaces(&mut pad, remaining);
        push_span(&mut r, span(pad, TextStyle { bg: Some(Color::DarkGray), ..d }));
        push_span(&mut r, span(count, TextStyle { fg: Some(Color::Gray), bg: Some(Color::DarkGray), dim: true, ..d }));
        proof {
            assert(spaces(width - (spans_width(parts, parts.len() as int) + cn)) =~= spaces(remaining as int));
            assert(span_views(r@) =~= status_bar(self@, proxy, width as int));
        }
        r
    }
}

// ---------------------------------------------------------------------------
// The suggestion list
// ---------------------------------------------------------------------------

/// The length of the longest display text of the suggestions.
pub open spec fn max_display(v: Seq<SuggestionView>) -> int
    decreases v.len(),
{
    if v.len() == 0 {
        0
    } else {
        let m = max_display(v.drop_last());
        if v.last().display.len() > m {
            v.last().display.len() as int
        } else {
            m
        }
    }
}

/// The width of the command column: the longest display text, capped so
/// that eight columns remain for the description, and at least one.
pub open spec fn command_column(v: Seq<SuggestionView>, total_w: int) -> int {
    let cap = if total_w >= 13 {
        total_w - 13
    } else {
        0
    };
    let c = if max_display(v) < cap {
        max_display(v)
    } else {
        cap
    };
    if c >= 1 {
        c
    } else {
        1
    }
}

/// One row of the suggestion list: a marker, the command padded to its
/// column, two spaces, the description cut to the space left, then blank
/// space to the full width; the selected row in black on cyan.
pub open spec fn suggestion_row(s: SuggestionView, selected: bool, cmd_col: int, total_w: int) -> Seq<SpanView> {
    let fg_cmd = if selected {
        Color::Black
    } else {
        Color::White
    };
    let bgc = if selected {
        Color::Cyan
    } else {
        Color::DarkGray
    };
    let desc_style = if selected {
        TextStyle { fg: Some(Color::Black), bg: Some(Color::Cyan), dim: true, ..plain_style() }
    } else {
        TextStyle { fg: Some(Color::Gray), bg: Some(Color::DarkGray), dim: true, ..plain_style() }
    };
    let desc_space = total_w - (3 + cmd_col + 2);
    let desc = if desc_space > 0 && s.desc.len() > 0 {
        truncated(s.desc, desc_space)
    } else {
        Seq::empty()
    };
    let used = 3 + cmd_col + 2 + desc.len();
    seq![
        sv(if selected { " > "@ } else { "   "@ }, on(fg_cmd, bgc)),
        sv(pad_right(truncated(s.display, cmd_col), cmd_col), on(fg_cmd, bgc)),
        sv("  "@, bg_only(bgc)),
        sv(desc, desc_style),
    ] + part_if_spans(used < total_w, seq![sv(spaces(total_w - used), bg_only(bgc))])
}

/// The suggestion list in an area `total_w` columns wide and `height`
/// rows high; an area narrower than six columns shows nothing.
pub open spec fn suggestion_rows(v: Seq<SuggestionView>, sel: Option<usize>, total_w: int, height: int) -> Seq<Seq<SpanView>> {
    if total_w < 6 {
        Seq::empty()
    } else {
        let shown = if v.len() > height {
            v.take(height)
        } else {
            v
        };
        let c = command_column(shown, total_w);
        Seq::new(shown.len(), |i: int| suggestion_row(shown[i], sel == Some(i as usize), c, total_w))
    }
}

fn suggestion_row_exec(s: &Suggestion, selected: bool, cmd_col: usize, total_w: usize) -> (r: Vec<StyledSpan>)
    requires
        1 <= cmd_col,
        cmd_col + 5 <= total_w,
    ensures
        span_views(r@) == suggestion_row(s@, selected, cmd_col as int, total_w as int),
{
    let d = default_style();
    let fg_cmd = if selected { Color::Black } else { Color::White };
    let bgc = if selected { Color::Cyan } else { Color::DarkGray };
    let desc_style = if selected {
        TextStyle { fg: Some(Color::Black), bg: Some(Color::Cyan), dim: true, ..d }
    } else {
        TextStyle { fg: Some(Color::Gray), bg: Some(Color::DarkGray), dim: true, ..d }
    };
    let desc_space = total_w - (3 + cmd_col + 2);
    let desc = if desc_space > 0 && s.desc.as_str().unicode_len() > 0 {
        truncate_to_width(s.desc.as_str(), desc_space)
    } else {
        String::new()
    };
    let dw = desc.as_str().unicode_len();
    let used = 3 + cmd_col + 2 + dw;
    let mut r: Vec<StyledSpan> = Vec::new();
    let marker = if selected { string_from(" > ") } else { string_from("   ") };
    push_span(&mut r, span(marker, TextStyle { fg: Some(fg_cmd), bg: Some(bgc), ..d }));
    push_span(&mut r, span(padded(s.display.as_str(), cmd_col), TextStyle { fg: Some(fg_cmd), bg: Some(bgc), ..d }));
    push_span(&mut r, span(string_from("  "), TextStyle { bg: Some(bgc), ..d }));
    push_span(&mut r, span(desc, desc_style));
    let ghost head = span_views(r@);
    if used < total_w {
        let mut pad = String::new();
        crate::text::push_spaces(&mut pad, total_w - used);
        push_span(&mut r, span(pad, TextStyle { bg: Some(bgc), ..d }));
    }
    proof {
        assert(span_views(r@) =~= suggestion_row(s@, selected, cmd_col as int, total_w as int));
    }
    r
}

impl App {
    /// The suggestion list in an area `total_w` columns wide and `height`
    /// rows high.
    pub fn suggestion_rows(&self, total_w: u16, height: u16) -> (r: Vec<Vec<StyledSpan>>)
        ensures
            lines_view(r@) == suggestion_rows(
                sug_views(self.suggestions@),
                self.suggestion_idx,
                total_w as int,
                height as int,
            ),
    {
        let mut r: Vec<Vec<StyledSpan>> = Vec::new();
        let w = total_w as usize;
        if w < 6 {
            assert(lines_view(r@) =~= Seq::<Seq<SpanView>>::empty());
            return r;
        }
        let ghost all = sug_views(self.suggestions@);
        let n = if self.suggestions.len() > height as usize { height as usize } else { self.suggestions.len() };
        let ghost shown = if all.len() > height { all.take(height as int) } else { all };
        assert(shown.len() == n);
        let mut m: usize = 0;
        let mut k: usize = 0;
        while k < n
            invariant
                k <= n <= self.suggestions@.len(),
                all == sug_views(self.suggestions@),
                shown.len() == n,
                forall|j: int| 0 <= j < n ==> shown[j] == all[j],
                m == max_display(shown.take(k as int)),
            decreases n - k,
        {
            assert(shown.take(k + 1).drop_last() =~= shown.take(k as int));
            assert(shown[k as int] == self.suggestions@[k as int]@);
            let dl = self.suggestions[k].display.as_str().unicode_len();
            if dl > m {
                m = dl;
            }
            k = k + 1;
        }
        assert(shown.take(n as int) =~= shown);
        let cap = if w >= 13 { w - 13 } else { 0 };
        let c0 = if m < cap { m } else { cap };
        let c = if c0 >= 1 { c0 } else { 1 };
        let ghost f = |i: int| suggestion_row(shown[i], self.suggestion_idx == Some(i as usize), c as int, w as int);
        assert(lines_view(r@) =~= Seq::new(0, f));
        let mut k: usize = 0;
        while k < n
            invariant
                k <= n <= self.suggestions@.len(),
                all == sug_views(self.suggestions@),
                shown.len() == n,
                forall|j: int| 0 <= j < n ==> shown[j] == all[j],
                6 <= w,
                1 <= c,
                c + 5 <= w,
                f == (|i: int| suggestion_row(shown[i], self.suggestion_idx == Some(i as usize), c as int, w as int)),
                r@.len() == k,
                lines_view(r@) == Seq::new(k as nat, f),
            decreases n - k,
        {
            let sel = match self.suggestion_idx {
                Some(i) => i == k,
                None => false,
            };
            let row = suggestion_row_exec(&self.suggestions[k], sel, c, w);
            let ghost rb = r@;
            let ghost rv = span_views(row@);
            proof {
                assert(shown[k as int] == self.suggestions@[k as int]@);
                assert(rv == f(k as int));
            }
            r.push(row);
            assert(r@ == rb.push(row));
            assert(lines_view(r@) =~= lines_view(rb).push(rv));
            assert(lines_view(r@) =~= Seq::new((k + 1) as nat, f));
            k = k + 1;
        }
        r
    }
}

// ---------------------------------------------------------------------------
// The input box
// ---------------------------------------------------------------------------

/// The rows the first `k` characters of the input fill: a line break
/// starts a row, and a row full to its width (`fw` for the first row,
/// `ow` for the others) makes the next character start one.
pub open spec fn input_rows(input: Seq<char>, k: int, fw: int, ow: int) -> Seq<Seq<char>>
    decreases k,
{
    if k <= 0 || k > input.len() {
        seq![Seq::empty()]
    } else {
        let rows = input_rows(input, k - 1, fw, ow);
        let c = input[k - 1];
        if c == '\n' {
            rows.push(Seq::empty())
        } else {
            let w = if rows.len() == 1 {
                fw
            } else {
                ow
            };
            let rows2 = if rows.last().len() >= w {
                rows.push(Seq::empty())
            } else {
                rows
            };
            rows2.update(rows2.len() - 1, rows2.last().push(c))
        }
    }
}

/// The input laid out in rows, with the row and column of the cursor
/// (given in characters); a cursor past the end of a full row moves to the
/// start of the next one. Widths below one count as one.
pub open spec fn laid_out(input: Seq<char>, cursor: int, first_w: int, other_w: int) -> (Seq<Seq<char>>, int, int) {
    let fw = if first_w >= 1 {
        first_w
    } else {
        1
    };
    let ow = if other_w >= 1 {
        other_w
    } else {
        1
    };
    let rows = input_rows(input, input.len() as int, fw, ow);
    let at = input_rows(input, cursor, fw, ow);
    let row = at.len() - 1;
    let col = at.last().len() as int;
    let row_w = if row == 0 {
        fw
    } else {
        ow
    };
    if col >= row_w {
        (if row + 1 >= rows.len() {
            rows.push(Seq::empty())
        } else {
            rows
        }, row + 1, 0)
    } else {
        (rows, row, col)
    }
}

proof fn lemma_input_rows_nonempty(input: Seq<char>, k: int, fw: int, ow: int)
    ensures
        input_rows(input, k, fw, ow).len() >= 1,
        0 <= k <= input.len() ==> input_rows(input, k, fw, ow).len() <= k + 1,
    decreases k,
{
    if 0 < k <= input.len() {
        lemma_input_rows_nonempty(input, k - 1, fw, ow);
    }
}

proof fn lemma_input_rows_grow(input: Seq<char>, k: int, m: int, fw: int, ow: int)
    requires
        0 <= k <= m <= input.len(),
    ensures
        input_rows(input, k, fw, ow).len() <= input_rows(input, m, fw, ow).len(),
    decreases m - k,
{
    if k < m {
        lemma_input_rows_grow(input, k, m - 1, fw, ow);
        lemma_input_rows_nonempty(input, m - 1, fw, ow);
    }
}

/// Lays out the command line: its rows, and the row and column of the
/// cursor, `cursor` being a position in characters.
pub fn input_layout(input: &Vec<char>, cursor: usize, first_row_w: usize, other_row_w: usize) -> (r: (Vec<String>, usize, usize))
    requires
        cursor <= input@.len(),
    ensures
        (string_views(r.0@), r.1 as int, r.2 as int) == laid_out(input@, cursor as int, first_row_w as int, other_row_w as int),
{
    let fw = if first_row_w >= 1 { first_row_w } else { 1 };
    let ow = if other_row_w >= 1 { other_row_w } else { 1 };
    let mut done: Vec<String> = Vec::new();
    let mut cur: Vec<char> = Vec::new();
    let mut crow: usize = 0;
    let mut ccol: usize = 0;
    let mut k: usize = 0;
    assert(string_views(done@).push(cur@) =~= input_rows(input@, 0, fw as int, ow as int));
    while k < input.len()
        invariant
            k <= input@.len(),
            cursor <= input@.len(),
            fw >= 1,
            ow >= 1,
            string_views(done@).push(cur@) == input_rows(input@, k as int, fw as int, ow as int),
            k > cursor ==> (crow as int, ccol as int) == (
                input_rows(input@, cursor as int, fw as int, ow as int).len() - 1,
                input_rows(input@, cursor as int, fw as int, ow as int).last().len() as int,
            ),
        decreases input@.len() - k,
    {
        let ghost rows = string_views(done@).push(cur@);
        proof {
            lemma_input_rows_nonempty(input@, k as int, fw as int, ow as int);
        }
        if k == cursor {
            crow = done.len();
            ccol = cur.len();
        }
        let c = input[k];
        if c == '\n' {
            done.push(from_chars(cur.as_slice()));
            cur = Vec::new();
            assert(string_views(done@).push(cur@) =~= rows.push(Seq::empty()));
        } else {
            let w = if done.len() == 0 { fw } else { ow };
            if cur.len() >= w {
                done.push(from_chars(cur.as_slice()));
                cur = Vec::new();
                assert(string_views(done@).push(cur@) =~= rows.push(Seq::empty()));
            }
            let ghost rows2 = string_views(done@).push(cur@);
            cur.push(c);
            assert(string_views(done@).push(cur@) =~= rows2.update(rows2.len() - 1, rows2.last().push(c)));
        }
        k = k + 1;
    }
    proof {
        lemma_input_rows_nonempty(input@, input@.len() as int, fw as int, ow as int);
        lemma_input_rows_nonempty(input@, cursor as int, fw as int, ow as int);
        lemma_input_rows_grow(input@, cursor as int, input@.len() as int, fw as int, ow as int);
    }
    if cursor == input.len() {
        crow = done.len();
        ccol = cur.len();
    }
    let ghost rows = string_views(done@).push(cur@);
    done.push(from_chars(cur.as_slice()));
    assert(string_views(done@) =~= rows);
    let nrows = done.len();
    assert(crow < nrows);
    let row_w = if crow == 0 { fw } else { ow };
    if ccol >= row_w {
        crow = crow + 1;
        ccol = 0;
        if crow >= done.len() {
            done.push(String::new());
            assert(string_views(done@) =~= rows.push(Seq::empty()));
        }
    }
    (done, crow, ccol)
}

pub open spec fn prompt_style() -> TextStyle {
    TextStyle { fg: Some(Color::Cyan), bold: true, ..plain_style() }
}

/// The first row of the input shown below the top of the box.
pub open spec fn input_scroll(nrows: int, cursor_row: int, height: int) -> int {
    if nrows > height && cursor_row >= height {
        cursor_row + 1 - height
    } else {
        0
    }
}

/// The input box, `width` columns wide and `height` rows high inside its
/// borders: the rows of the input that fit, scrolled so that the cursor
/// shows, the first behind the prompt `> `; and where the cursor is, if
/// it lies in the box.
pub open spec fn input_box(input: Seq<char>, cursor: int, width: int, height: int) -> (Seq<Seq<SpanView>>, Option<(int, int)>) {
    if width <= 2 || height <= 0 {
        (Seq::empty(), None)
    } else {
        let (rows, cr, cc) = laid_out(input, cursor, width - 2, width);
        let top = input_scroll(rows.len() as int, cr, height);
        let count = if rows.len() - top < height {
            rows.len() - top
        } else {
            height
        };
        let lines = Seq::new(
            count as nat,
            |i: int|
                if i + top == 0 {
                    seq![sv("> "@, prompt_style()), sv(rows[0], plain_style())]
                } else {
                    seq![sv(rows[i + top], plain_style())]
                },
        );
        let cx = if cr == 0 {
            2 + cc
        } else {
            cc
        };
        let cy = cr - top;
        (lines, if top <= cr < top + height && cx < width && cy < height {
            Some((cx, cy))
        } else {
            None
        })
    }
}

proof fn lemma_laid_out_bounds(input: Seq<char>, cursor: int, fw: int, ow: int)
    requires
        0 <= cursor <= input.len(),
    ensures
        ({
            let (rows, cr, cc) = laid_out(input, cursor, fw, ow);
            0 <= cr < rows.len() && 0 <= cc
        }),
{
    let f = if fw >= 1 { fw } else { 1 };
    let o = if ow >= 1 { ow } else { 1 };
    lemma_input_rows_nonempty(input, input.len() as int, f, o);
    lemma_input_rows_nonempty(input, cursor, f, o);
    lemma_input_rows_grow(input, cursor, input.len() as int, f, o);
}

impl App {
    /// The input box, `width` columns wide and `height` rows high inside
    /// its borders, and the position of the cursor in it.
    pub fn input_box(&self, width: u16, height: u16) -> (r: (Vec<Vec<StyledSpan>>, Option<(usize, usize)>))
        requires
            self.cursor_pos <= self.input@.len(),
        ensures
            (lines_view(r.0@), match r.1 {
                Some((x, y)) => Some((x as int, y as int)),
                None => None,
            }) == input_box(self.input@, self.cursor_pos as int, width as int, height as int),
    {
        let mut out: Vec<Vec<StyledSpan>> = Vec::new();
        if width <= 2 || height == 0 {
            assert(lines_view(out@) =~= Seq::<Seq<SpanView>>::empty());
            return (out, None);
        }
        let w = width as usize;
        let h = height as usize;
        let (rows, cr, cc) = input_layout(&self.input, self.cursor_pos, w - 2, w);
        proof {
            lemma_laid_out_bounds(self.input@, self.cursor_pos as int, w - 2, w as int);
        }
        let ghost rv = string_views(rows@);
        let n = rows.len();
        let top = if n > h && cr >= h { cr + 1 - h } else { 0 };
        let count = if n - top < h { n - top } else { h };
        let ghost f = |i: int|
            if i + top == 0 {
                seq![sv("> "@, prompt_style()), sv(rv[0], plain_style())]
            } else {
                seq![sv(rv[i + top], plain_style())]
            };
        let mut k: usize = 0;
        assert(lines_view(out@) =~= Seq::new(0, f));
        while k < count
            invariant
                k <= count,
                top + count <= n,
                n == rows@.len(),
                rv == string_views(rows@),
                f == (|i: int|
                    if i + top == 0 {
                        seq![sv("> "@, prompt_style()), sv(rv[0], plain_style())]
                    } else {
                        seq![sv(rv[i + top], plain_style())]
                    }),
                out@.len() == k,
                lines_view(out@) == Seq::new(k as nat, f),
            decreases count - k,
        {
            let mut line: Vec<StyledSpan> = Vec::new();
            if k + top == 0 {
                push_span(&mut line, span(string_from("> "), TextStyle { fg: Some(Color::Cyan), bold: true, ..default_style() }));
            }
            push_span(&mut line, span(string_from(rows[k + top].as_str()), default_style()));
            let ghost lv = span_views(line@);
            assert(lv =~= f(k as int));
            let ghost ob = out@;
            out.push(line);
            assert(out@ == ob.push(line));
            assert(lines_view(out@) =~= lines_view(ob).push(lv));
            assert(lines_view(out@) =~= Seq::new((k + 1) as nat, f));
            k = k + 1;
        }
        let cx = if cr == 0 { 2 + cc } else { cc };
        let cursor = if top <= cr && cr - top < h && cx < w {
            Some((cx, cr - top))
        } else {
            None
        };
        (out, cursor)
    }
}

/// Heights of the input box (borders included) and of the suggestion list
/// on a screen `width` columns wide: the box grows with the rows of the
/// input, from one to ten, and the list shows up to eight suggestions.
pub open spec fn panel_heights(v: AppView, width: int) -> (int, int) {
    let content_w = if width - 2 >= 1 {
        width - 2
    } else {
        1
    };
    let first_w = if content_w - 2 >= 1 {
        content_w - 2
    } else {
        1
    };
    let n = laid_out(v.input, v.cursor_pos as int, first_w, content_w).0.len();
    let inner = if n < 1 {
        1
    } else if n > 10 {
        10
    } else {
        n as int
    };
    let sug = if !v.show_suggestions {
        0
    } else if v.suggestions.len() > 8 {
        8
    } else if v.suggestions.len() < 1 {
        1
    } else {
        v.suggestions.len() as int
    };
    (inner + 2, sug)
}

impl App {
    /// Heights of the input box and of the suggestion list.
    pub fn panel_heights(&self, width: u16) -> (r: (u16, u16))
        requires
            self.cursor_pos <= self.input@.len(),
        ensures
            (r.0 as int, r.1 as int) == panel_heights(self@, width as int),
    {
        let w = width as usize;
        let content_w = if w >= 3 { w - 2 } else { 1 };
        let first_w = if content_w >= 3 { content_w - 2 } else { 1 };
        let (rows, _r, _c) = input_layout(&self.input, self.cursor_pos, first_w, content_w);
        let n = rows.len();
        let inner: u16 = if n < 1 { 1 } else if n > 10 { 10 } else { n as u16 };
        let sl = self.suggestions.len();
        let sug: u16 = if !self.show_suggestions { 0 } else if sl > 8 { 8 } else if sl < 1 { 1 } else { sl as u16 };
        proof {
            assert(sug_views(self.suggestions@).len() == sl);
        }
        (inner + 2, sug)
    }
}

// ---------------------------------------------------------------------------
// The line-mode prompt
// ---------------------------------------------------------------------------

/// The prompt of the line-by-line shell: the tool's name, the selected
/// device, the followed package, whether the view is paused or streaming,
/// and whether the proxy runs.
pub open spec fn prompt_text(device: Option<DeviceView>, package: Seq<char>, streaming: bool, paused: bool, proxy: bool) -> Seq<char> {
    "\x1b[1;36mlogux\x1b[0m"@ + (match device {
        Some(d) => "@"@ + device_label(d.model, d.serial),
        None => Seq::empty(),
    }) + (if package.len() > 0 {
        "\x1b[33m ["@ + package + "]\x1b[0m"@
    } else {
        Seq::empty()
    }) + (if paused {
        "\x1b[31m (paused)\x1b[0m"@
    } else if streaming {
        "\x1b[32m (streaming)\x1b[0m"@
    } else {
        Seq::empty()
    }) + (if proxy {
        "\x1b[35m (proxy)\x1b[0m"@
    } else {
        Seq::empty()
    }) + "\x1b[1;36m > \x1b[0m"@
}

/// The prompt of the line-by-line shell.
pub fn build_prompt(adb: &AdbClient, filters: &crate::logs::filters::FilterState, streaming: bool, paused: bool, proxy: bool) -> (p: String)
    ensures
        p@ == prompt_text(adb.selected(), filters@.package, streaming, paused, proxy),
{
    let mut p = string_from("\x1b[1;36mlogux\x1b[0m");
    let ghost p0 = p@;
    match adb.selected_device_ref() {
        Some(dev) => {
            push_str(&mut p, "@");
            if dev.model.as_str().unicode_len() > 0 {
                push_str(&mut p, dev.model.as_str());
            } else {
                push_str(&mut p, dev.serial.as_str());
            }
        },
        None => {},
    }
    let ghost p1 = p@;
    if filters.package.as_str().unicode_len() > 0 {
        push_str(&mut p, "\x1b[33m [");
        push_str(&mut p, filters.package.as_str());
        push_str(&mut p, "]\x1b[0m");
    }
    let ghost p2 = p@;
    if paused {
        push_str(&mut p, "\x1b[31m (paused)\x1b[0m");
    } else if streaming {
        push_str(&mut p, "\x1b[32m (streaming)\x1b[0m");
    }
    let ghost p3 = p@;
    if proxy {
        push_str(&mut p, "\x1b[35m (proxy)\x1b[0m");
    }
    let ghost p4 = p@;
    push_str(&mut p, "\x1b[1;36m > \x1b[0m");
    proof {
        let dpart = match adb.selected() {
            Some(d) => "@"@ + device_label(d.model, d.serial),
            None => Seq::empty(),
        };
        assert(p1 =~= p0 + dpart);
        let kpart = if filters@.package.len() > 0 {
            "\x1b[33m ["@ + filters@.package + "]\x1b[0m"@
        } else {
            Seq::empty()
        };
        assert(p2 =~= p1 + kpart);
        let mpart = if paused {
            "\x1b[31m (paused)\x1b[0m"@
        } else if streaming {
            "\x1b[32m (streaming)\x1b[0m"@
        } else {
            Seq::empty()
        };
        assert(p3 =~= p2 + mpart);
        let xpart = if proxy {
            "\x1b[35m (proxy)\x1b[0m"@
        } else {
            Seq::empty()
        };
        assert(p4 =~= p3 + xpart);
        assert(p@ =~= prompt_text(adb.selected(), filters@.package, streaming, paused, proxy));
    }
    p
}

} // verus!
