//! State of the terminal interface and the decisions taken on it.
//!
//! The log buffer keeps every received line (`all_lines`) and the lines
//! that pass the current filters (`log_lines`); changing a filter re-filters
//! the whole buffer. Both hold at most [`MAX_LOG_LINES`] lines, the oldest
//! dropped first. The terminal itself, the clock, the log stream and every
//! other outside service are driven by the caller, who hands their results
//! to the methods here.
use vstd::prelude::*;
use std::collections::VecDeque;
use crate::adb::{
    display_name_of, first_online, online_count, online_pred, parse_device_list, pid_from_pidof_spec,
    pid_from_ps_spec, server_message, AdbClient, CommandOutput, Device, DeviceView, StateView,
    device_views,
};
use crate::cli::completer::{complete, completions, plain, sug_views, Suggestion, SuggestionView};
use crate::logs::edit::{edit_string, token_key, token_value};
use crate::logs::filters::{passes, FilterState, FilterView};
use crate::logs::formatter::{default_widths, ColumnWidths, FormatConfig, LogFormatter};
use crate::logs::parser::{level_letter, EntryView, LogEntry};
use crate::mock::MockEngine;
use crate::text::{
    add_unique_string, char_views, decimal, from_chars, index_of, index_of_char, is_ws,
    is_whitespace_char, join, join_strings, lines, parse_u16_spec, parse_u32_range,
    parse_u32_str, parse_usize_spec, push_char, push_decimal, push_str, split_lines,
    split_words, starts_with, str_eq, str_starts_with, string_from, string_of_range,
    string_views, to_chars, trim, trim_range, with_unique, words,
};

verus! {

broadcast use vstd::std_specs::vecdeque::group_vec_dequeue_axioms;

/// Most lines kept in each of the two buffers.
pub const MAX_LOG_LINES: usize = 10000;

/// Consecutive automatic reconnects tried before giving up.
pub const MAX_RECONNECT_ATTEMPTS: u32 = 5;

/// One line of the log view.
pub enum LogLine {
    /// Output of the tool itself, with ANSI colour codes.
    System(String),
    /// A log entry, shown as a table row.
    Entry(LogEntry),
}

pub enum LineView {
    System(Seq<char>),
    Entry(EntryView),
}

impl View for LogLine {
    type V = LineView;

    open spec fn view(&self) -> LineView {
        match self {
            LogLine::System(s) => LineView::System(s@),
            LogLine::Entry(e) => LineView::Entry(e@),
        }
    }
}

impl LogLine {
    pub fn duplicate(&self) -> (r: LogLine)
        ensures
            r@ == self@,
    {
        match self {
            LogLine::System(s) => LogLine::System(s.clone()),
            LogLine::Entry(e) => LogLine::Entry(e.duplicate()),
        }
    }
}

pub open spec fn line_views(v: Seq<LogLine>) -> Seq<LineView> {
    v.map_values(|l: LogLine| l@)
}

/// System lines always show; entries show when they pass the filters.
pub open spec fn line_passes(l: LineView, f: FilterView) -> bool {
    match l {
        LineView::System(_) => true,
        LineView::Entry(e) => passes(e, f),
    }
}

/// The lines of `lines` that the filters let through, in order.
pub open spec fn filtered(lines: Seq<LineView>, f: FilterView) -> Seq<LineView> {
    lines.filter(|l: LineView| line_passes(l, f))
}

/// The last `n` items of `s` (all of them if there are fewer).
pub open spec fn last_n<T>(s: Seq<T>, n: int) -> Seq<T> {
    if s.len() > n {
        s.skip(s.len() - n)
    } else {
        s
    }
}

/// Delay before the reconnect attempt that follows `attempts` failures.
pub open spec fn backoff_ms(attempts: int) -> u64 {
    if attempts <= 0 {
        500
    } else if attempts == 1 {
        1000
    } else if attempts == 2 {
        2000
    } else if attempts == 3 {
        5000
    } else {
        10000
    }
}

/// The state of the interface, apart from the outside services.
pub struct App {
    pub all_lines: VecDeque<LogLine>,
    pub log_lines: VecDeque<LogLine>,
    /// Lines scrolled back from the newest one.
    pub scroll_offset: usize,
    /// The view follows new lines.
    pub auto_scroll: bool,
    /// The command line, as characters.
    pub input: Vec<char>,
    /// Cursor position in `input`, in characters.
    pub cursor_pos: usize,
    pub history: Vec<String>,
    pub history_idx: Option<usize>,
    pub history_saved_input: Vec<char>,
    pub suggestions: Vec<Suggestion>,
    pub suggestion_idx: Option<usize>,
    pub show_suggestions: bool,
    pub adb: AdbClient,
    pub filters: FilterState,
    pub formatter: LogFormatter,
    pub mock_engine: MockEngine,
    /// The log stream should run.
    pub streaming: bool,
    /// Entries are buffered but the view does not change.
    pub paused: bool,
    /// File that matching entries are appended to.
    pub save_path: Option<String>,
    pub reconnect_attempts: u32,
    /// Clock reading (milliseconds) before which no reconnect starts.
    pub reconnect_deadline: Option<u64>,
    /// Packages chosen with `/app`, oldest first.
    pub app_history: Vec<String>,
    pub mouse_capture: bool,
    pub should_exit: bool,
}

pub struct AppView {
    pub all_lines: Seq<LineView>,
    pub log_lines: Seq<LineView>,
    pub scroll_offset: usize,
    pub auto_scroll: bool,
    pub input: Seq<char>,
    pub cursor_pos: usize,
    pub history: Seq<Seq<char>>,
    pub history_idx: Option<usize>,
    pub history_saved_input: Seq<char>,
    pub suggestions: Seq<SuggestionView>,
    pub suggestion_idx: Option<usize>,
    pub show_suggestions: bool,
    pub adb: AdbClient,
    pub filters: FilterView,
    pub format: FormatConfig,
    pub highlight: Seq<char>,
    pub mock_engine: MockEngine,
    pub streaming: bool,
    pub paused: bool,
    pub save_path: Option<Seq<char>>,
    pub reconnect_attempts: u32,
    pub reconnect_deadline: Option<u64>,
    pub app_history: Seq<Seq<char>>,
    pub mouse_capture: bool,
    pub should_exit: bool,
}

impl View for App {
    type V = AppView;

    open spec fn view(&self) -> AppView {
        AppView {
            all_lines: line_views(self.all_lines@),
            log_lines: line_views(self.log_lines@),
            scroll_offset: self.scroll_offset,
            auto_scroll: self.auto_scroll,
            input: self.input@,
            cursor_pos: self.cursor_pos,
            history: string_views(self.history@),
            history_idx: self.history_idx,
            history_saved_input: self.history_saved_input@,
            suggestions: sug_views(self.suggestions@),
            suggestion_idx: self.suggestion_idx,
            show_suggestions: self.show_suggestions,
            adb: self.adb,
            filters: self.filters@,
            format: self.formatter.config,
            highlight: self.formatter.highlight_text@,
            mock_engine: self.mock_engine,
            streaming: self.streaming,
            paused: self.paused,
            save_path: match self.save_path {
                Some(p) => Some(p@),
                None => None,
            },
            reconnect_attempts: self.reconnect_attempts,
            reconnect_deadline: self.reconnect_deadline,
            app_history: string_views(self.app_history@),
            mouse_capture: self.mouse_capture,
            should_exit: self.should_exit,
        }
    }
}

/// What every method keeps: bounded buffers and scroll offset, a cursor
/// inside the input, a history position inside the history.
pub open spec fn app_wf(v: AppView) -> bool {
    &&& v.all_lines.len() <= MAX_LOG_LINES
    &&& v.log_lines.len() <= MAX_LOG_LINES
    &&& v.scroll_offset <= MAX_LOG_LINES
    &&& v.cursor_pos <= v.input.len()
    &&& v.reconnect_attempts <= MAX_RECONNECT_ATTEMPTS
    &&& match v.history_idx {
        Some(i) => i < v.history.len(),
        None => true,
    }
}

/// The view jumps to the newest line if it follows new lines.
#[verifier::opaque]
pub open spec fn to_end(v: AppView) -> AppView {
    if v.auto_scroll {
        AppView { scroll_offset: 0, ..v }
    } else {
        v
    }
}

/// Both buffers cut to their last [`MAX_LOG_LINES`] lines; a view that does
/// not follow new lines keeps showing the same line where it can.
#[verifier::opaque]
pub open spec fn trimmed(v: AppView) -> AppView {
    let popped = if v.log_lines.len() > MAX_LOG_LINES {
        v.log_lines.len() - MAX_LOG_LINES
    } else {
        0
    };
    AppView {
        all_lines: last_n(v.all_lines, MAX_LOG_LINES as int),
        log_lines: last_n(v.log_lines, MAX_LOG_LINES as int),
        scroll_offset: if !v.auto_scroll {
            if v.scroll_offset > popped {
                (v.scroll_offset - popped) as usize
            } else {
                0
            }
        } else {
            v.scroll_offset
        },
        ..v
    }
}

/// The view rebuilt from the whole buffer with the current filters.
#[verifier::opaque]
pub open spec fn rebuilt(v: AppView) -> AppView {
    to_end(AppView { log_lines: filtered(v.all_lines, v.filters), ..v })
}

/// Pause lifted: the view shows everything buffered meanwhile.
pub open spec fn resumed(v: AppView) -> AppView {
    rebuilt(AppView { paused: false, ..v })
}


/// The buffers stay bounded when a system message is added.
pub proof fn lemma_wf_system(v: AppView, msg: Seq<char>)
    requires
        app_wf(v),
    ensures
        app_wf(with_system(v, msg)),
{
    reveal(with_system);
    reveal(trimmed);
    reveal(to_end);
}

pub proof fn lemma_wf_systems(v: AppView, msgs: Seq<Seq<char>>)
    requires
        app_wf(v),
    ensures
        app_wf(with_systems(v, msgs)),
    decreases msgs.len(),
{
    if msgs.len() > 0 {
        lemma_wf_systems(v, msgs.drop_last());
        lemma_wf_system(with_systems(v, msgs.drop_last()), msgs.last());
    }
}

pub proof fn lemma_wf_rebuilt(v: AppView)
    requires
        app_wf(v),
    ensures
        app_wf(rebuilt(v)),
{
    reveal(rebuilt);
    reveal(to_end);
    v.all_lines.lemma_filter_len(|l: LineView| line_passes(l, v.filters));
}

pub proof fn lemma_wf_entry(v: AppView, e: EntryView)
    requires
        app_wf(v),
    ensures
        app_wf(with_entry(v, e)),
{
    reveal(with_entry);
    reveal(trimmed);
    reveal(to_end);
}

/// Two system messages added one after the other.
pub proof fn lemma_two_systems(v: AppView, a: Seq<char>, b: Seq<char>)
    ensures
        with_systems(v, seq![a, b]) == with_system(with_system(v, a), b),
{
    reveal_with_fuel(with_systems, 3);
    assert(seq![a, b].drop_last() =~= seq![a]);
    assert(seq![a].drop_last() =~= Seq::<Seq<char>>::empty());
}

/// A system message added to both buffers.
#[verifier::opaque]
pub open spec fn with_system(v: AppView, msg: Seq<char>) -> AppView {
    to_end(
        trimmed(
            AppView {
                all_lines: v.all_lines.push(LineView::System(msg)),
                log_lines: v.log_lines.push(LineView::System(msg)),
                ..v
            },
        ),
    )
}

/// System messages added in order.
pub open spec fn with_systems(v: AppView, msgs: Seq<Seq<char>>) -> AppView
    decreases msgs.len(),
{
    if msgs.len() == 0 {
        v
    } else {
        with_system(with_systems(v, msgs.drop_last()), msgs.last())
    }
}

/// A received entry added: always to the full buffer, to the view if it
/// passes the filters and the view is not paused.
#[verifier::opaque]
pub open spec fn with_entry(v: AppView, e: EntryView) -> AppView {
    let all = v.all_lines.push(LineView::Entry(e));
    if !v.paused {
        to_end(
            trimmed(
                AppView {
                    all_lines: all,
                    log_lines: if passes(e, v.filters) {
                        v.log_lines.push(LineView::Entry(e))
                    } else {
                        v.log_lines
                    },
                    ..v
                },
            ),
        )
    } else {
        AppView { all_lines: last_n(all, MAX_LOG_LINES as int), ..v }
    }
}

/// The row written to the save file for an entry:
/// `TIMESTAMP L PID/TID TAG: MESSAGE` and a line break.
pub open spec fn save_row(e: EntryView) -> Seq<char> {
    e.timestamp + " "@ + seq![level_letter(e.level)] + " "@ + decimal(e.pid as nat) + "/"@
        + decimal(e.tid as nat) + " "@ + e.tag + ": "@ + e.message + "\n"@
}

/// Largest scroll offset for the current view.
pub open spec fn max_scroll(v: AppView) -> int {
    if v.log_lines.len() > 0 {
        v.log_lines.len() - 1
    } else {
        0
    }
}

/// Scrolled back `step` lines: the view stops following and a running
/// stream pauses.
pub open spec fn scrolled_up(v: AppView, step: int) -> AppView {
    AppView {
        scroll_offset: (if v.scroll_offset + step <= max_scroll(v) {
            v.scroll_offset + step
        } else {
            max_scroll(v)
        }) as usize,
        auto_scroll: false,
        paused: v.paused || v.streaming,
        ..v
    }
}

/// Scrolled forward `step` lines; reaching the newest line follows new lines
/// again and lifts a pause of a running stream.
pub open spec fn scrolled_down(v: AppView, step: int) -> AppView {
    if v.scroll_offset > step {
        AppView { scroll_offset: (v.scroll_offset - step) as usize, ..v }
    } else {
        let w = AppView { scroll_offset: 0, auto_scroll: true, ..v };
        if v.paused && v.streaming {
            resumed(w)
        } else {
            w
        }
    }
}

/// A wheel event of the mouse.
pub enum MouseScroll {
    Up,
    Down,
}

impl App {
    /// A fresh interface over the given services; `app_history` is the
    /// saved package history.
    pub fn new(adb: AdbClient, mock_engine: MockEngine, app_history: Vec<String>) -> (a: App)
        ensures
            app_wf(a@),
            a@.all_lines.len() == 0,
            a@.log_lines.len() == 0,
            a@.scroll_offset == 0,
            a@.auto_scroll,
            a@.input.len() == 0,
            a@.history.len() == 0,
            a@.history_idx is None,
            a@.suggestions.len() == 0,
            a@.suggestion_idx is None,
            !a@.show_suggestions,
            a@.adb == adb,
            a@.filters == crate::logs::filters::empty_filters(),
            a@.format == crate::logs::formatter::default_format(),
            a@.highlight.len() == 0,
            a@.mock_engine == mock_engine,
            !a@.streaming,
            !a@.paused,
            a@.save_path is None,
            a@.reconnect_attempts == 0,
            a@.reconnect_deadline is None,
            a@.app_history == string_views(app_history@),
            a@.mouse_capture,
            !a@.should_exit,
    {
        let a = App {
            all_lines: VecDeque::new(),
            log_lines: VecDeque::new(),
            scroll_offset: 0,
            auto_scroll: true,
            input: Vec::new(),
            cursor_pos: 0,
            history: Vec::new(),
            history_idx: None,
            history_saved_input: Vec::new(),
            suggestions: Vec::new(),
            suggestion_idx: None,
            show_suggestions: false,
            adb,
            filters: FilterState::new(),
            formatter: LogFormatter::default(),
            mock_engine,
            streaming: false,
            paused: false,
            save_path: None,
            reconnect_attempts: 0,
            reconnect_deadline: None,
            app_history,
            mouse_capture: true,
            should_exit: false,
        };
        proof {
            assert(line_views(a.all_lines@) =~= Seq::<LineView>::empty());
            assert(line_views(a.log_lines@) =~= Seq::<LineView>::empty());
            assert(string_views(a.history@) =~= Seq::<Seq<char>>::empty());
            assert(sug_views(a.suggestions@) =~= Seq::<SuggestionView>::empty());
        }
        a
    }

    /// Follows the newest line if the view is set to.
    pub fn auto_scroll_to_end(&mut self)
        ensures
            final(self)@ == to_end(old(self)@),
    {
        reveal(to_end);
        if self.auto_scroll {
            self.scroll_offset = 0;
        }
    }

    /// Drops the oldest lines beyond [`MAX_LOG_LINES`] in both buffers.
    pub fn trim_buffer(&mut self)
        ensures
            final(self)@ == trimmed(old(self)@),
    {
        reveal(trimmed);
        let ghost all0 = line_views(self.all_lines@);
        let ghost log0 = line_views(self.log_lines@);
        let ghost off0 = self.scroll_offset;
        while self.all_lines.len() > MAX_LOG_LINES
            invariant
                all0.len() >= line_views(self.all_lines@).len(),
                line_views(self.all_lines@).len() >= (if all0.len() > MAX_LOG_LINES {
                    MAX_LOG_LINES as int
                } else {
                    all0.len() as int
                }),
                line_views(self.all_lines@) == all0.skip(
                    all0.len() - line_views(self.all_lines@).len(),
                ),
                line_views(self.log_lines@) == log0,
                self.scroll_offset == off0,
                self@ == (AppView { all_lines: line_views(self.all_lines@), ..old(self)@ }),
            decreases self.all_lines@.len(),
        {
            let ghost before = line_views(self.all_lines@);
            self.all_lines.pop_front();
            assert(line_views(self.all_lines@) =~= before.drop_first());
            assert(all0.skip(all0.len() - line_views(self.all_lines@).len()) =~= before.drop_first());
        }
        assert(all0.skip(0) =~= all0);
        let ghost mid = self@;
        while self.log_lines.len() > MAX_LOG_LINES
            invariant
                log0.len() >= line_views(self.log_lines@).len(),
                line_views(self.log_lines@).len() >= (if log0.len() > MAX_LOG_LINES {
                    MAX_LOG_LINES as int
                } else {
                    log0.len() as int
                }),
                line_views(self.log_lines@) == log0.skip(
                    log0.len() - line_views(self.log_lines@).len(),
                ),
                self.scroll_offset == (if !mid.auto_scroll {
                    if off0 > log0.len() - line_views(self.log_lines@).len() {
                        (off0 - (log0.len() - line_views(self.log_lines@).len())) as usize
                    } else {
                        0
                    }
                } else {
                    off0
                }),
                self@ == (AppView {
                    log_lines: line_views(self.log_lines@),
                    scroll_offset: self.scroll_offset,
                    ..mid
                }),
                mid.auto_scroll == old(self)@.auto_scroll,
                mid.scroll_offset == off0,
            decreases self.log_lines@.len(),
        {
            let ghost before = line_views(self.log_lines@);
            self.log_lines.pop_front();
            assert(line_views(self.log_lines@) =~= before.drop_first());
            assert(log0.skip(log0.len() - line_views(self.log_lines@).len()) =~= before.drop_first());
            if !self.auto_scroll && self.scroll_offset > 0 {
                self.scroll_offset = self.scroll_offset - 1;
            }
        }
        assert(log0.skip(0) =~= log0);
    }

    /// Rebuilds the view from the whole buffer with the current filters.
    pub fn rebuild_filtered(&mut self)
        requires
            app_wf(old(self)@),
        ensures
            final(self)@ == rebuilt(old(self)@),
            app_wf(final(self)@),
            final(self)@ == (AppView {
                log_lines: final(self)@.log_lines,
                scroll_offset: final(self)@.scroll_offset,
                ..old(self)@
            }),
    {
        proof {
            lemma_wf_rebuilt(self@);
        }
        reveal(rebuilt);
        reveal(to_end);
        let ghost f = self.filters@;
        let ghost all = line_views(self.all_lines@);
        self.log_lines.clear();
        let mut i: usize = 0;
        while i < self.all_lines.len()
            invariant
                i <= all.len(),
                all == line_views(self.all_lines@),
                f == self.filters@,
                line_views(self.log_lines@) == filtered(all.take(i as int), f),
                self@ == (AppView { log_lines: line_views(self.log_lines@), ..old(self)@ }),
            decreases all.len() - i,
        {
            proof {
                reveal_with_fuel(Seq::filter, 1);
                assert(all.take(i + 1).drop_last() =~= all.take(i as int));
                assert(all.take(i + 1).last() == all[i as int]);
            }
            let ghost before = line_views(self.log_lines@);
            let keep = self.entry_passes_filter(&self.all_lines[i]);
            if keep {
                let l = self.all_lines[i].duplicate();
                self.log_lines.push_back(l);
                assert(line_views(self.log_lines@) =~= before.push(all[i as int]));
            }
            i = i + 1;
        }
        assert(all.take(all.len() as int) =~= all);
        if self.auto_scroll {
            self.scroll_offset = 0;
        }
    }

    /// Whether `line` shows under the current filters: system lines
    /// always do.
    pub fn entry_passes_filter(&self, line: &LogLine) -> (b: bool)
        ensures
            b == line_passes(line@, self.filters@),
    {
        match line {
            LogLine::System(_) => true,
            LogLine::Entry(e) => crate::logs::filters::matches(e, &self.filters),
        }
    }

    /// Lifts a pause; entries received meanwhile show up.
    pub fn resume(&mut self)
        requires
            app_wf(old(self)@),
        ensures
            app_wf(final(self)@),
            final(self)@ == resumed(old(self)@),
    {
        self.paused = false;
        self.rebuild_filtered();
    }

    /// Shows a message of the tool itself.
    pub fn push_system(&mut self, msg: String)
        requires
            app_wf(old(self)@),
        ensures
            final(self)@ == with_system(old(self)@, msg@),
            app_wf(final(self)@),
            final(self)@ == (AppView {
                all_lines: final(self)@.all_lines,
                log_lines: final(self)@.log_lines,
                scroll_offset: final(self)@.scroll_offset,
                ..old(self)@
            }),
    {
        proof {
            lemma_wf_system(self@, msg@);
        }
        reveal(with_system);
        reveal(trimmed);
        reveal(to_end);
        let copy = msg.clone();
        let ghost a0 = line_views(self.all_lines@);
        let ghost l0 = line_views(self.log_lines@);
        self.all_lines.push_back(LogLine::System(copy));
        self.log_lines.push_back(LogLine::System(msg));
        assert(line_views(self.all_lines@) =~= a0.push(LineView::System(msg@)));
        assert(line_views(self.log_lines@) =~= l0.push(LineView::System(msg@)));
        self.trim_buffer();
        self.auto_scroll_to_end();
    }

    /// Adds a received entry. When a save file is set and the entry passes
    /// the filters, returns the row to append to it.
    pub fn push_entry(&mut self, entry: LogEntry) -> (row: Option<String>)
        requires
            app_wf(old(self)@),
        ensures
            app_wf(final(self)@),
            final(self)@ == with_entry(old(self)@, entry@),
            row matches Some(r) ==> r@ == save_row(entry@),
            row is Some <==> (old(self)@.save_path is Some && passes(entry@, old(self)@.filters)),
    {
        proof {
            lemma_wf_entry(self@, entry@);
        }
        reveal(with_entry);
        reveal(to_end);
        reveal(trimmed);
        let keep = crate::logs::filters::matches(&entry, &self.filters);
        let row = if keep && self.save_path.is_some() {
            Some(save_row_exec(&entry))
        } else {
            None
        };
        let ghost a0 = line_views(self.all_lines@);
        let ghost l0 = line_views(self.log_lines@);
        let copy = entry.duplicate();
        self.all_lines.push_back(LogLine::Entry(copy));
        assert(line_views(self.all_lines@) =~= a0.push(LineView::Entry(entry@)));
        if !self.paused {
            if keep {
                self.log_lines.push_back(LogLine::Entry(entry));
                assert(line_views(self.log_lines@) =~= l0.push(LineView::Entry(entry@)));
            }
            self.trim_buffer();
            self.auto_scroll_to_end();
        } else {
            let ghost all = line_views(self.all_lines@);
            while self.all_lines.len() > MAX_LOG_LINES
                invariant
                    all.len() >= line_views(self.all_lines@).len(),
                    line_views(self.all_lines@).len() >= (if all.len() > MAX_LOG_LINES {
                        MAX_LOG_LINES as int
                    } else {
                        all.len() as int
                    }),
                    line_views(self.all_lines@) == all.skip(
                        all.len() - line_views(self.all_lines@).len(),
                    ),
                    self@ == (AppView {
                        all_lines: line_views(self.all_lines@),
                        ..old(self)@
                    }),
                decreases self.all_lines@.len(),
            {
                let ghost before = line_views(self.all_lines@);
                self.all_lines.pop_front();
                assert(line_views(self.all_lines@) =~= before.drop_first());
                assert(all.skip(all.len() - line_views(self.all_lines@).len()) =~= before.drop_first());
            }
            assert(all.skip(0) =~= all);
        }
        row
    }

    /// Scrolls back `step` lines.
    pub fn scroll_up(&mut self, step: usize)
        requires
            app_wf(old(self)@),
            old(self).scroll_offset + step <= usize::MAX,
        ensures
            app_wf(final(self)@),
            final(self)@ == scrolled_up(old(self)@, step as int),
    {
        let len = self.log_lines.len();
        let max = if len > 0 {
            len - 1
        } else {
            0
        };
        let next = self.scroll_offset + step;
        self.scroll_offset = if next <= max {
            next
        } else {
            max
        };
        self.auto_scroll = false;
        if !self.paused && self.streaming {
            self.paused = true;
        }
    }

    /// Scrolls forward `step` lines.
    pub fn scroll_down(&mut self, step: usize)
        requires
            app_wf(old(self)@),
        ensures
            final(self)@ == scrolled_down(old(self)@, step as int),
            app_wf(final(self)@),
    {
        if self.scroll_offset > step {
            self.scroll_offset = self.scroll_offset - step;
        } else {
            self.scroll_offset = 0;
            self.auto_scroll = true;
            if self.paused && self.streaming {
                self.resume();
            }
        }
    }

    /// The mouse wheel scrolls one line.
    pub fn handle_mouse(&mut self, kind: MouseScroll)
        requires
            app_wf(old(self)@),
        ensures
            app_wf(final(self)@),
            final(self)@ == match kind {
                MouseScroll::Up => scrolled_up(old(self)@, 1),
                MouseScroll::Down => scrolled_down(old(self)@, 1),
            },
    {
        match kind {
            MouseScroll::Up => self.scroll_up(1),
            MouseScroll::Down => self.scroll_down(1),
        }
    }
}

/// The save-file row of an entry.
pub fn save_row_exec(e: &LogEntry) -> (r: String)
    ensures
        r@ == save_row(e@),
{
    let mut s = string_from(e.timestamp.as_str());
    push_str(&mut s, " ");
    push_char(&mut s, e.level.char());
    push_str(&mut s, " ");
    push_decimal(&mut s, e.pid as u64);
    push_str(&mut s, "/");
    push_decimal(&mut s, e.tid as u64);
    push_str(&mut s, " ");
    push_str(&mut s, e.tag.as_str());
    push_str(&mut s, ": ");
    push_str(&mut s, e.message.as_str());
    push_str(&mut s, "\n");
    proof {
        assert(s@ =~= save_row(e@));
    }
    s
}

/// The keys the interface reacts to.
#[derive(Clone, Copy, Debug, PartialEq, Eq, Structural)]
pub enum KeyCode {
    Char(char),
    Enter,
    Backspace,
    Delete,
    Left,
    Right,
    Home,
    End,
    Up,
    Down,
    Tab,
    Esc,
    PageUp,
    PageDown,
    Other,
}

/// A key press with its modifiers.
#[derive(Clone, Copy, Debug, PartialEq, Eq, Structural)]
pub struct KeyInput {
    pub code: KeyCode,
    pub ctrl: bool,
    pub shift: bool,
    pub alt: bool,
}

/// What the caller does after a key press.
#[derive(Clone, Copy, Debug, PartialEq, Eq, Structural)]
pub enum KeyOutcome {
    /// Nothing more.
    Done,
    /// The input changed: recompute the suggestions.
    Refresh,
    /// Enter: submit the input line.
    Submit,
    /// Tab without open suggestions: recompute them and take the only one.
    TabComplete,
}

/// `c` typed at the cursor.
pub open spec fn inserted(v: AppView, c: char) -> AppView {
    AppView {
        input: v.input.insert(v.cursor_pos as int, c),
        cursor_pos: (v.cursor_pos + 1) as usize,
        ..v
    }
}

/// End of the text kept by Ctrl+W in `t`: just after the last whitespace
/// or `/` among its first `n` characters, or 0.
pub open spec fn last_break(t: Seq<char>, n: int) -> int
    decreases n,
{
    if n <= 0 {
        0
    } else if is_ws(t[n - 1]) || t[n - 1] == '/' {
        n
    } else {
        last_break(t, n - 1)
    }
}

/// Where the word before the cursor starts (trailing whitespace skipped).
pub open spec fn word_start(before: Seq<char>) -> int {
    let t = crate::text::trim_end(before);
    last_break(t, t.len() as int)
}

/// Ctrl+W: the word before the cursor deleted.
pub open spec fn deleted_word(v: AppView) -> AppView {
    let e = word_start(v.input.subrange(0, v.cursor_pos as int));
    AppView {
        input: v.input.subrange(0, e) + v.input.subrange(v.cursor_pos as int, v.input.len() as int),
        cursor_pos: e as usize,
        ..v
    }
}

/// The suggestion list closed.
pub open spec fn closed_suggestions(v: AppView) -> AppView {
    AppView { show_suggestions: false, suggestions: Seq::empty(), suggestion_idx: None, ..v }
}

/// The highlighted suggestion (or the only one) taken into the input, with
/// a space after it, and the list closed.
pub open spec fn applied_suggestion(v: AppView) -> AppView {
    let text: Option<Seq<char>> = match v.suggestion_idx {
        Some(i) => if i < v.suggestions.len() {
            Some(v.suggestions[i as int].text)
        } else {
            None
        },
        None => if v.suggestions.len() == 1 {
            Some(v.suggestions[0].text)
        } else {
            None
        },
    };
    let w = match text {
        Some(t) => {
            let inp = if t.len() > 0 && t.last() == ' ' {
                t
            } else {
                t.push(' ')
            };
            AppView { input: inp, cursor_pos: inp.len() as usize, ..v }
        },
        None => v,
    };
    closed_suggestions(w)
}

/// Up: previous suggestion, or previous history line.
pub open spec fn key_up(v: AppView) -> AppView {
    if v.show_suggestions {
        match v.suggestion_idx {
            Some(i) => if i > 0 {
                AppView { suggestion_idx: Some((i - 1) as usize), ..v }
            } else {
                v
            },
            None => if v.suggestions.len() > 0 {
                AppView { suggestion_idx: Some((v.suggestions.len() - 1) as usize), ..v }
            } else {
                v
            },
        }
    } else if v.history.len() > 0 {
        let w = match v.history_idx {
            None => AppView {
                history_saved_input: v.input,
                history_idx: Some((v.history.len() - 1) as usize),
                input: v.history.last(),
                ..v
            },
            Some(i) => if i > 0 {
                AppView { history_idx: Some((i - 1) as usize), input: v.history[i - 1], ..v }
            } else {
                v
            },
        };
        AppView { cursor_pos: w.input.len() as usize, ..w }
    } else {
        v
    }
}

/// Down: next suggestion, or next history line (past the newest, the line
/// being typed before).
pub open spec fn key_down(v: AppView) -> AppView {
    if v.show_suggestions {
        match v.suggestion_idx {
            Some(i) => if i + 1 < v.suggestions.len() {
                AppView { suggestion_idx: Some((i + 1) as usize), ..v }
            } else {
                v
            },
            None => if v.suggestions.len() > 0 {
                AppView { suggestion_idx: Some(0), ..v }
            } else {
                v
            },
        }
    } else {
        match v.history_idx {
            Some(i) => {
                let w = if i + 1 < v.history.len() {
                    AppView { history_idx: Some((i + 1) as usize), input: v.history[i + 1], ..v }
                } else {
                    AppView {
                        history_idx: None,
                        input: v.history_saved_input,
                        history_saved_input: Seq::empty(),
                        ..v
                    }
                };
                AppView { cursor_pos: w.input.len() as usize, ..w }
            },
            None => v,
        }
    }
}

/// The effect of a key press.
pub open spec fn key_step(v: AppView, k: KeyInput) -> (AppView, KeyOutcome) {
    if k.ctrl && k.code == KeyCode::Char('c') {
        (AppView { should_exit: true, ..v }, KeyOutcome::Done)
    } else if k.ctrl && k.code == KeyCode::Char('l') {
        (
            AppView { all_lines: Seq::empty(), log_lines: Seq::empty(), scroll_offset: 0, ..v },
            KeyOutcome::Done,
        )
    } else if k.ctrl && k.code == KeyCode::Char('u') {
        (
            AppView { input: Seq::empty(), cursor_pos: 0, show_suggestions: false, ..v },
            KeyOutcome::Done,
        )
    } else if k.ctrl && k.code == KeyCode::Char('a') {
        (AppView { cursor_pos: 0, ..v }, KeyOutcome::Done)
    } else if k.ctrl && k.code == KeyCode::Char('e') {
        (AppView { cursor_pos: v.input.len() as usize, ..v }, KeyOutcome::Done)
    } else if k.ctrl && k.code == KeyCode::Char('j') {
        (inserted(v, '\n'), KeyOutcome::Refresh)
    } else if k.ctrl && k.code == KeyCode::Char('w') {
        if v.cursor_pos > 0 {
            (deleted_word(v), KeyOutcome::Refresh)
        } else {
            (v, KeyOutcome::Done)
        }
    } else if k.shift && k.code == KeyCode::Up {
        (scrolled_up(v, 1), KeyOutcome::Done)
    } else if k.shift && k.code == KeyCode::Down {
        (scrolled_down(v, 1), KeyOutcome::Done)
    } else {
        match k.code {
            KeyCode::Enter => if k.shift || k.alt {
                (inserted(v, '\n'), KeyOutcome::Refresh)
            } else {
                (v, KeyOutcome::Submit)
            },
            KeyCode::Backspace => if v.cursor_pos > 0 {
                (
                    AppView {
                        input: v.input.remove(v.cursor_pos - 1),
                        cursor_pos: (v.cursor_pos - 1) as usize,
                        ..v
                    },
                    KeyOutcome::Refresh,
                )
            } else {
                (v, KeyOutcome::Done)
            },
            KeyCode::Delete => if v.cursor_pos < v.input.len() {
                (AppView { input: v.input.remove(v.cursor_pos as int), ..v }, KeyOutcome::Refresh)
            } else {
                (v, KeyOutcome::Done)
            },
            KeyCode::Left => if v.cursor_pos > 0 {
                (AppView { cursor_pos: (v.cursor_pos - 1) as usize, ..v }, KeyOutcome::Done)
            } else {
                (v, KeyOutcome::Done)
            },
            KeyCode::Right => if v.cursor_pos < v.input.len() {
                (AppView { cursor_pos: (v.cursor_pos + 1) as usize, ..v }, KeyOutcome::Done)
            } else {
                (v, KeyOutcome::Done)
            },
            KeyCode::Home => (AppView { cursor_pos: 0, ..v }, KeyOutcome::Done),
            KeyCode::End => (AppView { cursor_pos: v.input.len() as usize, ..v }, KeyOutcome::Done),
            KeyCode::Up => (key_up(v), KeyOutcome::Done),
            KeyCode::Down => (key_down(v), KeyOutcome::Done),
            KeyCode::Tab => if v.show_suggestions {
                if v.suggestion_idx is Some {
                    (applied_suggestion(v), KeyOutcome::Done)
                } else if v.suggestions.len() > 0 {
                    (AppView { suggestion_idx: Some(0), ..v }, KeyOutcome::Done)
                } else {
                    (v, KeyOutcome::Done)
                }
            } else {
                (v, KeyOutcome::TabComplete)
            },
            KeyCode::Esc => (closed_suggestions(v), KeyOutcome::Done),
            KeyCode::PageUp => (scrolled_up(v, 10), KeyOutcome::Done),
            KeyCode::PageDown => (scrolled_down(v, 10), KeyOutcome::Done),
            KeyCode::Char(c) => (inserted(v, c), KeyOutcome::Refresh),
            KeyCode::Other => (v, KeyOutcome::Done),
        }
    }
}

/// The suggestions computed for the current input (none unless it starts
/// with `/`). `fg` is the foreground app, looked at only for `/app`.
pub open spec fn suggested(
    v: AppView,
    fg: Option<Seq<char>>,
    app_presets: Seq<Seq<char>>,
    saved_presets: Seq<Seq<char>>,
) -> AppView {
    if v.input.len() == 0 || !starts_with(v.input, "/"@) {
        AppView { suggestions: Seq::empty(), show_suggestions: false, ..v }
    } else {
        let s = completions(
            v.input,
            v.app_history,
            if starts_with(v.input, "/app"@) {
                fg
            } else {
                None
            },
            v.filters.package,
            app_presets,
            saved_presets,
        );
        AppView {
            suggestions: s,
            show_suggestions: s.len() > 0,
            suggestion_idx: if s.len() > 0 {
                Some(0)
            } else {
                None
            },
            ..v
        }
    }
}

/// The input line as submitted: its words joined by single spaces.
pub open spec fn flattened(input: Seq<char>) -> Seq<char> {
    crate::text::join(crate::text::words(input), " "@)
}

/// Enter: the highlighted suggestion replaces the input; a non-empty line
/// is recorded in the history (unless it repeats the last one) and the
/// input is cleared.
pub open spec fn submitted(v: AppView) -> (AppView, Option<Seq<char>>) {
    let v1 = if v.show_suggestions {
        let w = match v.suggestion_idx {
            Some(i) => if i < v.suggestions.len() {
                AppView {
                    input: v.suggestions[i as int].text,
                    cursor_pos: v.suggestions[i as int].text.len() as usize,
                    ..v
                }
            } else {
                v
            },
            None => v,
        };
        closed_suggestions(w)
    } else {
        v
    };
    let line = flattened(v1.input);
    if line.len() == 0 {
        (v1, None)
    } else {
        (
            AppView {
                history: if v1.history.len() > 0 && v1.history.last() == line {
                    v1.history
                } else {
                    v1.history.push(line)
                },
                history_idx: None,
                show_suggestions: false,
                suggestions: Seq::empty(),
                input: Seq::empty(),
                cursor_pos: 0,
                ..v1
            },
            Some(line),
        )
    }
}

impl App {
    fn insert_char(&mut self, c: char)
        requires
            app_wf(old(self)@),
        ensures
            final(self)@ == inserted(old(self)@, c),
            app_wf(final(self)@),
    {
        self.input.insert(self.cursor_pos, c);
        let n = self.input.len();
        assert(n == old(self)@.input.len() + 1);
        self.cursor_pos = self.cursor_pos + 1;
    }

    fn delete_word(&mut self)
        requires
            app_wf(old(self)@),
        ensures
            final(self)@ == deleted_word(old(self)@),
            app_wf(final(self)@),
    {
        let ghost before = self.input@.subrange(0, self.cursor_pos as int);
        let mut k: usize = self.cursor_pos;
        while k > 0 && is_whitespace_char(self.input[k - 1])
            invariant
                k <= self.cursor_pos <= self.input@.len(),
                before == self.input@.subrange(0, self.cursor_pos as int),
                crate::text::trim_end(before) == crate::text::trim_end(
                    self.input@.subrange(0, k as int),
                ),
            decreases k,
        {
            assert(self.input@.subrange(0, k as int).drop_last() =~= self.input@.subrange(
                0,
                k - 1,
            ));
            k = k - 1;
        }
        let ghost t = self.input@.subrange(0, k as int);
        assert(crate::text::trim_end(t) == t);
        let mut e: usize = k;
        while e > 0 && !(is_whitespace_char(self.input[e - 1]) || self.input[e - 1] == '/')
            invariant
                e <= k <= self.input@.len(),
                t == self.input@.subrange(0, k as int),
                last_break(t, k as int) == last_break(t, e as int),
            decreases e,
        {
            e = e - 1;
        }
        let mut out: Vec<char> = Vec::new();
        let mut i: usize = 0;
        while i < e
            invariant
                i <= e <= k <= self.cursor_pos <= self.input@.len(),
                out@ == self.input@.subrange(0, i as int),
            decreases e - i,
        {
            out.push(self.input[i]);
            assert(self.input@.subrange(0, i + 1) =~= self.input@.subrange(0, i as int).push(
                self.input@[i as int],
            ));
            i = i + 1;
        }
        let mut j: usize = self.cursor_pos;
        while j < self.input.len()
            invariant
                e <= self.cursor_pos <= j <= self.input@.len(),
                out@ == self.input@.subrange(0, e as int) + self.input@.subrange(
                    self.cursor_pos as int,
                    j as int,
                ),
            decreases self.input@.len() - j,
        {
            out.push(self.input[j]);
            assert(self.input@.subrange(self.cursor_pos as int, j + 1) =~= self.input@.subrange(
                self.cursor_pos as int,
                j as int,
            ).push(self.input@[j as int]));
            j = j + 1;
        }
        self.input = out;
        self.cursor_pos = e;
    }

    /// Takes the highlighted suggestion (or the only one) into the input.
    pub fn apply_suggestion(&mut self)
        requires
            app_wf(old(self)@),
        ensures
            final(self)@ == applied_suggestion(old(self)@),
            app_wf(final(self)@),
    {
        let text: Option<String> = match self.suggestion_idx {
            Some(i) => if i < self.suggestions.len() {
                Some(self.suggestions[i].text.clone())
            } else {
                None
            },
            None => if self.suggestions.len() == 1 {
                Some(self.suggestions[0].text.clone())
            } else {
                None
            },
        };
        match text {
            Some(t) => {
                let mut inp = crate::text::to_chars(t.as_str());
                let n = inp.len();
                if !(n > 0 && inp[n - 1] == ' ') {
                    inp.push(' ');
                }
                let m = inp.len();
                self.input = inp;
                self.cursor_pos = m;
            },
            None => {},
        }
        self.show_suggestions = false;
        self.suggestions = Vec::new();
        self.suggestion_idx = None;
        assert(sug_views(self.suggestions@) =~= Seq::<SuggestionView>::empty());
    }

    fn input_string(&self) -> (s: String)
        ensures
            s@ == self.input@,
    {
        crate::text::from_chars(self.input.as_slice())
    }

    /// Whether the completion of the current input looks at the foreground
    /// app (it does for `/app`).
    pub fn wants_foreground(&self) -> (b: bool)
        ensures
            b == starts_with(self@.input, "/app"@),
    {
        let s = self.input_string();
        str_starts_with(s.as_str(), "/app")
    }

    /// Recomputes the suggestions. `fg` is the foreground app, `app_presets`
    /// the presets recorded for the current app, `saved_presets` all saved
    /// presets.
    pub fn update_suggestions(
        &mut self,
        fg: Option<&str>,
        app_presets: &[String],
        saved_presets: &[String],
    )
        requires
            app_wf(old(self)@),
        ensures
            final(self)@ == suggested(
                old(self)@,
                match fg {
                    Some(f) => Some(f@),
                    None => None,
                },
                string_views(app_presets@),
                string_views(saved_presets@),
            ),
            app_wf(final(self)@),
    {
        let s = self.input_string();
        if s.as_str().unicode_len() == 0 || !str_starts_with(s.as_str(), "/") {
            self.suggestions = Vec::new();
            self.show_suggestions = false;
            assert(sug_views(self.suggestions@) =~= Seq::<SuggestionView>::empty());
            return;
        }
        let f = if str_starts_with(s.as_str(), "/app") {
            fg
        } else {
            None
        };
        let list = complete(
            s.as_str(),
            self.app_history.as_slice(),
            f,
            self.filters.package.as_str(),
            app_presets,
            saved_presets,
        );
        let n = list.len();
        self.suggestions = list;
        self.show_suggestions = n > 0;
        self.suggestion_idx = if n > 0 {
            Some(0)
        } else {
            None
        };
    }

    /// Tab with the list closed: recompute the suggestions and take the
    /// only one, if there is exactly one.
    pub fn tab_complete(&mut self, fg: Option<&str>, app_presets: &[String], saved_presets: &[String])
        requires
            app_wf(old(self)@),
        ensures
            ({
                let s = suggested(
                    old(self)@,
                    match fg {
                        Some(f) => Some(f@),
                        None => None,
                    },
                    string_views(app_presets@),
                    string_views(saved_presets@),
                );
                final(self)@ == if s.suggestions.len() == 1 {
                    applied_suggestion(s)
                } else {
                    s
                }
            }),
            app_wf(final(self)@),
    {
        self.update_suggestions(fg, app_presets, saved_presets);
        if self.suggestions.len() == 1 {
            self.apply_suggestion();
        }
    }

    /// Reacts to a key press.
    #[verifier::rlimit(80)]
    #[verifier::spinoff_prover]
    pub fn handle_key(&mut self, key: KeyInput) -> (o: KeyOutcome)
        requires
            app_wf(old(self)@),
        ensures
            (final(self)@, o) == key_step(old(self)@, key),
            app_wf(final(self)@),
    {
        if key.ctrl {
            match key.code {
                KeyCode::Char(c) => {
                    if c == 'c' || c == 'l' || c == 'u' || c == 'a' || c == 'e' || c == 'j' || c
                        == 'w' {
                        return self.handle_ctrl(c);
                    }
                },
                _ => {},
            }
        }
        if key.shift {
            match key.code {
                KeyCode::Up => {
                    self.scroll_up(1);
                    return KeyOutcome::Done;
                },
                KeyCode::Down => {
                    self.scroll_down(1);
                    return KeyOutcome::Done;
                },
                _ => {},
            }
        }
        match key.code {
            KeyCode::Enter => {
                if key.shift || key.alt {
                    self.insert_char('\n');
                    KeyOutcome::Refresh
                } else {
                    KeyOutcome::Submit
                }
            },
            KeyCode::Backspace => {
                if self.cursor_pos > 0 {
                    self.cursor_pos = self.cursor_pos - 1;
                    self.input.remove(self.cursor_pos);
                    KeyOutcome::Refresh
                } else {
                    KeyOutcome::Done
                }
            },
            KeyCode::Delete => {
                if self.cursor_pos < self.input.len() {
                    self.input.remove(self.cursor_pos);
                    KeyOutcome::Refresh
                } else {
                    KeyOutcome::Done
                }
            },
            KeyCode::Left => {
                if self.cursor_pos > 0 {
                    self.cursor_pos = self.cursor_pos - 1;
                }
                KeyOutcome::Done
            },
            KeyCode::Right => {
                if self.cursor_pos < self.input.len() {
                    self.cursor_pos = self.cursor_pos + 1;
                }
                KeyOutcome::Done
            },
            KeyCode::Home => {
                self.cursor_pos = 0;
                KeyOutcome::Done
            },
            KeyCode::End => {
                self.cursor_pos = self.input.len();
                KeyOutcome::Done
            },
            KeyCode::Up => {
                self.key_up();
                KeyOutcome::Done
            },
            KeyCode::Down => {
                self.key_down();
                KeyOutcome::Done
            },
            KeyCode::Tab => {
                if self.show_suggestions {
                    if self.suggestion_idx.is_some() {
                        self.apply_suggestion();
                    } else if self.suggestions.len() > 0 {
                        self.suggestion_idx = Some(0);
                    }
                    KeyOutcome::Done
                } else {
                    KeyOutcome::TabComplete
                }
            },
            KeyCode::Esc => {
                self.show_suggestions = false;
                self.suggestions = Vec::new();
                self.suggestion_idx = None;
                assert(sug_views(self.suggestions@) =~= Seq::<SuggestionView>::empty());
                KeyOutcome::Done
            },
            KeyCode::PageUp => {
                self.scroll_up(10);
                KeyOutcome::Done
            },
            KeyCode::PageDown => {
                self.scroll_down(10);
                KeyOutcome::Done
            },
            KeyCode::Char(c) => {
                self.insert_char(c);
                KeyOutcome::Refresh
            },
            KeyCode::Other => KeyOutcome::Done,
        }
    }

    fn handle_ctrl(&mut self, c: char) -> (o: KeyOutcome)
        requires
            app_wf(old(self)@),
            c == 'c' || c == 'l' || c == 'u' || c == 'a' || c == 'e' || c == 'j' || c == 'w',
        ensures
            (final(self)@, o) == key_step(
                old(self)@,
                KeyInput { code: KeyCode::Char(c), ctrl: true, shift: false, alt: false },
            ),
            app_wf(final(self)@),
    {
        if c == 'c' {
            self.should_exit = true;
            KeyOutcome::Done
        } else if c == 'l' {
            self.all_lines.clear();
            self.log_lines.clear();
            self.scroll_offset = 0;
            assert(line_views(self.all_lines@) =~= Seq::<LineView>::empty());
            assert(line_views(self.log_lines@) =~= Seq::<LineView>::empty());
            KeyOutcome::Done
        } else if c == 'u' {
            self.input = Vec::new();
            self.cursor_pos = 0;
            self.show_suggestions = false;
            KeyOutcome::Done
        } else if c == 'a' {
            self.cursor_pos = 0;
            KeyOutcome::Done
        } else if c == 'e' {
            self.cursor_pos = self.input.len();
            KeyOutcome::Done
        } else if c == 'j' {
            self.insert_char('\n');
            KeyOutcome::Refresh
        } else {
            if self.cursor_pos > 0 {
                self.delete_word();
                KeyOutcome::Refresh
            } else {
                KeyOutcome::Done
            }
        }
    }

    fn key_up(&mut self)
        requires
            app_wf(old(self)@),
        ensures
            final(self)@ == key_up(old(self)@),
            app_wf(final(self)@),
    {
        if self.show_suggestions {
            match self.suggestion_idx {
                Some(i) => {
                    if i > 0 {
                        self.suggestion_idx = Some(i - 1);
                    }
                },
                None => {
                    if self.suggestions.len() > 0 {
                        self.suggestion_idx = Some(self.suggestions.len() - 1);
                    }
                },
            }
        } else if self.history.len() > 0 {
            match self.history_idx {
                None => {
                    self.history_saved_input = self.input.clone();
                    let n = self.history.len();
                    self.history_idx = Some(n - 1);
                    self.input = crate::text::to_chars(self.history[n - 1].as_str());
                    assert(string_views(self.history@)[n - 1] == self.history@[n - 1]@);
                },
                Some(i) => {
                    if i > 0 {
                        self.history_idx = Some(i - 1);
                        self.input = crate::text::to_chars(self.history[i - 1].as_str());
                        assert(string_views(self.history@)[i - 1] == self.history@[i - 1]@);
                    }
                },
            }
            self.cursor_pos = self.input.len();
        }
    }

    fn key_down(&mut self)
        requires
            app_wf(old(self)@),
        ensures
            final(self)@ == key_down(old(self)@),
            app_wf(final(self)@),
    {
        if self.show_suggestions {
            match self.suggestion_idx {
                Some(i) => {
                    if self.suggestions.len() > 0 && i < self.suggestions.len() - 1 {
                        self.suggestion_idx = Some(i + 1);
                    }
                },
                None => {
                    if self.suggestions.len() > 0 {
                        self.suggestion_idx = Some(0);
                    }
                },
            }
        } else {
            match self.history_idx {
                Some(i) => {
                    if i < self.history.len() - 1 {
                        self.history_idx = Some(i + 1);
                        self.input = crate::text::to_chars(self.history[i + 1].as_str());
                        assert(string_views(self.history@)[i + 1] == self.history@[i + 1]@);
                    } else {
                        self.history_idx = None;
                        let mut saved: Vec<char> = Vec::new();
                        core::mem::swap(&mut saved, &mut self.history_saved_input);
                        self.input = saved;
                    }
                    self.cursor_pos = self.input.len();
                },
                None => {},
            }
        }
    }

    /// Enter: takes the input line. Returns the line to act on (its words
    /// joined by single spaces), or nothing when it is blank.
    pub fn take_input(&mut self) -> (r: Option<String>)
        requires
            app_wf(old(self)@),
        ensures
            (final(self)@, match r {
                Some(l) => Some(l@),
                None => None,
            }) == submitted(old(self)@),
            app_wf(final(self)@),
    {
        if self.show_suggestions {
            match self.suggestion_idx {
                Some(i) => {
                    if i < self.suggestions.len() {
                        self.input = crate::text::to_chars(self.suggestions[i].text.as_str());
                        self.cursor_pos = self.input.len();
                    }
                },
                None => {},
            }
            self.show_suggestions = false;
            self.suggestions = Vec::new();
            self.suggestion_idx = None;
            assert(sug_views(self.suggestions@) =~= Seq::<SuggestionView>::empty());
        }
        let words = crate::text::split_words(&self.input);
        let mut parts: Vec<String> = Vec::new();
        let ghost wv = crate::text::char_views(words@);
        let mut i: usize = 0;
        while i < words.len()
            invariant
                i <= words@.len(),
                wv == crate::text::char_views(words@),
                string_views(parts@) == wv.take(i as int),
            decreases words@.len() - i,
        {
            let ghost before = string_views(parts@);
            let piece = crate::text::from_chars(words[i].as_slice());
            parts.push(piece);
            assert(wv[i as int] == words@[i as int]@);
            assert(string_views(parts@) =~= before.push(wv[i as int]));
            assert(wv.take(i + 1) =~= wv.take(i as int).push(wv[i as int]));
            i = i + 1;
        }
        assert(crate::text::char_views(words@).take(words@.len() as int) =~= crate::text::char_views(
            words@,
        ));
        let line = crate::text::join_strings(&parts, " ");
        if line.as_str().unicode_len() == 0 {
            return None;
        }
        let n = self.history.len();
        let repeat = n > 0 && crate::text::str_eq(self.history[n - 1].as_str(), line.as_str());
        if !repeat {
            self.history.push(line.clone());
            assert(string_views(self.history@) =~= old(self)@.history.push(line@));
        } else {
            assert(string_views(self.history@).last() == self.history@[n - 1]@);
        }
        self.history_idx = None;
        self.show_suggestions = false;
        self.suggestions = Vec::new();
        self.input = Vec::new();
        self.cursor_pos = 0;
        assert(sug_views(self.suggestions@) =~= Seq::<SuggestionView>::empty());
        Some(line)
    }
}

/// What the caller does after a line was routed.
pub enum Action {
    /// Nothing more.
    Done,
    /// Turn mouse capture on or off, then report with `mouse_applied`.
    SetMouse(bool),
    /// Put the text on the clipboard, then report with `copy_result`.
    Copy(String),
    /// Save the view to the file named by the argument (`~` not yet
    /// expanded), then report with `save_started` or `save_failed`.
    Save(String),
    /// Restart the adb server: `begin_reconnect` has run; go on with
    /// `after_kill_server`.
    Reconnect,
    /// Forget every stored filter, then report with `forgot`.
    Forget,
    /// Put the filters into the input line: call `begin_filter_edit` with
    /// the stored filter lines.
    FilterEdit,
    /// Run the command line.
    Command(String),
    /// The filters changed: store them for the current app.
    Persist,
}

pub enum ActionView {
    Done,
    SetMouse(bool),
    Copy(Seq<char>),
    Save(Seq<char>),
    Reconnect,
    Forget,
    FilterEdit,
    Command(Seq<char>),
    Persist,
}

impl View for Action {
    type V = ActionView;

    open spec fn view(&self) -> ActionView {
        match self {
            Action::Done => ActionView::Done,
            Action::SetMouse(b) => ActionView::SetMouse(*b),
            Action::Copy(t) => ActionView::Copy(t@),
            Action::Save(a) => ActionView::Save(a@),
            Action::Reconnect => ActionView::Reconnect,
            Action::Forget => ActionView::Forget,
            Action::FilterEdit => ActionView::FilterEdit,
            Action::Command(c) => ActionView::Command(c@),
            Action::Persist => ActionView::Persist,
        }
    }
}

/// The width a `/width` value sets: between 1 and 200.
pub open spec fn clamp_width(n: u16) -> u16 {
    if n < 1 {
        1
    } else if n > 200 {
        200
    } else {
        n
    }
}

/// The widths with column `k` set to `n`, if `k` names a column.
pub open spec fn width_for_key(w: ColumnWidths, k: Seq<char>, n: u16) -> Option<ColumnWidths> {
    if k == "timestamp"@ || k == "ts"@ || k == "time"@ {
        Some(ColumnWidths { timestamp: n, ..w })
    } else if k == "level"@ || k == "lvl"@ {
        Some(ColumnWidths { level: n, ..w })
    } else if k == "tag"@ {
        Some(ColumnWidths { tag: n, ..w })
    } else if k == "pid"@ {
        Some(ColumnWidths { pid: n, ..w })
    } else if k == "tid"@ {
        Some(ColumnWidths { tid: n, ..w })
    } else {
        None
    }
}

/// One word of `/width`: the widths, whether one was set, and the unknown
/// column it names, if any. A word that is not `col=n` with `n` a number
/// changes nothing.
#[verifier::opaque]
pub open spec fn width_token(w: ColumnWidths, changed: bool, t: Seq<char>) -> (
    ColumnWidths,
    bool,
    Option<Seq<char>>,
) {
    if index_of(t, '=') < t.len() {
        match parse_u16_spec(token_value(t)) {
            Some(n) => match width_for_key(w, token_key(t), clamp_width(n)) {
                Some(w2) => (w2, true, None),
                None => (w, changed, Some(token_key(t))),
            },
            None => (w, changed, None),
        }
    } else {
        (w, changed, None)
    }
}

/// Reads the words `toks[i..]` of `/width`, stopping at an unknown column.
pub open spec fn widths_from(w: ColumnWidths, changed: bool, toks: Seq<Seq<char>>, i: int) -> (
    ColumnWidths,
    bool,
    Option<Seq<char>>,
)
    decreases toks.len() - i,
{
    if i < 0 || i >= toks.len() {
        (w, changed, None)
    } else {
        let r = width_token(w, changed, toks[i]);
        if r.2 is Some {
            r
        } else {
            widths_from(r.0, r.1, toks, i + 1)
        }
    }
}

/// `timestamp=.. level=.. tag=.. pid=.. tid=..`
pub open spec fn widths_text(w: ColumnWidths) -> Seq<char> {
    "timestamp="@ + decimal(w.timestamp as nat) + " level="@ + decimal(w.level as nat) + " tag="@
        + decimal(w.tag as nat) + " pid="@ + decimal(w.pid as nat) + " tid="@ + decimal(
        w.tid as nat,
    )
}

/// `/width col=n ...`: the widths read, and a confirmation, the unknown
/// column, or the usage.
pub open spec fn width_words_step(v: AppView, arg: Seq<char>) -> AppView {
    let (w, changed, bad) = widths_from(v.format.widths, false, words(arg), 0);
    let v2 = AppView { format: FormatConfig { widths: w, ..v.format }, ..v };
    match bad {
        Some(k) => with_system(
            v2,
            "\x1b[31mUnknown column: "@ + k + " (use timestamp|level|tag|pid|tid)\x1b[0m"@,
        ),
        None => if changed {
            with_system(v2, "\x1b[32mWidths set: "@ + widths_text(w) + "\x1b[0m"@)
        } else {
            with_system(v2, "\x1b[31mUsage: /width <col>=<n> ... | show | reset\x1b[0m"@)
        },
    }
}

/// `/width ARG`: show, reset or set column widths.
pub open spec fn width_step(v: AppView, arg: Seq<char>) -> AppView {
    if arg.len() == 0 || arg == "show"@ {
        with_system(
            v,
            "\x1b[36mWidths: "@ + widths_text(v.format.widths) + "  (message: remaining)\x1b[0m"@,
        )
    } else if arg == "reset"@ {
        with_system(
            AppView {
                format: FormatConfig { widths: default_widths(), ..v.format },
                ..v
            },
            "\x1b[32mColumn widths reset to defaults\x1b[0m"@,
        )
    } else {
        width_words_step(v, arg)
    }
}

/// Messages of the entries among `lines`, in order.
pub open spec fn entry_messages(lines: Seq<LineView>) -> Seq<Seq<char>>
    decreases lines.len(),
{
    if lines.len() == 0 {
        Seq::empty()
    } else {
        entry_messages(lines.drop_last()) + match lines.last() {
            LineView::Entry(e) => seq![e.message],
            LineView::System(_) => Seq::empty(),
        }
    }
}

/// The text `/copy N` puts on the clipboard: the messages of the last `n`
/// entries in view, one per line.
pub open spec fn copy_text(v: AppView, n: int) -> Seq<char> {
    join(last_n(entry_messages(v.log_lines), n), "\n"@)
}

/// `on` or `off`.
pub open spec fn on_off(b: bool) -> Seq<char> {
    if b {
        "on"@
    } else {
        "off"@
    }
}

/// `s` without the prefix `p` (when it has it).
pub open spec fn after_prefix(s: Seq<char>, p: Seq<char>) -> Seq<char> {
    s.subrange(p.len() as int, s.len() as int)
}

/// Commands after which no automatic pause happens.
pub open spec fn is_control(cmd: Seq<char>) -> bool {
    cmd == "/stop"@ || cmd == "/pause"@ || cmd == "/resume"@ || cmd == "/app"@ || cmd == "/pid"@
        || cmd == "/tag"@ || cmd == "/level"@ || cmd == "/grep"@ || cmd == "/msg"@ || cmd
        == "/regex"@ || cmd == "/connect"@ || cmd == "/disconnect"@ || cmd == "/reconnect"@ || cmd
        == "/clear"@ || cmd == "/exit"@ || cmd == "/quit"@ || cmd == "/q"@ || cmd == "/save"@ || cmd
        == "/format"@ || cmd == "/fields"@ || cmd == "/exclude"@
}

/// `/mouse ARG`.
pub open spec fn mouse_routed(v: AppView, line: Seq<char>) -> (AppView, ActionView) {
    let arg = trim(after_prefix(line, "/mouse"@));
    if arg.len() == 0 || arg == "toggle"@ {
        (v, ActionView::SetMouse(!v.mouse_capture))
    } else if arg == "on"@ {
        (v, ActionView::SetMouse(true))
    } else if arg == "off"@ {
        (v, ActionView::SetMouse(false))
    } else {
        (
            with_system(
                v,
                "\x1b[31mUsage: /mouse [on|off|toggle] (current: "@ + on_off(v.mouse_capture)
                    + ")\x1b[0m"@,
            ),
            ActionView::Done,
        )
    }
}

/// `/copy N`: the last N messages (50 when N is not a number).
pub open spec fn copy_routed(v: AppView, line: Seq<char>) -> (AppView, ActionView) {
    let n = match parse_usize_spec(trim(after_prefix(line, "/copy"@))) {
        Some(k) => k as int,
        None => 50,
    };
    let text = copy_text(v, n);
    if text.len() == 0 {
        (with_system(v, "\x1b[33m/copy: no log entries to copy\x1b[0m"@), ActionView::Done)
    } else {
        (v, ActionView::Copy(text))
    }
}

/// `/save FILE`; without a file, saving stops.
pub open spec fn save_routed(v: AppView, line: Seq<char>) -> (AppView, ActionView) {
    let arg = trim(after_prefix(line, "/save"@));
    if arg.len() == 0 {
        (with_system(AppView { save_path: None, ..v }, "\x1b[33mSave stopped\x1b[0m"@), ActionView::Done)
    } else {
        (v, ActionView::Save(arg))
    }
}

/// Any other command: `/filter` alone or `/filter edit` edits the filters
/// inline; the rest runs, after lifting a pause the output of an earlier
/// command caused.
pub open spec fn command_routed(v: AppView, line: Seq<char>) -> (AppView, ActionView) {
    if line == "/filter edit"@ || line == "/filter"@ {
        (v, ActionView::FilterEdit)
    } else if v.paused && v.auto_scroll {
        (resumed(v), ActionView::Command(line))
    } else {
        (v, ActionView::Command(line))
    }
}

/// Text that is not a command filters by text (a quick filter).
pub open spec fn quick_routed(v: AppView, line: Seq<char>) -> (AppView, ActionView) {
    (
        rebuilt(
            with_system(
                AppView { filters: FilterView { text: line, ..v.filters }, highlight: line, ..v },
                "\x1b[32mQuick filter: '"@ + line + "'\x1b[0m"@,
            ),
        ),
        ActionView::Persist,
    )
}

/// What a submitted line does (after a device choice by number was ruled
/// out).
pub open spec fn routed(v: AppView, line: Seq<char>) -> (AppView, ActionView) {
    if line == "/clear"@ {
        (AppView { all_lines: Seq::empty(), log_lines: Seq::empty(), scroll_offset: 0, ..v }, ActionView::Done)
    } else if starts_with(line, "/mouse"@) {
        mouse_routed(v, line)
    } else if starts_with(line, "/copy"@) {
        copy_routed(v, line)
    } else if starts_with(line, "/width"@) {
        (width_step(v, trim(after_prefix(line, "/width"@))), ActionView::Done)
    } else if starts_with(line, "/save"@) {
        save_routed(v, line)
    } else if line == "/reconnect"@ {
        (
            with_system(
                AppView { streaming: false, reconnect_attempts: 0, reconnect_deadline: None, ..v },
                "\x1b[36m/reconnect: killing adb server…\x1b[0m"@,
            ),
            ActionView::Reconnect,
        )
    } else if line == "/forget"@ {
        (v, ActionView::Forget)
    } else if starts_with(line, "/"@) {
        command_routed(v, line)
    } else {
        quick_routed(v, line)
    }
}

/// The message after a reconnect attempt was scheduled or given up.
pub open spec fn retry_message(reason: Seq<char>, delay: u64, attempt: u32) -> Seq<char> {
    "\x1b[33m⚠ Log stream interrupted ("@ + reason + "). Auto-reconnecting in "@ + decimal(
        (delay / 1000) as nat,
    ) + "."@ + decimal(((delay % 1000) / 100) as nat) + "s (attempt "@ + decimal(attempt as nat)
        + "/5)…\x1b[0m"@
}

pub open spec fn gave_up_message(reason: Seq<char>) -> Seq<char> {
    "\x1b[31m⚠ Log stream failed ("@ + reason
        + "). Auto-reconnect gave up after 5 attempts. Run /reconnect to reset `adb` and retry.\x1b[0m"@
}

/// After the stream failed for `reason` at clock reading `now`: retry after
/// the next backoff delay, or give up after [`MAX_RECONNECT_ATTEMPTS`].
pub open spec fn scheduled(v: AppView, reason: Seq<char>, now: u64) -> AppView {
    if v.reconnect_attempts >= MAX_RECONNECT_ATTEMPTS {
        with_system(
            AppView { streaming: false, reconnect_deadline: None, ..v },
            gave_up_message(reason),
        )
    } else {
        let delay = backoff_ms(v.reconnect_attempts as int);
        with_system(
            AppView {
                reconnect_attempts: (v.reconnect_attempts + 1) as u32,
                reconnect_deadline: Some((now + delay) as u64),
                streaming: true,
                ..v
            },
            retry_message(reason, delay, (v.reconnect_attempts + 1) as u32),
        )
    }
}

/// Why the log stream ended.
pub enum StreamStatus {
    /// Stopped on request; nothing to report.
    StoppedByUser,
    /// `adb logcat` exited.
    LogcatExited,
    /// Reading failed.
    IoError(String),
    /// `adb logcat` could not be started.
    FailedToStart(String),
}

/// The reason shown for a failed stream.
pub open spec fn failure_reason(s: StreamStatus) -> Seq<char> {
    match s {
        StreamStatus::StoppedByUser => Seq::empty(),
        StreamStatus::LogcatExited => "adb logcat exited (device may have disconnected)"@,
        StreamStatus::IoError(m) => "I/O error: "@ + m@,
        StreamStatus::FailedToStart(m) => "failed to start adb logcat: "@ + m@,
    }
}

/// What the state does when the stream ends.
pub open spec fn stream_ended(v: AppView, s: StreamStatus, now: u64) -> AppView {
    match s {
        StreamStatus::StoppedByUser => AppView { reconnect_attempts: 0, reconnect_deadline: None, ..v },
        _ => scheduled(v, failure_reason(s), now),
    }
}

/// Where a reconnect goes after the device listing.
#[derive(Clone, Copy, Debug, PartialEq, Eq, Structural)]
pub enum ReconnectNext {
    /// No device: stop here.
    Stop,
    /// Look up the PID of the followed package, then `finish_reconnect`.
    LookUpPid,
    /// Done: the stream resumes.
    Finished,
}

/// The lines of a submitted command's output as shown: framed by blank
/// lines when there are any.
pub open spec fn framed(out: Seq<Seq<char>>) -> Seq<Seq<char>> {
    if out.len() == 0 {
        out
    } else {
        seq![Seq::<char>::empty()] + out + seq![Seq::<char>::empty()]
    }
}

/// What follows a command: stop the stream, store the filters for the
/// current app, record the package of `/app`.
pub struct AfterCommand {
    pub stop_stream: bool,
    pub persist: bool,
    pub app_package: Option<String>,
}

impl App {
    /// The device number typed when no device is selected, if the line is
    /// one.
    pub fn device_choice(&self, line: &str) -> (r: Option<usize>)
        ensures
            r == (if self@.adb.selected() is None {
                parse_usize_spec(line@)
            } else {
                None
            }),
    {
        if !self.adb.has_selection() {
            crate::text::parse_usize_str(line)
        } else {
            None
        }
    }

    /// Selects online device number `num` (from 1) of the listing `output`;
    /// false, with nothing selected, when there is no such device.
    pub fn choose_device(&mut self, num: usize, output: Option<&str>) -> (chosen: bool)
        requires
            app_wf(old(self)@),
        ensures
            app_wf(final(self)@),
            final(self).adb.known() == match output {
                Some(o) => parse_device_list(o@),
                None => old(self).adb.known(),
            },
            chosen <==> 1 <= num <= online_list(final(self).adb.known()).len(),
            chosen ==> final(self).adb.selected() == Some(
                online_list(final(self).adb.known())[num - 1],
            ) && final(self)@ == with_system(
                AppView { adb: final(self).adb, ..old(self)@ },
                "\x1b[32mSelected: "@ + display_name_of(online_list(final(self).adb.known())[num - 1])
                    + "\x1b[0m"@,
            ),
            !chosen ==> final(self)@ == (AppView { adb: final(self).adb, ..old(self)@ }),
            !chosen ==> final(self).adb.selected() == old(self).adb.selected(),
            final(self).adb.path() == old(self).adb.path(),
    {
        let picked: Option<Device> = {
            let devices = self.adb.list_devices(output);
            let ghost ds = device_views(devices@);
            let mut k: usize = 0;
            let mut i: usize = 0;
            let mut found: Option<Device> = None;
            while i < devices.len()
                invariant
                    i <= devices@.len(),
                    ds == device_views(devices@),
                    k == online_list(ds.take(i as int)).len(),
                    k <= i,
                    found matches Some(d) ==> 1 <= num <= k && d@ == online_list(ds.take(i as int))[num - 1],
                    found is None ==> !(1 <= num <= k),
                decreases devices@.len() - i,
            {
                proof {
                    lemma_online_list_step(ds, i as int);
                }
                if devices[i].is_online() {
                    k = k + 1;
                    if k == num {
                        found = Some(devices[i].clone_device());
                    }
                }
                i = i + 1;
            }
            assert(ds.take(ds.len() as int) =~= ds);
            found
        };
        match picked {
            Some(dev) => {
                let name = dev.display_name();
                self.adb.set_selected(dev);
                let mut msg = string_from("\x1b[32mSelected: ");
                push_str(&mut msg, name.as_str());
                push_str(&mut msg, "\x1b[0m");
                self.push_system(msg);
                true
            },
            None => false,
        }
    }

    /// Acts on a submitted line that is not a device number: runs what
    /// needs no outside service and tells the caller what is left to do.
    pub fn route(&mut self, line: &str) -> (a: Action)
        requires
            app_wf(old(self)@),
        ensures
            (final(self)@, a@) == routed(old(self)@, line@),
            app_wf(final(self)@),
    {
        if str_eq(line, "/clear") {
            self.all_lines.clear();
            self.log_lines.clear();
            self.scroll_offset = 0;
            assert(line_views(self.all_lines@) =~= Seq::<LineView>::empty());
            assert(line_views(self.log_lines@) =~= Seq::<LineView>::empty());
            return Action::Done;
        }
        if str_starts_with(line, "/mouse") {
            return self.route_mouse(line);
        }
        if str_starts_with(line, "/copy") {
            return self.route_copy(line);
        }
        if str_starts_with(line, "/width") {
            let cs = to_chars(line);
            proof {
                reveal_strlit("/width");
            }
            let (a, b) = trim_range(&cs, 6, cs.len());
            let arg = string_of_range(&cs, a, b);
            self.set_widths(arg.as_str());
            return Action::Done;
        }
        if str_starts_with(line, "/save") {
            return self.route_save(line);
        }
        if str_eq(line, "/reconnect") {
            self.streaming = false;
            self.reconnect_attempts = 0;
            self.reconnect_deadline = None;
            self.push_system(string_from("\x1b[36m/reconnect: killing adb server…\x1b[0m"));
            return Action::Reconnect;
        }
        if str_eq(line, "/forget") {
            return Action::Forget;
        }
        if str_starts_with(line, "/") {
            if str_eq(line, "/filter edit") || str_eq(line, "/filter") {
                return Action::FilterEdit;
            }
            if self.paused && self.auto_scroll {
                self.resume();
            }
            return Action::Command(string_from(line));
        }
        self.quick_filter(line);
        Action::Persist
    }

    fn route_mouse(&mut self, line: &str) -> (a: Action)
        requires
            app_wf(old(self)@),
            starts_with(line@, "/mouse"@),
        ensures
            (final(self)@, a@) == mouse_routed(old(self)@, line@),
            app_wf(final(self)@),
    {
        let cs = to_chars(line);
        proof {
            reveal_strlit("/mouse");
        }
        let (a, b) = trim_range(&cs, 6, cs.len());
        let arg = string_of_range(&cs, a, b);
        let s = arg.as_str();
        if s.unicode_len() == 0 || str_eq(s, "toggle") {
            return Action::SetMouse(!self.mouse_capture);
        } else if str_eq(s, "on") {
            return Action::SetMouse(true);
        } else if str_eq(s, "off") {
            return Action::SetMouse(false);
        }
        let mut msg = string_from("\x1b[31mUsage: /mouse [on|off|toggle] (current: ");
        push_str(&mut msg, if self.mouse_capture { "on" } else { "off" });
        push_str(&mut msg, ")\x1b[0m");
        self.push_system(msg);
        Action::Done
    }

    fn route_copy(&mut self, line: &str) -> (a: Action)
        requires
            app_wf(old(self)@),
            starts_with(line@, "/copy"@),
        ensures
            (final(self)@, a@) == copy_routed(old(self)@, line@),
            app_wf(final(self)@),
    {
        let cs = to_chars(line);
        proof {
            reveal_strlit("/copy");
        }
        let (a, b) = trim_range(&cs, 5, cs.len());
        let arg = string_of_range(&cs, a, b);
        let n: usize = match crate::text::parse_usize_str(arg.as_str()) {
            Some(k) => k,
            None => 50,
        };
        let text = self.copy_text(n);
        if text.as_str().unicode_len() == 0 {
            self.push_system(string_from("\x1b[33m/copy: no log entries to copy\x1b[0m"));
            return Action::Done;
        }
        Action::Copy(text)
    }

    fn route_save(&mut self, line: &str) -> (a: Action)
        requires
            app_wf(old(self)@),
            starts_with(line@, "/save"@),
        ensures
            (final(self)@, a@) == save_routed(old(self)@, line@),
            app_wf(final(self)@),
    {
        let cs = to_chars(line);
        proof {
            reveal_strlit("/save");
        }
        let (a, b) = trim_range(&cs, 5, cs.len());
        let arg = string_of_range(&cs, a, b);
        if arg.as_str().unicode_len() == 0 {
            self.save_path = None;
            self.push_system(string_from("\x1b[33mSave stopped\x1b[0m"));
            return Action::Done;
        }
        Action::Save(arg)
    }

    /// Filters by `text` in tag and message, highlighting it.
    pub fn quick_filter(&mut self, text: &str)
        requires
            app_wf(old(self)@),
        ensures
            (final(self)@, ActionView::Persist) == quick_routed(old(self)@, text@),
            app_wf(final(self)@),
    {
        self.filters.set_text(text);
        self.formatter.highlight_text = string_from(text);
        let mut msg = string_from("\x1b[32mQuick filter: '");
        push_str(&mut msg, text);
        push_str(&mut msg, "'\x1b[0m");
        self.push_system(msg);
        self.rebuild_filtered();
    }

    /// The clipboard text of `/copy n`.
    pub fn copy_text(&self, n: usize) -> (t: String)
        ensures
            t@ == copy_text(self@, n as int),
    {
        let ghost lv = line_views(self.log_lines@);
        let mut msgs: Vec<String> = Vec::new();
        let mut i: usize = 0;
        while i < self.log_lines.len()
            invariant
                i <= lv.len(),
                lv == line_views(self.log_lines@),
                string_views(msgs@) == entry_messages(lv.take(i as int)),
            decreases lv.len() - i,
        {
            let ghost before = string_views(msgs@);
            assert(lv.take(i + 1).drop_last() =~= lv.take(i as int));
            match &self.log_lines[i] {
                LogLine::Entry(e) => {
                    msgs.push(e.message.clone());
                    assert(string_views(msgs@) =~= before + seq![e.message@]);
                },
                LogLine::System(_) => {
                    assert(string_views(msgs@) =~= before + Seq::<Seq<char>>::empty());
                },
            }
            i = i + 1;
        }
        assert(lv.take(lv.len() as int) =~= lv);
        let ghost all = string_views(msgs@);
        let start = if msgs.len() > n {
            msgs.len() - n
        } else {
            0
        };
        let mut tail: Vec<String> = Vec::new();
        let mut j: usize = start;
        while j < msgs.len()
            invariant
                start <= j <= msgs@.len(),
                all == string_views(msgs@),
                string_views(tail@) == all.subrange(start as int, j as int),
            decreases msgs@.len() - j,
        {
            let ghost before = string_views(tail@);
            tail.push(msgs[j].clone());
            assert(all[j as int] == msgs@[j as int]@);
            assert(string_views(tail@) =~= before.push(all[j as int]));
            assert(all.subrange(start as int, j + 1) =~= all.subrange(start as int, j as int).push(all[j as int]));
            j = j + 1;
        }
        assert(all.subrange(start as int, all.len() as int) =~= last_n(all, n as int));
        join_strings(&tail, "\n")
    }

    /// `/width ARG`.
    pub fn set_widths(&mut self, arg: &str)
        requires
            app_wf(old(self)@),
        ensures
            final(self)@ == width_step(old(self)@, arg@),
            app_wf(final(self)@),
    {
        if arg.unicode_len() == 0 || str_eq(arg, "show") {
            let mut msg = string_from("\x1b[36mWidths: ");
            push_widths(&mut msg, self.formatter.config.widths);
            push_str(&mut msg, "  (message: remaining)\x1b[0m");
            self.push_system(msg);
            return;
        }
        if str_eq(arg, "reset") {
            self.formatter.config.widths = ColumnWidths::default();
            self.push_system(string_from("\x1b[32mColumn widths reset to defaults\x1b[0m"));
            return;
        }
        self.apply_width_words(arg);
    }

    fn apply_width_words(&mut self, arg: &str)
        requires
            app_wf(old(self)@),
        ensures
            final(self)@ == width_words_step(old(self)@, arg@),
            app_wf(final(self)@),
    {
        let (w, changed, bad) = read_widths(self.formatter.config.widths, arg);
        self.formatter.config.widths = w;
        let ghost v2 = self@;
        assert(v2 == AppView { format: FormatConfig { widths: w, ..old(self)@.format }, ..old(self)@ });
        let msg = match bad {
            Some(k) => {
                let mut msg = string_from("\x1b[31mUnknown column: ");
                push_str(&mut msg, k.as_str());
                push_str(&mut msg, " (use timestamp|level|tag|pid|tid)\x1b[0m");
                msg
            },
            None => {
                if changed {
                    let mut msg = string_from("\x1b[32mWidths set: ");
                    push_widths(&mut msg, w);
                    push_str(&mut msg, "\x1b[0m");
                    msg
                } else {
                    string_from("\x1b[31mUsage: /width <col>=<n> ... | show | reset\x1b[0m")
                }
            },
        };
        self.push_system(msg);
    }

    /// Mouse capture was set to `target` (or not, when `ok` is false).
    pub fn mouse_applied(&mut self, target: bool, ok: bool)
        requires
            app_wf(old(self)@),
        ensures
            ({
                let m = if target != old(self)@.mouse_capture && ok {
                    target
                } else {
                    old(self)@.mouse_capture
                };
                final(self)@ == with_system(
                    AppView { mouse_capture: m, ..old(self)@ },
                    if m {
                        "\x1b[32mMouse capture ON — wheel scrolls logs (hold Option/Alt to select text)\x1b[0m"@
                    } else {
                        "\x1b[32mMouse capture OFF — text selection works; use Shift+Up/Down or PageUp/Down to scroll\x1b[0m"@
                    },
                )
            }),
            app_wf(final(self)@),
    {
        if target != self.mouse_capture && ok {
            self.mouse_capture = target;
        }
        let msg = if self.mouse_capture {
            "\x1b[32mMouse capture ON — wheel scrolls logs (hold Option/Alt to select text)\x1b[0m"
        } else {
            "\x1b[32mMouse capture OFF — text selection works; use Shift+Up/Down or PageUp/Down to scroll\x1b[0m"
        };
        self.push_system(string_from(msg));
    }

    /// Reports putting `text` on the clipboard: the number of its lines, or
    /// the clipboard's error.
    pub fn copy_result(&mut self, text: &str, result: Result<(), String>)
        requires
            app_wf(old(self)@),
        ensures
            final(self)@ == with_system(
                old(self)@,
                match result {
                    Ok(()) => "\x1b[32m/copy: "@ + decimal(lines(text@).len()) + " lines copied to clipboard\x1b[0m"@,
                    Err(e) => "\x1b[31m/copy: "@ + e@ + "\x1b[0m"@,
                },
            ),
            app_wf(final(self)@),
    {
        match result {
            Ok(()) => {
                let cs = to_chars(text);
                let ls = split_lines(&cs);
                let mut msg = string_from("\x1b[32m/copy: ");
                push_decimal(&mut msg, ls.len() as u64);
                push_str(&mut msg, " lines copied to clipboard\x1b[0m");
                self.push_system(msg);
            },
            Err(e) => {
                let mut msg = string_from("\x1b[31m/copy: ");
                push_str(&mut msg, e.as_str());
                push_str(&mut msg, "\x1b[0m");
                self.push_system(msg);
            },
        }
    }

    /// The rows `/save` writes: one per entry in view.
    pub fn save_rows(&self) -> (rows: Vec<String>)
        ensures
            string_views(rows@) == entry_rows(self@.log_lines),
    {
        let ghost lv = line_views(self.log_lines@);
        let mut rows: Vec<String> = Vec::new();
        let mut i: usize = 0;
        while i < self.log_lines.len()
            invariant
                i <= lv.len(),
                lv == line_views(self.log_lines@),
                string_views(rows@) == entry_rows(lv.take(i as int)),
            decreases lv.len() - i,
        {
            let ghost before = string_views(rows@);
            assert(lv.take(i + 1).drop_last() =~= lv.take(i as int));
            match &self.log_lines[i] {
                LogLine::Entry(e) => {
                    rows.push(save_row_exec(e));
                    assert(string_views(rows@) =~= before + seq![save_row(e@)]);
                },
                LogLine::System(_) => {
                    assert(string_views(rows@) =~= before + Seq::<Seq<char>>::empty());
                },
            }
            i = i + 1;
        }
        assert(lv.take(lv.len() as int) =~= lv);
        rows
    }

    /// The view was written to `path` (`count` rows); new matching entries
    /// are appended to it from now on.
    pub fn save_started(&mut self, path: String, count: usize)
        requires
            app_wf(old(self)@),
        ensures
            final(self)@ == with_system(
                AppView { save_path: Some(path@), ..old(self)@ },
                "\x1b[32mSaved "@ + decimal(count as nat) + " entries to "@ + path@
                    + ". New matching entries will be appended.\x1b[0m"@,
            ),
            app_wf(final(self)@),
    {
        let mut msg = string_from("\x1b[32mSaved ");
        push_decimal(&mut msg, count as u64);
        push_str(&mut msg, " entries to ");
        push_str(&mut msg, path.as_str());
        push_str(&mut msg, ". New matching entries will be appended.\x1b[0m");
        self.save_path = Some(path);
        self.push_system(msg);
    }

    /// Shows why saving failed.
    pub fn save_failed(&mut self, message: &str)
        requires
            app_wf(old(self)@),
        ensures
            final(self)@ == with_system(old(self)@, "\x1b[31mSave failed: "@ + message@ + "\x1b[0m"@),
            app_wf(final(self)@),
    {
        let mut msg = string_from("\x1b[31mSave failed: ");
        push_str(&mut msg, message);
        push_str(&mut msg, "\x1b[0m");
        self.push_system(msg);
    }

    /// `/forget` removed `presets` filter presets, `apps` per-app states and
    /// `history` history entries.
    pub fn forgot(&mut self, presets: usize, apps: usize, history: usize)
        requires
            app_wf(old(self)@),
        ensures
            final(self)@ == with_system(
                old(self)@,
                "\x1b[32mCleared: "@ + decimal(presets as nat) + " filter presets, "@ + decimal(
                    apps as nat,
                ) + " per-app states, "@ + decimal(history as nat) + " history entries\x1b[0m"@,
            ),
            app_wf(final(self)@),
    {
        let mut msg = string_from("\x1b[32mCleared: ");
        push_decimal(&mut msg, presets as u64);
        push_str(&mut msg, " filter presets, ");
        push_decimal(&mut msg, apps as u64);
        push_str(&mut msg, " per-app states, ");
        push_decimal(&mut msg, history as u64);
        push_str(&mut msg, " history entries\x1b[0m");
        self.push_system(msg);
    }

    /// `/filter edit`: the input becomes `/filter set` and the current
    /// filters; the stored filter lines (name, line) are offered.
    pub fn begin_filter_edit(&mut self, stored: &Vec<(String, String)>)
        requires
            app_wf(old(self)@),
        ensures
            final(self)@.input == "/filter set "@ + edit_string(old(self)@.filters),
            final(self)@.cursor_pos == final(self)@.input.len(),
            final(self)@.suggestions == stored@.map_values(
                |p: (String, String)| plain("/filter set "@ + p.1@, p.0@),
            ),
            final(self)@.show_suggestions == (stored@.len() > 0),
            final(self)@.suggestion_idx is None,
            final(self)@ == (AppView {
                input: final(self)@.input,
                cursor_pos: final(self)@.cursor_pos,
                suggestions: final(self)@.suggestions,
                show_suggestions: final(self)@.show_suggestions,
                suggestion_idx: None,
                ..old(self)@
            }),
            app_wf(final(self)@),
    {
        let e = self.filters.to_edit_string();
        let mut line = string_from("/filter set ");
        push_str(&mut line, e.as_str());
        self.input = to_chars(line.as_str());
        self.cursor_pos = self.input.len();
        let mut list: Vec<Suggestion> = Vec::new();
        let mut i: usize = 0;
        while i < stored.len()
            invariant
                i <= stored@.len(),
                sug_views(list@) == stored@.take(i as int).map_values(
                    |p: (String, String)| plain("/filter set "@ + p.1@, p.0@),
                ),
            decreases stored@.len() - i,
        {
            let mut t = string_from("/filter set ");
            push_str(&mut t, stored[i].1.as_str());
            let d = stored[i].0.clone();
            let ghost before = sug_views(list@);
            list.push(Suggestion::new(t, d));
            assert(sug_views(list@) =~= before.push(plain("/filter set "@ + stored@[i as int].1@, stored@[i as int].0@)));
            assert(stored@.take(i + 1) =~= stored@.take(i as int).push(stored@[i as int]));
            i = i + 1;
        }
        assert(stored@.take(stored@.len() as int) =~= stored@);
        let n = list.len();
        self.suggestions = list;
        self.show_suggestions = n > 0;
        self.suggestion_idx = None;
    }

    /// The stream ended (reported at clock reading `now`). Returns whether
    /// the caller must stop it (it failed and may be retried).
    pub fn handle_stream_status(&mut self, status: StreamStatus, now: u64) -> (stop: bool)
        requires
            app_wf(old(self)@),
            now <= u64::MAX - 10000,
        ensures
            final(self)@ == stream_ended(old(self)@, status, now),
            stop == !(status is StoppedByUser),
            app_wf(final(self)@),
    {
        match status {
            StreamStatus::StoppedByUser => {
                self.reconnect_attempts = 0;
                self.reconnect_deadline = None;
                false
            },
            StreamStatus::LogcatExited => {
                self.schedule_auto_reconnect("adb logcat exited (device may have disconnected)", now);
                true
            },
            StreamStatus::IoError(m) => {
                let mut r = string_from("I/O error: ");
                push_str(&mut r, m.as_str());
                self.schedule_auto_reconnect(r.as_str(), now);
                true
            },
            StreamStatus::FailedToStart(m) => {
                let mut r = string_from("failed to start adb logcat: ");
                push_str(&mut r, m.as_str());
                self.schedule_auto_reconnect(r.as_str(), now);
                true
            },
        }
    }

    /// Queues the next reconnect after its backoff delay, or gives up.
    pub fn schedule_auto_reconnect(&mut self, reason: &str, now: u64)
        requires
            app_wf(old(self)@),
            now <= u64::MAX - 10000,
        ensures
            final(self)@ == scheduled(old(self)@, reason@, now),
            app_wf(final(self)@),
    {
        if self.reconnect_attempts >= MAX_RECONNECT_ATTEMPTS {
            self.streaming = false;
            self.reconnect_deadline = None;
            let mut msg = string_from("\x1b[31m⚠ Log stream failed (");
            push_str(&mut msg, reason);
            push_str(
                &mut msg,
                "). Auto-reconnect gave up after 5 attempts. Run /reconnect to reset `adb` and retry.\x1b[0m",
            );
            self.push_system(msg);
            return;
        }
        let delay: u64 = if self.reconnect_attempts == 0 {
            500
        } else if self.reconnect_attempts == 1 {
            1000
        } else if self.reconnect_attempts == 2 {
            2000
        } else if self.reconnect_attempts == 3 {
            5000
        } else {
            10000
        };
        self.reconnect_attempts = self.reconnect_attempts + 1;
        self.reconnect_deadline = Some(now + delay);
        self.streaming = true;
        let mut msg = string_from("\x1b[33m⚠ Log stream interrupted (");
        push_str(&mut msg, reason);
        push_str(&mut msg, "). Auto-reconnecting in ");
        push_decimal(&mut msg, delay / 1000);
        push_str(&mut msg, ".");
        push_decimal(&mut msg, (delay % 1000) / 100);
        push_str(&mut msg, "s (attempt ");
        push_decimal(&mut msg, self.reconnect_attempts as u64);
        push_str(&mut msg, "/5)…\x1b[0m");
        self.push_system(msg);
    }

    /// Whether the stream should be (re)started now: it should run, it does
    /// not, and any backoff delay is over (which clears it).
    pub fn stream_should_start(&mut self, running: bool, now: u64) -> (start: bool)
        ensures
            start == (old(self)@.streaming && !running && match old(self)@.reconnect_deadline {
                Some(d) => now >= d,
                None => true,
            }),
            final(self)@ == if start {
                AppView { reconnect_deadline: None, ..old(self)@ }
            } else {
                old(self)@
            },
    {
        if self.streaming && !running {
            let ready = match self.reconnect_deadline {
                Some(d) => now >= d,
                None => true,
            };
            if ready {
                self.reconnect_deadline = None;
                return true;
            }
        }
        false
    }

    /// A log entry arrived from the stream; the first one after failures
    /// ends the reconnect series. Returns the row for the save file, if any.
    pub fn receive_entry(&mut self, entry: LogEntry) -> (row: Option<String>)
        requires
            app_wf(old(self)@),
        ensures
            ({
                let v = if old(self)@.reconnect_attempts > 0 {
                    with_system(
                        AppView { reconnect_attempts: 0, reconnect_deadline: None, ..old(self)@ },
                        "\x1b[32m✓ Log stream reconnected — resuming\x1b[0m"@,
                    )
                } else {
                    old(self)@
                };
                final(self)@ == with_entry(v, entry@) && (row matches Some(r) ==> r@ == save_row(
                    entry@,
                )) && (row is Some <==> (v.save_path is Some && passes(entry@, v.filters)))
            }),
            app_wf(final(self)@),
    {
        if self.reconnect_attempts > 0 {
            self.reconnect_attempts = 0;
            self.reconnect_deadline = None;
            self.push_system(string_from("\x1b[32m✓ Log stream reconnected — resuming\x1b[0m"));
        }
        self.push_entry(entry)
    }

    /// `/reconnect`, after `adb kill-server` ran (or failed to).
    pub fn after_kill_server(&mut self, outcome: Result<CommandOutput, String>)
        requires
            app_wf(old(self)@),
        ensures
            app_wf(final(self)@),
            ({
                let (ok, msg) = server_reply_spec(outcome, "adb server killed"@, "adb kill-server failed: "@);
                final(self)@ == with_systems(
                    old(self)@,
                    seq![
                        (if ok { "\x1b[2m  kill-server: "@ } else { "\x1b[31m  kill-server: "@ }) + msg + "\x1b[0m"@,
                        "\x1b[36m  starting adb server…\x1b[0m"@,
                    ],
                )
            }),
    {
        let (ok, msg) = AdbClient::kill_server(outcome);
        let mut m = string_from(if ok { "\x1b[2m  kill-server: " } else { "\x1b[31m  kill-server: " });
        push_str(&mut m, msg.as_str());
        push_str(&mut m, "\x1b[0m");
        let ghost v0 = self@;
        self.push_system(m);
        self.push_system(string_from("\x1b[36m  starting adb server…\x1b[0m"));
        proof {
            lemma_two_systems(v0, m@, "\x1b[36m  starting adb server…\x1b[0m"@);
        }
    }

    /// `/reconnect`, after `adb start-server` ran (or failed to). Returns
    /// whether to go on.
    pub fn after_start_server(&mut self, outcome: Result<CommandOutput, String>) -> (go_on: bool)
        requires
            app_wf(old(self)@),
        ensures
            app_wf(final(self)@),
            ({
                let (ok, msg) = server_reply_spec(outcome, "adb server started"@, "adb start-server failed: "@);
                let shown = (if ok { "\x1b[32m  start-server: "@ } else { "\x1b[31m  start-server: "@ }) + msg + "\x1b[0m"@;
                go_on == ok && final(self)@ == if ok {
                    with_system(old(self)@, shown)
                } else {
                    with_systems(
                        old(self)@,
                        seq![
                            shown,
                            "\x1b[31m/reconnect failed — check `adb` installation. Not restarting log stream.\x1b[0m"@,
                        ],
                    )
                }
            }),
    {
        let (ok, msg) = AdbClient::start_server(outcome);
        let mut m = string_from(if ok { "\x1b[32m  start-server: " } else { "\x1b[31m  start-server: " });
        push_str(&mut m, msg.as_str());
        push_str(&mut m, "\x1b[0m");
        let ghost v0 = self@;
        let ghost shown = m@;
        self.push_system(m);
        if !ok {
            self.push_system(
                string_from(
                    "\x1b[31m/reconnect failed — check `adb` installation. Not restarting log stream.\x1b[0m",
                ),
            );
        }
        proof {
            lemma_two_systems(
                v0,
                shown,
                "\x1b[31m/reconnect failed — check `adb` installation. Not restarting log stream.\x1b[0m"@,
            );
        }
        ok
    }

    /// `/reconnect`, once the device list `output` was read: keeps or
    /// auto-selects a device.
    pub fn after_listing(&mut self, output: Option<&str>) -> (next: ReconnectNext)
        requires
            app_wf(old(self)@),
        ensures
            app_wf(final(self)@),
            final(self).adb.known() == match output {
                Some(o) => parse_device_list(o@),
                None => old(self).adb.known(),
            },
            final(self).adb.path() == old(self).adb.path(),
            old(self).adb.selected() is Some ==> final(self).adb.selected() == old(self).adb.selected(),
            old(self).adb.selected() is None && online_count(final(self).adb.known()) != 1 ==> next
                == ReconnectNext::Stop && final(self)@ == with_system(
                AppView { adb: final(self).adb, ..old(self)@ },
                "\x1b[33m/reconnect: no device available. Plug in a device or use /connect <ip:port>, then /app <package>.\x1b[0m"@,
            ),
            old(self).adb.selected() is None && online_count(final(self).adb.known()) == 1 ==> final(self).adb.selected() == Some(first_online(final(self).adb.known())),
            next != ReconnectNext::Stop ==> ({
                let v1 = if old(self).adb.selected() is None {
                    with_system(
                        AppView { adb: final(self).adb, ..old(self)@ },
                        "\x1b[32m  auto-selected: "@ + display_name_of(first_online(final(self).adb.known()))
                            + "\x1b[0m"@,
                    )
                } else {
                    AppView { adb: final(self).adb, ..old(self)@ }
                };
                if old(self)@.filters.package.len() > 0 {
                    next == ReconnectNext::LookUpPid && final(self)@ == v1
                } else {
                    next == ReconnectNext::Finished && final(self)@ == with_system(
                        AppView { streaming: true, ..v1 },
                        "\x1b[32m/reconnect: log stream will resume on next tick.\x1b[0m"@,
                    )
                }
            }),
    {
        let had = self.adb.has_selection();
        self.adb.list_devices(output);
        if !had {
            let picked = match self.adb.auto_select(output) {
                Some(d) => Some(d.display_name()),
                None => None,
            };
            match picked {
                None => {
                    self.push_system(
                        string_from(
                            "\x1b[33m/reconnect: no device available. Plug in a device or use /connect <ip:port>, then /app <package>.\x1b[0m",
                        ),
                    );
                    return ReconnectNext::Stop;
                },
                Some(name) => {
                    let mut m = string_from("\x1b[32m  auto-selected: ");
                    push_str(&mut m, name.as_str());
                    push_str(&mut m, "\x1b[0m");
                    self.push_system(m);
                },
            }
        }
        if self.filters.package.as_str().unicode_len() > 0 {
            return ReconnectNext::LookUpPid;
        }
        self.streaming = true;
        self.push_system(string_from("\x1b[32m/reconnect: log stream will resume on next tick.\x1b[0m"));
        ReconnectNext::Finished
    }

    /// `/reconnect`, with the PID lookup of the followed package done:
    /// follows its new PID and lets the stream resume.
    #[verifier::rlimit(40)]
    pub fn finish_reconnect(&mut self, pidof_out: Option<&str>, ps_out: Option<&str>)
        requires
            app_wf(old(self)@),
        ensures
            app_wf(final(self)@),
            ({
                let pkg = old(self)@.filters.package;
                let pid = pid_lookup(pkg, pidof_out, ps_out);
                let f = FilterView {
                    package: pkg,
                    pids: match pid {
                        Some(p) => set![p],
                        None => Set::empty(),
                    },
                    package_tracking: pkg.len() > 0,
                    ..old(self)@.filters
                };
                let v1 = AppView { filters: f, ..old(self)@ };
                let v2 = match pid {
                    Some(p) => with_system(
                        v1,
                        "\x1b[32m  re-tracking "@ + pkg + " (PID: "@ + decimal(p as nat) + ")\x1b[0m"@,
                    ),
                    None => v1,
                };
                final(self)@ == with_system(
                    AppView { streaming: true, ..v2 },
                    "\x1b[32m/reconnect: log stream will resume on next tick.\x1b[0m"@,
                )
            }),
    {
        let pkg = self.filters.package.clone();
        let pid = AdbClient::get_pid(pkg.as_str(), pidof_out, ps_out);
        self.filters.set_package(pkg.as_str(), pid);
        match pid {
            Some(p) => {
                let mut m = string_from("\x1b[32m  re-tracking ");
                push_str(&mut m, pkg.as_str());
                push_str(&mut m, " (PID: ");
                push_decimal(&mut m, p as u64);
                push_str(&mut m, ")\x1b[0m");
                self.push_system(m);
            },
            None => {},
        }
        self.streaming = true;
        self.push_system(string_from("\x1b[32m/reconnect: log stream will resume on next tick.\x1b[0m"));
    }

    /// After a command ran with output `output`: a command that is not a
    /// control command and printed something pauses a running stream; the
    /// output is shown framed by blank lines; the view is rebuilt with the
    /// new filters.
    pub fn after_command(&mut self, line: &str, output: Vec<String>, exit_requested: bool) -> (r: AfterCommand)
        requires
            app_wf(old(self)@),
        ensures
            app_wf(final(self)@),
            ({
                let cmd = first_word(line@);
                let v1 = if !is_control(cmd) && output@.len() > 0 && old(self)@.streaming
                    && !old(self)@.paused {
                    AppView { paused: true, ..old(self)@ }
                } else {
                    old(self)@
                };
                let v2 = with_systems(v1, framed(string_views(output@)));
                if exit_requested {
                    final(self)@ == AppView { should_exit: true, ..v2 } && !r.stop_stream && !r.persist
                        && r.app_package is None
                } else {
                    let v3 = rebuilt(v2);
                    let pkg = trim(after_prefix(line@, "/app "@));
                    let track = starts_with(line@, "/app "@) && pkg.len() > 0;
                    &&& r.stop_stream == !v2.streaming
                    &&& r.persist == (v2.filters.package.len() > 0)
                    &&& (r.app_package matches Some(p) ==> track && p@ == pkg)
                    &&& (r.app_package is None ==> !track)
                    &&& final(self)@ == if track {
                        AppView { app_history: with_unique(v3.app_history, pkg), ..v3 }
                    } else {
                        v3
                    }
                }
            }),
    {
        let cs = to_chars(line);
        let ws = split_words(&cs);
        let cmd = if ws.len() > 0 {
            from_chars(ws[0].as_slice())
        } else {
            String::new()
        };
        let c = cmd.as_str();
        let control = str_eq(c, "/stop") || str_eq(c, "/pause") || str_eq(c, "/resume") || str_eq(
            c,
            "/app",
        ) || str_eq(c, "/pid") || str_eq(c, "/tag") || str_eq(c, "/level") || str_eq(c, "/grep")
            || str_eq(c, "/msg") || str_eq(c, "/regex") || str_eq(c, "/connect") || str_eq(
            c,
            "/disconnect",
        ) || str_eq(c, "/reconnect") || str_eq(c, "/clear") || str_eq(c, "/exit") || str_eq(
            c,
            "/quit",
        ) || str_eq(c, "/q") || str_eq(c, "/save") || str_eq(c, "/format") || str_eq(c, "/fields")
            || str_eq(c, "/exclude");
        if !control && output.len() > 0 && self.streaming && !self.paused {
            self.paused = true;
        }
        self.push_framed(output);
        if exit_requested {
            self.should_exit = true;
            return AfterCommand { stop_stream: false, persist: false, app_package: None };
        }
        let stop = !self.streaming;
        self.rebuild_filtered();
        let persist = self.filters.package.as_str().unicode_len() > 0;
        let mut app_package: Option<String> = None;
        proof {
            reveal_strlit("/app ");
        }
        if str_starts_with(line, "/app ") {
            let (a, b) = trim_range(&cs, 5, cs.len());
            let pkg = string_of_range(&cs, a, b);
            if pkg.as_str().unicode_len() > 0 {
                add_unique_string(&mut self.app_history, pkg.as_str());
                app_package = Some(pkg);
            }
        }
        AfterCommand { stop_stream: stop, persist, app_package }
    }

    fn push_framed(&mut self, output: Vec<String>)
        requires
            app_wf(old(self)@),
        ensures
            final(self)@ == with_systems(old(self)@, framed(string_views(output@))),
            app_wf(final(self)@),
            final(self)@ == (AppView {
                all_lines: final(self)@.all_lines,
                log_lines: final(self)@.log_lines,
                scroll_offset: final(self)@.scroll_offset,
                ..old(self)@
            }),
    {
        let ghost ov = string_views(output@);
        if output.len() == 0 {
            return;
        }
        let ghost v0 = self@;
        let blank = String::new();
        assert(blank@ == Seq::<char>::empty());
        self.push_system(blank);
        proof {
            reveal_with_fuel(with_systems, 2);
            assert((seq![Seq::<char>::empty()] + ov.take(0)).drop_last() =~= Seq::<Seq<char>>::empty());
            assert((seq![Seq::<char>::empty()] + ov.take(0)).last() == Seq::<char>::empty());
        }
        let mut i: usize = 0;
        while i < output.len()
            invariant
                i <= output@.len(),
                ov == string_views(output@),
                ov.len() > 0,
                app_wf(self@),
                self@ == with_systems(v0, seq![Seq::<char>::empty()] + ov.take(i as int)),
                self@ == (AppView {
                    all_lines: self@.all_lines,
                    log_lines: self@.log_lines,
                    scroll_offset: self@.scroll_offset,
                    ..old(self)@
                }),
            decreases output@.len() - i,
        {
            self.push_system(output[i].clone());
            proof {
                let s = seq![Seq::<char>::empty()] + ov.take(i + 1);
                assert(s.drop_last() =~= seq![Seq::<char>::empty()] + ov.take(i as int));
                assert(s.last() == ov[i as int]);
            }
            i = i + 1;
        }
        self.push_system(String::new());
        proof {
            let s = seq![Seq::<char>::empty()] + ov + seq![Seq::<char>::empty()];
            assert(ov.take(ov.len() as int) =~= ov);
            assert(s.drop_last() =~= seq![Seq::<char>::empty()] + ov.take(ov.len() as int));
        }
    }
}

/// The first word of a line (empty if it has none).
pub open spec fn first_word(s: Seq<char>) -> Seq<char> {
    if words(s).len() > 0 {
        words(s)[0]
    } else {
        Seq::empty()
    }
}

/// The save-file rows of the entries among `lines`.
pub open spec fn entry_rows(lines: Seq<LineView>) -> Seq<Seq<char>>
    decreases lines.len(),
{
    if lines.len() == 0 {
        Seq::empty()
    } else {
        entry_rows(lines.drop_last()) + match lines.last() {
            LineView::Entry(e) => seq![save_row(e)],
            LineView::System(_) => Seq::empty(),
        }
    }
}

/// The online devices of a listing, in order.
pub open spec fn online_list(ds: Seq<DeviceView>) -> Seq<DeviceView> {
    ds.filter(online_pred())
}

proof fn lemma_online_list_step(ds: Seq<DeviceView>, i: int)
    requires
        0 <= i < ds.len(),
    ensures
        online_list(ds.take(i + 1)) == if ds[i].state == StateView::Device {
            online_list(ds.take(i)).push(ds[i])
        } else {
            online_list(ds.take(i))
        },
{
    reveal_with_fuel(Seq::filter, 1);
    assert(ds.take(i + 1).drop_last() =~= ds.take(i));
    assert(ds.take(i + 1).last() == ds[i]);
}

/// What `adb kill-server` / `start-server` replies, as shown.
pub open spec fn server_reply_spec(
    outcome: Result<CommandOutput, String>,
    fallback: Seq<char>,
    failure: Seq<char>,
) -> (bool, Seq<char>) {
    match outcome {
        Ok(out) => (out.success, server_message(out.stdout@, out.stderr@, fallback)),
        Err(e) => (false, failure + e@),
    }
}

/// The PID found for `pkg` from the outputs of `pidof` and `ps`.
pub open spec fn pid_lookup(pkg: Seq<char>, pidof_out: Option<&str>, ps_out: Option<&str>) -> Option<u32> {
    match pidof_out {
        Some(o) if pid_from_pidof_spec(o@) is Some => pid_from_pidof_spec(o@),
        _ => match ps_out {
            Some(p) => pid_from_ps_spec(p@, pkg),
            None => None,
        },
    }
}

fn width_token_exec(w: ColumnWidths, changed: bool, t: &Vec<char>) -> (r: (ColumnWidths, bool, Option<String>))
    ensures
        (r.0, r.1, match r.2 {
            Some(k) => Some(k@),
            None => None,
        }) == width_token(w, changed, t@),
{
    reveal(width_token);
    let e = index_of_char(t, '=');
    if e < t.len() {
        let vs = string_of_range(t, e + 1, t.len());
        match parse_u32_str(vs.as_str()) {
            Some(n32) => {
                if n32 <= 65535 {
                    let n0 = n32 as u16;
                    let n = if n0 < 1 {
                        1
                    } else if n0 > 200 {
                        200
                    } else {
                        n0
                    };
                    let ks = string_of_range(t, 0, e);
                    let k = ks.as_str();
                    let mut w2 = w;
                    if str_eq(k, "timestamp") || str_eq(k, "ts") || str_eq(k, "time") {
                        w2.timestamp = n;
                    } else if str_eq(k, "level") || str_eq(k, "lvl") {
                        w2.level = n;
                    } else if str_eq(k, "tag") {
                        w2.tag = n;
                    } else if str_eq(k, "pid") {
                        w2.pid = n;
                    } else if str_eq(k, "tid") {
                        w2.tid = n;
                    } else {
                        return (w, changed, Some(ks));
                    }
                    return (w2, true, None);
                }
            },
            None => {},
        }
    }
    (w, changed, None)
}

/// Reads the words of `/width col=n ...`, starting from widths `w0`.
fn read_widths(w0: ColumnWidths, arg: &str) -> (r: (ColumnWidths, bool, Option<String>))
    ensures
        (r.0, r.1, match r.2 {
            Some(k) => Some(k@),
            None => None,
        }) == widths_from(w0, false, words(arg@), 0),
{
        let cs = to_chars(arg);
        let toks = split_words(&cs);
        let ghost tv = char_views(toks@);
        let mut w = w0;
        let mut changed = false;
        let mut i: usize = 0;
        let mut bad: Option<String> = None;
        while i < toks.len() && bad.is_none()
            invariant
                i <= toks@.len(),
                tv == char_views(toks@),
                tv == words(arg@),
                bad is None ==> widths_from(w0, false, tv, 0) == widths_from(
                    w,
                    changed,
                    tv,
                    i as int,
                ),
                bad matches Some(k) ==> widths_from(w0, false, tv, 0) == (
                    w,
                    changed,
                    Some(k@),
                ),
            decreases toks@.len() - i,
        {
            assert(tv[i as int] == toks@[i as int]@);
            let (w2, c2, b2) = width_token_exec(w, changed, &toks[i]);
            w = w2;
            changed = c2;
            bad = b2;
            i = i + 1;
        }
    (w, changed, bad)
}

fn push_widths(s: &mut String, w: ColumnWidths)
    ensures
        final(s)@ == old(s)@ + widths_text(w),
{
    push_str(s, "timestamp=");
    push_decimal(s, w.timestamp as u64);
    push_str(s, " level=");
    push_decimal(s, w.level as u64);
    push_str(s, " tag=");
    push_decimal(s, w.tag as u64);
    push_str(s, " pid=");
    push_decimal(s, w.pid as u64);
    push_str(s, " tid=");
    push_decimal(s, w.tid as u64);
    assert(final(s)@ =~= old(s)@ + widths_text(w));
}

/// What startup reports of the device listing `ds`.
pub open spec fn startup_lines(ds: Seq<DeviceView>) -> Seq<Seq<char>> {
    let on = online_list(ds);
    if ds.len() == 0 {
        seq!["\x1b[33mNo devices connected\x1b[0m"@, Seq::empty()]
    } else {
        seq!["\x1b[2mDevices: "@ + decimal(on.len()) + " online / "@ + decimal(ds.len()) + " total\x1b[0m"@]
            + if on.len() == 1 {
            seq!["\x1b[32mAuto-selected: "@ + display_name_of(on[0]) + "\x1b[0m"@]
        } else if on.len() > 1 {
            seq!["\x1b[36mMultiple devices found:\x1b[0m"@] + Seq::new(
                on.len(),
                |i: int| "  \x1b[33m"@ + decimal((i + 1) as nat) + "\x1b[0m  "@ + display_name_of(on[i]),
            ) + seq!["\x1b[2mType device number to select, or use /connect\x1b[0m"@]
        } else {
            Seq::empty()
        } + seq![Seq::<char>::empty()]
    }
}

fn online_devices(ds: &Vec<Device>) -> (r: Vec<&Device>)
    ensures
        r@.len() == online_list(device_views(ds@)).len(),
        forall|i: int| 0 <= i < r@.len() ==> r@[i]@ == online_list(device_views(ds@))[i],
{
    let ghost dv = device_views(ds@);
    let mut r: Vec<&Device> = Vec::new();
    let mut i: usize = 0;
    while i < ds.len()
        invariant
            i <= ds@.len(),
            dv == device_views(ds@),
            r@.len() == online_list(dv.take(i as int)).len(),
            forall|j: int| 0 <= j < r@.len() ==> r@[j]@ == online_list(dv.take(i as int))[j],
        decreases ds@.len() - i,
    {
        proof {
            lemma_online_list_step(dv, i as int);
            assert(dv[i as int] == ds@[i as int]@);
        }
        if ds[i].is_online() {
            r.push(&ds[i]);
        }
        i = i + 1;
    }
    assert(dv.take(dv.len() as int) =~= dv);
    r
}

fn startup_messages(ds: &Vec<Device>) -> (r: Vec<String>)
    ensures
        string_views(r@) == startup_lines(device_views(ds@)),
{
    let ghost dv = device_views(ds@);
    let mut r: Vec<String> = Vec::new();
    if ds.len() == 0 {
        r.push(string_from("\x1b[33mNo devices connected\x1b[0m"));
        r.push(String::new());
        assert(string_views(r@) =~= startup_lines(dv));
        return r;
    }
    let on = online_devices(ds);
    let ghost ol = online_list(dv);
    let mut m = string_from("\x1b[2mDevices: ");
    push_decimal(&mut m, on.len() as u64);
    push_str(&mut m, " online / ");
    push_decimal(&mut m, ds.len() as u64);
    push_str(&mut m, " total\x1b[0m");
    r.push(m);
    let ghost head = string_views(r@);
    let ghost mid: Seq<Seq<char>> = Seq::empty();
    if on.len() == 1 {
        let mut a = string_from("\x1b[32mAuto-selected: ");
        let name = on[0].display_name();
        push_str(&mut a, name.as_str());
        push_str(&mut a, "\x1b[0m");
        let ghost av = a@;
        r.push(a);
        proof {
            mid = seq!["\x1b[32mAuto-selected: "@ + display_name_of(ol[0]) + "\x1b[0m"@];
            assert(av == mid[0]);
            assert(string_views(r@) =~= head.push(av));
        }
    } else if on.len() > 1 {
        r.push(string_from("\x1b[36mMultiple devices found:\x1b[0m"));
        let ghost f = |i: int| "  \x1b[33m"@ + decimal((i + 1) as nat) + "\x1b[0m  "@ + display_name_of(ol[i]);
        let ghost h2 = string_views(r@);
        let mut k: usize = 0;
        while k < on.len()
            invariant
                k <= on@.len(),
                on@.len() == ol.len(),
                forall|j: int| 0 <= j < on@.len() ==> on@[j]@ == ol[j],
                f == (|i: int| "  \x1b[33m"@ + decimal((i + 1) as nat) + "\x1b[0m  "@ + display_name_of(ol[i])),
                string_views(r@) == h2 + Seq::new(k as nat, f),
            decreases on@.len() - k,
        {
            let mut l = string_from("  \x1b[33m");
            push_decimal(&mut l, k as u64 + 1);
            push_str(&mut l, "\x1b[0m  ");
            let name = on[k].display_name();
            push_str(&mut l, name.as_str());
            let ghost before = string_views(r@);
            r.push(l);
            assert(string_views(r@) =~= before.push(f(k as int)));
            assert(string_views(r@) =~= h2 + Seq::new((k + 1) as nat, f));
            k = k + 1;
        }
        let ghost before = string_views(r@);
        r.push(string_from("\x1b[2mType device number to select, or use /connect\x1b[0m"));
        proof {
            mid = seq!["\x1b[36mMultiple devices found:\x1b[0m"@] + Seq::new(ol.len(), f) + seq![
                "\x1b[2mType device number to select, or use /connect\x1b[0m"@,
            ];
            assert(string_views(r@) =~= before.push("\x1b[2mType device number to select, or use /connect\x1b[0m"@));
            assert(h2 =~= head.push("\x1b[36mMultiple devices found:\x1b[0m"@));
        }
    }
    assert(string_views(r@) =~= head + mid);
    let ghost before = string_views(r@);
    r.push(String::new());
    assert(string_views(r@) =~= before.push(Seq::<char>::empty()));
    assert(string_views(r@) =~= startup_lines(dv));
    r
}

impl App {
    /// System messages added in order.
    pub fn push_systems(&mut self, msgs: Vec<String>)
        requires
            app_wf(old(self)@),
        ensures
            final(self)@ == with_systems(old(self)@, string_views(msgs@)),
            app_wf(final(self)@),
            final(self)@ == (AppView {
                all_lines: final(self)@.all_lines,
                log_lines: final(self)@.log_lines,
                scroll_offset: final(self)@.scroll_offset,
                ..old(self)@
            }),
    {
        let ghost v0 = self@;
        let ghost mv = string_views(msgs@);
        let mut i: usize = 0;
        assert(mv.take(0) =~= Seq::<Seq<char>>::empty());
        while i < msgs.len()
            invariant
                i <= msgs@.len(),
                mv == string_views(msgs@),
                app_wf(self@),
                self@ == with_systems(v0, mv.take(i as int)),
                self@ == (AppView {
                    all_lines: self@.all_lines,
                    log_lines: self@.log_lines,
                    scroll_offset: self@.scroll_offset,
                    ..v0
                }),
            decreases msgs@.len() - i,
        {
            self.push_system(msgs[i].clone());
            assert(mv.take(i + 1).drop_last() =~= mv.take(i as int));
            i = i + 1;
        }
        assert(mv.take(mv.len() as int) =~= mv);
    }

    /// Startup: reads the device listing `listing` (`None` when `adb`
    /// could not be run), selects the only online device, and reports.
    pub fn startup_devices(&mut self, listing: Option<&str>)
        requires
            app_wf(old(self)@),
        ensures
            app_wf(final(self)@),
            final(self).adb.known() == match listing {
                Some(o) => parse_device_list(o@),
                None => old(self).adb.known(),
            },
            final(self).adb.path() == old(self).adb.path(),
            online_count(final(self).adb.known()) == 1 ==> final(self).adb.selected() == Some(
                first_online(final(self).adb.known()),
            ),
            online_count(final(self).adb.known()) != 1 ==> final(self).adb.selected() == old(self).adb.selected(),
            final(self)@ == with_systems(
                AppView { adb: final(self).adb, ..old(self)@ },
                startup_lines(final(self).adb.known()),
            ),
    {
        let _ = self.adb.auto_select(listing);
        let msgs = {
            let ds = self.adb.list_devices(None);
            startup_messages(ds)
        };
        self.push_systems(msgs);
    }
}

} // verus!
