//! Log filter engine: composable filters that can be changed on the fly.
//!
//! Every active filter must accept an entry for it to pass (AND); several
//! tags are alternatives (OR). Text filters match case-insensitively and by
//! containment.
use vstd::prelude::*;
use std::collections::HashSet;
use vstd::std_specs::iter::IteratorSpec;
use crate::logs::parser::{level_letter, level_rank, EntryView, LogEntry, LogLevel};
use crate::logs::pattern::{regex_compiles, regex_error_text, regex_is_match, Pattern};
use crate::text::{
    add_unique_string, contains, contains_chars, decimal, join, join_strings, lowercase,
    push_char, push_decimal, push_str, remove_all_strings, remove_first_string, str_eq,
    string_from, string_views, to_chars, to_lower, with_unique, without_all, without_first,
};

verus! {

broadcast use vstd::std_specs::hash::group_hash_axioms;

/// A regex filter pattern that the `regex` crate refused.
#[derive(Debug, Clone)]
pub struct RegexError {
    /// The crate's error message.
    pub message: String,
}

/// The active log filters.
pub struct FilterState {
    /// Package being followed (empty: none).
    pub package: String,
    /// Accepted process ids (empty: any).
    pub pids: HashSet<u32>,
    /// Accepted tag fragments, each listed once (empty: any).
    pub tags: Vec<String>,
    /// Lowest level shown.
    pub min_level: LogLevel,
    /// Text that `tag message` must contain (empty: any).
    pub text: String,
    /// Regular expression that `tag message` must match.
    pub regex: Option<Pattern>,
    /// Accepted thread ids (empty: any).
    pub threads: HashSet<u32>,
    /// The PID set follows the package across restarts.
    pub package_tracking: bool,
    /// Text fragments of which the message must contain one (empty: any).
    pub messages: Vec<String>,
    /// Tag fragments that hide an entry, each listed once.
    pub exclude_tags: Vec<String>,
    /// Message fragments that hide an entry.
    pub exclude_texts: Vec<String>,
}

/// The abstract content of a [`FilterState`].
pub struct FilterView {
    pub package: Seq<char>,
    pub pids: Set<u32>,
    pub tags: Seq<Seq<char>>,
    pub min_level: LogLevel,
    pub text: Seq<char>,
    pub regex: Option<Seq<char>>,
    pub threads: Set<u32>,
    pub package_tracking: bool,
    pub messages: Seq<Seq<char>>,
    pub exclude_tags: Seq<Seq<char>>,
    pub exclude_texts: Seq<Seq<char>>,
}

impl View for FilterState {
    type V = FilterView;

    open spec fn view(&self) -> FilterView {
        FilterView {
            package: self.package@,
            pids: self.pids@,
            tags: string_views(self.tags@),
            min_level: self.min_level,
            text: self.text@,
            regex: match self.regex {
                Some(p) => Some(p.source()),
                None => None,
            },
            threads: self.threads@,
            package_tracking: self.package_tracking,
            messages: string_views(self.messages@),
            exclude_tags: string_views(self.exclude_tags@),
            exclude_texts: string_views(self.exclude_texts@),
        }
    }
}

/// The state with no filter active.
pub open spec fn empty_filters() -> FilterView {
    FilterView {
        package: Seq::empty(),
        pids: Set::empty(),
        tags: Seq::empty(),
        min_level: LogLevel::Verbose,
        text: Seq::empty(),
        regex: None,
        threads: Set::empty(),
        package_tracking: false,
        messages: Seq::empty(),
        exclude_tags: Seq::empty(),
        exclude_texts: Seq::empty(),
    }
}

/// `tag message`, the text that text and regex filters look at.
pub open spec fn searchable(e: EntryView) -> Seq<char> {
    e.tag + seq![' '] + e.message
}

/// Some tag fragment occurs in the entry's tag, ignoring case.
pub open spec fn tag_accepted(tag: Seq<char>, tags: Seq<Seq<char>>) -> bool {
    exists|i: int| 0 <= i < tags.len() && contains(lowercase(tag), lowercase(#[trigger] tags[i]))
}

/// Some fragment of `list` occurs, ignoring case, in `hay` (already
/// lower-cased).
pub open spec fn fragment_in(hay: Seq<char>, list: Seq<Seq<char>>) -> bool {
    exists|i: int| 0 <= i < list.len() && contains(hay, lowercase(#[trigger] list[i]))
}

/// An exclusion filter hides the entry: its tag or its message contains
/// one of the excluded fragments (ignoring case).
pub open spec fn excluded(e: EntryView, f: FilterView) -> bool {
    fragment_in(lowercase(e.tag), f.exclude_tags) || fragment_in(
        lowercase(e.message),
        f.exclude_texts,
    )
}

/// Whether an entry passes the filters.
pub open spec fn passes(e: EntryView, f: FilterView) -> bool {
    &&& level_rank(e.level) >= level_rank(f.min_level)
    &&& (f.pids.is_empty() || f.pids.contains(e.pid))
    &&& (f.tags.len() == 0 || tag_accepted(e.tag, f.tags))
    &&& (f.text.len() == 0 || contains(lowercase(searchable(e)), lowercase(f.text)))
    &&& match f.regex {
        Some(src) => regex_is_match(src, searchable(e)),
        None => true,
    }
    &&& (f.threads.is_empty() || f.threads.contains(e.tid))
    &&& (f.messages.len() == 0 || fragment_in(lowercase(e.message), f.messages))
    &&& !excluded(e, f)
}

/// The source text `set_regex` compiles for a user pattern: the pattern made
/// case-insensitive.
pub open spec fn insensitive(pattern: Seq<char>) -> Seq<char> {
    "(?i)"@ + pattern
}

/// Decimal notations of a list of numbers.
pub open spec fn decimals(l: Seq<u32>) -> Seq<Seq<char>> {
    l.map_values(|x: u32| decimal(x as nat))
}

/// `l` lists the members of `s`, each once.
pub open spec fn lists(l: Seq<u32>, s: Set<u32>) -> bool {
    l.no_duplicates() && l.to_set() == s
}

pub open spec fn part_if(cond: bool, part: Seq<char>) -> Seq<Seq<char>> {
    if cond {
        seq![part]
    } else {
        Seq::empty()
    }
}

/// The pieces of a filter description, with the PIDs listed as `pl` and the
/// thread ids as `tl`.
pub open spec fn description_parts(f: FilterView, pl: Seq<u32>, tl: Seq<u32>) -> Seq<Seq<char>> {
    part_if(f.package.len() > 0, "app="@ + f.package) + part_if(
        pl.len() > 0,
        "pid="@ + join(decimals(pl), ","@),
    ) + part_if(f.tags.len() > 0, "tag="@ + join(f.tags, ","@)) + part_if(
        level_rank(f.min_level) > 0,
        "level>="@.push(level_letter(f.min_level)),
    ) + part_if(f.text.len() > 0, "text='"@ + f.text + "'"@) + part_if(
        f.regex is Some,
        "regex='"@ + f.regex->0 + "'"@,
    ) + part_if(tl.len() > 0, "thread="@ + join(decimals(tl), ","@))
}

/// A one-line summary of the filters.
pub open spec fn description_text(f: FilterView, pl: Seq<u32>, tl: Seq<u32>) -> Seq<char> {
    let parts = description_parts(f, pl, tl);
    if parts.len() == 0 {
        "no filters"@
    } else {
        join(parts, " | "@)
    }
}

/// The members of a set of ids, each once, in the set's iteration order.
fn set_members(s: &HashSet<u32>) -> (v: Vec<u32>)
    ensures
        lists(v@, s@),
{
    let mut v: Vec<u32> = Vec::new();
    let ghost g = vstd::std_specs::hash::spec_hash_keys_iter(s).remaining();
    for x in it: s.iter()
        invariant
            it.seq() == g,
            v@ == g.take(it.index() as int).unref(),
            g.unref().to_set() == s@,
            g.no_duplicates(),
    {
        v.push(*x);
        assert(g.take(it.index() + 1).unref() =~= g.take(it.index() as int).unref().push(*x));
    }
    proof {
        assert(v@.len() == g.len());
        assert(g.take(g.len() as int) =~= g);
        assert(v@ =~= g.unref());
        assert(v@.no_duplicates()) by {
            assert forall|i: int, j: int|
                0 <= i < v@.len() && 0 <= j < v@.len() && i != j implies v@[i] != v@[j] by {
                assert(g[i] != g[j]);
            }
        }
    }
    v
}

/// Decimal notations of a list of ids.
fn decimal_strings(l: &Vec<u32>) -> (r: Vec<String>)
    ensures
        string_views(r@) == decimals(l@),
{
    let mut r: Vec<String> = Vec::new();
    let mut i: usize = 0;
    while i < l.len()
        invariant
            i <= l@.len(),
            string_views(r@) == decimals(l@.take(i as int)),
        decreases l@.len() - i,
    {
        let mut s = String::new();
        push_decimal(&mut s, l[i] as u64);
        r.push(s);
        proof {
            assert(decimals(l@.take(i + 1)) =~= decimals(l@.take(i as int)).push(
                decimal(l@[i as int] as nat),
            ));
            assert(string_views(r@) =~= string_views(r@.drop_last()).push(r@.last()@));
        }
        i = i + 1;
    }
    assert(l@.take(l@.len() as int) =~= l@);
    r
}

impl FilterState {
    /// The state with no filter active.
    pub fn new() -> (f: FilterState)
        ensures
            f@ == empty_filters(),
    {
        let f = FilterState {
            package: String::new(),
            pids: HashSet::new(),
            tags: Vec::new(),
            min_level: LogLevel::Verbose,
            text: String::new(),
            regex: None,
            threads: HashSet::new(),
            package_tracking: false,
            messages: Vec::new(),
            exclude_tags: Vec::new(),
            exclude_texts: Vec::new(),
        };
        assert(string_views(f.tags@) =~= Seq::<Seq<char>>::empty());
        assert(string_views(f.messages@) =~= Seq::<Seq<char>>::empty());
        assert(string_views(f.exclude_tags@) =~= Seq::<Seq<char>>::empty());
        assert(string_views(f.exclude_texts@) =~= Seq::<Seq<char>>::empty());
        f
    }

    /// Clears every filter.
    pub fn reset(&mut self)
        ensures
            final(self)@ == empty_filters(),
    {
        *self = FilterState::new();
    }

    /// Follows `package`, whose current PID (if running) is `pid`.
    pub fn set_package(&mut self, package: &str, pid: Option<u32>)
        ensures
            final(self)@ == (FilterView {
                package: package@,
                pids: match pid {
                    Some(p) => set![p],
                    None => Set::empty(),
                },
                package_tracking: package@.len() > 0,
                ..old(self)@
            }),
    {
        self.package = string_from(package);
        self.pids.clear();
        match pid {
            Some(p) => {
                self.pids.insert(p);
            },
            None => {},
        }
        self.package_tracking = !package.is_empty();
    }

    /// The followed app restarted under a new PID.
    pub fn update_pid(&mut self, pid: u32)
        ensures
            final(self)@ == (FilterView { pids: set![pid], ..old(self)@ }),
    {
        self.pids.clear();
        self.pids.insert(pid);
    }

    /// Also accepts entries whose tag contains `tag` (ignoring case).
    pub fn add_tag(&mut self, tag: &str)
        ensures
            final(self)@ == (FilterView {
                tags: if old(self)@.tags.contains(tag@) {
                    old(self)@.tags
                } else {
                    old(self)@.tags.push(tag@)
                },
                ..old(self)@
            }),
    {
        let mut i: usize = 0;
        while i < self.tags.len()
            invariant
                i <= self.tags@.len(),
                self@ == old(self)@,
                forall|k: int| 0 <= k < i ==> self@.tags[k] != tag@,
            decreases self.tags@.len() - i,
        {
            if str_eq(self.tags[i].as_str(), tag) {
                assert(self@.tags[i as int] == tag@);
                return;
            }
            i = i + 1;
        }
        assert(!old(self)@.tags.contains(tag@));
        self.tags.push(string_from(tag));
        assert(string_views(self.tags@) =~= old(self)@.tags.push(tag@));
    }

    /// Stops accepting entries by the tag fragment `tag`.
    pub fn remove_tag(&mut self, tag: &str)
        ensures
            final(self)@ == (FilterView {
                tags: without_all(old(self)@.tags, tag@),
                ..old(self)@
            }),
    {
        let mut kept: Vec<String> = Vec::new();
        let mut i: usize = 0;
        let ghost old_tags = old(self)@.tags;
        while i < self.tags.len()
            invariant
                i <= self.tags@.len(),
                self@ == old(self)@,
                old_tags == self@.tags,
                string_views(kept@) == without_all(old_tags.take(i as int), tag@),
            decreases self.tags@.len() - i,
        {
            proof {
                reveal_with_fuel(Seq::filter, 1);
                assert(old_tags.take(i + 1).drop_last() =~= old_tags.take(i as int));
                assert(old_tags.take(i + 1).last() == old_tags[i as int]);
            }
            if !str_eq(self.tags[i].as_str(), tag) {
                kept.push(self.tags[i].clone());
                assert(string_views(kept@) =~= string_views(kept@.drop_last()).push(
                    kept@.last()@,
                ));
            }
            i = i + 1;
        }
        assert(old_tags.take(old_tags.len() as int) =~= old_tags);
        self.tags = kept;
    }

    /// Accepts entries of any tag again.
    pub fn clear_tags(&mut self)
        ensures
            final(self)@ == (FilterView { tags: Seq::empty(), ..old(self)@ }),
    {
        self.tags = Vec::new();
        assert(string_views(self.tags@) =~= Seq::<Seq<char>>::empty());
    }

    /// Shows only entries of `level` or more severe.
    pub fn set_level(&mut self, level: LogLevel)
        ensures
            final(self)@ == (FilterView { min_level: level, ..old(self)@ }),
    {
        self.min_level = level;
    }

    /// Shows entries of every level again.
    pub fn clear_level(&mut self)
        ensures
            final(self)@ == (FilterView { min_level: LogLevel::Verbose, ..old(self)@ }),
    {
        self.min_level = LogLevel::Verbose;
    }

    /// Requires `tag message` to contain `text` (ignoring case).
    pub fn set_text(&mut self, text: &str)
        ensures
            final(self)@ == (FilterView { text: text@, ..old(self)@ }),
    {
        self.text = string_from(text);
    }

    /// Drops the text filter.
    pub fn clear_text(&mut self)
        ensures
            final(self)@ == (FilterView { text: Seq::empty(), ..old(self)@ }),
    {
        self.text = String::new();
    }

    /// Requires `tag message` to match `pattern`, ignoring case. Fails,
    /// leaving the filters as they were, when the pattern does not compile;
    /// the error carries the `regex` crate's message.
    pub fn set_regex(&mut self, pattern: &str) -> (r: Result<(), RegexError>)
        ensures
            r is Ok <==> regex_compiles(insensitive(pattern@)),
            r matches Err(e) ==> e.message@ == regex_error_text(insensitive(pattern@)),
            r is Ok ==> final(self)@ == (FilterView {
                regex: Some(insensitive(pattern@)),
                ..old(self)@
            }),
            r is Err ==> final(self)@ == old(self)@,
    {
        let mut source = String::new();
        push_str(&mut source, "(?i)");
        push_str(&mut source, pattern);
        match Pattern::compile(source.as_str()) {
            Ok(p) => {
                self.regex = Some(p);
                Ok(())
            },
            Err(t) => Err(RegexError { message: t }),
        }
    }

    /// Drops the regex filter.
    pub fn clear_regex(&mut self)
        ensures
            final(self)@ == (FilterView { regex: None, ..old(self)@ }),
    {
        self.regex = None;
    }

    /// Shows only process `pid`, and stops following the package's PID.
    pub fn set_pid(&mut self, pid: u32)
        ensures
            final(self)@ == (FilterView {
                pids: set![pid],
                package_tracking: false,
                ..old(self)@
            }),
    {
        self.package_tracking = false;
        self.pids.clear();
        self.pids.insert(pid);
    }

    /// Shows only the threads `tids` (empty: any).
    pub fn set_threads(&mut self, tids: HashSet<u32>)
        ensures
            final(self)@ == (FilterView { threads: tids@, ..old(self)@ }),
    {
        self.threads = tids;
    }

    /// Also accepts entries whose message contains `text` (ignoring case).
    pub fn add_message(&mut self, text: &str)
        ensures
            final(self)@ == (FilterView {
                messages: with_unique(old(self)@.messages, text@),
                ..old(self)@
            }),
    {
        add_unique_string(&mut self.messages, text);
    }

    /// Drops the message fragment `text`.
    pub fn remove_message(&mut self, text: &str)
        ensures
            final(self)@ == (FilterView {
                messages: without_all(old(self)@.messages, text@),
                ..old(self)@
            }),
    {
        remove_all_strings(&mut self.messages, text);
    }

    /// Accepts entries of any message again.
    pub fn clear_messages(&mut self)
        ensures
            final(self)@ == (FilterView { messages: Seq::empty(), ..old(self)@ }),
    {
        self.messages = Vec::new();
        assert(string_views(self.messages@) =~= Seq::<Seq<char>>::empty());
    }

    /// Hides entries whose tag contains `tag` (ignoring case).
    pub fn add_exclude_tag(&mut self, tag: &str)
        ensures
            final(self)@ == (FilterView {
                exclude_tags: with_unique(old(self)@.exclude_tags, tag@),
                ..old(self)@
            }),
    {
        add_unique_string(&mut self.exclude_tags, tag);
    }

    /// Hides entries whose message contains `text` (ignoring case).
    pub fn add_exclude_text(&mut self, text: &str)
        ensures
            final(self)@ == (FilterView {
                exclude_texts: old(self)@.exclude_texts.push(text@),
                ..old(self)@
            }),
    {
        self.exclude_texts.push(string_from(text));
        assert(string_views(self.exclude_texts@) =~= old(self)@.exclude_texts.push(text@));
    }

    /// Removes `value` from the excluded tags and its first occurrence from
    /// the excluded texts; tells whether it was in either.
    pub fn remove_exclusion(&mut self, value: &str) -> (found: bool)
        ensures
            final(self)@ == (FilterView {
                exclude_tags: without_all(old(self)@.exclude_tags, value@),
                exclude_texts: without_first(old(self)@.exclude_texts, value@),
                ..old(self)@
            }),
            found == (old(self)@.exclude_tags.contains(value@) || old(
                self,
            )@.exclude_texts.contains(value@)),
    {
        let in_tags = remove_all_strings(&mut self.exclude_tags, value);
        let in_texts = remove_first_string(&mut self.exclude_texts, value);
        in_tags || in_texts
    }

    /// Drops every exclusion filter.
    pub fn clear_exclusions(&mut self)
        ensures
            final(self)@ == (FilterView {
                exclude_tags: Seq::empty(),
                exclude_texts: Seq::empty(),
                ..old(self)@
            }),
    {
        self.exclude_tags = Vec::new();
        self.exclude_texts = Vec::new();
        assert(string_views(self.exclude_tags@) =~= Seq::<Seq<char>>::empty());
        assert(string_views(self.exclude_texts@) =~= Seq::<Seq<char>>::empty());
    }

    /// A one-line summary such as `app=com.x | pid=12 | level>=W`, or
    /// `no filters`. PIDs and thread ids come in the sets' iteration order.
    pub fn description(&self) -> (d: String)
        ensures
            exists|pl: Seq<u32>, tl: Seq<u32>|
                lists(pl, self@.pids) && lists(tl, self@.threads) && d@ == description_text(
                    self@,
                    pl,
                    tl,
                ),
    {
        let pl = set_members(&self.pids);
        let tl = set_members(&self.threads);
        let parts = self.description_pieces(&pl, &tl);
        let d = if parts.len() == 0 {
            string_from("no filters")
        } else {
            join_strings(&parts, " | ")
        };
        assert(d@ == description_text(self@, pl@, tl@));
        assert(lists(pl@, self@.pids) && lists(tl@, self@.threads));
        d
    }

    #[verifier::spinoff_prover]
    #[verifier::rlimit(50)]
    fn description_pieces(&self, pl: &Vec<u32>, tl: &Vec<u32>) -> (parts: Vec<String>)
        ensures
            string_views(parts@) == description_parts(self@, pl@, tl@),
    {
        let ghost f = self@;
        let mut parts: Vec<String> = Vec::new();
        let ghost mut acc: Seq<Seq<char>> = Seq::empty();
        if !self.package.as_str().is_empty() {
            let mut s = string_from("app=");
            push_str(&mut s, self.package.as_str());
            parts.push(s);
        }
        proof {
            acc = part_if(f.package.len() > 0, "app="@ + f.package);
            assert(string_views(parts@) =~= acc);
        }
        if pl.len() > 0 {
            let mut s = string_from("pid=");
            let ds = decimal_strings(pl);
            let j = join_strings(&ds, ",");
            push_str(&mut s, j.as_str());
            parts.push(s);
        }
        proof {
            acc = acc + part_if(pl@.len() > 0, "pid="@ + join(decimals(pl@), ","@));
            assert(string_views(parts@) =~= acc);
        }
        if self.tags.len() > 0 {
            let mut s = string_from("tag=");
            let j = join_strings(&self.tags, ",");
            push_str(&mut s, j.as_str());
            parts.push(s);
        }
        proof {
            acc = acc + part_if(f.tags.len() > 0, "tag="@ + join(f.tags, ","@));
            assert(string_views(parts@) =~= acc);
        }
        if self.min_level.rank() > 0 {
            let mut s = string_from("level>=");
            push_char(&mut s, self.min_level.char());
            parts.push(s);
        }
        proof {
            acc = acc + part_if(
                level_rank(f.min_level) > 0,
                "level>="@.push(level_letter(f.min_level)),
            );
            assert(string_views(parts@) =~= acc);
        }
        if !self.text.as_str().is_empty() {
            let mut s = string_from("text='");
            push_str(&mut s, self.text.as_str());
            push_str(&mut s, "'");
            parts.push(s);
        }
        proof {
            acc = acc + part_if(f.text.len() > 0, "text='"@ + f.text + "'"@);
            assert(string_views(parts@) =~= acc);
        }
        match &self.regex {
            Some(p) => {
                let mut s = string_from("regex='");
                push_str(&mut s, p.as_str());
                push_str(&mut s, "'");
                parts.push(s);
            },
            None => {},
        }
        proof {
            acc = acc + part_if(f.regex is Some, "regex='"@ + f.regex->0 + "'"@);
            assert(string_views(parts@) =~= acc);
        }
        if tl.len() > 0 {
            let mut s = string_from("thread=");
            let ds = decimal_strings(tl);
            let j = join_strings(&ds, ",");
            push_str(&mut s, j.as_str());
            parts.push(s);
        }
        proof {
            acc = acc + part_if(tl@.len() > 0, "thread="@ + join(decimals(tl@), ","@));
            assert(string_views(parts@) =~= acc);
            assert(acc == description_parts(f, pl@, tl@));
        }
        parts
    }
}

impl Default for FilterState {
    fn default() -> (f: FilterState)
        ensures
            f@ == empty_filters(),
    {
        FilterState::new()
    }
}

/// Whether `entry` passes every active filter in `state`.
pub fn matches(entry: &LogEntry, state: &FilterState) -> (r: bool)
    ensures
        r == passes(entry@, state@),
{
    if entry.level.rank() < state.min_level.rank() {
        return false;
    }
    if !state.pids.is_empty() && !state.pids.contains(&entry.pid) {
        return false;
    }
    if state.tags.len() > 0 {
        let tag_lower = to_lower(entry.tag.as_str());
        let tag_chars = to_chars(tag_lower.as_str());
        let mut found = false;
        let mut i: usize = 0;
        while i < state.tags.len()
            invariant
                i <= state.tags@.len(),
                tag_chars@ == lowercase(entry.tag@),
                found == exists|k: int| 0 <= k < i && contains(
                    lowercase(entry.tag@),
                    lowercase(#[trigger] state@.tags[k]),
                ),
            decreases state.tags@.len() - i,
        {
            let t_lower = to_lower(state.tags[i].as_str());
            let t_chars = to_chars(t_lower.as_str());
            if contains_chars(&tag_chars, &t_chars) {
                found = true;
            }
            assert(state@.tags[i as int] == state.tags@[i as int]@);
            i = i + 1;
        }
        if !found {
            return false;
        }
    }
    let mut hay = String::new();
    push_str(&mut hay, entry.tag.as_str());
    push_char(&mut hay, ' ');
    push_str(&mut hay, entry.message.as_str());
    assert(hay@ == searchable(entry@));
    if !state.text.as_str().is_empty() {
        let hl = to_lower(hay.as_str());
        let tl = to_lower(state.text.as_str());
        let hv = to_chars(hl.as_str());
        let tv = to_chars(tl.as_str());
        if !contains_chars(&hv, &tv) {
            return false;
        }
    }
    match &state.regex {
        Some(p) => {
            if !p.is_match(hay.as_str()) {
                return false;
            }
        },
        None => {},
    }
    if !state.threads.is_empty() && !state.threads.contains(&entry.tid) {
        return false;
    }
    let msg_lower = to_lower(entry.message.as_str());
    let msg_chars = to_chars(msg_lower.as_str());
    if state.messages.len() > 0 && !any_fragment(&msg_chars, &state.messages) {
        return false;
    }
    let tag_lower = to_lower(entry.tag.as_str());
    let tag_chars = to_chars(tag_lower.as_str());
    if any_fragment(&tag_chars, &state.exclude_tags) {
        return false;
    }
    if any_fragment(&msg_chars, &state.exclude_texts) {
        return false;
    }
    true
}

/// Whether some fragment of `list` occurs, ignoring case, in `hay`.
fn any_fragment(hay: &Vec<char>, list: &Vec<String>) -> (r: bool)
    ensures
        r == fragment_in(hay@, string_views(list@)),
{
    let ghost l = string_views(list@);
    let mut i: usize = 0;
    while i < list.len()
        invariant
            i <= list@.len(),
            l == string_views(list@),
            forall|k: int| 0 <= k < i ==> !contains(hay@, lowercase(#[trigger] l[k])),
        decreases list@.len() - i,
    {
        let low = to_lower(list[i].as_str());
        let lc = to_chars(low.as_str());
        assert(l[i as int] == list@[i as int]@);
        if contains_chars(hay, &lc) {
            return true;
        }
        i = i + 1;
    }
    false
}

} // verus!
