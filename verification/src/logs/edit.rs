//! One-line form of the filters, as `/filter edit` shows it and
//! `/filter set` reads it back.
//!
//! The line is a list of space-separated `key=value` pairs:
//! `app=PKG tag=A,B level=W grep=TEXT msg=TEXT regex=PATTERN !tag=X,Y
//! !msg=TEXT`. Lists are comma-separated; `msg` and `!msg` may repeat.
//! Reading a line starts from an empty filter set; unknown keys and words
//! without `=` are ignored.
use vstd::prelude::*;
use crate::logs::filters::{empty_filters, insensitive, part_if, FilterState, FilterView};
use crate::logs::parser::{level_by_lower_name, level_letter, level_of_char, level_rank, LogLevel};
use crate::logs::pattern::regex_compiles;
use crate::text::{
    add_unique_string, ascii_upper, ascii_upper_char, char_views, index_of, index_of_char, join,
    join_strings, lowercase, push_char, push_str, split_char, split_on, split_words,
    starts_with, str_eq, str_starts_with, string_from, string_of_range, string_views, to_chars,
    with_unique, words,
};

verus! {

/// A priority letter (any case) of one of the levels.
pub open spec fn is_level_letter(c: char) -> bool {
    let u = ascii_upper(c);
    u == 'V' || u == 'D' || u == 'I' || u == 'W' || u == 'E' || u == 'F' || u == 'S'
}

/// The level a `level=` value names: a single priority letter, or a name
/// as `/level` accepts it.
pub open spec fn level_value(v: Seq<char>) -> Option<LogLevel> {
    if v.len() == 1 && is_level_letter(v[0]) {
        Some(level_of_char(v[0]))
    } else {
        level_by_lower_name(lowercase(v))
    }
}

/// `l` extended, without repeats, by the non-empty pieces among the first
/// `n` of `pieces`.
pub open spec fn add_pieces(l: Seq<Seq<char>>, pieces: Seq<Seq<char>>, n: int) -> Seq<Seq<char>>
    decreases n,
{
    if n <= 0 {
        l
    } else {
        let acc = add_pieces(l, pieces, n - 1);
        if pieces[n - 1].len() > 0 {
            with_unique(acc, pieces[n - 1])
        } else {
            acc
        }
    }
}

/// `l` extended by the non-empty comma-separated items of `v`.
pub open spec fn add_list(l: Seq<Seq<char>>, v: Seq<char>) -> Seq<Seq<char>> {
    add_pieces(l, split_on(v, ','), split_on(v, ',').len() as int)
}

/// The part of a `key=value` word before the first `=`.
pub open spec fn token_key(t: Seq<char>) -> Seq<char> {
    t.subrange(0, index_of(t, '='))
}

/// The part of a `key=value` word after the first `=`.
pub open spec fn token_value(t: Seq<char>) -> Seq<char> {
    t.subrange(index_of(t, '=') + 1, t.len() as int)
}

/// The filters after reading one word of the line.
pub open spec fn apply_token(f: FilterView, t: Seq<char>) -> FilterView {
    if index_of(t, '=') >= t.len() {
        f
    } else {
        let k = token_key(t);
        let v = token_value(t);
        if k == "app"@ {
            FilterView { package: v, pids: Set::empty(), package_tracking: v.len() > 0, ..f }
        } else if k == "tag"@ {
            FilterView { tags: add_list(f.tags, v), ..f }
        } else if k == "level"@ {
            match level_value(v) {
                Some(l) => FilterView { min_level: l, ..f },
                None => f,
            }
        } else if k == "grep"@ || k == "text"@ {
            FilterView { text: v, ..f }
        } else if k == "msg"@ || k == "message"@ {
            if v.len() > 0 {
                FilterView { messages: with_unique(f.messages, v), ..f }
            } else {
                f
            }
        } else if k == "regex"@ {
            if regex_compiles(insensitive(v)) {
                FilterView { regex: Some(insensitive(v)), ..f }
            } else {
                f
            }
        } else if k == "!tag"@ {
            FilterView { exclude_tags: add_list(f.exclude_tags, v), ..f }
        } else if k == "!msg"@ {
            if v.len() > 0 {
                FilterView { exclude_texts: f.exclude_texts.push(v), ..f }
            } else {
                f
            }
        } else {
            f
        }
    }
}

/// The filters after reading the first `n` words.
pub open spec fn apply_tokens(f: FilterView, toks: Seq<Seq<char>>, n: int) -> FilterView
    decreases n,
{
    if n <= 0 {
        f
    } else {
        apply_token(apply_tokens(f, toks, n - 1), toks[n - 1])
    }
}

/// The filters a one-line form describes.
pub open spec fn edited(s: Seq<char>) -> FilterView {
    apply_tokens(empty_filters(), words(s), words(s).len() as int)
}

/// The pattern a user typed, given the source `set_regex` compiled.
pub open spec fn user_pattern(src: Seq<char>) -> Seq<char> {
    if starts_with(src, "(?i)"@) {
        src.subrange(4, src.len() as int)
    } else {
        src
    }
}

/// `p` put in front of each item.
pub open spec fn prefixed(p: Seq<char>, l: Seq<Seq<char>>) -> Seq<Seq<char>> {
    l.map_values(|x: Seq<char>| p + x)
}

/// The words of the one-line form.
pub open spec fn edit_parts(f: FilterView) -> Seq<Seq<char>> {
    part_if(f.package.len() > 0, "app="@ + f.package) + part_if(
        f.tags.len() > 0,
        "tag="@ + join(f.tags, ","@),
    ) + part_if(level_rank(f.min_level) > 0, "level="@.push(level_letter(f.min_level)))
        + part_if(f.text.len() > 0, "grep="@ + f.text) + prefixed("msg="@, f.messages) + part_if(
        f.regex is Some,
        "regex="@ + user_pattern(f.regex->0),
    ) + part_if(f.exclude_tags.len() > 0, "!tag="@ + join(f.exclude_tags, ","@)) + prefixed(
        "!msg="@,
        f.exclude_texts,
    )
}

/// The one-line form of the filters.
pub open spec fn edit_string(f: FilterView) -> Seq<char> {
    join(edit_parts(f), " "@)
}

fn level_value_exec(v: &str) -> (r: Option<LogLevel>)
    ensures
        r == level_value(v@),
{
    let cs = to_chars(v);
    if cs.len() == 1 {
        let u = ascii_upper_char(cs[0]);
        if u == 'V' || u == 'D' || u == 'I' || u == 'W' || u == 'E' || u == 'F' || u == 'S' {
            return Some(LogLevel::from_char(cs[0]));
        }
    }
    LogLevel::from_name(v)
}

/// Adds the non-empty comma-separated items of `v` to `list`, each once.
fn add_list_exec(list: &mut Vec<String>, v: &str)
    ensures
        string_views(final(list)@) == add_list(string_views(old(list)@), v@),
{
    let pieces = split_char(v, ',');
    let ghost pv = string_views(pieces@);
    let ghost base = string_views(list@);
    let mut i: usize = 0;
    while i < pieces.len()
        invariant
            i <= pieces@.len(),
            pv == string_views(pieces@),
            pv == split_on(v@, ','),
            string_views(list@) == add_pieces(base, pv, i as int),
        decreases pieces@.len() - i,
    {
        assert(pv[i as int] == pieces@[i as int]@);
        if pieces[i].as_str().unicode_len() > 0 {
            add_unique_string(list, pieces[i].as_str());
        }
        i = i + 1;
    }
}

impl FilterState {
    /// Reads one `key=value` word.
    fn apply_token(&mut self, t: &Vec<char>)
        ensures
            final(self)@ == apply_token(old(self)@, t@),
    {
        let e = index_of_char(t, '=');
        if e >= t.len() {
            return;
        }
        let ks = string_of_range(t, 0, e);
        let vs = string_of_range(t, e + 1, t.len());
        let k = ks.as_str();
        let v = vs.as_str();
        if str_eq(k, "app") {
            self.set_package(v, None);
        } else if str_eq(k, "tag") {
            add_list_exec(&mut self.tags, v);
        } else if str_eq(k, "level") {
            match level_value_exec(v) {
                Some(l) => self.set_level(l),
                None => {},
            }
        } else if str_eq(k, "grep") || str_eq(k, "text") {
            self.set_text(v);
        } else if str_eq(k, "msg") || str_eq(k, "message") {
            if v.unicode_len() > 0 {
                self.add_message(v);
            }
        } else if str_eq(k, "regex") {
            let _ = self.set_regex(v);
        } else if str_eq(k, "!tag") {
            add_list_exec(&mut self.exclude_tags, v);
        } else if str_eq(k, "!msg") {
            if v.unicode_len() > 0 {
                self.add_exclude_text(v);
            }
        }
    }

    /// Replaces the filters by those the one-line form `line` describes
    /// (`/filter set`). Words that do not apply are skipped.
    pub fn apply_edit_string(&mut self, line: &str)
        ensures
            final(self)@ == edited(line@),
    {
        self.reset();
        let cs = to_chars(line);
        let toks = split_words(&cs);
        let ghost tv = char_views(toks@);
        let mut i: usize = 0;
        while i < toks.len()
            invariant
                i <= toks@.len(),
                tv == char_views(toks@),
                tv == words(line@),
                self@ == apply_tokens(empty_filters(), tv, i as int),
            decreases toks@.len() - i,
        {
            assert(tv[i as int] == toks@[i as int]@);
            self.apply_token(&toks[i]);
            i = i + 1;
        }
    }

    /// The one-line form of the filters (`/filter edit`). PIDs and thread
    /// ids are not part of it.
    pub fn to_edit_string(&self) -> (s: String)
        ensures
            s@ == edit_string(self@),
    {
        let ghost f = self@;
        let mut parts: Vec<String> = Vec::new();
        let ghost mut acc: Seq<Seq<char>> = Seq::empty();
        if self.package.as_str().unicode_len() > 0 {
            let mut s = string_from("app=");
            push_str(&mut s, self.package.as_str());
            parts.push(s);
        }
        proof {
            acc = part_if(f.package.len() > 0, "app="@ + f.package);
            assert(string_views(parts@) =~= acc);
        }
        if self.tags.len() > 0 {
            let mut s = string_from("tag=");
            let j = join_strings(&self.tags, ",");
            push_str(&mut s, j.as_str());
            parts.push(s);
        }
        proof {
            acc = acc + part_if(f.tags.len() > 0, "tag="@ + join(f.tags, ","@));
            assert(string_views(parts@) =~= acc);
        }
        if self.min_level.rank() > 0 {
            let mut s = string_from("level=");
            push_char(&mut s, self.min_level.char());
            parts.push(s);
        }
        proof {
            acc = acc + part_if(
                level_rank(f.min_level) > 0,
                "level="@.push(level_letter(f.min_level)),
            );
            assert(string_views(parts@) =~= acc);
        }
        if self.text.as_str().unicode_len() > 0 {
            let mut s = string_from("grep=");
            push_str(&mut s, self.text.as_str());
            parts.push(s);
        }
        proof {
            acc = acc + part_if(f.text.len() > 0, "grep="@ + f.text);
            assert(string_views(parts@) =~= acc);
        }
        push_prefixed(&mut parts, "msg=", &self.messages);
        proof {
            acc = acc + prefixed("msg="@, f.messages);
            assert(string_views(parts@) =~= acc);
        }
        match &self.regex {
            Some(p) => {
                let mut s = string_from("regex=");
                let src = p.as_str();
                if str_starts_with(src, "(?i)") {
                    let cs = to_chars(src);
                    proof {
                        reveal_strlit("(?i)");
                    }
                    let rest = string_of_range(&cs, 4, cs.len());
                    push_str(&mut s, rest.as_str());
                } else {
                    push_str(&mut s, src);
                }
                parts.push(s);
            },
            None => {},
        }
        proof {
            acc = acc + part_if(f.regex is Some, "regex="@ + user_pattern(f.regex->0));
            assert(string_views(parts@) =~= acc);
        }
        if self.exclude_tags.len() > 0 {
            let mut s = string_from("!tag=");
            let j = join_strings(&self.exclude_tags, ",");
            push_str(&mut s, j.as_str());
            parts.push(s);
        }
        proof {
            acc = acc + part_if(f.exclude_tags.len() > 0, "!tag="@ + join(f.exclude_tags, ","@));
            assert(string_views(parts@) =~= acc);
        }
        push_prefixed(&mut parts, "!msg=", &self.exclude_texts);
        proof {
            acc = acc + prefixed("!msg="@, f.exclude_texts);
            assert(string_views(parts@) =~= acc);
            assert(acc == edit_parts(f));
        }
        join_strings(&parts, " ")
    }
}

/// Appends `p + item` for each item of `items`.
fn push_prefixed(parts: &mut Vec<String>, p: &str, items: &Vec<String>)
    ensures
        string_views(final(parts)@) == string_views(old(parts)@) + prefixed(
            p@,
            string_views(items@),
        ),
{
    let ghost base = string_views(parts@);
    let ghost iv = string_views(items@);
    let mut i: usize = 0;
    while i < items.len()
        invariant
            i <= items@.len(),
            iv == string_views(items@),
            string_views(parts@) == base + prefixed(p@, iv.take(i as int)),
        decreases items@.len() - i,
    {
        let mut s = string_from(p);
        push_str(&mut s, items[i].as_str());
        parts.push(s);
        proof {
            assert(iv[i as int] == items@[i as int]@);
            assert(prefixed(p@, iv.take(i + 1)) =~= prefixed(p@, iv.take(i as int)).push(
                p@ + iv[i as int],
            ));
            assert(string_views(parts@) =~= string_views(parts@.drop_last()).push(
                parts@.last()@,
            ));
            assert(base + prefixed(p@, iv.take(i + 1)) =~= (base + prefixed(p@, iv.take(i as int))).push(
                p@ + iv[i as int],
            ));
        }
        i = i + 1;
    }
    assert(iv.take(iv.len() as int) =~= iv);
}

} // verus!
