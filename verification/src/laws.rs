//! Properties the library keeps across its operations, stated over the
//! same models the operations' contracts use.
use vstd::prelude::*;
use crate::cli::tui::{filtered, rebuilt, resumed, scrolled_down, scrolled_up, with_entry, AppView};
use crate::config::{unique_items, with_preset_filters};
use crate::logs::pattern::regex_compiles;
use crate::logs::edit::{edit_parts, edit_string, edited, level_value, prefixed, user_pattern};
use crate::logs::filters::{insensitive, part_if, empty_filters, excluded, fragment_in, passes, FilterView};
use crate::logs::parser::{level_letter, level_rank, EntryView, LogLevel};
use crate::mock::{first_id_index, first_match, has_id, lemma_first_id, rule_matches, with_enabled, RuleView};
use crate::traffic::{no_traffic_filter, passing, TrafficEntryView};
use crate::cli::render::{ascii_ws, chars_fit, lemma_last_ws_bounds, break_at, byte_len, fit_end, last_ws, lemma_bytes_split, lemma_skip_ge, skip_ascii_ws, utf8_len, wrap_from, wrapped, highlighted, hl_from, hl_style, sv, truncated, SpanView, TextStyle};
use crate::logs::edit::{add_list, add_pieces, apply_token, apply_tokens, token_key, token_value};
use crate::text::{without_all, without_first, starts_with, fields_from, index_of, split_on, contains, find_from, is_ws, join, lowercase, occurs_at, with_unique, words, words_from};

verus! {

/// With no filter set, every entry shows.
pub proof fn law_no_filters_show_everything(e: EntryView)
    ensures
        passes(e, empty_filters()),
{
    assert(!fragment_in(lowercase(e.tag), Seq::<Seq<char>>::empty()));
    assert(!fragment_in(lowercase(e.message), Seq::<Seq<char>>::empty()));
}

/// An entry whose tag contains an excluded tag fragment (ignoring case)
/// never shows, whatever the other filters say.
pub proof fn law_excluded_tag_hides(e: EntryView, f: FilterView, i: int)
    requires
        0 <= i < f.exclude_tags.len(),
        contains(lowercase(e.tag), lowercase(f.exclude_tags[i])),
    ensures
        !passes(e, f),
{
    assert(fragment_in(lowercase(e.tag), f.exclude_tags));
}

/// Adding an exclusion never makes an entry show that did not show before.
pub proof fn law_exclusions_only_hide(e: EntryView, f: FilterView, tag: Seq<char>, text: Seq<char>)
    ensures
        passes(e, FilterView { exclude_tags: with_unique(f.exclude_tags, tag), ..f }) ==> passes(e, f),
        passes(e, FilterView { exclude_texts: f.exclude_texts.push(text), ..f }) ==> passes(e, f),
{
    let g = FilterView { exclude_tags: with_unique(f.exclude_tags, tag), ..f };
    if fragment_in(lowercase(e.tag), f.exclude_tags) {
        let i = choose|i: int| 0 <= i < f.exclude_tags.len() && contains(lowercase(e.tag), lowercase(#[trigger] f.exclude_tags[i]));
        assert(g.exclude_tags[i] == f.exclude_tags[i]);
        assert(fragment_in(lowercase(e.tag), g.exclude_tags));
    }
    let h = FilterView { exclude_texts: f.exclude_texts.push(text), ..f };
    if fragment_in(lowercase(e.message), f.exclude_texts) {
        let i = choose|i: int| 0 <= i < f.exclude_texts.len() && contains(lowercase(e.message), lowercase(#[trigger] f.exclude_texts[i]));
        assert(h.exclude_texts[i] == f.exclude_texts[i]);
        assert(fragment_in(lowercase(e.message), h.exclude_texts));
    }
}

proof fn lemma_unique_items_id(l: Seq<Seq<char>>)
    requires
        l.no_duplicates(),
    ensures
        unique_items(l) == l,
    decreases l.len(),
{
    if l.len() > 0 {
        lemma_unique_items_id(l.drop_last());
        assert(!l.drop_last().contains(l.last())) by {
            if l.drop_last().contains(l.last()) {
                let j = choose|j: int| 0 <= j < l.drop_last().len() && l.drop_last()[j] == l.last();
                assert(l[j] == l[l.len() - 1]);
            }
        }
        assert(l.drop_last().push(l.last()) =~= l);
    }
}

/// Saving the filters as a preset and loading it back restores the
/// package, the tags, the lowest level and the search text, whatever the
/// filters were when the preset is loaded; tags listed once each and a
/// level below Silent are what a preset can hold.
pub proof fn law_preset_roundtrip(f: FilterView, current: FilterView)
    requires
        f.tags.no_duplicates(),
        f.min_level != LogLevel::Silent,
    ensures
        ({
            let g = with_preset_filters(current, f.package, f.tags, level_rank(f.min_level), f.text, None);
            &&& g.package == f.package
            &&& g.tags == f.tags
            &&& g.min_level == f.min_level
            &&& g.text == f.text
        }),
{
    lemma_unique_items_id(f.tags);
}

/// A disabled rule answers no request.
pub proof fn law_disabled_rule_never_matches(rules: Seq<RuleView>, id: Seq<char>, method: Seq<char>, path: Seq<char>, host: Seq<char>, i: int)
    requires
        has_id(rules, id),
        first_match(with_enabled(rules, id, false), method, path, host, i),
    ensures
        i != first_id_index(rules, id),
{
    lemma_first_id(rules, id);
}

/// Turning an enabled rule off and on again gives back the rules as they
/// were.
pub proof fn law_disable_enable_restores(rules: Seq<RuleView>, id: Seq<char>)
    requires
        has_id(rules, id),
        rules[first_id_index(rules, id)].enabled,
    ensures
        with_enabled(with_enabled(rules, id, false), id, true) == rules,
{
    lemma_first_id(rules, id);
    let i = first_id_index(rules, id);
    let r2 = with_enabled(rules, id, false);
    assert(r2[i].id == id);
    assert(has_id(r2, id));
    lemma_first_id(r2, id);
    assert forall|j: int| 0 <= j < i implies (#[trigger] r2[j]).id != id by {
        assert(r2[j] == rules[j]);
    }
    assert(crate::mock::first_with_id(r2, id, i));
    assert(first_id_index(r2, id) == i);
    assert(with_enabled(r2, id, true) =~= rules);
}

/// With the rules ordered by priority, highest first (as loading orders
/// them), the rule that answers a request has the highest priority among
/// the rules that match it.
pub proof fn law_highest_priority_answers(rules: Seq<RuleView>, method: Seq<char>, path: Seq<char>, host: Seq<char>, i: int, j: int)
    requires
        forall|a: int, b: int| 0 <= a < b < rules.len() ==> rules[a].priority >= rules[b].priority,
        first_match(rules, method, path, host, i),
        0 <= j < rules.len(),
        rule_matches(rules[j], method, path, host),
    ensures
        rules[j].priority <= rules[i].priority,
{
    if j < i {
        assert(!rule_matches(rules[j], method, path, host));
    }
}

/// With the traffic filter reset, every captured request is listed.
pub proof fn law_no_traffic_filter_lists_everything(es: Seq<TrafficEntryView>)
    ensures
        passing(no_traffic_filter(), es) == es,
    decreases es.len(),
{
    reveal_with_fuel(Seq::filter, 1);
    if es.len() > 0 {
        law_no_traffic_filter_lists_everything(es.drop_last());
        assert(es.drop_last().push(es.last()) =~= es);
    }
}

/// The text of a line of spans, styles left aside.
pub open spec fn spans_text(sp: Seq<SpanView>) -> Seq<char>
    decreases sp.len(),
{
    if sp.len() == 0 {
        Seq::empty()
    } else {
        spans_text(sp.drop_last()) + sp.last().text
    }
}

proof fn lemma_spans_text_one(x: SpanView)
    ensures
        spans_text(seq![x]) == x.text,
{
    reveal_with_fuel(spans_text, 2);
    assert(seq![x].drop_last() =~= Seq::<SpanView>::empty());
    assert(Seq::<char>::empty() + x.text =~= x.text);
}

proof fn lemma_spans_text_concat(a: Seq<SpanView>, b: Seq<SpanView>)
    ensures
        spans_text(a + b) == spans_text(a) + spans_text(b),
    decreases b.len(),
{
    if b.len() == 0 {
        assert(a + b =~= a);
    } else {
        lemma_spans_text_concat(a, b.drop_last());
        assert((a + b).drop_last() =~= a + b.drop_last());
    }
}

proof fn lemma_find_from_bounds(hay: Seq<char>, needle: Seq<char>, i: int)
    ensures
        match find_from(hay, needle, i) {
            Some(k) => i <= k && k + needle.len() <= hay.len(),
            None => true,
        },
    decreases hay.len() + 1 - i,
{
    if !(i < 0 || i + needle.len() > hay.len()) && !occurs_at(hay, needle, i) {
        lemma_find_from_bounds(hay, needle, i + 1);
    }
}

proof fn lemma_hl_from_text(text: Seq<char>, lower: Seq<char>, ln: Seq<char>, base: TextStyle, pos: int)
    requires
        0 <= pos <= text.len(),
        lower.len() == text.len(),
        ln.len() > 0,
    ensures
        spans_text(hl_from(text, lower, ln, base, pos)) == text.subrange(pos, text.len() as int),
    decreases text.len() - pos,
{
    lemma_find_from_bounds(lower, ln, pos);
    match find_from(lower, ln, pos) {
        Some(abs) => {
            let head = if abs > pos {
                seq![sv(text.subrange(pos, abs), base)]
            } else {
                Seq::empty()
            };
            let mid = seq![sv(text.subrange(abs, abs + ln.len()), hl_style())];
            let rest = hl_from(text, lower, ln, base, abs + ln.len());
            lemma_hl_from_text(text, lower, ln, base, abs + ln.len());
            lemma_spans_text_concat(head + mid, rest);
            lemma_spans_text_concat(head, mid);
            lemma_spans_text_one(sv(text.subrange(abs, abs + ln.len()), hl_style()));
            if abs > pos {
                lemma_spans_text_one(sv(text.subrange(pos, abs), base));
            } else {
                assert(text.subrange(pos, abs) =~= Seq::<char>::empty());
            }
            assert(spans_text(head) =~= text.subrange(pos, abs));
            assert(text.subrange(pos, abs) + text.subrange(abs, abs + ln.len()) + text.subrange(abs + ln.len(), text.len() as int)
                =~= text.subrange(pos, text.len() as int));
        },
        None => {
            if pos < text.len() {
                lemma_spans_text_one(sv(text.subrange(pos, text.len() as int), base));
            } else {
                assert(text.subrange(pos, text.len() as int) =~= Seq::<char>::empty());
            }
        },
    }
}

/// Highlighting the search text changes how a line looks, never its text.
pub proof fn law_highlight_keeps_text(text: Seq<char>, needle: Seq<char>, base: TextStyle)
    ensures
        spans_text(highlighted(text, needle, base)) == text,
{
    lemma_spans_text_one(sv(text, base));
    let lower = lowercase(text);
    let ln = lowercase(needle);
    if !(needle.len() == 0 || lower.len() != text.len() || ln.len() != needle.len()) {
        lemma_hl_from_text(text, lower, ln, base, 0);
        assert(text.subrange(0, text.len() as int) =~= text);
    }
}

/// A value cut to a column never overflows the column, and a value that
/// fits is left as it is.
pub proof fn law_truncation_fits(s: Seq<char>, max: int)
    requires
        max >= 0,
    ensures
        truncated(s, max).len() <= max,
        s.len() <= max ==> truncated(s, max) == s,
{
}

// ---------------------------------------------------------------------------
// Reading back the one-line form of the filters
// ---------------------------------------------------------------------------

/// No whitespace in `s`.
pub open spec fn no_ws(s: Seq<char>) -> bool {
    forall|k: int| 0 <= k < s.len() ==> !is_ws(#[trigger] s[k])
}

/// The pending word, if any.
pub open spec fn flush_word(cur: Seq<char>) -> Seq<Seq<char>> {
    if cur.len() > 0 {
        seq![cur]
    } else {
        Seq::empty()
    }
}

proof fn lemma_words_shift(x: Seq<char>, y: Seq<char>, j: int, cur: Seq<char>)
    requires
        0 <= j <= y.len(),
    ensures
        words_from(x + y, x.len() + j, cur) == words_from(y, j, cur),
    decreases y.len() - j,
{
    if j < y.len() {
        assert((x + y)[x.len() + j] == y[j]);
        lemma_words_shift(x, y, j + 1, Seq::empty());
        lemma_words_shift(x, y, j + 1, cur.push(y[j]));
    }
}

proof fn lemma_words_split(x: Seq<char>, y: Seq<char>, i: int, cur: Seq<char>)
    requires
        0 <= i <= x.len(),
        y.len() > 0,
        is_ws(y[0]),
    ensures
        words_from(x + y, i, cur) == words_from(x, i, cur) + words_from(y, 0, Seq::empty()),
    decreases x.len() - i,
{
    if i == x.len() {
        assert((x + y)[x.len() as int] == y[0]);
        lemma_words_shift(x, y, 1, Seq::empty());
        assert(flush_word(cur) == (if cur.len() > 0 { seq![cur] } else { Seq::<Seq<char>>::empty() }));
        assert(words_from(y, 0, Seq::empty()) =~= Seq::<Seq<char>>::empty() + words_from(y, 1, Seq::empty()));
    } else {
        assert((x + y)[i] == x[i]);
        if is_ws(x[i]) {
            lemma_words_split(x, y, i + 1, Seq::empty());
            let f = if cur.len() > 0 { seq![cur] } else { Seq::<Seq<char>>::empty() };
            assert(f + (words_from(x, i + 1, Seq::empty()) + words_from(y, 0, Seq::empty())) =~= (f + words_from(
                x,
                i + 1,
                Seq::empty(),
            )) + words_from(y, 0, Seq::empty()));
        } else {
            lemma_words_split(x, y, i + 1, cur.push(x[i]));
        }
    }
}

proof fn lemma_words_one(s: Seq<char>, i: int, cur: Seq<char>)
    requires
        0 <= i <= s.len(),
        no_ws(s),
    ensures
        words_from(s, i, cur) == flush_word(cur + s.subrange(i, s.len() as int)),
    decreases s.len() - i,
{
    if i == s.len() {
        assert(cur + s.subrange(i, s.len() as int) =~= cur);
    } else {
        assert(!is_ws(s[i]));
        lemma_words_one(s, i + 1, cur.push(s[i]));
        assert(cur.push(s[i]) + s.subrange(i + 1, s.len() as int) =~= cur + s.subrange(i, s.len() as int));
    }
}

/// Words without whitespace, joined by spaces, read back as the same words.
pub proof fn lemma_words_of_join(parts: Seq<Seq<char>>)
    requires
        forall|k: int| 0 <= k < parts.len() ==> (#[trigger] parts[k]).len() > 0 && no_ws(parts[k]),
    ensures
        words(join(parts, " "@)) == parts,
    decreases parts.len(),
{
    reveal_strlit(" ");
    if parts.len() == 0 {
    } else if parts.len() == 1 {
        lemma_words_one(parts[0], 0, Seq::empty());
        assert(Seq::<char>::empty() + parts[0].subrange(0, parts[0].len() as int) =~= parts[0]);
        assert(flush_word(parts[0]) =~= parts);
    } else {
        let j = join(parts.drop_last(), " "@);
        let last = parts.last();
        let y = " "@ + last;
        assert(join(parts, " "@) =~= j + y);
        assert(y[0] == ' ');
        assert(is_ws(' '));
        lemma_words_split(j, y, 0, Seq::empty());
        lemma_words_of_join(parts.drop_last());
        assert(no_ws(last));
        assert(y[0] == ' ');
        lemma_words_shift(" "@, last, 0, Seq::empty());
        lemma_words_one(last, 0, Seq::empty());
        assert(Seq::<char>::empty() + last.subrange(0, last.len() as int) =~= last);
        assert(words_from(y, 1, Seq::empty()) == words_from(last, 0, Seq::empty()));
        assert(words_from(y, 0, Seq::empty()) =~= Seq::<Seq<char>>::empty() + words_from(y, 1, Seq::empty()));
        assert(parts.drop_last() + seq![last] =~= parts);
    }
}

proof fn lemma_fields_shift(x: Seq<char>, y: Seq<char>, c: char, j: int, cur: Seq<char>)
    requires
        0 <= j <= y.len(),
    ensures
        fields_from(x + y, c, x.len() + j, cur) == fields_from(y, c, j, cur),
    decreases y.len() - j,
{
    if j < y.len() {
        assert((x + y)[x.len() + j] == y[j]);
        lemma_fields_shift(x, y, c, j + 1, Seq::empty());
        lemma_fields_shift(x, y, c, j + 1, cur.push(y[j]));
    }
}

proof fn lemma_fields_split(x: Seq<char>, y: Seq<char>, c: char, i: int, cur: Seq<char>)
    requires
        0 <= i <= x.len(),
        y.len() > 0,
        y[0] == c,
    ensures
        fields_from(x + y, c, i, cur) == fields_from(x, c, i, cur) + fields_from(y, c, 1, Seq::empty()),
    decreases x.len() - i,
{
    if i == x.len() {
        assert((x + y)[x.len() as int] == y[0]);
        lemma_fields_shift(x, y, c, 1, Seq::empty());
    } else {
        assert((x + y)[i] == x[i]);
        if x[i] == c {
            lemma_fields_split(x, y, c, i + 1, Seq::empty());
            assert(seq![cur] + (fields_from(x, c, i + 1, Seq::empty()) + fields_from(y, c, 1, Seq::empty()))
                =~= (seq![cur] + fields_from(x, c, i + 1, Seq::empty())) + fields_from(y, c, 1, Seq::empty()));
        } else {
            lemma_fields_split(x, y, c, i + 1, cur.push(x[i]));
        }
    }
}

proof fn lemma_fields_one(s: Seq<char>, c: char, i: int, cur: Seq<char>)
    requires
        0 <= i <= s.len(),
        !s.contains(c),
    ensures
        fields_from(s, c, i, cur) == seq![cur + s.subrange(i, s.len() as int)],
    decreases s.len() - i,
{
    if i == s.len() {
        assert(cur + s.subrange(i, s.len() as int) =~= cur);
    } else {
        assert(s[i] != c);
        lemma_fields_one(s, c, i + 1, cur.push(s[i]));
        assert(cur.push(s[i]) + s.subrange(i + 1, s.len() as int) =~= cur + s.subrange(i, s.len() as int));
    }
}

/// Items without commas, joined by commas, split back into the same items.
pub proof fn lemma_split_of_join(l: Seq<Seq<char>>)
    requires
        l.len() > 0,
        forall|k: int| 0 <= k < l.len() ==> !(#[trigger] l[k]).contains(','),
    ensures
        split_on(join(l, ","@), ',') == l,
    decreases l.len(),
{
    reveal_strlit(",");
    if l.len() == 1 {
        lemma_fields_one(l[0], ',', 0, Seq::empty());
        assert(Seq::<char>::empty() + l[0].subrange(0, l[0].len() as int) =~= l[0]);
        assert(seq![l[0]] =~= l);
    } else {
        let j = join(l.drop_last(), ","@);
        let last = l.last();
        let y = ","@ + last;
        assert(join(l, ","@) =~= j + y);
        assert(y[0] == ',');
        lemma_fields_split(j, y, ',', 0, Seq::empty());
        lemma_split_of_join(l.drop_last());
        lemma_fields_shift(","@, last, ',', 0, Seq::empty());
        assert(!last.contains(','));
        lemma_fields_one(last, ',', 0, Seq::empty());
        assert(Seq::<char>::empty() + last.subrange(0, last.len() as int) =~= last);
        assert(l.drop_last() + seq![last] =~= l);
    }
}

proof fn lemma_add_pieces_id(l: Seq<Seq<char>>, n: int)
    requires
        0 <= n <= l.len(),
        l.no_duplicates(),
        forall|k: int| 0 <= k < l.len() ==> (#[trigger] l[k]).len() > 0,
    ensures
        add_pieces(Seq::empty(), l, n) == l.take(n),
    decreases n,
{
    if n > 0 {
        lemma_add_pieces_id(l, n - 1);
        assert(!l.take(n - 1).contains(l[n - 1])) by {
            if l.take(n - 1).contains(l[n - 1]) {
                let j = choose|j: int| 0 <= j < n - 1 && #[trigger] l.take(n - 1)[j] == l[n - 1];
                assert(l[j] == l[n - 1]);
            }
        }
        assert(l.take(n - 1).push(l[n - 1]) =~= l.take(n));
    }
}

/// A list of distinct non-empty items without commas, written as one
/// comma-separated value, reads back as itself.
pub proof fn lemma_add_list_of_join(l: Seq<Seq<char>>)
    requires
        l.len() > 0,
        l.no_duplicates(),
        forall|k: int| 0 <= k < l.len() ==> (#[trigger] l[k]).len() > 0 && !l[k].contains(','),
    ensures
        add_list(Seq::empty(), join(l, ","@)) == l,
{
    lemma_split_of_join(l);
    lemma_add_pieces_id(l, l.len() as int);
    assert(l.take(l.len() as int) =~= l);
}

proof fn lemma_apply_prefix(f: FilterView, a: Seq<Seq<char>>, b: Seq<Seq<char>>, k: int)
    requires
        0 <= k <= a.len(),
    ensures
        apply_tokens(f, a + b, k) == apply_tokens(f, a, k),
    decreases k,
{
    if k > 0 {
        lemma_apply_prefix(f, a, b, k - 1);
        assert((a + b)[k - 1] == a[k - 1]);
    }
}

proof fn lemma_apply_concat_n(f: FilterView, a: Seq<Seq<char>>, b: Seq<Seq<char>>, n: int)
    requires
        0 <= n <= b.len(),
    ensures
        apply_tokens(f, a + b, a.len() + n) == apply_tokens(apply_tokens(f, a, a.len() as int), b, n),
    decreases n,
{
    if n == 0 {
        lemma_apply_prefix(f, a, b, a.len() as int);
    } else {
        lemma_apply_concat_n(f, a, b, n - 1);
        assert((a + b)[a.len() + n - 1] == b[n - 1]);
    }
}

/// Reading words one list after another.
pub proof fn lemma_apply_concat(f: FilterView, a: Seq<Seq<char>>, b: Seq<Seq<char>>)
    ensures
        apply_tokens(f, a + b, (a + b).len() as int) == apply_tokens(apply_tokens(f, a, a.len() as int), b, b.len() as int),
{
    lemma_apply_concat_n(f, a, b, b.len() as int);
}

proof fn lemma_index_at(s: Seq<char>, c: char, m: int)
    requires
        0 <= m < s.len(),
        s[m] == c,
        forall|k: int| 0 <= k < m ==> s[k] != c,
    ensures
        index_of(s, c) == m,
    decreases m,
{
    if m > 0 {
        assert(s[0] != c);
        lemma_index_at(s.drop_first(), c, m - 1);
    }
}

/// The key and value of `p + v`, where `p` ends with the only `=` it has.
proof fn lemma_token_parts(p: Seq<char>, v: Seq<char>)
    requires
        p.len() > 0,
        p.last() == '=',
        !p.drop_last().contains('='),
    ensures
        index_of(p + v, '=') < (p + v).len(),
        token_key(p + v) == p.drop_last(),
        token_value(p + v) == v,
{
    let s = p + v;
    assert forall|k: int| 0 <= k < p.len() - 1 implies s[k] != '=' by {
        assert(s[k] == p.drop_last()[k]);
    }
    lemma_index_at(s, '=', p.len() - 1);
    assert(s.subrange(0, p.len() - 1) =~= p.drop_last());
    assert(s.subrange(p.len() as int, s.len() as int) =~= v);
}

proof fn lemma_key_app(g: FilterView, v: Seq<char>)
    ensures
        apply_token(g, "app="@ + v) == (FilterView { package: v, pids: Set::empty(), package_tracking: v.len() > 0, ..g }),
{
    reveal_strlit("app=");
    reveal_strlit("app");
    lemma_token_parts("app="@, v);
    assert("app="@.drop_last() =~= "app"@);
}

proof fn lemma_key_tag(g: FilterView, v: Seq<char>)
    ensures
        apply_token(g, "tag="@ + v) == (FilterView { tags: add_list(g.tags, v), ..g }),
{
    reveal_strlit("tag=");
    reveal_strlit("tag");
    reveal_strlit("app");
    lemma_token_parts("tag="@, v);
    assert("tag="@.drop_last() =~= "tag"@);
    assert("tag"@[0] != "app"@[0]);
}

proof fn lemma_key_level(g: FilterView, v: Seq<char>)
    ensures
        apply_token(g, "level="@ + v) == match level_value(v) {
            Some(l) => FilterView { min_level: l, ..g },
            None => g,
        },
{
    reveal_strlit("level=");
    reveal_strlit("level");
    reveal_strlit("app");
    reveal_strlit("tag");
    lemma_token_parts("level="@, v);
    assert("level="@.drop_last() =~= "level"@);
}

proof fn lemma_key_grep(g: FilterView, v: Seq<char>)
    ensures
        apply_token(g, "grep="@ + v) == (FilterView { text: v, ..g }),
{
    reveal_strlit("grep=");
    reveal_strlit("grep");
    reveal_strlit("app");
    reveal_strlit("tag");
    reveal_strlit("level");
    lemma_token_parts("grep="@, v);
    assert("grep="@.drop_last() =~= "grep"@);
}

proof fn lemma_key_msg(g: FilterView, v: Seq<char>)
    ensures
        apply_token(g, "msg="@ + v) == if v.len() > 0 {
            FilterView { messages: with_unique(g.messages, v), ..g }
        } else {
            g
        },
{
    reveal_strlit("msg=");
    reveal_strlit("msg");
    reveal_strlit("app");
    reveal_strlit("tag");
    reveal_strlit("level");
    reveal_strlit("grep");
    reveal_strlit("text");
    lemma_token_parts("msg="@, v);
    assert("msg="@.drop_last() =~= "msg"@);
    assert("msg"@[0] != "app"@[0]);
    assert("msg"@[0] != "tag"@[0]);
}

proof fn lemma_key_regex(g: FilterView, v: Seq<char>)
    ensures
        apply_token(g, "regex="@ + v) == if regex_compiles(insensitive(v)) {
            FilterView { regex: Some(insensitive(v)), ..g }
        } else {
            g
        },
{
    reveal_strlit("regex=");
    reveal_strlit("regex");
    reveal_strlit("app");
    reveal_strlit("tag");
    reveal_strlit("level");
    reveal_strlit("grep");
    reveal_strlit("text");
    reveal_strlit("msg");
    reveal_strlit("message");
    lemma_token_parts("regex="@, v);
    assert("regex="@.drop_last() =~= "regex"@);
    assert("regex"@[0] != "level"@[0]);
}

proof fn lemma_key_xtag(g: FilterView, v: Seq<char>)
    ensures
        apply_token(g, "!tag="@ + v) == (FilterView { exclude_tags: add_list(g.exclude_tags, v), ..g }),
{
    reveal_strlit("!tag=");
    reveal_strlit("!tag");
    reveal_strlit("app");
    reveal_strlit("tag");
    reveal_strlit("level");
    reveal_strlit("grep");
    reveal_strlit("text");
    reveal_strlit("msg");
    reveal_strlit("message");
    reveal_strlit("regex");
    lemma_token_parts("!tag="@, v);
    assert("!tag="@.drop_last() =~= "!tag"@);
    assert("!tag"@[0] != "grep"@[0]);
    assert("!tag"@[0] != "text"@[0]);
}

proof fn lemma_key_xmsg(g: FilterView, v: Seq<char>)
    ensures
        apply_token(g, "!msg="@ + v) == if v.len() > 0 {
            FilterView { exclude_texts: g.exclude_texts.push(v), ..g }
        } else {
            g
        },
{
    reveal_strlit("!msg=");
    reveal_strlit("!msg");
    reveal_strlit("app");
    reveal_strlit("tag");
    reveal_strlit("level");
    reveal_strlit("grep");
    reveal_strlit("text");
    reveal_strlit("msg");
    reveal_strlit("message");
    reveal_strlit("regex");
    reveal_strlit("!tag");
    lemma_token_parts("!msg="@, v);
    assert("!msg="@.drop_last() =~= "!msg"@);
    assert("!msg"@[0] != "grep"@[0]);
    assert("!msg"@[0] != "text"@[0]);
    assert("!msg"@[1] != "!tag"@[1]);
}

proof fn lemma_apply_part(g: FilterView, cond: bool, t: Seq<char>)
    ensures
        apply_tokens(g, part_if(cond, t), part_if(cond, t).len() as int) == if cond {
            apply_token(g, t)
        } else {
            g
        },
{
    reveal_with_fuel(apply_tokens, 2);
    if cond {
        assert(part_if(cond, t)[0] == t);
    }
}

proof fn lemma_apply_msgs(g: FilterView, ms: Seq<Seq<char>>, n: int)
    requires
        0 <= n <= ms.len(),
        g.messages.len() == 0,
        ms.no_duplicates(),
        forall|k: int| 0 <= k < ms.len() ==> (#[trigger] ms[k]).len() > 0,
    ensures
        apply_tokens(g, prefixed("msg="@, ms), n) == (FilterView { messages: ms.take(n), ..g }),
    decreases n,
{
    if n == 0 {
        assert(ms.take(0) =~= g.messages);
    } else {
        lemma_apply_msgs(g, ms, n - 1);
        let p = prefixed("msg="@, ms);
        assert(p[n - 1] == "msg="@ + ms[n - 1]);
        lemma_key_msg(FilterView { messages: ms.take(n - 1), ..g }, ms[n - 1]);
        assert(!ms.take(n - 1).contains(ms[n - 1])) by {
            if ms.take(n - 1).contains(ms[n - 1]) {
                let j = choose|j: int| 0 <= j < n - 1 && #[trigger] ms.take(n - 1)[j] == ms[n - 1];
                assert(ms[j] == ms[n - 1]);
            }
        }
        assert(ms.take(n - 1).push(ms[n - 1]) =~= ms.take(n));
    }
}

proof fn lemma_apply_xmsgs(g: FilterView, ms: Seq<Seq<char>>, n: int)
    requires
        0 <= n <= ms.len(),
        g.exclude_texts.len() == 0,
        forall|k: int| 0 <= k < ms.len() ==> (#[trigger] ms[k]).len() > 0,
    ensures
        apply_tokens(g, prefixed("!msg="@, ms), n) == (FilterView { exclude_texts: ms.take(n), ..g }),
    decreases n,
{
    if n == 0 {
        assert(ms.take(0) =~= g.exclude_texts);
    } else {
        lemma_apply_xmsgs(g, ms, n - 1);
        let p = prefixed("!msg="@, ms);
        assert(p[n - 1] == "!msg="@ + ms[n - 1]);
        lemma_key_xmsg(FilterView { exclude_texts: ms.take(n - 1), ..g }, ms[n - 1]);
        assert(ms.take(n - 1).push(ms[n - 1]) =~= ms.take(n));
    }
}

/// Every item is non-empty and has no whitespace.
pub open spec fn plain_words(l: Seq<Seq<char>>) -> bool {
    forall|k: int| 0 <= k < l.len() ==> (#[trigger] l[k]).len() > 0 && no_ws(l[k])
}

/// Every item is non-empty, has no whitespace and no comma, and comes once.
pub open spec fn plain_list(l: Seq<Seq<char>>) -> bool {
    &&& plain_words(l)
    &&& l.no_duplicates()
    &&& forall|k: int| 0 <= k < l.len() ==> !(#[trigger] l[k]).contains(',')
}

/// The filters the one-line form can carry: values without whitespace,
/// list items without commas, each listed once, and a regex source as the
/// regex filter compiles it.
pub open spec fn edit_representable(f: FilterView) -> bool {
    &&& no_ws(f.package)
    &&& no_ws(f.text)
    &&& plain_list(f.tags)
    &&& plain_list(f.exclude_tags)
    &&& plain_words(f.messages)
    &&& f.messages.no_duplicates()
    &&& plain_words(f.exclude_texts)
    &&& match f.regex {
        Some(src) => starts_with(src, "(?i)"@) && regex_compiles(src) && no_ws(src),
        None => true,
    }
}

proof fn lemma_no_ws_concat(a: Seq<char>, b: Seq<char>)
    requires
        no_ws(a),
        no_ws(b),
    ensures
        no_ws(a + b),
{
    assert forall|k: int| 0 <= k < (a + b).len() implies !is_ws(#[trigger] (a + b)[k]) by {
        if k < a.len() {
            assert((a + b)[k] == a[k]);
        } else {
            assert((a + b)[k] == b[k - a.len()]);
        }
    }
}

proof fn lemma_no_ws_join(l: Seq<Seq<char>>, sep: Seq<char>)
    requires
        plain_words(l),
        no_ws(sep),
    ensures
        no_ws(join(l, sep)),
    decreases l.len(),
{
    if l.len() == 1 {
        assert(no_ws(l[0]));
    } else if l.len() > 1 {
        lemma_no_ws_join(l.drop_last(), sep);
        assert(no_ws(l.last()));
        lemma_no_ws_concat(join(l.drop_last(), sep), sep);
        lemma_no_ws_concat(join(l.drop_last(), sep) + sep, l.last());
    }
}

proof fn lemma_plain_concat(a: Seq<Seq<char>>, b: Seq<Seq<char>>)
    requires
        plain_words(a),
        plain_words(b),
    ensures
        plain_words(a + b),
{
    assert forall|k: int| 0 <= k < (a + b).len() implies (#[trigger] (a + b)[k]).len() > 0 && no_ws((a + b)[k]) by {
        if k < a.len() {
            assert((a + b)[k] == a[k]);
        } else {
            assert((a + b)[k] == b[k - a.len()]);
        }
    }
}

proof fn lemma_plain_part(cond: bool, p: Seq<char>, v: Seq<char>)
    requires
        p.len() > 0,
        no_ws(p),
        cond ==> no_ws(v),
    ensures
        plain_words(part_if(cond, p + v)),
{
    if cond {
        lemma_no_ws_concat(p, v);
        assert(part_if(cond, p + v)[0] == p + v);
    }
}

proof fn lemma_plain_prefixed(p: Seq<char>, l: Seq<Seq<char>>)
    requires
        p.len() > 0,
        no_ws(p),
        plain_words(l),
    ensures
        plain_words(prefixed(p, l)),
{
    assert forall|k: int| 0 <= k < prefixed(p, l).len() implies (#[trigger] prefixed(p, l)[k]).len() > 0 && no_ws(prefixed(p, l)[k]) by {
        assert(prefixed(p, l)[k] == p + l[k]);
        assert(no_ws(l[k]));
        lemma_no_ws_concat(p, l[k]);
    }
}

/// `/filter edit` shows the filters as one line, and `/filter set` with
/// that line gives back the same filters: package, tags, level, search
/// text, message filters, regex and exclusions. The process and thread ids
/// are not part of the line (following a package starts over), so they
/// come back empty, and following the package is on when there is one.
#[verifier::rlimit(60)]
#[verifier::spinoff_prover]
pub proof fn law_edit_string_reads_back(f: FilterView)
    requires
        edit_representable(f),
    ensures
        edited(edit_string(f)) == (FilterView {
            pids: Set::empty(),
            threads: Set::empty(),
            package_tracking: f.package.len() > 0,
            ..f
        }),
{
    reveal_strlit("app=");
    reveal_strlit("tag=");
    reveal_strlit("level=");
    reveal_strlit("grep=");
    reveal_strlit("msg=");
    reveal_strlit("regex=");
    reveal_strlit("!tag=");
    reveal_strlit("!msg=");
    reveal_strlit(",");
    reveal_strlit("(?i)");
    let a = part_if(f.package.len() > 0, "app="@ + f.package);
    let t = part_if(f.tags.len() > 0, "tag="@ + join(f.tags, ","@));
    let letter = level_letter(f.min_level);
    let l = part_if(level_rank(f.min_level) > 0, "level="@.push(letter));
    let g = part_if(f.text.len() > 0, "grep="@ + f.text);
    let m = prefixed("msg="@, f.messages);
    let r = part_if(f.regex is Some, "regex="@ + user_pattern(f.regex->0));
    let xt = part_if(f.exclude_tags.len() > 0, "!tag="@ + join(f.exclude_tags, ","@));
    let xm = prefixed("!msg="@, f.exclude_texts);
    let parts = edit_parts(f);
    assert(parts == a + t + l + g + m + r + xt + xm);
    // The words of the line are the parts.
    assert(no_ws(","@));
    assert(!is_ws(letter));
    assert(no_ws(seq![letter]));
    assert("level="@.push(letter) =~= "level="@ + seq![letter]);
    lemma_plain_part(f.package.len() > 0, "app="@, f.package);
    if f.tags.len() > 0 {
        lemma_no_ws_join(f.tags, ","@);
    }
    lemma_plain_part(f.tags.len() > 0, "tag="@, join(f.tags, ","@));
    lemma_plain_part(level_rank(f.min_level) > 0, "level="@, seq![letter]);
    lemma_plain_part(f.text.len() > 0, "grep="@, f.text);
    lemma_plain_prefixed("msg="@, f.messages);
    let up = user_pattern(f.regex->0);
    if f.regex is Some {
        let src = f.regex->0;
        assert(up =~= src.subrange(4, src.len() as int));
        assert forall|k: int| 0 <= k < up.len() implies !is_ws(#[trigger] up[k]) by {
            assert(up[k] == src[k + 4]);
        }
    }
    lemma_plain_part(f.regex is Some, "regex="@, up);
    if f.exclude_tags.len() > 0 {
        lemma_no_ws_join(f.exclude_tags, ","@);
    }
    lemma_plain_part(f.exclude_tags.len() > 0, "!tag="@, join(f.exclude_tags, ","@));
    lemma_plain_prefixed("!msg="@, f.exclude_texts);
    lemma_plain_concat(a, t);
    lemma_plain_concat(a + t, l);
    lemma_plain_concat(a + t + l, g);
    lemma_plain_concat(a + t + l + g, m);
    lemma_plain_concat(a + t + l + g + m, r);
    lemma_plain_concat(a + t + l + g + m + r, xt);
    lemma_plain_concat(a + t + l + g + m + r + xt, xm);
    lemma_words_of_join(parts);
    assert(words(edit_string(f)) == parts);
    // Reading the parts in order.
    let e0 = empty_filters();
    lemma_apply_concat(e0, a + t + l + g + m + r + xt, xm);
    lemma_apply_concat(e0, a + t + l + g + m + r, xt);
    lemma_apply_concat(e0, a + t + l + g + m, r);
    lemma_apply_concat(e0, a + t + l + g, m);
    lemma_apply_concat(e0, a + t + l, g);
    lemma_apply_concat(e0, a + t, l);
    lemma_apply_concat(e0, a, t);
    let s1 = apply_tokens(e0, a, a.len() as int);
    lemma_apply_part(e0, f.package.len() > 0, "app="@ + f.package);
    lemma_key_app(e0, f.package);
    if f.package.len() == 0 {
        assert(f.package =~= e0.package);
    }
    assert(s1 == FilterView { package: f.package, package_tracking: f.package.len() > 0, ..e0 });
    let s2 = apply_tokens(s1, t, t.len() as int);
    lemma_apply_part(s1, f.tags.len() > 0, "tag="@ + join(f.tags, ","@));
    lemma_key_tag(s1, join(f.tags, ","@));
    if f.tags.len() > 0 {
        lemma_add_list_of_join(f.tags);
    } else {
        assert(f.tags =~= s1.tags);
    }
    assert(s2 == FilterView { tags: f.tags, ..s1 });
    let s3 = apply_tokens(s2, l, l.len() as int);
    lemma_apply_part(s2, level_rank(f.min_level) > 0, "level="@.push(letter));
    lemma_key_level(s2, seq![letter]);
    crate::logs::parser::lemma_level_letter_roundtrip(f.min_level);
    assert(level_rank(f.min_level) > 0 ==> level_value(seq![letter]) == Some(f.min_level));
    assert(s3 == FilterView { min_level: f.min_level, ..s2 });
    let s4 = apply_tokens(s3, g, g.len() as int);
    lemma_apply_part(s3, f.text.len() > 0, "grep="@ + f.text);
    lemma_key_grep(s3, f.text);
    if f.text.len() == 0 {
        assert(f.text =~= s3.text);
    }
    assert(s4 == FilterView { text: f.text, ..s3 });
    let s5 = apply_tokens(s4, m, m.len() as int);
    lemma_apply_msgs(s4, f.messages, f.messages.len() as int);
    assert(f.messages.take(f.messages.len() as int) =~= f.messages);
    assert(s5 == FilterView { messages: f.messages, ..s4 });
    let s6 = apply_tokens(s5, r, r.len() as int);
    lemma_apply_part(s5, f.regex is Some, "regex="@ + up);
    lemma_key_regex(s5, up);
    if f.regex is Some {
        let src = f.regex->0;
        assert(insensitive(up) =~= src);
    }
    assert(s6 == FilterView { regex: f.regex, ..s5 });
    let s7 = apply_tokens(s6, xt, xt.len() as int);
    lemma_apply_part(s6, f.exclude_tags.len() > 0, "!tag="@ + join(f.exclude_tags, ","@));
    lemma_key_xtag(s6, join(f.exclude_tags, ","@));
    if f.exclude_tags.len() > 0 {
        lemma_add_list_of_join(f.exclude_tags);
    } else {
        assert(f.exclude_tags =~= s6.exclude_tags);
    }
    assert(s7 == FilterView { exclude_tags: f.exclude_tags, ..s6 });
    let s8 = apply_tokens(s7, xm, xm.len() as int);
    lemma_apply_xmsgs(s7, f.exclude_texts, f.exclude_texts.len() as int);
    assert(f.exclude_texts.take(f.exclude_texts.len() as int) =~= f.exclude_texts);
    assert(s8 == FilterView { exclude_texts: f.exclude_texts, ..s7 });
    assert(edited(edit_string(f)) == s8);
    assert(s8.tags == f.tags);
    assert(s8 == (FilterView {
        pids: Set::empty(),
        threads: Set::empty(),
        package_tracking: f.package.len() > 0,
        ..f
    }));
}

/// Several tag fragments act as alternatives: adding one never hides an
/// entry that a non-empty tag filter already showed.
pub proof fn law_tags_are_alternatives(e: EntryView, f: FilterView, tag: Seq<char>)
    requires
        f.tags.len() > 0,
        passes(e, f),
    ensures
        passes(e, FilterView { tags: with_unique(f.tags, tag), ..f }),
{
    let g = FilterView { tags: with_unique(f.tags, tag), ..f };
    let i = choose|i: int| 0 <= i < f.tags.len() && contains(lowercase(e.tag), lowercase(#[trigger] f.tags[i]));
    assert(g.tags[i] == f.tags[i]);
    assert(crate::logs::filters::tag_accepted(e.tag, g.tags));
}

/// Message filters are alternatives too.
pub proof fn law_messages_are_alternatives(e: EntryView, f: FilterView, text: Seq<char>)
    requires
        f.messages.len() > 0,
        passes(e, f),
    ensures
        passes(e, FilterView { messages: with_unique(f.messages, text), ..f }),
{
    let g = FilterView { messages: with_unique(f.messages, text), ..f };
    let i = choose|i: int| 0 <= i < f.messages.len() && contains(lowercase(e.message), lowercase(#[trigger] f.messages[i]));
    assert(g.messages[i] == f.messages[i]);
    assert(fragment_in(lowercase(e.message), g.messages));
}

/// Filters of different kinds combine: an entry that passes them all
/// passes each one alone.
pub proof fn law_filters_combine(e: EntryView, f: FilterView)
    requires
        passes(e, f),
    ensures
        passes(e, FilterView { tags: f.tags, ..empty_filters() }),
        passes(e, FilterView { min_level: f.min_level, ..empty_filters() }),
        passes(e, FilterView { text: f.text, ..empty_filters() }),
        passes(e, FilterView { pids: f.pids, ..empty_filters() }),
        passes(e, FilterView { exclude_tags: f.exclude_tags, exclude_texts: f.exclude_texts, ..empty_filters() }),
{
    law_no_filters_show_everything(e);
    assert(!fragment_in(lowercase(e.message), Seq::<Seq<char>>::empty()));
}

/// Scrolling back while the stream runs pauses the view and stops it
/// following new lines.
pub proof fn law_scrolling_back_pauses(v: AppView, step: int)
    requires
        v.streaming,
    ensures
        scrolled_up(v, step).paused,
        !scrolled_up(v, step).auto_scroll,
{
}

/// Scrolling forward to the newest line again follows new lines and, when
/// scrolling back had paused the running stream, lifts the pause.
pub proof fn law_scrolling_to_end_resumes(v: AppView, back: int, forward: int)
    requires
        v.streaming,
        !v.paused,
        forward >= scrolled_up(v, back).scroll_offset,
    ensures
        !scrolled_down(scrolled_up(v, back), forward).paused,
        scrolled_down(scrolled_up(v, back), forward).auto_scroll,
        scrolled_down(scrolled_up(v, back), forward).scroll_offset == 0,
{
    reveal(rebuilt);
    reveal(crate::cli::tui::to_end);
}

proof fn lemma_filter_keeps_all(l: Seq<Seq<char>>, x: Seq<char>)
    requires
        !l.contains(x),
    ensures
        without_all(l, x) == l,
    decreases l.len(),
{
    reveal_with_fuel(Seq::filter, 1);
    if l.len() > 0 {
        assert(!l.drop_last().contains(x)) by {
            if l.drop_last().contains(x) {
                let j = choose|j: int| 0 <= j < l.drop_last().len() && #[trigger] l.drop_last()[j] == x;
                assert(l[j] == x);
            }
        }
        lemma_filter_keeps_all(l.drop_last(), x);
        assert(l.last() != x) by {
            assert(l[l.len() - 1] == l.last());
        }
        assert(l.drop_last().push(l.last()) =~= l);
    }
}

proof fn lemma_without_first_push(l: Seq<Seq<char>>, x: Seq<char>)
    requires
        !l.contains(x),
    ensures
        without_first(l.push(x), x) == l,
    decreases l.len(),
{
    if l.len() == 0 {
        assert(l.push(x).drop_first() =~= l);
    } else {
        assert(l[0] != x);
        assert(!l.drop_first().contains(x)) by {
            if l.drop_first().contains(x) {
                let j = choose|j: int| 0 <= j < l.drop_first().len() && #[trigger] l.drop_first()[j] == x;
                assert(l[j + 1] == x);
            }
        }
        lemma_without_first_push(l.drop_first(), x);
        assert(l.push(x).drop_first() =~= l.drop_first().push(x));
        assert(seq![l[0]] + l.drop_first() =~= l);
    }
}

/// `/exclude remove` takes back an exclusion just added, leaving the
/// filters as they were (when that value was not excluded already).
pub proof fn law_exclusion_remove_undoes_add(f: FilterView, x: Seq<char>)
    requires
        !f.exclude_tags.contains(x),
        !f.exclude_texts.contains(x),
    ensures
        ({
            let g = FilterView { exclude_tags: with_unique(f.exclude_tags, x), ..f };
            FilterView {
                exclude_tags: without_all(g.exclude_tags, x),
                exclude_texts: without_first(g.exclude_texts, x),
                ..g
            } == f
        }),
        ({
            let g = FilterView { exclude_texts: f.exclude_texts.push(x), ..f };
            FilterView {
                exclude_tags: without_all(g.exclude_tags, x),
                exclude_texts: without_first(g.exclude_texts, x),
                ..g
            } == f
        }),
{
    reveal_with_fuel(Seq::filter, 1);
    lemma_filter_keeps_all(f.exclude_tags, x);
    assert(f.exclude_tags.push(x).drop_last() =~= f.exclude_tags);
    assert(without_all(f.exclude_tags.push(x), x) =~= without_all(f.exclude_tags, x));
    lemma_without_first_push(f.exclude_texts, x);
    lemma_without_first_not_there(f.exclude_texts, x);
}

proof fn lemma_without_first_not_there(l: Seq<Seq<char>>, x: Seq<char>)
    requires
        !l.contains(x),
    ensures
        without_first(l, x) == l,
    decreases l.len(),
{
    if l.len() > 0 {
        assert(l[0] != x);
        assert(!l.drop_first().contains(x)) by {
            if l.drop_first().contains(x) {
                let j = choose|j: int| 0 <= j < l.drop_first().len() && #[trigger] l.drop_first()[j] == x;
                assert(l[j + 1] == x);
            }
        }
        lemma_without_first_not_there(l.drop_first(), x);
        assert(seq![l[0]] + l.drop_first() =~= l);
    }
}

/// Changing a filter applies to what is already buffered: rebuilding the
/// view shows exactly the buffered lines that pass the filters, in order.
pub proof fn law_refilter_shows_matching(v: AppView)
    ensures
        rebuilt(v).log_lines == filtered(v.all_lines, v.filters),
        rebuilt(v).all_lines == v.all_lines,
{
    reveal(rebuilt);
    reveal(crate::cli::tui::to_end);
}

/// While the view is paused new entries are buffered but the view does not
/// change; lifting the pause shows the buffered entries that pass.
pub proof fn law_pause_freezes_view(v: AppView, e: EntryView)
    requires
        v.paused,
    ensures
        with_entry(v, e).log_lines == v.log_lines,
        resumed(with_entry(v, e)).log_lines == filtered(with_entry(v, e).all_lines, v.filters),
{
    reveal(with_entry);
    reveal(rebuilt);
    reveal(crate::cli::tui::to_end);
}

proof fn lemma_fit_end_fits(s: Seq<char>, i: int, width: int)
    requires
        0 <= i <= s.len(),
        width >= 0,
    ensures
        i <= fit_end(s, i, width) <= s.len(),
        byte_len(s.subrange(i, fit_end(s, i, width))) <= width,
    decreases s.len() - i,
{
    if i < s.len() && utf8_len(s[i]) <= width {
        lemma_fit_end_fits(s, i + 1, width - utf8_len(s[i]));
        let e = fit_end(s, i + 1, width - utf8_len(s[i]));
        lemma_bytes_split(s.subrange(i, e), 1);
        assert(s.subrange(i, e).subrange(0, 1) =~= seq![s[i]]);
        assert(s.subrange(i, e).subrange(1, e - i) =~= s.subrange(i + 1, e));
        assert(seq![s[i]].drop_last() =~= Seq::<char>::empty());
        assert(byte_len(Seq::<char>::empty()) == 0);
        assert(byte_len(seq![s[i]]) == byte_len(seq![s[i]].drop_last()) + utf8_len(seq![s[i]].last()));
        assert(byte_len(seq![s[i]]) == utf8_len(s[i]));
    } else {
        assert(s.subrange(i, i) =~= Seq::<char>::empty());
        assert(byte_len(Seq::<char>::empty()) == 0);
    }
}

proof fn lemma_prefix_bytes(s: Seq<char>, i: int, b: int, e: int)
    requires
        0 <= i <= b <= e <= s.len(),
    ensures
        byte_len(s.subrange(i, b)) <= byte_len(s.subrange(i, e)),
{
    lemma_bytes_split(s.subrange(i, e), b - i);
    assert(s.subrange(i, e).subrange(0, b - i) =~= s.subrange(i, b));
}

proof fn lemma_wrap_from_fits(s: Seq<char>, i: int, width: int)
    requires
        0 <= i,
        width >= 0,
    ensures
        forall|k: int| 0 <= k < wrap_from(s, i, width).len() ==> byte_len(#[trigger] wrap_from(s, i, width)[k]) <= width,
    decreases s.len() - i,
{
    if !(i < 0 || i >= s.len() || width < 1) && byte_len(s.subrange(i, s.len() as int)) > width {
        let b = break_at(s, i, width);
        if !(b <= i || b > s.len()) {
            let e = fit_end(s, i, width);
            lemma_fit_end_fits(s, i, width);
            match last_ws(s, i, e) {
                Some(p) => {
                    lemma_last_ws_bounds(s, i, e);
                },
                None => {},
            }
            assert(b <= e);
            lemma_prefix_bytes(s, i, b, e);
            lemma_skip_ge(s, b);
            let rest = wrap_from(s, skip_ascii_ws(s, b), width);
            lemma_wrap_from_fits(s, skip_ascii_ws(s, b), width);
            let all = seq![s.subrange(i, b)] + rest;
            assert forall|k: int| 0 <= k < all.len() implies byte_len(#[trigger] all[k]) <= width by {
                if k > 0 {
                    assert(all[k] == rest[k - 1]);
                }
            }
        }
    }
}

/// Wrapped messages fit the width: no line is longer than `width` bytes
/// (a width of 0 leaves the message whole).
pub proof fn law_wrapped_lines_fit(s: Seq<char>, width: int)
    requires
        width >= 1,
    ensures
        forall|k: int| 0 <= k < wrapped(s, width).len() ==> byte_len(#[trigger] wrapped(s, width)[k]) <= width,
{
    lemma_wrap_from_fits(s, 0, width);
    assert(byte_len(Seq::<char>::empty()) == 0);
}

/// `s` without its ASCII whitespace.
pub open spec fn strip_ascii_ws(s: Seq<char>) -> Seq<char>
    decreases s.len(),
{
    if s.len() == 0 {
        s
    } else {
        strip_ascii_ws(s.drop_last()) + if ascii_ws(s.last()) {
            Seq::empty()
        } else {
            seq![s.last()]
        }
    }
}

proof fn lemma_strip_concat(a: Seq<char>, b: Seq<char>)
    ensures
        strip_ascii_ws(a + b) == strip_ascii_ws(a) + strip_ascii_ws(b),
    decreases b.len(),
{
    if b.len() == 0 {
        assert(a + b =~= a);
        assert(strip_ascii_ws(b) =~= Seq::<char>::empty());
        assert(strip_ascii_ws(a) + Seq::<char>::empty() =~= strip_ascii_ws(a));
    } else {
        lemma_strip_concat(a, b.drop_last());
        assert((a + b).drop_last() =~= a + b.drop_last());
        assert((a + b).last() == b.last());
    }
}

proof fn lemma_strip_all_ws(t: Seq<char>)
    requires
        forall|k: int| 0 <= k < t.len() ==> ascii_ws(#[trigger] t[k]),
    ensures
        strip_ascii_ws(t) == Seq::<char>::empty(),
    decreases t.len(),
{
    if t.len() > 0 {
        assert(ascii_ws(t[t.len() - 1]));
        lemma_strip_all_ws(t.drop_last());
    }
}

proof fn lemma_skip_is_ws(s: Seq<char>, b: int)
    requires
        0 <= b <= s.len(),
    ensures
        b <= skip_ascii_ws(s, b) <= s.len(),
        forall|k: int| b <= k < skip_ascii_ws(s, b) ==> ascii_ws(#[trigger] s[k]),
    decreases s.len() - b,
{
    if b < s.len() && ascii_ws(s[b]) {
        lemma_skip_is_ws(s, b + 1);
    }
}

/// A line that does not fit breaks after at least one character and
/// within the text.
proof fn lemma_break_progress(s: Seq<char>, i: int, width: int)
    requires
        0 <= i < s.len(),
        width >= 1,
        chars_fit(s, width),
    ensures
        i < break_at(s, i, width) <= s.len(),
{
    let e = fit_end(s, i, width);
    assert(utf8_len(s[i]) <= width);
    lemma_fit_end_fits(s, i + 1, width - utf8_len(s[i]));
    lemma_fit_end_fits(s, i, width);
    lemma_last_ws_bounds(s, i, e);
    match last_ws(s, i, e) {
        Some(p) => {
            if p == i {
                assert(s.subrange(i, i) =~= Seq::<char>::empty());
                assert(byte_len(Seq::<char>::empty()) == 0);
            }
        },
        None => {},
    }
}

proof fn lemma_wrap_from_text(s: Seq<char>, i: int, width: int)
    requires
        0 <= i <= s.len(),
        width >= 1,
        chars_fit(s, width),
    ensures
        strip_ascii_ws(wrap_from(s, i, width).flatten()) == strip_ascii_ws(s.subrange(i, s.len() as int)),
        i < s.len() ==> wrap_from(s, i, width).len() > 0,
    decreases s.len() - i,
{
    if i == s.len() {
        assert(s.subrange(i, i) =~= Seq::<char>::empty());
    } else if byte_len(s.subrange(i, s.len() as int)) <= width {
        let l = seq![s.subrange(i, s.len() as int)];
        l.lemma_flatten_singleton();
    } else {
        let b = break_at(s, i, width);
        lemma_break_progress(s, i, width);
        lemma_skip_is_ws(s, b);
        let j = skip_ascii_ws(s, b);
        lemma_wrap_from_text(s, j, width);
        let rest = wrap_from(s, j, width);
        let l = seq![s.subrange(i, b)] + rest;
        assert(wrap_from(s, i, width) == l);
        assert(l.drop_first() =~= rest);
        assert(l.flatten() == s.subrange(i, b) + rest.flatten());
        lemma_strip_concat(s.subrange(i, b), rest.flatten());
        assert(s.subrange(i, s.len() as int) =~= s.subrange(i, b) + s.subrange(b, j) + s.subrange(j, s.len() as int));
        lemma_strip_concat(s.subrange(i, b) + s.subrange(b, j), s.subrange(j, s.len() as int));
        lemma_strip_concat(s.subrange(i, b), s.subrange(b, j));
        assert forall|k: int| 0 <= k < s.subrange(b, j).len() implies ascii_ws(#[trigger] s.subrange(b, j)[k]) by {
            assert(s.subrange(b, j)[k] == s[b + k]);
        }
        lemma_strip_all_ws(s.subrange(b, j));
        assert(strip_ascii_ws(s.subrange(i, b)) + Seq::<char>::empty() =~= strip_ascii_ws(s.subrange(i, b)));
    }
}

/// Wrapping keeps the words: the lines, put back together, hold the text
/// with only ASCII whitespace at the breaks left out. It holds whenever
/// wrapping can place every character (a width of 0, or every character
/// fitting in the width).
pub proof fn law_wrapped_keeps_text(s: Seq<char>, width: int)
    requires
        width == 0 || (width >= 1 && chars_fit(s, width)),
    ensures
        strip_ascii_ws(wrapped(s, width).flatten()) == strip_ascii_ws(s),
{
    if width == 0 {
        seq![s].lemma_flatten_singleton();
    } else if s.len() == 0 {
        assert(s =~= Seq::<char>::empty());
        seq![Seq::<char>::empty()].lemma_flatten_singleton();
    } else {
        lemma_wrap_from_text(s, 0, width);
        assert(s.subrange(0, s.len() as int) =~= s);
    }
}

/// The text filter ignores the case of the search text: two search texts
/// that lower-case alike (and are both set or both unset) let the same
/// entries through, whatever the other filters.
pub proof fn law_text_filter_ignores_needle_case(e: EntryView, f: FilterView, t: Seq<char>)
    requires
        lowercase(t) == lowercase(f.text),
        t.len() == 0 <==> f.text.len() == 0,
    ensures
        passes(e, FilterView { text: t, ..f }) == passes(e, f),
{
}

/// An entry that shows under a text filter contains the search text in its
/// `tag message`, ignoring case on both sides.
pub proof fn law_shown_entries_contain_the_text(e: EntryView, f: FilterView)
    requires
        passes(e, f),
        f.text.len() > 0,
    ensures
        contains(lowercase(e.tag + seq![' '] + e.message), lowercase(f.text)),
{
}

/// A rule that answers a request is enabled, and each of its conditions
/// that is set holds: the method equals the request's ignoring case, the
/// request path contains the rule's path, and the request host contains the
/// rule's host ignoring case.
pub proof fn law_answering_rule_meets_its_conditions(
    rules: Seq<RuleView>,
    method: Seq<char>,
    path: Seq<char>,
    host: Seq<char>,
    i: int,
)
    requires
        first_match(rules, method, path, host, i),
    ensures
        rules[i].enabled,
        rules[i].match_rule.method.len() == 0 || crate::text::uppercase(rules[i].match_rule.method)
            == crate::text::uppercase(method),
        rules[i].match_rule.path.len() == 0 || contains(path, rules[i].match_rule.path),
        rules[i].match_rule.host.len() == 0 || contains(lowercase(host), lowercase(rules[i].match_rule.host)),
{
}

/// Every request the traffic list shows meets each condition of the filter
/// that is set: host and path contain the filter's ignoring case, the
/// method equals the filter's ignoring case, the status is the one asked
/// for, and the search text occurs in the request or response body
/// (decoded as UTF-8, ignoring case).
pub proof fn law_listed_traffic_meets_the_filter(f: crate::traffic::TrafficFilterView, es: Seq<TrafficEntryView>, i: int)
    requires
        0 <= i < passing(f, es).len(),
    ensures
        f.host.len() == 0 || contains(lowercase(passing(f, es)[i].host), lowercase(f.host)),
        f.path.len() == 0 || contains(lowercase(passing(f, es)[i].path), lowercase(f.path)),
        f.method.len() == 0 || crate::text::uppercase(passing(f, es)[i].method) == crate::text::uppercase(f.method),
        f.status is None || passing(f, es)[i].status == f.status,
        f.body_search.len() == 0 || contains(
            lowercase(crate::traffic::utf8_lossy(passing(f, es)[i].request_body)),
            lowercase(f.body_search),
        ) || contains(lowercase(crate::traffic::utf8_lossy(passing(f, es)[i].response_body)), lowercase(f.body_search)),
{
    es.lemma_filter_pred(|e: TrafficEntryView| crate::traffic::traffic_passes(f, e), i);
}

/// Each level is named by its priority letter in lower case (`c` is the
/// level's letter shifted to lower case, the form a name has once
/// lower-cased), e.g. `i` names Info.
pub proof fn law_level_letters_name_levels(l: LogLevel, c: char)
    requires
        (c as u32) == (level_letter(l) as u32) + 0x20,
    ensures
        crate::logs::parser::level_by_lower_name(seq![c]) == Some(l),
{
    reveal_strlit("v");
    reveal_strlit("d");
    reveal_strlit("i");
    reveal_strlit("w");
    reveal_strlit("e");
    reveal_strlit("f");
    reveal_strlit("s");
    reveal_strlit("verbose");
    reveal_strlit("debug");
    reveal_strlit("info");
    reveal_strlit("warn");
    reveal_strlit("warning");
    reveal_strlit("error");
    reveal_strlit("fatal");
    reveal_strlit("silent");
    match l {
        LogLevel::Verbose => {
            assert(seq![c] =~= "v"@);
        },
        LogLevel::Debug => {
            assert(seq![c] =~= "d"@);
            assert("d"@[0] != "v"@[0]);
        },
        LogLevel::Info => {
            assert(seq![c] =~= "i"@);
            assert("i"@[0] != "v"@[0]);
            assert("i"@[0] != "d"@[0]);
        },
        LogLevel::Warn => {
            assert(seq![c] =~= "w"@);
            assert("w"@[0] != "v"@[0]);
            assert("w"@[0] != "d"@[0]);
            assert("w"@[0] != "i"@[0]);
        },
        LogLevel::Error => {
            assert(seq![c] =~= "e"@);
            assert("e"@[0] != "v"@[0]);
            assert("e"@[0] != "d"@[0]);
            assert("e"@[0] != "i"@[0]);
            assert("e"@[0] != "w"@[0]);
        },
        LogLevel::Fatal => {
            assert(seq![c] =~= "f"@);
            assert("f"@[0] != "v"@[0]);
            assert("f"@[0] != "d"@[0]);
            assert("f"@[0] != "i"@[0]);
            assert("f"@[0] != "w"@[0]);
            assert("f"@[0] != "e"@[0]);
        },
        LogLevel::Silent => {
            assert(seq![c] =~= "s"@);
            assert("s"@[0] != "v"@[0]);
            assert("s"@[0] != "d"@[0]);
            assert("s"@[0] != "i"@[0]);
            assert("s"@[0] != "w"@[0]);
            assert("s"@[0] != "e"@[0]);
            assert("s"@[0] != "f"@[0]);
        },
    }
}

proof fn lemma_ws_run_exact(l: Seq<char>, i: int, n: int)
    requires
        0 <= i,
        0 <= n,
        i + n <= l.len(),
        forall|k: int| i <= k < i + n ==> is_ws(#[trigger] l[k]),
        i + n < l.len() ==> !is_ws(l[i + n]),
    ensures
        crate::text::ws_run(l, i) == n,
    decreases n,
{
    if n > 0 {
        lemma_ws_run_exact(l, i + 1, n - 1);
    }
}

proof fn lemma_num_run_exact(l: Seq<char>, i: int, n: int)
    requires
        0 <= i,
        0 <= n,
        i + n <= l.len(),
        forall|k: int| i <= k < i + n ==> crate::logs::parser::log_digit(#[trigger] l[k]),
        i + n < l.len() ==> !crate::logs::parser::log_digit(l[i + n]),
    ensures
        crate::logs::parser::num_run(l, i) == n,
    decreases n,
{
    if n > 0 {
        lemma_num_run_exact(l, i + 1, n - 1);
    }
}

proof fn lemma_parse_three_digits(s: Seq<char>, v: u32)
    requires
        s.len() == 3,
        crate::text::is_digit(s[0]) && crate::text::is_digit(s[1]) && crate::text::is_digit(s[2]),
        v == crate::text::digit_value(s[0]) * 100 + crate::text::digit_value(s[1]) * 10
            + crate::text::digit_value(s[2]),
    ensures
        crate::text::parse_u32_spec(s) == Some(v),
{
    let a = s.drop_last();
    let b = a.drop_last();
    let z = b.drop_last();
    assert(z.len() == 0);
    assert(crate::text::digits_value(z) == 0);
    assert(crate::text::digits_value(b) == crate::text::digit_value(s[0]));
    assert(crate::text::digits_value(a) == crate::text::digit_value(s[0]) * 10 + crate::text::digit_value(s[1]));
    assert(crate::text::digits_value(s) == v);
    assert(crate::text::all_digits(s));
}

/// A `logcat -v threadtime` line read by the parser: timestamp
/// `12-31 23:59:59.999`, PID 100, TID 200, then the priority letter, the
/// tag and the message.
pub open spec fn threadtime_line(letter: char, tag: Seq<char>, message: Seq<char>) -> Seq<char> {
    "12-31 23:59:59.999  100  200 "@ + seq![letter] + " "@ + tag + ": "@ + message
}

/// Every priority letter is read as its level: a threadtime line whose
/// level column holds the letter of `l` gives an entry of level `l`, with
/// the line's timestamp, PID, TID, tag and message (a tag of one word
/// without `:`, a message that starts and ends with a visible character,
/// neither holding a line break).
pub proof fn law_threadtime_line_parses(l: LogLevel, tag: Seq<char>, message: Seq<char>)
    requires
        tag.len() > 0,
        forall|k: int| 0 <= k < tag.len() ==> !is_ws(#[trigger] tag[k]) && tag[k] != ':' && tag[k] != '\n',
        message.len() > 0,
        !is_ws(message[0]),
        !is_ws(message.last()),
        forall|k: int| 0 <= k < message.len() ==> #[trigger] message[k] != '\n',
    ensures
        crate::logs::parser::spec_parse_line(threadtime_line(level_letter(l), tag, message)) == Some(
            EntryView {
                timestamp: "12-31 23:59:59.999"@,
                pid: 100,
                tid: 200,
                level: l,
                tag,
                message,
                raw: threadtime_line(level_letter(l), tag, message),
            },
        ),
{
    reveal_strlit("12-31 23:59:59.999  100  200 ");
    reveal_strlit("12-31 23:59:59.999");
    reveal_strlit(" ");
    reveal_strlit(": ");
    let c = level_letter(l);
    let h = "12-31 23:59:59.999  100  200 "@;
    let line = threadtime_line(c, tag, message);
    let tl = tag.len() as int;
    let ml = message.len() as int;
    assert(h.len() == 29);
    assert(line.len() == 33 + tl + ml);
    assert forall|k: int| 0 <= k < 29 implies line[k] == h[k] by {}
    assert(line[29] == c);
    assert(line[30] == ' ');
    assert forall|k: int| 0 <= k < tl implies line[31 + k] == tag[k] by {}
    assert(line[31 + tl] == ':');
    assert(line[32 + tl] == ' ');
    assert forall|k: int| 0 <= k < ml implies line[33 + tl + k] == message[k] by {}
    // no trailing whitespace, no section header
    assert(line.last() == message.last());
    assert(crate::text::trim_end(line) == line);
    assert(!crate::logs::parser::is_section_header(line)) by {
        assert(line[0] != '-');
    }
    // the head
    lemma_ws_run_exact(line, 5, 1);
    assert(crate::logs::parser::clock_at(line, 6));
    lemma_ws_run_exact(line, 18, 2);
    lemma_num_run_exact(line, 20, 3);
    lemma_ws_run_exact(line, 23, 2);
    lemma_num_run_exact(line, 25, 3);
    lemma_ws_run_exact(line, 28, 1);
    assert(crate::logs::parser::is_level_char(c));
    assert(crate::logs::parser::tt_head(line) == Some((18int, 20int, 23int, 25int, 28int, 29int)));
    // the tag
    assert(!is_ws(line[31])) by {
        assert(line[31] == tag[0]);
    }
    lemma_ws_run_exact(line, 30, 1);
    let e: int = 31 + tl;
    lemma_ws_run_exact(line, e, 0);
    assert(crate::logs::parser::colon_sep_at(line, e));
    assert(crate::text::no_newline(line, 31, e)) by {
        assert forall|k: int| 31 <= k < e implies line[k] != '\n' by {
            assert(line[k] == tag[k - 31]);
        }
    }
    assert(crate::logs::parser::tag_end_ok(line, 31, e));
    assert forall|e2: int| 31 < e2 < e implies !crate::logs::parser::tag_end_ok(line, 31, e2) by {
        assert(line[e2] == tag[e2 - 31]);
        lemma_ws_run_exact(line, e2, 0);
    }
    assert(crate::logs::parser::first_tag_end(line, 31, e));
    assert(crate::logs::parser::tt_split(line, 30, 31, 31, e));
    let (s0, e0) = choose|s0: int, e0: int| crate::logs::parser::tt_split(line, 30, 31, s0, e0);
    assert(s0 == 31);
    if e0 < e {
        assert(!crate::logs::parser::tag_end_ok(line, 31, e0));
    } else if e0 > e {
        assert(!crate::logs::parser::tag_end_ok(line, 31, e));
    }
    assert(e0 == e);
    // the message
    lemma_ws_run_exact(line, e + 1, 1);
    assert(crate::logs::parser::message_start(line, e) == e + 2);
    crate::text::lemma_line_end_bounds(line, e + 2);
    if crate::text::line_end(line, e + 2) < line.len() {
        let k = crate::text::line_end(line, e + 2);
        assert(line[k] == message[k - (33 + tl)]);
    }
    assert(line.subrange(e + 2, line.len() as int) =~= message);
    assert(line.subrange(31, e) =~= tag);
    assert(crate::text::trim_end(tag) == tag);
    assert(crate::text::trim_start(tag) == tag);
    assert(line.subrange(0, 18) =~= "12-31 23:59:59.999"@);
    lemma_parse_three_digits(line.subrange(20, 23), 100);
    lemma_parse_three_digits(line.subrange(25, 28), 200);
    crate::logs::parser::lemma_level_letter_roundtrip(l);
}

/// A `logcat -v brief` line read by the parser: the priority letter, the
/// tag, PID 100, then the message.
pub open spec fn brief_line(letter: char, tag: Seq<char>, message: Seq<char>) -> Seq<char> {
    seq![letter] + "/"@ + tag + "(100): "@ + message
}

/// Every priority letter is read as its level in the brief format too: a
/// brief line whose first character is the letter of `l` gives an entry of
/// level `l` with the line's tag, PID and message (a tag of one word
/// without `(`, a message that starts and ends with a visible character,
/// neither holding a line break).
pub proof fn law_brief_line_parses(l: LogLevel, tag: Seq<char>, message: Seq<char>)
    requires
        tag.len() > 0,
        forall|k: int| 0 <= k < tag.len() ==> !is_ws(#[trigger] tag[k]) && tag[k] != '(' && tag[k] != '\n',
        message.len() > 0,
        !is_ws(message[0]),
        !is_ws(message.last()),
        forall|k: int| 0 <= k < message.len() ==> #[trigger] message[k] != '\n',
    ensures
        crate::logs::parser::spec_parse_line(brief_line(level_letter(l), tag, message)) == Some(
            EntryView {
                timestamp: Seq::empty(),
                pid: 100,
                tid: 0,
                level: l,
                tag,
                message,
                raw: brief_line(level_letter(l), tag, message),
            },
        ),
{
    reveal_strlit("/");
    reveal_strlit("(100): ");
    let c = level_letter(l);
    let line = brief_line(c, tag, message);
    let tl = tag.len() as int;
    let ml = message.len() as int;
    let e: int = 2 + tl;
    assert(line.len() == 9 + tl + ml);
    assert(line[0] == c);
    assert(line[1] == '/');
    assert forall|k: int| 0 <= k < tl implies line[2 + k] == tag[k] by {}
    assert(line[e] == '(');
    assert(line[e + 1] == '1' && line[e + 2] == '0' && line[e + 3] == '0');
    assert(line[e + 4] == ')' && line[e + 5] == ':' && line[e + 6] == ' ');
    assert forall|k: int| 0 <= k < ml implies line[e + 7 + k] == message[k] by {}
    assert(line.last() == message.last());
    assert(crate::text::trim_end(line) == line);
    assert(!crate::logs::parser::is_section_header(line)) by {
        assert(line[0] != '-');
    }
    assert(crate::logs::parser::tt_head(line) is None);
    assert(crate::logs::parser::spec_threadtime(line) is None);
    assert(crate::logs::parser::is_level_char(c));
    // the tail after the tag
    lemma_ws_run_exact(line, e + 1, 0);
    lemma_num_run_exact(line, e + 1, 3);
    lemma_ws_run_exact(line, e + 6, 1);
    assert(crate::logs::parser::brief_tail(line, e) == Some((e + 1, e + 4, e + 7)));
    assert(crate::text::no_newline(line, 2, e)) by {
        assert forall|k: int| 2 <= k < e implies line[k] != '\n' by {
            assert(line[k] == tag[k - 2]);
        }
    }
    assert(crate::logs::parser::brief_end_ok(line, e));
    assert forall|e2: int| 2 < e2 < e implies !crate::logs::parser::brief_end_ok(line, e2) by {
        assert(line[e2] == tag[e2 - 2]);
    }
    assert(crate::logs::parser::first_brief_end(line, e));
    let e0 = choose|e0: int| crate::logs::parser::first_brief_end(line, e0);
    if e0 < e {
        assert(!crate::logs::parser::brief_end_ok(line, e0));
    } else if e0 > e {
        assert(!crate::logs::parser::brief_end_ok(line, e));
    }
    assert(e0 == e);
    // the message and the rest
    crate::text::lemma_line_end_bounds(line, e + 7);
    if crate::text::line_end(line, e + 7) < line.len() {
        let k = crate::text::line_end(line, e + 7);
        assert(line[k] == message[k - (e + 7)]);
    }
    assert(line.subrange(e + 7, line.len() as int) =~= message);
    assert(line.subrange(2, e) =~= tag);
    assert(crate::text::trim_end(tag) == tag);
    assert(crate::text::trim_start(tag) == tag);
    lemma_parse_three_digits(line.subrange(e + 1, e + 4), 100);
    crate::logs::parser::lemma_level_letter_roundtrip(l);
}

} // verus!
