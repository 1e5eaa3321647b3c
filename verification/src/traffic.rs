//! Captured HTTP traffic: the request log, its filter and lookups.
use vstd::prelude::*;
use std::collections::HashMap;
use crate::text::{
    char_views, contains, decimal, index_of, index_of_char, lowercase, pad_right, parse_u16_spec,
    parse_u32_str, parse_usize_spec, push_decimal, push_padded, push_str, split_words, str_eq,
    string_from, string_of_range, string_views, to_chars, to_lower, to_upper, uppercase, words,
};

verus! {

broadcast use vstd::std_specs::hash::group_hash_axioms;

/// One captured request and (once it arrives) its response.
pub struct TrafficEntry {
    pub id: usize,
    pub timestamp: String,
    pub method: String,
    pub url: String,
    pub host: String,
    pub path: String,
    pub status: Option<u16>,
    pub request_headers: HashMap<String, String>,
    pub request_body: Vec<u8>,
    pub response_headers: HashMap<String, String>,
    pub response_body: Vec<u8>,
}

pub struct TrafficEntryView {
    pub id: usize,
    pub timestamp: Seq<char>,
    pub method: Seq<char>,
    pub url: Seq<char>,
    pub host: Seq<char>,
    pub path: Seq<char>,
    pub status: Option<u16>,
    pub request_headers: Map<String, String>,
    pub request_body: Seq<u8>,
    pub response_headers: Map<String, String>,
    pub response_body: Seq<u8>,
}

impl View for TrafficEntry {
    type V = TrafficEntryView;

    open spec fn view(&self) -> TrafficEntryView {
        TrafficEntryView {
            id: self.id,
            timestamp: self.timestamp@,
            method: self.method@,
            url: self.url@,
            host: self.host@,
            path: self.path@,
            status: self.status,
            request_headers: self.request_headers@,
            request_body: self.request_body@,
            response_headers: self.response_headers@,
            response_body: self.response_body@,
        }
    }
}

/// Conditions shown requests must meet (empty: any).
pub struct TrafficFilter {
    pub host: String,
    pub path: String,
    pub method: String,
    pub status: Option<u16>,
    pub body_search: String,
}

pub struct TrafficFilterView {
    pub host: Seq<char>,
    pub path: Seq<char>,
    pub method: Seq<char>,
    pub status: Option<u16>,
    pub body_search: Seq<char>,
}

impl View for TrafficFilter {
    type V = TrafficFilterView;

    open spec fn view(&self) -> TrafficFilterView {
        TrafficFilterView {
            host: self.host@,
            path: self.path@,
            method: self.method@,
            status: self.status,
            body_search: self.body_search@,
        }
    }
}

pub open spec fn no_traffic_filter() -> TrafficFilterView {
    TrafficFilterView {
        host: Seq::empty(),
        path: Seq::empty(),
        method: Seq::empty(),
        status: None,
        body_search: Seq::empty(),
    }
}

/// Text decoded from bytes as `String::from_utf8_lossy` decodes it
/// (invalid sequences become U+FFFD); a function of the bytes alone.
pub uninterp spec fn utf8_lossy(bytes: Seq<u8>) -> Seq<char>;

/// Calls `String::from_utf8_lossy`; its result is named `utf8_lossy`.
#[verifier::external_body]
fn lossy_text(bytes: &Vec<u8>) -> (s: String)
    ensures
        s@ == utf8_lossy(bytes@),
{
    String::from_utf8_lossy(bytes).into_owned()
}

/// Whether a captured request passes the filter: host and path contain the
/// filter's (ignoring case), the method is equal ignoring case, the status
/// is the one asked for, and the search text occurs in the request or the
/// response body (ignoring case).
pub open spec fn traffic_passes(f: TrafficFilterView, e: TrafficEntryView) -> bool {
    &&& (f.host.len() == 0 || contains(lowercase(e.host), lowercase(f.host)))
    &&& (f.path.len() == 0 || contains(lowercase(e.path), lowercase(f.path)))
    &&& (f.method.len() == 0 || uppercase(e.method) == uppercase(f.method))
    &&& (f.status is None || e.status == f.status)
    &&& (f.body_search.len() == 0 || contains(
        lowercase(utf8_lossy(e.request_body)),
        lowercase(f.body_search),
    ) || contains(lowercase(utf8_lossy(e.response_body)), lowercase(f.body_search)))
}

fn contains_ignoring_case(hay: &str, needle_lower: &Vec<char>) -> (b: bool)
    ensures
        b == contains(lowercase(hay@), needle_lower@),
{
    let h = to_lower(hay);
    let hv = to_chars(h.as_str());
    crate::text::contains_chars(&hv, needle_lower)
}

impl TrafficFilter {
    pub fn new() -> (f: TrafficFilter)
        ensures
            f@ == no_traffic_filter(),
    {
        TrafficFilter {
            host: String::new(),
            path: String::new(),
            method: String::new(),
            status: None,
            body_search: String::new(),
        }
    }

    /// Whether `entry` passes the filter.
    pub fn matches(&self, entry: &TrafficEntry) -> (b: bool)
        ensures
            b == traffic_passes(self@, entry@),
    {
        if !self.host.as_str().is_empty() {
            let n = to_lower(self.host.as_str());
            if !contains_ignoring_case(entry.host.as_str(), &to_chars(n.as_str())) {
                return false;
            }
        }
        if !self.path.as_str().is_empty() {
            let n = to_lower(self.path.as_str());
            if !contains_ignoring_case(entry.path.as_str(), &to_chars(n.as_str())) {
                return false;
            }
        }
        if !self.method.as_str().is_empty() {
            let a = to_upper(entry.method.as_str());
            let b = to_upper(self.method.as_str());
            if !str_eq(a.as_str(), b.as_str()) {
                return false;
            }
        }
        match self.status {
            Some(s) => {
                match entry.status {
                    Some(t) => {
                        if t != s {
                            return false;
                        }
                    },
                    None => {
                        return false;
                    },
                }
            },
            None => {},
        }
        if !self.body_search.as_str().is_empty() {
            let n = to_lower(self.body_search.as_str());
            let needle = to_chars(n.as_str());
            let req = lossy_text(&entry.request_body);
            let resp = lossy_text(&entry.response_body);
            if !contains_ignoring_case(req.as_str(), &needle) && !contains_ignoring_case(
                resp.as_str(),
                &needle,
            ) {
                return false;
            }
        }
        true
    }

    /// Clears every condition.
    pub fn reset(&mut self)
        ensures
            final(self)@ == no_traffic_filter(),
    {
        *self = TrafficFilter::new();
    }
}

impl Default for TrafficFilter {
    fn default() -> (f: TrafficFilter)
        ensures
            f@ == no_traffic_filter(),
    {
        TrafficFilter::new()
    }
}

/// Captured traffic, shared between the proxy and the shell.
pub struct TrafficState {
    pub entries: Vec<TrafficEntry>,
    pub filter: TrafficFilter,
    counter: usize,
}

pub struct TrafficStateView {
    pub entries: Seq<TrafficEntryView>,
    pub filter: TrafficFilterView,
    /// The id given to the last request (0: none since the last clear).
    pub counter: usize,
}

pub open spec fn entry_views(v: Seq<TrafficEntry>) -> Seq<TrafficEntryView> {
    v.map_values(|e: TrafficEntry| e@)
}

pub open spec fn ref_views(v: Seq<&TrafficEntry>) -> Seq<TrafficEntryView> {
    v.map_values(|e: &TrafficEntry| e@)
}

impl View for TrafficState {
    type V = TrafficStateView;

    closed spec fn view(&self) -> TrafficStateView {
        TrafficStateView {
            entries: entry_views(self.entries@),
            filter: self.filter@,
            counter: self.counter,
        }
    }
}

/// The entries that pass filter `f`, in capture order.
pub open spec fn passing(f: TrafficFilterView, es: Seq<TrafficEntryView>) -> Seq<TrafficEntryView> {
    es.filter(|e: TrafficEntryView| traffic_passes(f, e))
}

/// The last `limit` elements of `s`.
pub open spec fn last_n<T>(s: Seq<T>, limit: nat) -> Seq<T> {
    if s.len() <= limit {
        s
    } else {
        s.subrange(s.len() - limit, s.len() as int)
    }
}

/// Index of the first entry with id `id`.
pub open spec fn first_with_id(es: Seq<TrafficEntryView>, id: usize, i: int) -> bool {
    0 <= i < es.len() && es[i].id == id && forall|j: int| 0 <= j < i ==> (#[trigger] es[j]).id != id
}

pub open spec fn has_id(es: Seq<TrafficEntryView>, id: usize) -> bool {
    exists|i: int| 0 <= i < es.len() && (#[trigger] es[i]).id == id
}

/// The number written by the two digits at `s[i]`, `s[i + 1]`.
pub open spec fn two_digits(s: Seq<char>, i: int) -> nat {
    crate::text::digit_value(s[i]) * 10 + crate::text::digit_value(s[i + 1])
}

/// A time of day written `HH:MM:SS.mmm`: hours 00 to 23, minutes 00 to 59,
/// seconds 00 to 60 (60 for a leap second), milliseconds 000 to 999.
pub open spec fn clock_text(s: Seq<char>) -> bool {
    &&& s.len() == 12
    &&& s[2] == ':'
    &&& s[5] == ':'
    &&& s[8] == '.'
    &&& forall|i: int|
        0 <= i < 12 && i != 2 && i != 5 && i != 8 ==> crate::text::is_digit(#[trigger] s[i])
    &&& two_digits(s, 0) <= 23
    &&& two_digits(s, 3) <= 59
    &&& two_digits(s, 6) <= 60
}

/// Current local time, `chrono::Local::now()` formatted with
/// `%H:%M:%S%.3f`. Which time it is depends on the clock and the time zone
/// and is not stated; the form every outcome has is (chrono writes the
/// hour, minute and second as two digits each, the second 60 only within a
/// leap second, and exactly three digits of milliseconds after a `.`).
#[verifier::external_body]
fn local_clock() -> (t: String)
    ensures
        clock_text(t@),
{
    chrono::Local::now().format("%H:%M:%S%.3f").to_string()
}

impl TrafficState {
    pub fn new() -> (s: TrafficState)
        ensures
            s@.entries.len() == 0,
            s@.filter == no_traffic_filter(),
            s@.counter == 0,
    {
        let s = TrafficState { entries: Vec::new(), filter: TrafficFilter::new(), counter: 0 };
        assert(entry_views(s.entries@) =~= Seq::<TrafficEntryView>::empty());
        s
    }

    /// Records a request seen at `timestamp`; gives it the next id, which
    /// is returned. The response is still pending.
    pub fn add_request_at(
        &mut self,
        timestamp: String,
        method: &str,
        url: &str,
        host: &str,
        path: &str,
        headers: HashMap<String, String>,
        body: Vec<u8>,
    ) -> (id: usize)
        requires
            old(self)@.counter < usize::MAX,
        ensures
            id == old(self)@.counter + 1,
            final(self)@ == (TrafficStateView {
                entries: old(self)@.entries.push(
                    TrafficEntryView {
                        id,
                        timestamp: timestamp@,
                        method: method@,
                        url: url@,
                        host: host@,
                        path: path@,
                        status: None,
                        request_headers: headers@,
                        request_body: body@,
                        response_headers: Map::empty(),
                        response_body: Seq::empty(),
                    },
                ),
                counter: id,
                ..old(self)@
            }),
    {
        self.counter = self.counter + 1;
        let id = self.counter;
        let e = TrafficEntry {
            id,
            timestamp,
            method: crate::text::string_from(method),
            url: crate::text::string_from(url),
            host: crate::text::string_from(host),
            path: crate::text::string_from(path),
            status: None,
            request_headers: headers,
            request_body: body,
            response_headers: HashMap::new(),
            response_body: Vec::new(),
        };
        let ghost before = entry_views(self.entries@);
        self.entries.push(e);
        assert(entry_views(self.entries@) =~= before.push(e@));
        id
    }

    /// Records a request seen now, stamped with the local time of day
    /// (`HH:MM:SS.mmm`); see [`Self::add_request_at`].
    pub fn add_request(
        &mut self,
        method: &str,
        url: &str,
        host: &str,
        path: &str,
        headers: HashMap<String, String>,
        body: Vec<u8>,
    ) -> (id: usize)
        requires
            old(self)@.counter < usize::MAX,
        ensures
            id == old(self)@.counter + 1,
            final(self)@.counter == id,
            final(self)@.filter == old(self)@.filter,
            final(self)@.entries.len() == old(self)@.entries.len() + 1,
            final(self)@.entries.drop_last() == old(self)@.entries,
            ({
                let e = final(self)@.entries.last();
                &&& e.id == id
                &&& clock_text(e.timestamp)
                &&& e.method == method@
                &&& e.url == url@
                &&& e.host == host@
                &&& e.path == path@
                &&& e.status is None
                &&& e.request_headers == headers@
                &&& e.request_body == body@
                &&& e.response_headers == Map::<String, String>::empty()
                &&& e.response_body == Seq::<u8>::empty()
            }),
    {
        let now = local_clock();
        let id = self.add_request_at(now, method, url, host, path, headers, body);
        id
    }

    fn find(&self, id: usize) -> (r: Option<usize>)
        ensures
            match r {
                Some(i) => first_with_id(self@.entries, id, i as int),
                None => !has_id(self@.entries, id),
            },
    {
        let mut i: usize = 0;
        while i < self.entries.len()
            invariant
                i <= self.entries@.len(),
                forall|j: int| 0 <= j < i ==> (#[trigger] self@.entries[j]).id != id,
            decreases self.entries@.len() - i,
        {
            if self.entries[i].id == id {
                return Some(i);
            }
            i = i + 1;
        }
        None
    }

    /// Stores the response to request `id` (nothing happens for an unknown
    /// id).
    pub fn set_response(
        &mut self,
        id: usize,
        status: u16,
        headers: HashMap<String, String>,
        body: Vec<u8>,
    )
        ensures
            !has_id(old(self)@.entries, id) ==> final(self)@ == old(self)@,
            has_id(old(self)@.entries, id) ==> exists|i: int|
                first_with_id(old(self)@.entries, id, i) && final(self)@ == (TrafficStateView {
                    entries: old(self)@.entries.update(
                        i,
                        TrafficEntryView {
                            status: Some(status),
                            response_headers: headers@,
                            response_body: body@,
                            ..old(self)@.entries[i]
                        },
                    ),
                    ..old(self)@
                }),
    {
        match self.find(id) {
            Some(i) => {
                let ghost before = entry_views(self.entries@);
                let mut e = self.entries.remove(i);
                e.status = Some(status);
                e.response_headers = headers;
                e.response_body = body;
                self.entries.insert(i, e);
                assert(entry_views(self.entries@) =~= before.update(
                    i as int,
                    TrafficEntryView {
                        status: Some(status),
                        response_headers: headers@,
                        response_body: body@,
                        ..before[i as int]
                    },
                ));
                assert(first_with_id(before, id, i as int));
            },
            None => {},
        }
    }

    /// The last `limit` requests that pass the filter, oldest first.
    pub fn get_filtered(&self, limit: usize) -> (r: Vec<&TrafficEntry>)
        ensures
            ref_views(r@) == last_n(passing(self@.filter, self@.entries), limit as nat),
    {
        let ghost es = self@.entries;
        let ghost f = self@.filter;
        let mut hits: Vec<&TrafficEntry> = Vec::new();
        let mut i: usize = 0;
        while i < self.entries.len()
            invariant
                i <= self.entries@.len(),
                es == self@.entries,
                f == self@.filter,
                ref_views(hits@) == passing(f, es.take(i as int)),
            decreases self.entries@.len() - i,
        {
            proof {
                reveal_with_fuel(Seq::filter, 1);
                assert(es.take(i + 1).drop_last() =~= es.take(i as int));
            }
            if self.filter.matches(&self.entries[i]) {
                hits.push(&self.entries[i]);
                assert(ref_views(hits@) =~= ref_views(hits@.drop_last()).push(
                    self.entries@[i as int]@,
                ));
            }
            i = i + 1;
        }
        assert(es.take(es.len() as int) =~= es);
        let start: usize = if hits.len() > limit {
            hits.len() - limit
        } else {
            0
        };
        let mut r: Vec<&TrafficEntry> = Vec::new();
        let mut k: usize = start;
        while k < hits.len()
            invariant
                start <= k <= hits@.len(),
                ref_views(r@) == ref_views(hits@).subrange(start as int, k as int),
            decreases hits@.len() - k,
        {
            let ghost before = ref_views(r@);
            r.push(hits[k]);
            assert(ref_views(r@) =~= before.push(ref_views(hits@)[k as int]));
            assert(ref_views(hits@).subrange(start as int, k + 1) =~= ref_views(hits@).subrange(
                start as int,
                k as int,
            ).push(ref_views(hits@)[k as int]));
            k = k + 1;
        }
        assert(ref_views(hits@).subrange(0, hits@.len() as int) =~= ref_views(hits@));
        r
    }

    /// The first request with id `id`.
    pub fn get_entry(&self, id: usize) -> (r: Option<&TrafficEntry>)
        ensures
            match r {
                Some(e) => exists|i: int|
                    first_with_id(self@.entries, id, i) && e@ == self@.entries[i],
                None => !has_id(self@.entries, id),
            },
    {
        match self.find(id) {
            Some(i) => Some(&self.entries[i]),
            None => None,
        }
    }

    /// Drops every captured request and restarts ids from 1.
    pub fn clear(&mut self)
        ensures
            final(self)@ == (TrafficStateView {
                entries: Seq::empty(),
                counter: 0,
                ..old(self)@
            }),
    {
        self.entries.clear();
        self.counter = 0;
        assert(entry_views(self.entries@) =~= Seq::<TrafficEntryView>::empty());
    }
}

impl Default for TrafficState {
    fn default() -> (s: TrafficState)
        ensures
            s@.entries.len() == 0,
            s@.filter == no_traffic_filter(),
            s@.counter == 0,
    {
        TrafficState::new()
    }
}

// ---------------------------------------------------------------------------
// Listing, inspecting and filtering from the command line
// ---------------------------------------------------------------------------

/// Colour of a status: green below 400, red from 400, dim while pending.
pub open spec fn status_color(s: Option<u16>) -> Seq<char> {
    match s {
        Some(x) => if x < 400 {
            "32"@
        } else {
            "31"@
        },
        None => "2"@,
    }
}

/// A status as shown: its number, or `...` while pending.
pub open spec fn status_text(s: Option<u16>) -> Seq<char> {
    match s {
        Some(x) => decimal(x as nat),
        None => "..."@,
    }
}

/// One row of `/traffic list`.
pub open spec fn traffic_row(e: TrafficEntryView) -> Seq<char> {
    "  "@ + pad_right(decimal(e.id as nat), 5) + " "@ + pad_right(e.timestamp, 12) + " "@
        + pad_right(e.method, 7) + " \x1b["@ + status_color(e.status) + "m"@ + pad_right(
        status_text(e.status),
        6,
    ) + "\x1b[0m "@ + pad_right(e.host, 24) + " "@ + e.path
}

pub open spec fn traffic_header() -> Seq<char> {
    "\x1b[1m"@ + pad_right("#"@, 5) + " "@ + pad_right("Time"@, 12) + " "@ + pad_right(
        "Method"@,
        7,
    ) + " "@ + pad_right("Status"@, 6) + " "@ + pad_right("Host"@, 24) + " Path\x1b[0m"@
}

/// The lines of `/traffic list`: the last 50 requests that pass the filter.
pub open spec fn traffic_list_lines(s: TrafficStateView) -> Seq<Seq<char>> {
    let es = last_n(passing(s.filter, s.entries), 50);
    if es.len() == 0 {
        seq!["\x1b[2mNo traffic captured\x1b[0m"@]
    } else {
        seq![traffic_header()] + es.map_values(|e: TrafficEntryView| traffic_row(e))
    }
}

/// `pairs` lists the entries of `m`, each once.
pub open spec fn lists_entries(pairs: Seq<(String, String)>, m: Map<String, String>) -> bool {
    &&& pairs.len() == m.dom().len()
    &&& forall|i: int| 0 <= i < pairs.len() ==> #[trigger] m.contains_key(pairs[i].0) && m[pairs[i].0] == pairs[i].1
    &&& forall|i: int, j: int| 0 <= i < j < pairs.len() ==> pairs[i].0 != pairs[j].0
}

/// `  key: value` lines for the listed header entries.
pub open spec fn header_lines(pairs: Seq<(String, String)>) -> Seq<Seq<char>> {
    pairs.map_values(|p: (String, String)| "  "@ + p.0@ + ": "@ + p.1@)
}

/// The first `n` bytes of `b` (all of them if there are fewer).
pub open spec fn prefix_bytes(b: Seq<u8>, n: int) -> Seq<u8> {
    if b.len() <= n {
        b
    } else {
        b.subrange(0, n)
    }
}

/// A body section: nothing for an empty body, else a title and the first
/// 2000 bytes as text.
pub open spec fn body_lines(title: Seq<char>, b: Seq<u8>) -> Seq<Seq<char>> {
    if b.len() == 0 {
        Seq::empty()
    } else {
        seq![Seq::empty(), title, utf8_lossy(prefix_bytes(b, 2000))]
    }
}

/// The lines of `/traffic inspect` for a request, its headers listed as
/// `req` and `resp`.
pub open spec fn inspect_lines(
    e: TrafficEntryView,
    req: Seq<(String, String)>,
    resp: Seq<(String, String)>,
) -> Seq<Seq<char>> {
    seq![
        "\x1b[1m--- Traffic #"@ + decimal(e.id as nat) + " ---\x1b[0m"@,
        "\x1b[1m"@ + e.method + "\x1b[0m "@ + e.url,
        "Status: "@ + match e.status {
            Some(x) => decimal(x as nat),
            None => "pending"@,
        },
        Seq::empty(),
        "\x1b[1mRequest Headers:\x1b[0m"@,
    ] + header_lines(req) + body_lines("\x1b[1mRequest Body:\x1b[0m"@, e.request_body) + seq![
        Seq::empty(),
        "\x1b[1mResponse Headers:\x1b[0m"@,
    ] + header_lines(resp) + body_lines("\x1b[1mResponse Body:\x1b[0m"@, e.response_body)
}

/// Calls `HashMap::iter`, copying each key and value: every entry of the
/// map comes once, in an order the map chooses (std documents the order as
/// arbitrary, so none is claimed).
#[verifier::external_body]
fn entry_pairs(m: &HashMap<String, String>) -> (r: Vec<(String, String)>)
    ensures
        lists_entries(r@, m@),
{
    m.iter().map(|(k, v)| (k.clone(), v.clone())).collect()
}

/// One word `key=value` of `/traffic filter` applied to the filter.
pub open spec fn filter_word(f: TrafficFilterView, t: Seq<char>) -> TrafficFilterView {
    if index_of(t, '=') < t.len() {
        let k = lowercase(t.subrange(0, index_of(t, '=')));
        let v = t.subrange(index_of(t, '=') + 1, t.len() as int);
        if k == "host"@ {
            TrafficFilterView { host: v, ..f }
        } else if k == "path"@ {
            TrafficFilterView { path: v, ..f }
        } else if k == "method"@ {
            TrafficFilterView { method: v, ..f }
        } else if k == "status"@ {
            TrafficFilterView { status: parse_u16_spec(v), ..f }
        } else if k == "body"@ {
            TrafficFilterView { body_search: v, ..f }
        } else {
            f
        }
    } else {
        f
    }
}

/// The words of `/traffic filter` applied in order.
pub open spec fn filter_words(f: TrafficFilterView, toks: Seq<Seq<char>>, n: int) -> TrafficFilterView
    decreases n,
{
    if n <= 0 {
        f
    } else {
        filter_word(filter_words(f, toks, n - 1), toks[n - 1])
    }
}

fn concat_three(a: &str, b: &str, c: &str) -> (s: String)
    ensures
        s@ == a@ + b@ + c@,
{
    let mut s = string_from(a);
    push_str(&mut s, b);
    push_str(&mut s, c);
    s
}

fn push_line(out: &mut Vec<String>, line: String)
    ensures
        string_views(final(out)@) == string_views(old(out)@).push(line@),
{
    let ghost before = string_views(out@);
    out.push(line);
    assert(string_views(out@) =~= before.push(line@));
}

fn traffic_row_exec(e: &TrafficEntry) -> (s: String)
    ensures
        s@ == traffic_row(e@),
{
    let mut s = string_from("  ");
    let mut id = String::new();
    push_decimal(&mut id, e.id as u64);
    push_padded(&mut s, id.as_str(), 5);
    push_str(&mut s, " ");
    push_padded(&mut s, e.timestamp.as_str(), 12);
    push_str(&mut s, " ");
    push_padded(&mut s, e.method.as_str(), 7);
    push_str(&mut s, " \x1b[");
    push_str(
        &mut s,
        match e.status {
            Some(x) => if x < 400 {
                "32"
            } else {
                "31"
            },
            None => "2",
        },
    );
    push_str(&mut s, "m");
    let st = match e.status {
        Some(x) => {
            let mut t = String::new();
            push_decimal(&mut t, x as u64);
            t
        },
        None => string_from("..."),
    };
    push_padded(&mut s, st.as_str(), 6);
    push_str(&mut s, "\x1b[0m ");
    push_padded(&mut s, e.host.as_str(), 24);
    push_str(&mut s, " ");
    push_str(&mut s, e.path.as_str());
    assert(s@ =~= traffic_row(e@));
    s
}

fn header_lines_exec(pairs: &Vec<(String, String)>, out: &mut Vec<String>)
    ensures
        string_views(final(out)@) == string_views(old(out)@) + header_lines(pairs@),
{
    let ghost o = string_views(out@);
    let mut i: usize = 0;
    while i < pairs.len()
        invariant
            i <= pairs@.len(),
            string_views(out@) == o + header_lines(pairs@.take(i as int)),
        decreases pairs@.len() - i,
    {
        let mut l = string_from("  ");
        push_str(&mut l, pairs[i].0.as_str());
        push_str(&mut l, ": ");
        push_str(&mut l, pairs[i].1.as_str());
        push_line(out, l);
        assert(header_lines(pairs@.take(i + 1)) =~= header_lines(pairs@.take(i as int)).push(
            "  "@ + pairs@[i as int].0@ + ": "@ + pairs@[i as int].1@,
        ));
        i = i + 1;
    }
    assert(pairs@.take(pairs@.len() as int) =~= pairs@);
}

fn body_lines_exec(title: &str, b: &Vec<u8>, out: &mut Vec<String>)
    ensures
        string_views(final(out)@) == string_views(old(out)@) + body_lines(title@, b@),
{
    let ghost o = string_views(out@);
    if b.len() == 0 {
        assert(string_views(out@) =~= o + body_lines(title@, b@));
        return;
    }
    push_line(out, String::new());
    push_line(out, string_from(title));
    let n = if b.len() <= 2000 {
        b.len()
    } else {
        2000
    };
    let mut part: Vec<u8> = Vec::new();
    let mut i: usize = 0;
    while i < n
        invariant
            i <= n <= b@.len(),
            part@ == b@.subrange(0, i as int),
        decreases n - i,
    {
        part.push(b[i]);
        assert(b@.subrange(0, i + 1) =~= b@.subrange(0, i as int).push(b@[i as int]));
        i = i + 1;
    }
    assert(part@ =~= prefix_bytes(b@, 2000));
    push_line(out, lossy_text(&part));
    assert(string_views(out@) =~= o + body_lines(title@, b@));
}

impl TrafficState {
    /// The lines of `/traffic list`.
    pub fn list_lines(&self, out: &mut Vec<String>)
        ensures
            string_views(final(out)@) == string_views(old(out)@) + traffic_list_lines(self@),
    {
        let ghost o = string_views(out@);
        let es = self.get_filtered(50);
        if es.len() == 0 {
            push_line(out, string_from("\x1b[2mNo traffic captured\x1b[0m"));
            assert(string_views(out@) =~= o + traffic_list_lines(self@));
            return;
        }
        let mut h = string_from("\x1b[1m");
        push_padded(&mut h, "#", 5);
        push_str(&mut h, " ");
        push_padded(&mut h, "Time", 12);
        push_str(&mut h, " ");
        push_padded(&mut h, "Method", 7);
        push_str(&mut h, " ");
        push_padded(&mut h, "Status", 6);
        push_str(&mut h, " ");
        push_padded(&mut h, "Host", 24);
        push_str(&mut h, " Path\x1b[0m");
        assert(h@ =~= traffic_header());
        push_line(out, h);
        let ghost ev = ref_views(es@);
        let mut i: usize = 0;
        while i < es.len()
            invariant
                i <= es@.len(),
                ev == ref_views(es@),
                string_views(out@) == o + seq![traffic_header()] + ev.take(i as int).map_values(
                    |e: TrafficEntryView| traffic_row(e),
                ),
            decreases es@.len() - i,
        {
            push_line(out, traffic_row_exec(es[i]));
            assert(ev.take(i + 1) =~= ev.take(i as int).push(ev[i as int]));
            assert(ev.take(i + 1).map_values(|e: TrafficEntryView| traffic_row(e)) =~= ev.take(
                i as int,
            ).map_values(|e: TrafficEntryView| traffic_row(e)).push(traffic_row(ev[i as int])));
            i = i + 1;
        }
        assert(ev.take(ev.len() as int) =~= ev);
    }

    /// The lines of `/traffic inspect ID`: the request with that id, a
    /// usage line when `id_text` is not a number, or a not-found line.
    pub fn inspect(&self, id_text: &str, out: &mut Vec<String>)
        ensures
            match parse_usize_spec(id_text@) {
                None => string_views(final(out)@) == string_views(old(out)@).push(
                    "\x1b[31mUsage: /traffic inspect <id>\x1b[0m"@,
                ),
                Some(id) => if has_id(self@.entries, id) {
                    exists|i: int, req: Seq<(String, String)>, resp: Seq<(String, String)>|
                        first_with_id(self@.entries, id, i) && lists_entries(
                            req,
                            self@.entries[i].request_headers,
                        ) && lists_entries(resp, self@.entries[i].response_headers)
                            && string_views(final(out)@) == string_views(old(out)@)
                            + inspect_lines(self@.entries[i], req, resp)
                } else {
                    string_views(final(out)@) == string_views(old(out)@).push(
                        "\x1b[31mEntry #"@ + id_text@ + " not found\x1b[0m"@,
                    )
                },
            },
    {
        let ghost o = string_views(out@);
        let id = match crate::text::parse_usize_str(id_text) {
            Some(n) => n,
            None => {
                push_line(out, string_from("\x1b[31mUsage: /traffic inspect <id>\x1b[0m"));
                return;
            },
        };
        match self.get_entry(id) {
            Some(e) => {
                let mut t = string_from("\x1b[1m--- Traffic #");
                push_decimal(&mut t, e.id as u64);
                push_str(&mut t, " ---\x1b[0m");
                push_line(out, t);
                let mut m = string_from("\x1b[1m");
                push_str(&mut m, e.method.as_str());
                push_str(&mut m, "\x1b[0m ");
                push_str(&mut m, e.url.as_str());
                push_line(out, m);
                let st = match e.status {
                    Some(x) => {
                        let mut t2 = string_from("Status: ");
                        push_decimal(&mut t2, x as u64);
                        t2
                    },
                    None => concat_three("Status: ", "pending", ""),
                };
                proof {
                    reveal_strlit("");
                }
                push_line(out, st);
                let blank = String::new();
                assert(blank@ == Seq::<char>::empty());
                push_line(out, blank);
                push_line(out, string_from("\x1b[1mRequest Headers:\x1b[0m"));
                let ghost head = seq![
                    "\x1b[1m--- Traffic #"@ + decimal(e@.id as nat) + " ---\x1b[0m"@,
                    "\x1b[1m"@ + e@.method + "\x1b[0m "@ + e@.url,
                    "Status: "@ + match e@.status {
                        Some(x) => decimal(x as nat),
                        None => "pending"@,
                    },
                    Seq::<char>::empty(),
                    "\x1b[1mRequest Headers:\x1b[0m"@,
                ];
                assert(string_views(out@) =~= o + head);
                let req = entry_pairs(&e.request_headers);
                header_lines_exec(&req, out);
                body_lines_exec("\x1b[1mRequest Body:\x1b[0m", &e.request_body, out);
                let ghost mid = string_views(out@);
                assert(mid =~= o + head + header_lines(req@) + body_lines("\x1b[1mRequest Body:\x1b[0m"@, e@.request_body));
                let blank2 = String::new();
                assert(blank2@ == Seq::<char>::empty());
                push_line(out, blank2);
                push_line(out, string_from("\x1b[1mResponse Headers:\x1b[0m"));
                let resp = entry_pairs(&e.response_headers);
                header_lines_exec(&resp, out);
                body_lines_exec("\x1b[1mResponse Body:\x1b[0m", &e.response_body, out);
                proof {
                    let i = choose|i: int| first_with_id(self@.entries, id, i) && e@ == self@.entries[i];
                    assert(has_id(self@.entries, id));
                    assert(string_views(out@) =~= o + inspect_lines(e@, req@, resp@));
                }
            },
            None => {
                push_line(out, concat_three("\x1b[31mEntry #", id_text, " not found\x1b[0m"));
            },
        }
    }

    /// `/traffic filter WORDS`: no words clear the filter; `host=`,
    /// `path=`, `method=`, `status=` and `body=` set its conditions.
    pub fn apply_filter_words(&mut self, rest: &str, out: &mut Vec<String>)
        ensures
            final(self)@ == (TrafficStateView {
                filter: if rest@.len() == 0 {
                    no_traffic_filter()
                } else {
                    filter_words(old(self)@.filter, words(rest@), words(rest@).len() as int)
                },
                ..old(self)@
            }),
            string_views(final(out)@) == string_views(old(out)@).push(
                if rest@.len() == 0 {
                    "\x1b[32mTraffic filter cleared\x1b[0m"@
                } else {
                    "\x1b[32mTraffic filter updated\x1b[0m"@
                },
            ),
    {
        if rest.unicode_len() == 0 {
            self.filter.reset();
            push_line(out, string_from("\x1b[32mTraffic filter cleared\x1b[0m"));
            return;
        }
        let cs = to_chars(rest);
        let toks = split_words(&cs);
        let ghost tv = char_views(toks@);
        let mut i: usize = 0;
        while i < toks.len()
            invariant
                i <= toks@.len(),
                tv == char_views(toks@),
                tv == words(rest@),
                self@ == (TrafficStateView {
                    filter: filter_words(old(self)@.filter, tv, i as int),
                    ..old(self)@
                }),
            decreases toks@.len() - i,
        {
            let t = &toks[i];
            assert(tv[i as int] == t@);
            let e = index_of_char(t, '=');
            if e < t.len() {
                let ks = string_of_range(t, 0, e);
                let kl = to_lower(ks.as_str());
                let k = kl.as_str();
                let v = string_of_range(t, e + 1, t.len());
                if str_eq(k, "host") {
                    self.filter.host = v;
                } else if str_eq(k, "path") {
                    self.filter.path = v;
                } else if str_eq(k, "method") {
                    self.filter.method = v;
                } else if str_eq(k, "status") {
                    self.filter.status = match parse_u32_str(v.as_str()) {
                        Some(n) => if n <= 65535 {
                            Some(n as u16)
                        } else {
                            None
                        },
                        None => None,
                    };
                } else if str_eq(k, "body") {
                    self.filter.body_search = v;
                }
            }
            i = i + 1;
        }
        push_line(out, string_from("\x1b[32mTraffic filter updated\x1b[0m"));
    }
}

} // verus!
