//! Mock/rewrite rules engine: request matching and response override.
//!
//! Rules come from a YAML file (read and decoded by the caller), are kept
//! sorted by descending priority (ties keep file order), and the first
//! enabled rule that matches a request decides the response.
use vstd::prelude::*;
use std::collections::HashMap;
use crate::text::{
    contains, decimal, lowercase, push_decimal, push_str, str_contains, str_eq, string_from,
    to_lower, to_upper, uppercase,
};

verus! {

broadcast use vstd::std_specs::hash::group_hash_axioms;

/// Conditions a request must meet (empty: any).
pub struct MatchRule {
    pub method: String,
    pub path: String,
    pub host: String,
    pub query: HashMap<String, String>,
    pub headers: HashMap<String, String>,
    pub body_contains: String,
}

/// The response a rule answers with.
pub struct MockResponse {
    pub resp_type: String,
    pub status: u16,
    pub body: String,
    pub file: String,
    pub headers: HashMap<String, String>,
    pub delay_ms: u64,
}

/// One rule as written in the rules file.
pub struct MockRuleData {
    pub id: String,
    pub enabled: bool,
    pub priority: i32,
    pub match_: Option<MatchRule>,
    pub match_field: Option<MatchRule>,
    pub response: MockResponse,
}

/// A loaded rule.
pub struct MockRule {
    pub id: String,
    pub enabled: bool,
    pub priority: i32,
    pub match_rule: MatchRule,
    pub response: MockResponse,
    pub hit_count: u32,
}

/// What a matched rule answers with: a literal body, or the contents of a
/// file named by the rule.
#[derive(Debug, Clone, PartialEq, Eq)]
pub enum MockBody {
    Text(String),
    /// The file at `path`, which the rule named `name`.
    File { path: String, name: String },
}

/// A [`MockBody`] as text.
pub enum BodyView {
    Text(Seq<char>),
    File { path: Seq<char>, name: Seq<char> },
}

pub struct MatchView {
    pub method: Seq<char>,
    pub path: Seq<char>,
    pub host: Seq<char>,
    pub query: Map<String, String>,
    pub headers: Map<String, String>,
    pub body_contains: Seq<char>,
}

pub struct ResponseView {
    pub resp_type: Seq<char>,
    pub status: u16,
    pub body: Seq<char>,
    pub file: Seq<char>,
    pub headers: Map<String, String>,
    pub delay_ms: u64,
}

pub struct RuleView {
    pub id: Seq<char>,
    pub enabled: bool,
    pub priority: i32,
    pub match_rule: MatchView,
    pub response: ResponseView,
    pub hit_count: u32,
}

impl View for MatchRule {
    type V = MatchView;

    open spec fn view(&self) -> MatchView {
        MatchView {
            method: self.method@,
            path: self.path@,
            host: self.host@,
            query: self.query@,
            headers: self.headers@,
            body_contains: self.body_contains@,
        }
    }
}

impl View for MockResponse {
    type V = ResponseView;

    open spec fn view(&self) -> ResponseView {
        ResponseView {
            resp_type: self.resp_type@,
            status: self.status,
            body: self.body@,
            file: self.file@,
            headers: self.headers@,
            delay_ms: self.delay_ms,
        }
    }
}

impl View for MockRule {
    type V = RuleView;

    open spec fn view(&self) -> RuleView {
        RuleView {
            id: self.id@,
            enabled: self.enabled,
            priority: self.priority,
            match_rule: self.match_rule@,
            response: self.response@,
            hit_count: self.hit_count,
        }
    }
}

impl View for MockBody {
    type V = BodyView;

    open spec fn view(&self) -> BodyView {
        match self {
            MockBody::Text(s) => BodyView::Text(s@),
            MockBody::File { path, name } => BodyView::File { path: path@, name: name@ },
        }
    }
}

/// A match rule with no condition.
pub open spec fn any_request() -> MatchView {
    MatchView {
        method: Seq::empty(),
        path: Seq::empty(),
        host: Seq::empty(),
        query: Map::empty(),
        headers: Map::empty(),
        body_contains: Seq::empty(),
    }
}

impl Default for MatchRule {
    fn default() -> (m: MatchRule)
        ensures
            m@ == any_request(),
    {
        MatchRule {
            method: String::new(),
            path: String::new(),
            host: String::new(),
            query: HashMap::new(),
            headers: HashMap::new(),
            body_contains: String::new(),
        }
    }
}

impl Default for MockResponse {
    fn default() -> (r: MockResponse)
        ensures
            r@ == (ResponseView {
                resp_type: Seq::empty(),
                status: 0,
                body: Seq::empty(),
                file: Seq::empty(),
                headers: Map::empty(),
                delay_ms: 0,
            }),
    {
        MockResponse {
            resp_type: String::new(),
            status: 0,
            body: String::new(),
            file: String::new(),
            headers: HashMap::new(),
            delay_ms: 0,
        }
    }
}

/// The loaded form of a rule read from the file: the `match` section wins
/// over `match_`, a rule without either matches every request, and the hit
/// counter starts at zero.
pub open spec fn rule_of(d: MockRuleData) -> RuleView {
    RuleView {
        id: d.id@,
        enabled: d.enabled,
        priority: d.priority,
        match_rule: match d.match_field {
            Some(m) => m@,
            None => match d.match_ {
                Some(m) => m@,
                None => any_request(),
            },
        },
        response: d.response@,
        hit_count: 0,
    }
}

/// `out` lists `input` (through `perm`: `out[k] == input[perm[k]]`) by
/// descending priority, rules of equal priority in the order they were given.
pub open spec fn stable_desc_perm(out: Seq<RuleView>, input: Seq<RuleView>, perm: Seq<int>) -> bool {
    &&& perm.len() == input.len()
    &&& out.len() == input.len()
    &&& perm.no_duplicates()
    &&& forall|k: int| 0 <= k < perm.len() ==> 0 <= #[trigger] perm[k] < input.len()
    &&& forall|k: int| 0 <= k < out.len() ==> #[trigger] out[k] == input[perm[k]]
    &&& forall|a: int, b: int|
        0 <= a < b < out.len() ==> (#[trigger] out[a]).priority >= (#[trigger] out[b]).priority
    &&& forall|a: int, b: int|
        0 <= a < b < out.len() && (#[trigger] out[a]).priority == (#[trigger] out[b]).priority
            ==> perm[a] < perm[b]
}

/// `out` is `input` stably sorted by descending priority.
pub open spec fn stably_sorted(out: Seq<RuleView>, input: Seq<RuleView>) -> bool {
    exists|perm: Seq<int>| stable_desc_perm(out, input, perm)
}

/// Whether a rule answers a request.
pub open spec fn rule_matches(r: RuleView, method: Seq<char>, path: Seq<char>, host: Seq<char>) -> bool {
    let m = r.match_rule;
    &&& r.enabled
    &&& (m.method.len() == 0 || uppercase(m.method) == uppercase(method))
    &&& (m.path.len() == 0 || contains(path, m.path))
    &&& (m.host.len() == 0 || contains(lowercase(host), lowercase(m.host)))
}

/// Index of the first rule that answers a request.
pub open spec fn first_match(rules: Seq<RuleView>, method: Seq<char>, path: Seq<char>, host: Seq<char>, i: int) -> bool {
    0 <= i < rules.len() && rule_matches(rules[i], method, path, host) && forall|j: int|
        0 <= j < i ==> !rule_matches(#[trigger] rules[j], method, path, host)
}

/// The directory part of a path: everything up to and including its last
/// `/` (empty when it has none).
pub open spec fn dir_part(p: Seq<char>) -> Seq<char>
    decreases p.len(),
{
    if p.len() == 0 || p.last() == '/' {
        p
    } else {
        dir_part(p.drop_last())
    }
}

/// Where the file that a rule names is read: an absolute name (one that
/// starts at the root `/`) as it is, a relative one beside the rules file
/// the rules came from (as it is when they came from none).
pub open spec fn mock_file_path(name: Seq<char>, source: Option<Seq<char>>) -> Seq<char> {
    if name.len() > 0 && name[0] == '/' {
        name
    } else {
        match source {
            Some(s) => dir_part(s) + name,
            None => name,
        }
    }
}

/// The body of a file response: the file's text when it could be read
/// (`read`), else an error object naming the file.
pub open spec fn file_body_of(name: Seq<char>, read: Option<Seq<char>>) -> Seq<char> {
    match read {
        Some(t) => t,
        None => "{\"error\": \"Mock file not found: "@ + name + "\"}"@,
    }
}

/// The body a response calls for, for rules that came from `source`.
pub open spec fn body_of(r: ResponseView, source: Option<Seq<char>>) -> BodyView {
    if r.resp_type == "file"@ && r.file.len() > 0 {
        BodyView::File { path: mock_file_path(r.file, source), name: r.file }
    } else if r.resp_type == "error"@ {
        BodyView::Text("{\"error\": \"Mocked error\", \"status\": "@ + decimal(r.status as nat) + "}"@)
    } else if r.resp_type == "empty"@ {
        BodyView::Text(Seq::empty())
    } else if r.body.len() > 0 {
        BodyView::Text(r.body)
    } else {
        BodyView::Text("{}"@)
    }
}

/// Index of the first rule with id `id`.
pub open spec fn first_with_id(rules: Seq<RuleView>, id: Seq<char>, i: int) -> bool {
    0 <= i < rules.len() && rules[i].id == id && forall|j: int|
        0 <= j < i ==> (#[trigger] rules[j]).id != id
}

pub open spec fn has_id(rules: Seq<RuleView>, id: Seq<char>) -> bool {
    exists|i: int| 0 <= i < rules.len() && (#[trigger] rules[i]).id == id
}

/// Index of the first rule with id `id` (meaningful when there is one).
pub open spec fn first_id_index(rules: Seq<RuleView>, id: Seq<char>) -> int {
    choose|i: int| first_with_id(rules, id, i)
}

/// The rules after turning the first one with id `id` on or off.
pub open spec fn with_enabled(rules: Seq<RuleView>, id: Seq<char>, on: bool) -> Seq<RuleView> {
    if has_id(rules, id) {
        let i = first_id_index(rules, id);
        rules.update(i, RuleView { enabled: on, ..rules[i] })
    } else {
        rules
    }
}

/// There is a first rule with a given id as soon as there is one, and only
/// one first.
pub proof fn lemma_first_id(rules: Seq<RuleView>, id: Seq<char>)
    ensures
        has_id(rules, id) ==> first_with_id(rules, id, first_id_index(rules, id)),
        forall|i: int, j: int|
            first_with_id(rules, id, i) && first_with_id(rules, id, j) ==> i == j,
    decreases rules.len(),
{
    if has_id(rules, id) {
        lemma_has_first(rules, id, rules.len() as int);
    }
    assert forall|i: int, j: int|
        first_with_id(rules, id, i) && first_with_id(rules, id, j) implies i == j by {
        if i < j {
            assert(rules[i].id != id);
        } else if j < i {
            assert(rules[j].id != id);
        }
    }
}

proof fn lemma_has_first(rules: Seq<RuleView>, id: Seq<char>, n: int)
    requires
        0 <= n <= rules.len(),
        exists|k: int| 0 <= k < n && (#[trigger] rules[k]).id == id,
    ensures
        exists|i: int| first_with_id(rules, id, i),
    decreases n,
{
    if exists|k: int| 0 <= k < n - 1 && (#[trigger] rules[k]).id == id {
        lemma_has_first(rules, id, n - 1);
    } else {
        assert(rules[n - 1].id == id);
        assert(first_with_id(rules, id, n - 1));
    }
}

pub open spec fn rule_views(rules: Seq<MockRule>) -> Seq<RuleView> {
    rules.map_values(|r: MockRule| r@)
}

pub open spec fn data_views(data: Seq<MockRuleData>) -> Seq<RuleView> {
    data.map_values(|d: MockRuleData| rule_of(d))
}

/// The mock rules and where they were loaded from.
pub struct MockEngine {
    pub rules: Vec<MockRule>,
    yaml_path: Option<String>,
    last_modified: u64,
}

fn load_rule(d: MockRuleData) -> (r: MockRule)
    ensures
        r@ == rule_of(d),
{
    let match_rule = match d.match_field {
        Some(m) => m,
        None => match d.match_ {
            Some(m) => m,
            None => MatchRule::default(),
        },
    };
    MockRule {
        id: d.id,
        enabled: d.enabled,
        priority: d.priority,
        match_rule,
        response: d.response,
        hit_count: 0,
    }
}

/// First position in `out` whose priority is below `p`.
fn insert_position(out: &Vec<MockRule>, p: i32) -> (pos: usize)
    requires
        forall|a: int, b: int|
            0 <= a < b < out@.len() ==> (#[trigger] out@[a]).priority >= (#[trigger] out@[b]).priority,
    ensures
        pos <= out@.len(),
        forall|k: int| 0 <= k < pos ==> (#[trigger] out@[k]).priority >= p,
        forall|k: int| pos <= k < out@.len() ==> (#[trigger] out@[k]).priority < p,
{
    let mut i: usize = 0;
    while i < out.len() && out[i].priority >= p
        invariant
            i <= out@.len(),
            forall|k: int| 0 <= k < i ==> (#[trigger] out@[k]).priority >= p,
        decreases out@.len() - i,
    {
        i = i + 1;
    }
    proof {
        assert forall|k: int| i <= k < out@.len() implies (#[trigger] out@[k]).priority < p by {
            if k > i {
                assert(out@[i as int].priority >= out@[k].priority);
            }
        }
    }
    i
}

/// Sorts loaded rules by descending priority; equal priorities keep their
/// order.
fn sort_rules(data: Vec<MockRuleData>) -> (out: Vec<MockRule>)
    ensures
        stably_sorted(rule_views(out@), data_views(data@)),
{
    let ghost input = data_views(data@);
    let ghost mut perm: Seq<int> = Seq::empty();
    let mut out: Vec<MockRule> = Vec::new();
    for d in it: data
        invariant
            it.seq() == data@,
            input == data_views(data@),
            ({
                let o = rule_views(out@);
                &&& perm.len() == it.index()
                &&& o.len() == it.index()
                &&& perm.no_duplicates()
                &&& forall|k: int| 0 <= k < perm.len() ==> 0 <= #[trigger] perm[k] < it.index()
                &&& forall|k: int| 0 <= k < o.len() ==> #[trigger] o[k] == input[perm[k]]
                &&& forall|a: int, b: int|
                    0 <= a < b < o.len() ==> (#[trigger] o[a]).priority >= (#[trigger] o[b]).priority
                &&& forall|a: int, b: int|
                    0 <= a < b < o.len() && (#[trigger] o[a]).priority == (#[trigger] o[b]).priority
                        ==> perm[a] < perm[b]
            }),
    {
        let ghost idx = it.index() as int;
        let ghost o_old = rule_views(out@);
        let ghost perm_old = perm;
        let r = load_rule(d);
        assert(r@ == input[idx]);
        proof {
            assert forall|a: int, b: int| 0 <= a < b < out@.len() implies (#[trigger] out@[a]).priority
                >= (#[trigger] out@[b]).priority by {
                assert(o_old[a] == out@[a]@ && o_old[b] == out@[b]@);
            }
        }
        let pos = insert_position(&out, r.priority);
        out.insert(pos, r);
        proof {
            perm = perm_old.insert(pos as int, idx);
            let o = rule_views(out@);
            assert(o =~= o_old.insert(pos as int, input[idx]));
            assert forall|k: int| 0 <= k < o.len() implies #[trigger] o[k] == input[perm[k]] by {
                if k < pos {
                    assert(o[k] == o_old[k]);
                } else if k > pos {
                    assert(o[k] == o_old[k - 1]);
                }
            }
            assert forall|k: int| 0 <= k < perm.len() implies 0 <= #[trigger] perm[k] < idx + 1 by {
                if k < pos {
                    assert(perm[k] == perm_old[k]);
                } else if k > pos {
                    assert(perm[k] == perm_old[k - 1]);
                }
            }
            assert(perm.no_duplicates()) by {
                assert forall|a: int, b: int|
                    0 <= a < perm.len() && 0 <= b < perm.len() && a != b implies perm[a]
                    != perm[b] by {
                    let pa = if a < pos { a } else if a > pos { a - 1 } else { -1 };
                    let pb = if b < pos { b } else if b > pos { b - 1 } else { -1 };
                    if pa >= 0 {
                        assert(perm[a] == perm_old[pa]);
                    }
                    if pb >= 0 {
                        assert(perm[b] == perm_old[pb]);
                    }
                }
            }
            assert forall|a: int, b: int| 0 <= a < b < o.len() implies (#[trigger] o[a]).priority
                >= (#[trigger] o[b]).priority by {
                if a < pos && b < pos {
                    assert(o[a] == o_old[a] && o[b] == o_old[b]);
                } else if a < pos && b == pos {
                    assert(o[a] == o_old[a]);
                    assert(o_old[a] == out@[a]@);
                } else if a < pos && b > pos {
                    assert(o[a] == o_old[a] && o[b] == o_old[b - 1]);
                } else if a == pos {
                    assert(o[b] == o_old[b - 1]);
                } else {
                    assert(o[a] == o_old[a - 1] && o[b] == o_old[b - 1]);
                }
            }
            assert forall|a: int, b: int|
                0 <= a < b < o.len() && (#[trigger] o[a]).priority == (#[trigger] o[b]).priority
                    implies perm[a] < perm[b] by {
                if a < pos && b < pos {
                    assert(o[a] == o_old[a] && o[b] == o_old[b]);
                    assert(perm[a] == perm_old[a] && perm[b] == perm_old[b]);
                } else if a < pos && b == pos {
                    assert(perm[a] == perm_old[a]);
                } else if a < pos && b > pos {
                    assert(o[a] == o_old[a] && o[b] == o_old[b - 1]);
                    assert(perm[a] == perm_old[a] && perm[b] == perm_old[b - 1]);
                } else if a == pos {
                    assert(o[b] == o_old[b - 1]);
                } else {
                    assert(o[a] == o_old[a - 1] && o[b] == o_old[b - 1]);
                    assert(perm[a] == perm_old[a - 1] && perm[b] == perm_old[b - 1]);
                }
            }
        }
    }
    proof {
        assert(stable_desc_perm(rule_views(out@), input, perm));
    }
    out
}

impl View for MockEngine {
    type V = Seq<RuleView>;

    /// The rules, in order.
    closed spec fn view(&self) -> Seq<RuleView> {
        rule_views(self.rules@)
    }
}

impl MockEngine {
    /// An engine without rules.
    pub fn new() -> (e: MockEngine)
        ensures
            e@.len() == 0,
            e.source() is None,
            e.loaded_at() == 0,
    {
        MockEngine { rules: Vec::new(), yaml_path: None, last_modified: 0 }
    }

    /// The rules file the rules came from.
    pub closed spec fn source(&self) -> Option<Seq<char>> {
        match self.yaml_path {
            Some(p) => Some(p@),
            None => None,
        }
    }

    /// Modification time (seconds since the epoch) of the rules file when
    /// it was loaded.
    pub closed spec fn loaded_at(&self) -> u64 {
        self.last_modified
    }

    /// Replaces the rules with those decoded from the file at `path`, whose
    /// modification time is `mtime`; answers `Loaded N rules`.
    pub fn load_rules(&mut self, data: Vec<MockRuleData>, path: &str, mtime: u64) -> (msg: String)
        ensures
            stably_sorted(final(self)@, data_views(data@)),
            final(self).source() == Some(path@),
            final(self).loaded_at() == mtime,
            msg@ == "Loaded "@ + decimal(data@.len()) + " rules"@,
    {
        let ghost n = data@.len();
        let rules = sort_rules(data);
        self.rules = rules;
        self.last_modified = mtime;
        self.yaml_path = Some(string_from(path));
        let mut msg = string_from("Loaded ");
        proof {
            let perm = choose|perm: Seq<int>|
                stable_desc_perm(self@, data_views(data@), perm);
            assert(self@.len() == n);
        }
        push_decimal(&mut msg, self.rules.len() as u64);
        push_str(&mut msg, " rules");
        msg
    }

    /// Which file a reload reads: the one the rules came from, or the error
    /// `No rules file loaded`.
    pub fn reload(&self) -> (r: Result<String, String>)
        ensures
            match self.source() {
                Some(p) => r matches Ok(q) && q@ == p,
                None => r matches Err(m) && m@ == "No rules file loaded"@,
            },
    {
        match &self.yaml_path {
            Some(p) => Ok(p.clone()),
            None => Err(string_from("No rules file loaded")),
        }
    }

    /// Whether the rules file changed since it was loaded: a file was
    /// loaded, it still exists (`file_mtime` is its current modification
    /// time), and it is newer than at load time.
    pub fn check_hot_reload(&self, file_mtime: Option<u64>) -> (due: bool)
        ensures
            due == (self.source() is Some && file_mtime is Some && file_mtime->0
                > self.loaded_at()),
    {
        match (&self.yaml_path, file_mtime) {
            (Some(_), Some(m)) => m > self.last_modified,
            _ => false,
        }
    }

    fn find_rule(&self, id: &str) -> (r: Option<usize>)
        ensures
            match r {
                Some(i) => first_with_id(self@, id@, i as int),
                None => !has_id(self@, id@),
            },
    {
        let ghost v = self@;
        let mut i: usize = 0;
        while i < self.rules.len()
            invariant
                i <= self.rules@.len(),
                v == self@,
                forall|j: int| 0 <= j < i ==> (#[trigger] v[j]).id != id@,
            decreases self.rules@.len() - i,
        {
            if str_eq(self.rules[i].id.as_str(), id) {
                return Some(i);
            }
            i = i + 1;
        }
        None
    }

    fn set_enabled(&mut self, id: &str, on: bool) -> (found: bool)
        ensures
            found == has_id(old(self)@, id@),
            found ==> exists|i: int|
                first_with_id(old(self)@, id@, i) && final(self)@ == old(self)@.update(
                    i,
                    RuleView { enabled: on, ..old(self)@[i] },
                ),
            !found ==> final(self)@ == old(self)@,
            final(self).source() == old(self).source(),
            final(self).loaded_at() == old(self).loaded_at(),
    {
        match self.find_rule(id) {
            Some(i) => {
                let ghost before = self@;
                let mut rule = self.rules.remove(i);
                rule.enabled = on;
                self.rules.insert(i, rule);
                proof {
                    assert(self@ =~= before.update(
                        i as int,
                        RuleView { enabled: on, ..before[i as int] },
                    ));
                    assert(first_with_id(before, id@, i as int));
                }
                true
            },
            None => false,
        }
    }

    /// Turns the first rule with id `id` on; false when there is none.
    pub fn enable_rule(&mut self, id: &str) -> (found: bool)
        ensures
            found == has_id(old(self)@, id@),
            found ==> exists|i: int|
                first_with_id(old(self)@, id@, i) && final(self)@ == old(self)@.update(
                    i,
                    RuleView { enabled: true, ..old(self)@[i] },
                ),
            !found ==> final(self)@ == old(self)@,
            final(self).source() == old(self).source(),
            final(self).loaded_at() == old(self).loaded_at(),
    {
        self.set_enabled(id, true)
    }

    /// Turns the first rule with id `id` off; false when there is none.
    pub fn disable_rule(&mut self, id: &str) -> (found: bool)
        ensures
            found == has_id(old(self)@, id@),
            found ==> exists|i: int|
                first_with_id(old(self)@, id@, i) && final(self)@ == old(self)@.update(
                    i,
                    RuleView { enabled: false, ..old(self)@[i] },
                ),
            !found ==> final(self)@ == old(self)@,
            final(self).source() == old(self).source(),
            final(self).loaded_at() == old(self).loaded_at(),
    {
        self.set_enabled(id, false)
    }

    /// The first rule with id `id`.
    pub fn get_rule(&self, id: &str) -> (r: Option<&MockRule>)
        ensures
            match r {
                Some(rule) => exists|i: int|
                    first_with_id(self@, id@, i) && rule@ == self@[i],
                None => !has_id(self@, id@),
            },
    {
        match self.find_rule(id) {
            Some(i) => Some(&self.rules[i]),
            None => None,
        }
    }

    /// Answers a request: the first enabled rule whose conditions hold
    /// (method equal ignoring case, path containing the rule's path, host
    /// containing the rule's host ignoring case; empty conditions hold
    /// always) counts a hit and gives its status and body. `None` when no
    /// rule matches.
    pub fn match_request(&mut self, method: &str, path: &str, host: &str) -> (r: Option<(u16, MockBody)>)
        requires
            forall|i: int|
                #[trigger] first_match(old(self)@, method@, path@, host@, i) ==> old(self)@[i].hit_count
                    < u32::MAX,
        ensures
            final(self).source() == old(self).source(),
            final(self).loaded_at() == old(self).loaded_at(),
            match r {
                Some((status, body)) => exists|i: int|
                    #[trigger] first_match(old(self)@, method@, path@, host@, i) && final(self)@
                        == old(self)@.update(
                        i,
                        RuleView {
                            hit_count: (old(self)@[i].hit_count + 1) as u32,
                            ..old(self)@[i]
                        },
                    ) && status == old(self)@[i].response.status && body@ == body_of(
                        old(self)@[i].response,
                        old(self).source(),
                    ),
                None => {
                    &&& forall|i: int|
                        0 <= i < old(self)@.len() ==> !rule_matches(
                            #[trigger] old(self)@[i],
                            method@,
                            path@,
                            host@,
                        )
                    &&& final(self)@ == old(self)@
                },
            },
    {
        let ghost old_rules = self@;
        match self.matching_rule(method, path, host) {
            None => None,
            Some(i) => {
                let body = self.response_body(&self.rules[i].response);
                let mut rule = self.rules.remove(i);
                assert(rule@ == old_rules[i as int]);
                rule.hit_count = rule.hit_count + 1;
                let status = rule.response.status;
                self.rules.insert(i, rule);
                assert(self@ =~= old_rules.update(
                    i as int,
                    RuleView { hit_count: (old_rules[i as int].hit_count + 1) as u32, ..old_rules[i as int] },
                ));
                Some((status, body))
            },
        }
    }

    /// Index of the first rule that answers a request (see
    /// [`MockEngine::match_request`]), without counting a hit.
    pub fn matching_rule(&self, method: &str, path: &str, host: &str) -> (r: Option<usize>)
        ensures
            match r {
                Some(i) => first_match(self@, method@, path@, host@, i as int),
                None => forall|i: int|
                    0 <= i < self@.len() ==> !rule_matches(#[trigger] self@[i], method@, path@, host@),
            },
    {
        let method_up = to_upper(method);
        let host_low = to_lower(host);
        let mut i: usize = 0;
        while i < self.rules.len()
            invariant
                i <= self.rules@.len(),
                method_up@ == uppercase(method@),
                host_low@ == lowercase(host@),
                forall|j: int| 0 <= j < i ==> !rule_matches(#[trigger] self@[j], method@, path@, host@),
            decreases self.rules@.len() - i,
        {
            if self.rule_answers(i, method_up.as_str(), path, host_low.as_str(), method, host) {
                return Some(i);
            }
            i = i + 1;
        }
        None
    }

    fn rule_answers(
        &self,
        i: usize,
        method_up: &str,
        path: &str,
        host_low: &str,
        method: &str,
        host: &str,
    ) -> (b: bool)
        requires
            i < self.rules@.len(),
            method_up@ == uppercase(method@),
            host_low@ == lowercase(host@),
        ensures
            b == rule_matches(self.rules@[i as int]@, method@, path@, host@),
    {
        let rule = &self.rules[i];
        if !rule.enabled {
            return false;
        }
        let m = &rule.match_rule;
        if !m.method.as_str().is_empty() {
            let mu = to_upper(m.method.as_str());
            if !str_eq(mu.as_str(), method_up) {
                return false;
            }
        }
        if !m.path.as_str().is_empty() && !str_contains(path, m.path.as_str()) {
            return false;
        }
        if !m.host.as_str().is_empty() {
            let hl = to_lower(m.host.as_str());
            if !str_contains(host_low, hl.as_str()) {
                return false;
            }
        }
        true
    }
}

/// The length of the directory part of `v` (see [`dir_part`]).
fn dir_part_len(v: &Vec<char>) -> (n: usize)
    ensures
        n <= v@.len(),
        v@.take(n as int) == dir_part(v@),
{
    let mut k: usize = v.len();
    assert(v@.take(k as int) =~= v@);
    while k > 0 && v[k - 1] != '/'
        invariant
            k <= v@.len(),
            dir_part(v@.take(k as int)) == dir_part(v@),
        decreases k,
    {
        assert(v@.take(k as int).drop_last() =~= v@.take(k - 1));
        k = k - 1;
    }
    k
}

/// The body of a file response, given the file's text when it could be
/// read: that text, else `{"error": "Mock file not found: NAME"}`.
pub fn file_body(name: &str, read: Option<String>) -> (b: String)
    ensures
        b@ == file_body_of(
            name@,
            match read {
                Some(t) => Some(t@),
                None => None,
            },
        ),
{
    match read {
        Some(t) => t,
        None => {
            let mut s = string_from("{\"error\": \"Mock file not found: ");
            push_str(&mut s, name);
            push_str(&mut s, "\"}");
            s
        },
    }
}

impl MockEngine {
    /// Where the file that a rule names is read (see [`mock_file_path`]).
    pub fn resolve_file(&self, name: &str) -> (p: String)
        ensures
            p@ == mock_file_path(name@, self.source()),
    {
        let nv = crate::text::to_chars(name);
        if nv.len() > 0 && nv[0] == '/' {
            return string_from(name);
        }
        match &self.yaml_path {
            None => string_from(name),
            Some(s) => {
                let v = crate::text::to_chars(s.as_str());
                let k = dir_part_len(&v);
                let mut r = crate::text::string_of_range(&v, 0, k);
                push_str(&mut r, name);
                assert(v@.subrange(0, k as int) == v@.take(k as int));
                r
            },
        }
    }

    /// The body a response calls for.
    pub fn response_body(&self, r: &MockResponse) -> (b: MockBody)
        ensures
            b@ == body_of(r@, self.source()),
    {
        if str_eq(r.resp_type.as_str(), "file") && !r.file.as_str().is_empty() {
            MockBody::File { path: self.resolve_file(r.file.as_str()), name: r.file.clone() }
        } else if str_eq(r.resp_type.as_str(), "error") {
            let mut s = string_from("{\"error\": \"Mocked error\", \"status\": ");
            push_decimal(&mut s, r.status as u64);
            push_str(&mut s, "}");
            MockBody::Text(s)
        } else if str_eq(r.resp_type.as_str(), "empty") {
            MockBody::Text(String::new())
        } else if !r.body.as_str().is_empty() {
            MockBody::Text(r.body.clone())
        } else {
            MockBody::Text(string_from("{}"))
        }
    }
}

// ---------------------------------------------------------------------------
// Listing the rules
// ---------------------------------------------------------------------------

/// `*` for an empty condition.
pub open spec fn or_star(s: Seq<char>) -> Seq<char> {
    if s.len() == 0 {
        "*"@
    } else {
        s
    }
}

/// One row of `/mock list`.
pub open spec fn rule_row(r: RuleView) -> Seq<char> {
    "  "@ + crate::text::pad_right(r.id, 20) + " "@ + crate::text::pad_right(
        if r.enabled {
            "\x1b[32mON\x1b[0m"@
        } else {
            "\x1b[31mOFF\x1b[0m"@
        },
        17,
    ) + " "@ + crate::text::pad_right(
        or_star(r.match_rule.method) + " "@ + or_star(r.match_rule.path),
        20,
    ) + " "@ + crate::text::pad_right(
        r.response.resp_type + " -> "@ + decimal(r.response.status as nat),
        16,
    ) + " "@ + decimal(r.hit_count as nat)
}

pub open spec fn rule_header() -> Seq<char> {
    "\x1b[1m"@ + crate::text::pad_right("ID"@, 20) + " "@ + crate::text::pad_right("Enabled"@, 8)
        + " "@ + crate::text::pad_right("Match"@, 20) + " "@ + crate::text::pad_right(
        "Response"@,
        16,
    ) + " Hits\x1b[0m"@
}

/// The lines of `/mock list`.
pub open spec fn rule_list_lines(rules: Seq<RuleView>) -> Seq<Seq<char>> {
    if rules.len() == 0 {
        seq!["\x1b[2mNo rules loaded\x1b[0m"@]
    } else {
        seq![rule_header()] + rules.map_values(|r: RuleView| rule_row(r))
    }
}

fn rule_row_exec(r: &MockRule) -> (s: String)
    ensures
        s@ == rule_row(r@),
{
    let mut s = string_from("  ");
    crate::text::push_padded(&mut s, r.id.as_str(), 20);
    push_str(&mut s, " ");
    crate::text::push_padded(&mut s, if r.enabled { "\x1b[32mON\x1b[0m" } else { "\x1b[31mOFF\x1b[0m" }, 17);
    push_str(&mut s, " ");
    let mut m = if r.match_rule.method.as_str().unicode_len() == 0 {
        string_from("*")
    } else {
        r.match_rule.method.clone()
    };
    push_str(&mut m, " ");
    if r.match_rule.path.as_str().unicode_len() == 0 {
        push_str(&mut m, "*");
    } else {
        push_str(&mut m, r.match_rule.path.as_str());
    }
    crate::text::push_padded(&mut s, m.as_str(), 20);
    push_str(&mut s, " ");
    let mut d = r.response.resp_type.clone();
    push_str(&mut d, " -> ");
    push_decimal(&mut d, r.response.status as u64);
    crate::text::push_padded(&mut s, d.as_str(), 16);
    push_str(&mut s, " ");
    push_decimal(&mut s, r.hit_count as u64);
    assert(s@ =~= rule_row(r@));
    s
}

impl MockEngine {
    /// The lines of `/mock list`.
    pub fn list_lines(&self, out: &mut Vec<String>)
        ensures
            crate::text::string_views(final(out)@) == crate::text::string_views(old(out)@)
                + rule_list_lines(self@),
    {
        let ghost o = crate::text::string_views(out@);
        let ghost rv = self@;
        if self.rules.len() == 0 {
            out.push(string_from("\x1b[2mNo rules loaded\x1b[0m"));
            assert(crate::text::string_views(out@) =~= o + rule_list_lines(self@));
            return;
        }
        let mut h = string_from("\x1b[1m");
        crate::text::push_padded(&mut h, "ID", 20);
        push_str(&mut h, " ");
        crate::text::push_padded(&mut h, "Enabled", 8);
        push_str(&mut h, " ");
        crate::text::push_padded(&mut h, "Match", 20);
        push_str(&mut h, " ");
        crate::text::push_padded(&mut h, "Response", 16);
        push_str(&mut h, " Hits\x1b[0m");
        assert(h@ =~= rule_header());
        out.push(h);
        assert(crate::text::string_views(out@) =~= o + seq![rule_header()]);
        let mut i: usize = 0;
        while i < self.rules.len()
            invariant
                i <= rv.len(),
                rv == self@,
                rv == rule_views(self.rules@),
                crate::text::string_views(out@) == o + seq![rule_header()] + rv.take(i as int).map_values(
                    |r: RuleView| rule_row(r),
                ),
            decreases rv.len() - i,
        {
            let ghost before = crate::text::string_views(out@);
            out.push(rule_row_exec(&self.rules[i]));
            assert(crate::text::string_views(out@) =~= before.push(rule_row(rv[i as int])));
            assert(rv.take(i + 1).map_values(|r: RuleView| rule_row(r)) =~= rv.take(i as int).map_values(
                |r: RuleView| rule_row(r),
            ).push(rule_row(rv[i as int])));
            i = i + 1;
        }
        assert(rv.take(rv.len() as int) =~= rv);
    }
}

} // verus!
