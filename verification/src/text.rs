//! Character-level helpers shared by the parsers and filters.
//!
//! Text is handled as sequences of Unicode scalar values (`Seq<char>`),
//! which is exactly the view that vstd gives `str` and `String`.
use vstd::prelude::*;

verus! {

// ---------------------------------------------------------------------------
// Character classes
// ---------------------------------------------------------------------------

/// Unicode `White_Space`: what `char::is_whitespace`, `str::trim` and the
/// `\s` class of a regular expression accept.
pub open spec fn is_ws(c: char) -> bool {
    let u = c as u32;
    ||| 0x09 <= u <= 0x0D
    ||| u == 0x20
    ||| u == 0x85
    ||| u == 0xA0
    ||| u == 0x1680
    ||| 0x2000 <= u <= 0x200A
    ||| u == 0x2028
    ||| u == 0x2029
    ||| u == 0x202F
    ||| u == 0x205F
    ||| u == 0x3000
}

/// An ASCII decimal digit.
pub open spec fn is_digit(c: char) -> bool {
    0x30 <= (c as u32) <= 0x39
}

pub open spec fn digit_value(c: char) -> nat {
    ((c as u32) - 0x30) as nat
}

pub fn is_whitespace_char(c: char) -> (b: bool)
    ensures
        b == is_ws(c),
{
    let u = c as u32;
    (0x09 <= u && u <= 0x0D) || u == 0x20 || u == 0x85 || u == 0xA0 || u == 0x1680 || (0x2000
        <= u && u <= 0x200A) || u == 0x2028 || u == 0x2029 || u == 0x202F || u == 0x205F || u
        == 0x3000
}

pub fn is_digit_char(c: char) -> (b: bool)
    ensures
        b == is_digit(c),
{
    let u = c as u32;
    0x30 <= u && u <= 0x39
}

// ---------------------------------------------------------------------------
// Runs, trimming, searching
// ---------------------------------------------------------------------------

/// Length of the longest run of whitespace in `s` that starts at `i`.
pub open spec fn ws_run(s: Seq<char>, i: int) -> nat
    decreases s.len() - i,
{
    if 0 <= i < s.len() && is_ws(s[i]) {
        1 + ws_run(s, i + 1)
    } else {
        0
    }
}

/// `s` without its trailing whitespace (`str::trim_end`).
pub open spec fn trim_end(s: Seq<char>) -> Seq<char>
    decreases s.len(),
{
    if s.len() > 0 && is_ws(s.last()) {
        trim_end(s.drop_last())
    } else {
        s
    }
}

/// `s` without its leading whitespace (`str::trim_start`).
pub open spec fn trim_start(s: Seq<char>) -> Seq<char>
    decreases s.len(),
{
    if s.len() > 0 && is_ws(s[0]) {
        trim_start(s.drop_first())
    } else {
        s
    }
}

/// `s` without leading and trailing whitespace (`str::trim`).
pub open spec fn trim(s: Seq<char>) -> Seq<char> {
    trim_start(trim_end(s))
}

pub open spec fn starts_with(s: Seq<char>, p: Seq<char>) -> bool {
    p.len() <= s.len() && s.subrange(0, p.len() as int) == p
}

pub open spec fn occurs_at(hay: Seq<char>, needle: Seq<char>, i: int) -> bool {
    0 <= i && i + needle.len() <= hay.len() && hay.subrange(i, i + needle.len()) == needle
}

/// `needle` occurs somewhere in `hay` (`str::contains`); the empty needle
/// occurs everywhere.
pub open spec fn contains(hay: Seq<char>, needle: Seq<char>) -> bool {
    exists|i: int| occurs_at(hay, needle, i)
}

/// No line break in `s[from..to]`.
pub open spec fn no_newline(s: Seq<char>, from: int, to: int) -> bool {
    forall|k: int| from <= k < to ==> s[k] != '\n'
}

/// Position of the first line break at or after `i`, or the end of `s`.
pub open spec fn line_end(s: Seq<char>, i: int) -> int
    decreases s.len() - i,
{
    if i >= s.len() || i < 0 {
        s.len() as int
    } else if s[i] == '\n' {
        i
    } else {
        line_end(s, i + 1)
    }
}

pub proof fn lemma_ws_run_bounds(s: Seq<char>, i: int)
    requires
        0 <= i <= s.len(),
    ensures
        i + ws_run(s, i) <= s.len(),
        forall|k: int| i <= k < i + ws_run(s, i) ==> is_ws(#[trigger] s[k]),
        i + ws_run(s, i) < s.len() ==> !is_ws(s[i + ws_run(s, i)]),
    decreases s.len() - i,
{
    if i < s.len() && is_ws(s[i]) {
        lemma_ws_run_bounds(s, i + 1);
    }
}

pub proof fn lemma_line_end_bounds(s: Seq<char>, i: int)
    requires
        0 <= i <= s.len(),
    ensures
        i <= line_end(s, i) <= s.len(),
        no_newline(s, i, line_end(s, i)),
        line_end(s, i) < s.len() ==> s[line_end(s, i)] == '\n',
    decreases s.len() - i,
{
    if i < s.len() && s[i] != '\n' {
        lemma_line_end_bounds(s, i + 1);
    }
}

/// Length of the longest whitespace run in `s` starting at `i`.
pub fn ws_run_at(s: &Vec<char>, i: usize) -> (n: usize)
    requires
        i <= s@.len(),
    ensures
        n == ws_run(s@, i as int),
        i + n <= s@.len(),
        i + n <= s.len(),
{
    let mut j = i;
    while j < s.len() && is_whitespace_char(s[j])
        invariant
            i <= j <= s@.len(),
            ws_run(s@, i as int) == (j - i) + ws_run(s@, j as int),
        decreases s@.len() - j,
    {
        j = j + 1;
    }
    proof {
        lemma_ws_run_bounds(s@, i as int);
    }
    j - i
}

/// Position of the first line break at or after `i` (or the length).
pub fn line_end_at(s: &Vec<char>, i: usize) -> (n: usize)
    requires
        i <= s@.len(),
    ensures
        n == line_end(s@, i as int),
        i <= n <= s.len(),
{
    proof {
        lemma_line_end_bounds(s@, i as int);
    }
    let mut j = i;
    while j < s.len() && s[j] != '\n'
        invariant
            i <= j <= s@.len(),
            line_end(s@, i as int) == line_end(s@, j as int),
        decreases s@.len() - j,
    {
        j = j + 1;
    }
    j
}

// ---------------------------------------------------------------------------
// Conversions between `str` / `String` and character vectors
// ---------------------------------------------------------------------------

/// The characters of `s`.
pub fn to_chars(s: &str) -> (v: Vec<char>)
    ensures
        v@ == s@,
{
    let mut v: Vec<char> = Vec::new();
    for c in it: s.chars()
        invariant
            v@ == it.seq().take(it.index() as int),
            it.seq() == s@,
    {
        v.push(c);
    }
    v
}

/// Appends one character (`String::push`).
#[verifier::external_body]
pub fn push_char(s: &mut String, c: char)
    ensures
        final(s)@ == old(s)@.push(c),
{
    s.push(c);
}

/// Builds a `String` from characters.
pub fn from_chars(v: &[char]) -> (s: String)
    ensures
        s@ == v@,
{
    let mut s = String::new();
    let mut i: usize = 0;
    while i < v.len()
        invariant
            i <= v@.len(),
            s@ == v@.subrange(0, i as int),
        decreases v@.len() - i,
    {
        push_char(&mut s, v[i]);
        assert(v@.subrange(0, i + 1) == v@.subrange(0, i as int).push(v@[i as int]));
        i = i + 1;
    }
    assert(v@.subrange(0, v@.len() as int) == v@);
    s
}

/// The characters `v[from..to]` as a `String`.
pub fn string_of_range(v: &Vec<char>, from: usize, to: usize) -> (s: String)
    requires
        from <= to <= v@.len(),
    ensures
        s@ == v@.subrange(from as int, to as int),
{
    let mut s = String::new();
    let mut i: usize = from;
    while i < to
        invariant
            from <= i <= to,
            to <= v@.len(),
            s@ == v@.subrange(from as int, i as int),
        decreases to - i,
    {
        push_char(&mut s, v[i]);
        assert(v@.subrange(from as int, i + 1) == v@.subrange(from as int, i as int).push(
            v@[i as int],
        ));
        i = i + 1;
    }
    s
}

/// Appends the characters of `t` to `s`.
pub fn push_str(s: &mut String, t: &str)
    ensures
        final(s)@ == old(s)@ + t@,
{
    s.append(t);
}

/// A fresh `String` equal to `t`.
pub fn string_from(t: &str) -> (s: String)
    ensures
        s@ == t@,
{
    String::from_str(t)
}

// ---------------------------------------------------------------------------
// Comparison and search
// ---------------------------------------------------------------------------

/// Character-wise equality of two sequences.
pub fn chars_eq(a: &Vec<char>, b: &Vec<char>) -> (r: bool)
    ensures
        r == (a@ == b@),
{
    if a.len() != b.len() {
        return false;
    }
    let mut i: usize = 0;
    while i < a.len()
        invariant
            i <= a@.len(),
            a@.len() == b@.len(),
            forall|k: int| 0 <= k < i ==> a@[k] == b@[k],
        decreases a@.len() - i,
    {
        if a[i] != b[i] {
            return false;
        }
        i = i + 1;
    }
    assert(a@ =~= b@);
    true
}

/// String equality (`==` on `str`).
pub fn str_eq(a: &str, b: &str) -> (r: bool)
    ensures
        r == (a@ == b@),
{
    let va = to_chars(a);
    let vb = to_chars(b);
    chars_eq(&va, &vb)
}

/// `needle` occurs in `hay` at position `i`.
pub fn occurs_at_exec(hay: &Vec<char>, needle: &Vec<char>, i: usize) -> (r: bool)
    requires
        i <= hay@.len(),
    ensures
        r == occurs_at(hay@, needle@, i as int),
{
    if needle.len() > hay.len() - i {
        return false;
    }
    let mut k: usize = 0;
    while k < needle.len()
        invariant
            k <= needle@.len(),
            i + needle@.len() <= hay@.len(),
            forall|j: int| 0 <= j < k ==> hay@[i + j] == needle@[j],
        decreases needle@.len() - k,
    {
        assert(i + k < hay.len());
        if hay[i + k] != needle[k] {
            assert(hay@.subrange(i as int, i + needle@.len())[k as int] != needle@[k as int]);
            return false;
        }
        k = k + 1;
    }
    assert(hay@.subrange(i as int, i + needle@.len()) =~= needle@);
    true
}

/// Substring search (`str::contains` on character sequences).
pub fn contains_chars(hay: &Vec<char>, needle: &Vec<char>) -> (r: bool)
    ensures
        r == contains(hay@, needle@),
{
    if needle.len() > hay.len() {
        assert(forall|i: int| !occurs_at(hay@, needle@, i));
        return false;
    }
    if needle.len() == 0 {
        assert(hay@.subrange(0, 0) =~= needle@);
        assert(occurs_at(hay@, needle@, 0));
        return true;
    }
    let last = hay.len() - needle.len();
    let mut i: usize = 0;
    while i <= last
        invariant
            needle@.len() > 0,
            last < hay.len(),
            last + needle@.len() == hay@.len(),
            i <= last + 1,
            forall|j: int| 0 <= j < i ==> !occurs_at(hay@, needle@, j),
        decreases last + 1 - i,
    {
        if occurs_at_exec(hay, needle, i) {
            return true;
        }
        i = i + 1;
    }
    assert(forall|j: int| !occurs_at(hay@, needle@, j));
    false
}

/// `str::contains` on strings.
pub fn str_contains(hay: &str, needle: &str) -> (r: bool)
    ensures
        r == contains(hay@, needle@),
{
    let h = to_chars(hay);
    let n = to_chars(needle);
    contains_chars(&h, &n)
}

/// `str::starts_with` on character sequences.
pub fn starts_with_chars(s: &Vec<char>, p: &Vec<char>) -> (r: bool)
    ensures
        r == starts_with(s@, p@),
{
    let r = occurs_at_exec(s, p, 0);
    proof {
        if r {
            assert(s@.subrange(0, p@.len() as int) == p@);
        }
    }
    r
}

/// `str::starts_with` on strings.
pub fn str_starts_with(s: &str, p: &str) -> (r: bool)
    ensures
        r == starts_with(s@, p@),
{
    let a = to_chars(s);
    let b = to_chars(p);
    starts_with_chars(&a, &b)
}

// ---------------------------------------------------------------------------
// Trimming
// ---------------------------------------------------------------------------

proof fn lemma_trim_end_step(v: Seq<char>, k: int)
    requires
        0 < k <= v.len(),
        is_ws(v[k - 1]),
    ensures
        trim_end(v.subrange(0, k)) == trim_end(v.subrange(0, k - 1)),
{
    assert(v.subrange(0, k).drop_last() =~= v.subrange(0, k - 1));
}

proof fn lemma_trim_start_step(v: Seq<char>, a: int, b: int)
    requires
        0 <= a < b <= v.len(),
        is_ws(v[a]),
    ensures
        trim_start(v.subrange(a, b)) == trim_start(v.subrange(a + 1, b)),
{
    assert(v.subrange(a, b).drop_first() =~= v.subrange(a + 1, b));
}

/// End of `v[from..to]` once trailing whitespace is removed.
pub fn trim_end_range(v: &Vec<char>, from: usize, to: usize) -> (k: usize)
    requires
        from <= to <= v@.len(),
    ensures
        from <= k <= to,
        v@.subrange(from as int, k as int) == trim_end(v@.subrange(from as int, to as int)),
{
    let mut k = to;
    while k > from && is_whitespace_char(v[k - 1])
        invariant
            from <= k <= to <= v@.len(),
            trim_end(v@.subrange(from as int, to as int)) == trim_end(
                v@.subrange(from as int, k as int),
            ),
        decreases k,
    {
        proof {
            lemma_trim_end_step(v@.subrange(from as int, to as int), k - from);
            assert(v@.subrange(from as int, to as int).subrange(0, k - from) =~= v@.subrange(
                from as int,
                k as int,
            ));
            assert(v@.subrange(from as int, to as int).subrange(0, k - from - 1) =~= v@.subrange(
                from as int,
                k - 1,
            ));
        }
        k = k - 1;
    }
    k
}

/// Start of `v[from..to]` once leading whitespace is removed.
pub fn trim_start_range(v: &Vec<char>, from: usize, to: usize) -> (a: usize)
    requires
        from <= to <= v@.len(),
    ensures
        from <= a <= to,
        v@.subrange(a as int, to as int) == trim_start(v@.subrange(from as int, to as int)),
{
    let mut a = from;
    while a < to && is_whitespace_char(v[a])
        invariant
            from <= a <= to <= v@.len(),
            trim_start(v@.subrange(from as int, to as int)) == trim_start(
                v@.subrange(a as int, to as int),
            ),
        decreases to - a,
    {
        proof {
            lemma_trim_start_step(v@, a as int, to as int);
        }
        a = a + 1;
    }
    a
}

/// Bounds of `v[from..to]` once surrounding whitespace is removed.
pub fn trim_range(v: &Vec<char>, from: usize, to: usize) -> (r: (usize, usize))
    requires
        from <= to <= v@.len(),
    ensures
        from <= r.0 <= r.1 <= to,
        v@.subrange(r.0 as int, r.1 as int) == trim(v@.subrange(from as int, to as int)),
{
    let b = trim_end_range(v, from, to);
    let mut a = from;
    while a < b && is_whitespace_char(v[a])
        invariant
            from <= a <= b <= to <= v@.len(),
            trim_start(v@.subrange(from as int, b as int)) == trim_start(
                v@.subrange(a as int, b as int),
            ),
        decreases b - a,
    {
        proof {
            lemma_trim_start_step(v@, a as int, b as int);
        }
        a = a + 1;
    }
    (a, b)
}

// ---------------------------------------------------------------------------
// Decimal numbers
// ---------------------------------------------------------------------------

/// Value of a sequence of decimal digits.
pub open spec fn digits_value(s: Seq<char>) -> nat
    decreases s.len(),
{
    if s.len() == 0 {
        0
    } else {
        digits_value(s.drop_last()) * 10 + digit_value(s.last())
    }
}

pub open spec fn all_digits(s: Seq<char>) -> bool {
    forall|i: int| 0 <= i < s.len() ==> is_digit(#[trigger] s[i])
}

/// What `str::parse::<u32>` accepts: an optional `+`, then one or more ASCII
/// digits whose value fits in 32 bits.
pub open spec fn parse_u32_spec(s: Seq<char>) -> Option<u32> {
    let body = if s.len() > 0 && s[0] == '+' {
        s.drop_first()
    } else {
        s
    };
    if body.len() > 0 && all_digits(body) && digits_value(body) <= u32::MAX {
        Some(digits_value(body) as u32)
    } else {
        None
    }
}

/// What `str::parse::<u16>` accepts.
pub open spec fn parse_u16_spec(s: Seq<char>) -> Option<u16> {
    match parse_u32_spec(s) {
        Some(v) => if v <= u16::MAX {
            Some(v as u16)
        } else {
            None
        },
        None => None,
    }
}

/// What `str::parse::<usize>` accepts: an optional `+`, then one or more
/// ASCII digits whose value fits in a `usize`.
pub open spec fn parse_usize_spec(s: Seq<char>) -> Option<usize> {
    let body = if s.len() > 0 && s[0] == '+' {
        s.drop_first()
    } else {
        s
    };
    if body.len() > 0 && all_digits(body) && digits_value(body) <= usize::MAX {
        Some(digits_value(body) as usize)
    } else {
        None
    }
}

proof fn lemma_digits_value_prefix(s: Seq<char>, i: int)
    requires
        0 <= i <= s.len(),
    ensures
        digits_value(s.subrange(0, i)) <= digits_value(s),
    decreases s.len(),
{
    if i < s.len() {
        lemma_digits_value_prefix(s.drop_last(), i);
        assert(s.drop_last().subrange(0, i) =~= s.subrange(0, i));
    } else {
        assert(s.subrange(0, i) =~= s);
    }
}

/// Parses `v[from..to]` as `str::parse::<u32>` would.
pub fn parse_u32_range(v: &Vec<char>, from: usize, to: usize) -> (r: Option<u32>)
    requires
        from <= to <= v@.len(),
    ensures
        r == parse_u32_spec(v@.subrange(from as int, to as int)),
{
    let ghost s = v@.subrange(from as int, to as int);
    let mut start = from;
    if from < to && v[from] == '+' {
        start = from + 1;
    }
    let ghost body = v@.subrange(start as int, to as int);
    assert(body == (if s.len() > 0 && s[0] == '+' {
        s.drop_first()
    } else {
        s
    })) by {
        if s.len() > 0 && s[0] == '+' {
            assert(s.drop_first() =~= body);
        } else {
            assert(s =~= body);
        }
    }
    if start == to {
        return None;
    }
    let mut acc: u64 = 0;
    let mut i = start;
    while i < to
        invariant
            from <= start < to <= v@.len(),
            start <= i <= to,
            body == v@.subrange(start as int, to as int),
            s == v@.subrange(from as int, to as int),
            body == (if s.len() > 0 && s[0] == '+' {
                s.drop_first()
            } else {
                s
            }),
            acc == digits_value(v@.subrange(start as int, i as int)),
            acc <= u32::MAX,
            forall|k: int| start <= k < i ==> is_digit(#[trigger] v@[k]),
        decreases to - i,
    {
        if !is_digit_char(v[i]) {
            assert(body[i - start] == v@[i as int]);
            assert(!all_digits(body));
            return None;
        }
        let d = (v[i] as u32 - 0x30) as u64;
        let next = acc * 10 + d;
        proof {
            let pre = v@.subrange(start as int, (i + 1) as int);
            assert(pre.drop_last() =~= v@.subrange(start as int, i as int));
            assert(digits_value(pre) == next);
        }
        if next > 0xFFFF_FFFF {
            proof {
                lemma_digits_value_prefix(body, (i + 1 - start) as int);
                assert(body.subrange(0, (i + 1 - start) as int) =~= v@.subrange(
                    start as int,
                    (i + 1) as int,
                ));
            }
            return None;
        }
        acc = next;
        i = i + 1;
    }
    assert(v@.subrange(start as int, to as int) =~= body);
    assert(all_digits(body)) by {
        assert forall|k: int| 0 <= k < body.len() implies is_digit(#[trigger] body[k]) by {
            assert(body[k] == v@[start + k]);
        }
    }
    Some(acc as u32)
}

/// Parses `s` as `str::parse::<u32>` would.
pub fn parse_u32_str(s: &str) -> (r: Option<u32>)
    ensures
        r == parse_u32_spec(s@),
{
    let v = to_chars(s);
    assert(v@.subrange(0, v@.len() as int) =~= v@);
    parse_u32_range(&v, 0, v.len())
}

/// Parses `s` as `str::parse::<usize>` would.
pub fn parse_usize_str(s: &str) -> (r: Option<usize>)
    ensures
        r == parse_usize_spec(s@),
{
    let v = to_chars(s);
    let to = v.len();
    let mut start: usize = 0;
    if to > 0 && v[0] == '+' {
        start = 1;
    }
    let ghost body = v@.subrange(start as int, to as int);
    assert(body == (if s@.len() > 0 && s@[0] == '+' {
        s@.drop_first()
    } else {
        s@
    })) by {
        if s@.len() > 0 && s@[0] == '+' {
            assert(s@.drop_first() =~= body);
        } else {
            assert(s@ =~= body);
        }
    }
    if start == to {
        return None;
    }
    let mut acc: u128 = 0;
    let mut i = start;
    while i < to
        invariant
            start < to == v@.len(),
            start <= i <= to,
            v@ == s@,
            body == v@.subrange(start as int, to as int),
            body == (if s@.len() > 0 && s@[0] == '+' {
                s@.drop_first()
            } else {
                s@
            }),
            acc == digits_value(v@.subrange(start as int, i as int)),
            acc <= usize::MAX,
            forall|k: int| start <= k < i ==> is_digit(#[trigger] v@[k]),
        decreases to - i,
    {
        if !is_digit_char(v[i]) {
            assert(body[i - start] == v@[i as int]);
            assert(!all_digits(body));
            return None;
        }
        let d = (v[i] as u32 - 0x30) as u128;
        let next = acc * 10 + d;
        proof {
            let pre = v@.subrange(start as int, (i + 1) as int);
            assert(pre.drop_last() =~= v@.subrange(start as int, i as int));
            assert(digits_value(pre) == next);
        }
        if next > usize::MAX as u128 {
            proof {
                lemma_digits_value_prefix(body, (i + 1 - start) as int);
                assert(body.subrange(0, (i + 1 - start) as int) =~= v@.subrange(
                    start as int,
                    (i + 1) as int,
                ));
            }
            return None;
        }
        acc = next;
        i = i + 1;
    }
    assert(v@.subrange(start as int, to as int) =~= body);
    assert(all_digits(body)) by {
        assert forall|k: int| 0 <= k < body.len() implies is_digit(#[trigger] body[k]) by {
            assert(body[k] == v@[start + k]);
        }
    }
    Some(acc as usize)
}

/// The character of decimal digit `d`.
pub open spec fn digit_char(d: nat) -> char {
    ((d + 0x30) as u8) as char
}

/// Decimal notation of `n`, without leading zeros.
pub open spec fn decimal(n: nat) -> Seq<char>
    decreases n,
{
    if n < 10 {
        seq![digit_char(n)]
    } else {
        decimal(n / 10).push(digit_char(n % 10))
    }
}

/// Decimal notation of `n` (what `Display` prints for an unsigned integer).
pub fn decimal_chars(n: u64) -> (v: Vec<char>)
    ensures
        v@ == decimal(n as nat),
    decreases n,
{
    let d = ((n % 10) as u8 + 0x30) as char;
    if n < 10 {
        let mut v = Vec::new();
        v.push(d);
        assert(v@ =~= seq![digit_char(n as nat)]);
        v
    } else {
        let mut v = decimal_chars(n / 10);
        v.push(d);
        v
    }
}

/// Appends the decimal notation of `n` to `s`.
pub fn push_decimal(s: &mut String, n: u64)
    ensures
        final(s)@ == old(s)@ + decimal(n as nat),
{
    let v = decimal_chars(n);
    let mut i: usize = 0;
    let ghost s0 = s@;
    while i < v.len()
        invariant
            i <= v@.len(),
            v@ == decimal(n as nat),
            s@ == s0 + v@.subrange(0, i as int),
        decreases v@.len() - i,
    {
        push_char(s, v[i]);
        assert(v@.subrange(0, i + 1) =~= v@.subrange(0, i as int).push(v@[i as int]));
        i = i + 1;
    }
    assert(v@.subrange(0, v@.len() as int) =~= v@);
}

// ---------------------------------------------------------------------------
// Case mapping
// ---------------------------------------------------------------------------

/// Full Unicode lowercase mapping of a string, as `str::to_lowercase`
/// computes it.
pub uninterp spec fn lowercase(s: Seq<char>) -> Seq<char>;

/// Full Unicode uppercase mapping of a string, as `str::to_uppercase`
/// computes it.
pub uninterp spec fn uppercase(s: Seq<char>) -> Seq<char>;

/// Calls `str::to_lowercase`. Its result depends on the argument alone and
/// is named `lowercase`; nothing more is claimed of it.
#[verifier::external_body]
pub fn to_lower(s: &str) -> (r: String)
    ensures
        r@ == lowercase(s@),
{
    s.to_lowercase()
}

/// Calls `str::to_uppercase`. Its result depends on the argument alone and
/// is named `uppercase`; nothing more is claimed of it.
#[verifier::external_body]
pub fn to_upper(s: &str) -> (r: String)
    ensures
        r@ == uppercase(s@),
{
    s.to_uppercase()
}

/// ASCII upper-casing of one character (`char::to_ascii_uppercase`).
pub open spec fn ascii_upper(c: char) -> char {
    if 0x61 <= (c as u32) <= 0x7A {
        (((c as u32) - 0x20) as u8) as char
    } else {
        c
    }
}

pub fn ascii_upper_char(c: char) -> (r: char)
    ensures
        r == ascii_upper(c),
{
    let u = c as u32;
    if 0x61 <= u && u <= 0x7A {
        ((u - 0x20) as u8) as char
    } else {
        c
    }
}

// ---------------------------------------------------------------------------
// Joining
// ---------------------------------------------------------------------------

/// `parts` separated by `sep` (`[String]::join`).
pub open spec fn join(parts: Seq<Seq<char>>, sep: Seq<char>) -> Seq<char>
    decreases parts.len(),
{
    if parts.len() == 0 {
        Seq::empty()
    } else if parts.len() == 1 {
        parts[0]
    } else {
        join(parts.drop_last(), sep) + sep + parts.last()
    }
}

/// The character sequences of a list of strings.
pub open spec fn string_views(v: Seq<String>) -> Seq<Seq<char>> {
    v.map_values(|s: String| s@)
}

/// Joins `parts` with `sep` between consecutive elements.
pub fn join_strings(parts: &Vec<String>, sep: &str) -> (r: String)
    ensures
        r@ == join(string_views(parts@), sep@),
{
    let mut r = String::new();
    let mut i: usize = 0;
    while i < parts.len()
        invariant
            i <= parts@.len(),
            r@ == join(string_views(parts@).take(i as int), sep@),
        decreases parts@.len() - i,
    {
        if i > 0 {
            push_str(&mut r, sep);
        }
        push_str(&mut r, parts[i].as_str());
        proof {
            assert(string_views(parts@).take(i + 1).drop_last() =~= string_views(parts@).take(
                i as int,
            ));
        }
        i = i + 1;
    }
    assert(string_views(parts@).take(parts@.len() as int) =~= string_views(parts@));
    r
}

// ---------------------------------------------------------------------------
// Lines and words
// ---------------------------------------------------------------------------

/// `s` with one trailing carriage return removed.
pub open spec fn strip_cr(s: Seq<char>) -> Seq<char> {
    if s.len() > 0 && s.last() == '\r' {
        s.drop_last()
    } else {
        s
    }
}

/// The lines of `s` from position `i` on, as `str::lines` gives them:
/// split after each `\n`, the `\n` (and a `\r` just before it) dropped, no
/// empty line after a final `\n`.
pub open spec fn lines_from(s: Seq<char>, i: int) -> Seq<Seq<char>>
    decreases s.len() - i,
{
    if i < 0 || i >= s.len() {
        Seq::empty()
    } else {
        let e = line_end(s, i);
        if e < s.len() && e >= i {
            seq![strip_cr(s.subrange(i, e))] + lines_from(s, e + 1)
        } else {
            seq![s.subrange(i, s.len() as int)]
        }
    }
}

pub open spec fn lines(s: Seq<char>) -> Seq<Seq<char>> {
    lines_from(s, 0)
}

/// The whitespace-separated words of `s[i..]` (`str::split_whitespace`),
/// `cur` being the part of a word already read.
pub open spec fn words_from(s: Seq<char>, i: int, cur: Seq<char>) -> Seq<Seq<char>>
    decreases s.len() - i,
{
    if i < 0 || i >= s.len() {
        if cur.len() > 0 {
            seq![cur]
        } else {
            Seq::empty()
        }
    } else if is_ws(s[i]) {
        (if cur.len() > 0 {
            seq![cur]
        } else {
            Seq::empty()
        }) + words_from(s, i + 1, Seq::empty())
    } else {
        words_from(s, i + 1, cur.push(s[i]))
    }
}

pub open spec fn words(s: Seq<char>) -> Seq<Seq<char>> {
    words_from(s, 0, Seq::empty())
}

pub open spec fn char_views(v: Seq<Vec<char>>) -> Seq<Seq<char>> {
    v.map_values(|x: Vec<char>| x@)
}

/// The lines of `s` (`str::lines`).
pub fn split_lines(s: &Vec<char>) -> (r: Vec<Vec<char>>)
    ensures
        char_views(r@) == lines(s@),
{
    let mut r: Vec<Vec<char>> = Vec::new();
    let mut i: usize = 0;
    while i < s.len()
        invariant
            i <= s@.len(),
            char_views(r@) + lines_from(s@, i as int) == lines(s@),
        decreases s@.len() - i,
    {
        let e = line_end_at(s, i);
        let ghost before = char_views(r@);
        if e < s.len() {
            let mut end = e;
            if end > i && s[end - 1] == '\r' {
                end = end - 1;
            }
            let mut line: Vec<char> = Vec::new();
            let mut k: usize = i;
            while k < end
                invariant
                    i <= k <= end <= s@.len(),
                    line@ == s@.subrange(i as int, k as int),
                decreases end - k,
            {
                line.push(s[k]);
                assert(s@.subrange(i as int, k + 1) =~= s@.subrange(i as int, k as int).push(
                    s@[k as int],
                ));
                k = k + 1;
            }
            proof {
                let full = s@.subrange(i as int, e as int);
                if e > i && s@[e - 1] == '\r' {
                    assert(strip_cr(full) =~= line@);
                } else {
                    assert(strip_cr(full) =~= line@);
                }
            }
            r.push(line);
            proof {
                assert(char_views(r@) =~= before.push(r@.last()@));
                assert(lines_from(s@, i as int) == seq![strip_cr(s@.subrange(i as int, e as int))]
                    + lines_from(s@, e + 1));
                assert(before + lines_from(s@, i as int) =~= char_views(r@) + lines_from(
                    s@,
                    e + 1,
                ));
            }
            i = e + 1;
        } else {
            let mut line: Vec<char> = Vec::new();
            let mut k: usize = i;
            while k < s.len()
                invariant
                    i <= k <= s@.len(),
                    line@ == s@.subrange(i as int, k as int),
                decreases s@.len() - k,
            {
                line.push(s[k]);
                assert(s@.subrange(i as int, k + 1) =~= s@.subrange(i as int, k as int).push(
                    s@[k as int],
                ));
                k = k + 1;
            }
            r.push(line);
            proof {
                assert(char_views(r@) =~= before.push(r@.last()@));
                assert(lines_from(s@, s@.len() as int) =~= Seq::<Seq<char>>::empty());
                assert(before + lines_from(s@, i as int) =~= char_views(r@) + lines_from(
                    s@,
                    s@.len() as int,
                ));
            }
            i = s.len();
        }
    }
    assert(lines_from(s@, i as int) =~= Seq::<Seq<char>>::empty());
    assert(char_views(r@) + Seq::<Seq<char>>::empty() =~= char_views(r@));
    r
}

/// The whitespace-separated words of `s` (`str::split_whitespace`).
pub fn split_words(s: &Vec<char>) -> (r: Vec<Vec<char>>)
    ensures
        char_views(r@) == words(s@),
{
    let mut r: Vec<Vec<char>> = Vec::new();
    let mut cur: Vec<char> = Vec::new();
    let mut i: usize = 0;
    while i < s.len()
        invariant
            i <= s@.len(),
            char_views(r@) + words_from(s@, i as int, cur@) == words(s@),
        decreases s@.len() - i,
    {
        let ghost before = char_views(r@);
        let ghost c0 = cur@;
        if is_whitespace_char(s[i]) {
            if cur.len() > 0 {
                r.push(cur);
                cur = Vec::new();
                proof {
                    assert(char_views(r@) =~= before.push(c0));
                    assert(before + words_from(s@, i as int, c0) =~= char_views(r@) + words_from(
                        s@,
                        i + 1,
                        cur@,
                    ));
                }
            } else {
                proof {
                    assert(cur@ =~= Seq::<char>::empty());
                    assert(before + words_from(s@, i as int, c0) =~= before + words_from(
                        s@,
                        i + 1,
                        Seq::empty(),
                    ));
                }
            }
        } else {
            cur.push(s[i]);
        }
        i = i + 1;
    }
    if cur.len() > 0 {
        let ghost before = char_views(r@);
        let ghost c0 = cur@;
        r.push(cur);
        assert(char_views(r@) =~= before.push(c0));
    }
    r
}

// ---------------------------------------------------------------------------
// Splitting at a separator, padding
// ---------------------------------------------------------------------------

/// Index of the first `c` in `s` (the length if there is none).
pub open spec fn index_of(s: Seq<char>, c: char) -> int
    decreases s.len(),
{
    if s.len() == 0 {
        0
    } else if s[0] == c {
        0
    } else {
        1 + index_of(s.drop_first(), c)
    }
}

pub proof fn lemma_index_of_bounds(s: Seq<char>, c: char)
    ensures
        0 <= index_of(s, c) <= s.len(),
        index_of(s, c) < s.len() ==> s[index_of(s, c)] == c,
        forall|k: int| 0 <= k < index_of(s, c) ==> s[k] != c,
    decreases s.len(),
{
    if s.len() > 0 && s[0] != c {
        lemma_index_of_bounds(s.drop_first(), c);
        assert forall|k: int| 0 <= k < index_of(s, c) implies s[k] != c by {
            if k > 0 {
                assert(s[k] == s.drop_first()[k - 1]);
            }
        }
    }
}

/// Position of the first `c` in `v` (its length if there is none).
pub fn index_of_char(v: &Vec<char>, c: char) -> (i: usize)
    ensures
        i == index_of(v@, c),
        i <= v@.len(),
{
    let mut i: usize = 0;
    assert(v@.subrange(0, v@.len() as int) =~= v@);
    while i < v.len() && v[i] != c
        invariant
            i <= v@.len(),
            index_of(v@, c) == i + index_of(v@.subrange(i as int, v@.len() as int), c),
        decreases v@.len() - i,
    {
        assert(v@.subrange(i as int, v@.len() as int).drop_first() =~= v@.subrange(
            i + 1,
            v@.len() as int,
        ));
        i = i + 1;
    }
    proof {
        if i < v@.len() {
            assert(v@.subrange(i as int, v@.len() as int)[0] == v@[i as int]);
        }
    }
    i
}

/// The pieces of `s[i..]` between occurrences of `c`, empty ones included
/// (`str::split` with a character), `cur` being the piece already read.
pub open spec fn fields_from(s: Seq<char>, c: char, i: int, cur: Seq<char>) -> Seq<Seq<char>>
    decreases s.len() - i,
{
    if i < 0 || i >= s.len() {
        seq![cur]
    } else if s[i] == c {
        seq![cur] + fields_from(s, c, i + 1, Seq::empty())
    } else {
        fields_from(s, c, i + 1, cur.push(s[i]))
    }
}

pub open spec fn split_on(s: Seq<char>, c: char) -> Seq<Seq<char>> {
    fields_from(s, c, 0, Seq::empty())
}

/// The pieces of `s` between occurrences of `c` (`str::split`).
pub fn split_char(s: &str, c: char) -> (r: Vec<String>)
    ensures
        string_views(r@) == split_on(s@, c),
{
    let v = to_chars(s);
    let mut r: Vec<String> = Vec::new();
    let mut cur: Vec<char> = Vec::new();
    let mut i: usize = 0;
    while i < v.len()
        invariant
            i <= v@.len(),
            v@ == s@,
            string_views(r@) + fields_from(v@, c, i as int, cur@) == split_on(v@, c),
        decreases v@.len() - i,
    {
        let ghost before = string_views(r@);
        let ghost c0 = cur@;
        if v[i] == c {
            let piece = from_chars(cur.as_slice());
            r.push(piece);
            cur = Vec::new();
            proof {
                assert(string_views(r@) =~= before.push(c0));
                assert(before + fields_from(v@, c, i as int, c0) =~= string_views(r@)
                    + fields_from(v@, c, i + 1, cur@));
            }
        } else {
            cur.push(v[i]);
        }
        i = i + 1;
    }
    let ghost before = string_views(r@);
    let ghost c0 = cur@;
    let piece = from_chars(cur.as_slice());
    r.push(piece);
    assert(string_views(r@) =~= before.push(c0));
    r
}

/// `n` spaces.
pub open spec fn spaces(n: int) -> Seq<char> {
    Seq::new(if n > 0 { n as nat } else { 0 }, |i: int| ' ')
}

/// `s` padded with spaces on the right to at least `w` characters (the
/// `{:<w}` format).
pub open spec fn pad_right(s: Seq<char>, w: int) -> Seq<char> {
    s + spaces(w - s.len())
}

/// Appends `n` spaces.
pub fn push_spaces(s: &mut String, n: usize)
    ensures
        final(s)@ == old(s)@ + spaces(n as int),
{
    let mut i: usize = 0;
    while i < n
        invariant
            i <= n,
            s@ == old(s)@ + spaces(i as int),
        decreases n - i,
    {
        push_char(s, ' ');
        assert(old(s)@ + spaces(i + 1) =~= (old(s)@ + spaces(i as int)).push(' '));
        i = i + 1;
    }
}

/// Appends `t` padded on the right to at least `w` characters.
pub fn push_padded(s: &mut String, t: &str, w: usize)
    ensures
        final(s)@ == old(s)@ + pad_right(t@, w as int),
{
    let n = t.unicode_len();
    push_str(s, t);
    if n < w {
        push_spaces(s, w - n);
    } else {
        assert(spaces(w - t@.len()) =~= Seq::<char>::empty());
        assert(old(s)@ + t@ =~= old(s)@ + t@ + Seq::<char>::empty());
    }
    assert(old(s)@ + t@ + spaces(w - t@.len()) =~= old(s)@ + pad_right(t@, w as int));
}

// ---------------------------------------------------------------------------
// Lists of strings
// ---------------------------------------------------------------------------

/// `l` without any item equal to `x`.
pub open spec fn without_all(l: Seq<Seq<char>>, x: Seq<char>) -> Seq<Seq<char>> {
    l.filter(|t: Seq<char>| t != x)
}

/// `l` with `x` appended unless it is already there.
pub open spec fn with_unique(l: Seq<Seq<char>>, x: Seq<char>) -> Seq<Seq<char>> {
    if l.contains(x) {
        l
    } else {
        l.push(x)
    }
}

/// `l` without the first occurrence of `x` (unchanged if there is none).
pub open spec fn without_first(l: Seq<Seq<char>>, x: Seq<char>) -> Seq<Seq<char>>
    decreases l.len(),
{
    if l.len() == 0 {
        l
    } else if l[0] == x {
        l.drop_first()
    } else {
        seq![l[0]] + without_first(l.drop_first(), x)
    }
}

/// Index of `s` in `v`, if it occurs.
pub fn position_of(v: &Vec<String>, s: &str) -> (r: Option<usize>)
    ensures
        match r {
            Some(i) => i < v@.len() && v@[i as int]@ == s@ && forall|k: int|
                0 <= k < i ==> (#[trigger] v@[k])@ != s@,
            None => !string_views(v@).contains(s@),
        },
{
    let mut i: usize = 0;
    while i < v.len()
        invariant
            i <= v@.len(),
            forall|k: int| 0 <= k < i ==> (#[trigger] v@[k])@ != s@,
        decreases v@.len() - i,
    {
        if str_eq(v[i].as_str(), s) {
            return Some(i);
        }
        i = i + 1;
    }
    proof {
        if string_views(v@).contains(s@) {
            let k = choose|k: int| 0 <= k < string_views(v@).len() && string_views(v@)[k] == s@;
            assert(v@[k]@ == s@);
        }
    }
    None
}

/// Appends `s` to `v` unless an equal string is there.
pub fn add_unique_string(v: &mut Vec<String>, s: &str)
    ensures
        string_views(final(v)@) == with_unique(string_views(old(v)@), s@),
{
    match position_of(v, s) {
        Some(i) => {
            assert(string_views(v@)[i as int] == s@);
        },
        None => {
            v.push(string_from(s));
            assert(string_views(v@) =~= string_views(old(v)@).push(s@));
        },
    }
}

/// Removes every string equal to `s`; tells whether there was one.
pub fn remove_all_strings(v: &mut Vec<String>, s: &str) -> (found: bool)
    ensures
        string_views(final(v)@) == without_all(string_views(old(v)@), s@),
        found == string_views(old(v)@).contains(s@),
{
    let ghost old_l = string_views(v@);
    let mut kept: Vec<String> = Vec::new();
    let mut found = false;
    let mut i: usize = 0;
    while i < v.len()
        invariant
            i <= v@.len(),
            old_l == string_views(v@),
            v@ == old(v)@,
            string_views(kept@) == without_all(old_l.take(i as int), s@),
            found == old_l.take(i as int).contains(s@),
        decreases v@.len() - i,
    {
        proof {
            reveal_with_fuel(Seq::filter, 1);
            assert(old_l.take(i + 1).drop_last() =~= old_l.take(i as int));
            assert(old_l.take(i + 1).last() == old_l[i as int]);
        }
        if !str_eq(v[i].as_str(), s) {
            kept.push(v[i].clone());
            assert(string_views(kept@) =~= string_views(kept@.drop_last()).push(kept@.last()@));
        } else {
            found = true;
        }
        proof {
            if found {
                if old_l.take(i as int).contains(s@) {
                    let k = choose|k: int| 0 <= k < i && old_l.take(i as int)[k] == s@;
                    assert(old_l.take(i + 1)[k] == s@);
                } else {
                    assert(old_l.take(i + 1)[i as int] == s@);
                }
            } else {
                assert forall|k: int| 0 <= k < i + 1 implies #[trigger] old_l.take(i + 1)[k] != s@ by {
                    if k < i {
                        assert(old_l.take(i + 1)[k] == old_l.take(i as int)[k]);
                    }
                }
            }
        }
        i = i + 1;
    }
    assert(old_l.take(old_l.len() as int) =~= old_l);
    *v = kept;
    found
}

proof fn lemma_without_first_at(l: Seq<Seq<char>>, x: Seq<char>, i: int)
    requires
        0 <= i < l.len(),
        l[i] == x,
        forall|k: int| 0 <= k < i ==> l[k] != x,
    ensures
        without_first(l, x) == l.take(i) + l.skip(i + 1),
    decreases i,
{
    if i == 0 {
        assert(l.skip(1) =~= l.drop_first());
        assert(l.take(0) + l.skip(1) =~= l.skip(1));
    } else {
        let t = l.drop_first();
        assert forall|k: int| 0 <= k < i - 1 implies t[k] != x by {
            assert(t[k] == l[k + 1]);
        }
        lemma_without_first_at(t, x, i - 1);
        assert(seq![l[0]] + (t.take(i - 1) + t.skip(i)) =~= l.take(i) + l.skip(i + 1));
    }
}

proof fn lemma_without_first_absent(l: Seq<Seq<char>>, x: Seq<char>)
    requires
        !l.contains(x),
    ensures
        without_first(l, x) == l,
    decreases l.len(),
{
    if l.len() > 0 {
        assert(l[0] != x);
        assert(!l.drop_first().contains(x)) by {
            if l.drop_first().contains(x) {
                let k = choose|k: int| 0 <= k < l.drop_first().len() && l.drop_first()[k] == x;
                assert(l[k + 1] == x);
            }
        }
        lemma_without_first_absent(l.drop_first(), x);
        assert(seq![l[0]] + l.drop_first() =~= l);
    }
}

/// Removes the first string equal to `s`; tells whether there was one.
pub fn remove_first_string(v: &mut Vec<String>, s: &str) -> (found: bool)
    ensures
        string_views(final(v)@) == without_first(string_views(old(v)@), s@),
        found == string_views(old(v)@).contains(s@),
{
    let ghost l = string_views(v@);
    match position_of(v, s) {
        Some(i) => {
            proof {
                assert forall|k: int| 0 <= k < i implies l[k] != s@ by {
                    assert(l[k] == v@[k]@);
                }
                lemma_without_first_at(l, s@, i as int);
            }
            v.remove(i);
            assert(string_views(v@) =~= l.take(i as int) + l.skip(i + 1));
            assert(l[i as int] == s@);
            true
        },
        None => {
            proof {
                lemma_without_first_absent(l, s@);
            }
            false
        },
    }
}

/// Index of the first occurrence of `needle` in `hay` at or after `i`.
pub open spec fn find_from(hay: Seq<char>, needle: Seq<char>, i: int) -> Option<int>
    decreases hay.len() + 1 - i,
{
    if i < 0 || i + needle.len() > hay.len() {
        None
    } else if occurs_at(hay, needle, i) {
        Some(i)
    } else {
        find_from(hay, needle, i + 1)
    }
}

/// Index of the first occurrence of `needle` in `hay` (`str::find`).
pub fn find_chars(hay: &Vec<char>, needle: &Vec<char>) -> (r: Option<usize>)
    ensures
        match r {
            Some(i) => find_from(hay@, needle@, 0) == Some(i as int) && i + needle@.len()
                <= hay@.len(),
            None => find_from(hay@, needle@, 0) is None,
        },
{
    if needle.len() == 0 {
        assert(hay@.subrange(0, 0) =~= needle@);
        return Some(0);
    }
    let mut i: usize = 0;
    while i <= hay.len() && needle.len() <= hay.len() - i
        invariant
            needle@.len() >= 1,
            i <= hay@.len(),
            find_from(hay@, needle@, 0) == find_from(hay@, needle@, i as int),
        decreases hay@.len() + 1 - i,
    {
        if occurs_at_exec(hay, needle, i) {
            return Some(i);
        }
        i = i + 1;
    }
    None
}

} // verus!
