use vstd::prelude::*;
use vstd::string::StrSliceExecFns;

use crate::text::text;

verus! {

/// The advertised UART service of the gateway.
pub const UART_SERVICE_UUID: &'static str = "6E400001-B5A3-F393-E0A9-E50E24DCCA9E";

/// What a scan looks for: advertised names of the form `<prefix>-<suffix>`.
#[derive(Clone, Debug, PartialEq, Eq)]
pub struct DiscoveryCriteria {
    pub stable_prefix: String,
    /// The UART service, in its textual UUID form.
    pub service_uuid: String,
}

/// How one advertised name was classified.
#[derive(Clone, Debug, PartialEq, Eq)]
pub struct DiscoveryMatch {
    pub display_name: String,
    pub candidate_name: Option<String>,
    pub matches_identity: bool,
}

/// Which services a scan asks the adapter to filter on.
#[derive(Clone, Debug, PartialEq, Eq)]
pub struct ScanServiceFilter {
    pub services: Vec<String>,
}

pub open spec fn lower_base36(c: char) -> bool {
    ('0' <= c && c <= '9') || ('a' <= c && c <= 'z')
}

/// A suffix of one or two non-empty runs of lower-case letters and digits, joined by one `-`.
pub open spec fn relaxed_identity_suffix(s: Seq<char>) -> bool {
    &&& s.len() > 0
    &&& s[0] != '-'
    &&& s[s.len() - 1] != '-'
    &&& forall|i: int| 0 <= i < s.len() ==> #[trigger] s[i] == '-' || lower_base36(s[i])
    &&& forall|i: int, j: int|
        0 <= i < s.len() && 0 <= j < s.len() && #[trigger] s[i] == '-' && #[trigger] s[j] == '-'
            ==> i == j
}

/// `value` is `prefix`, a `-`, and a relaxed identity suffix.
pub open spec fn stable_identity(value: Seq<char>, prefix: Seq<char>) -> bool {
    &&& value.len() > prefix.len()
    &&& value.subrange(0, prefix.len() as int) == prefix
    &&& value[prefix.len() as int] == '-'
    &&& relaxed_identity_suffix(value.subrange(prefix.len() as int + 1, value.len() as int))
}

/// Unicode white space, as `char::is_whitespace` documents it.
pub open spec fn white_space(c: char) -> bool {
    ||| ('\u{9}' <= c && c <= '\u{d}')
    ||| c == ' '
    ||| c == '\u{85}'
    ||| c == '\u{a0}'
    ||| c == '\u{1680}'
    ||| ('\u{2000}' <= c && c <= '\u{200a}')
    ||| c == '\u{2028}'
    ||| c == '\u{2029}'
    ||| c == '\u{202f}'
    ||| c == '\u{205f}'
    ||| c == '\u{3000}'
}

pub open spec fn trim_start(s: Seq<char>) -> Seq<char>
    decreases s.len(),
{
    if s.len() > 0 && white_space(s[0]) {
        trim_start(s.drop_first())
    } else {
        s
    }
}

pub open spec fn trim_end(s: Seq<char>) -> Seq<char>
    decreases s.len(),
{
    if s.len() > 0 && white_space(s.last()) {
        trim_end(s.drop_last())
    } else {
        s
    }
}

/// `s` without leading and trailing white space.
pub open spec fn trimmed(s: Seq<char>) -> Seq<char> {
    trim_end(trim_start(s))
}

/// `i` is the position of the first `c` in `s`.
pub open spec fn first_at(s: Seq<char>, c: char, i: int) -> bool {
    0 <= i < s.len() && s[i] == c && forall|j: int| 0 <= j < i ==> s[j] != c
}

/// `i` is the position of the last `c` in `s`.
pub open spec fn last_at(s: Seq<char>, c: char, i: int) -> bool {
    0 <= i < s.len() && s[i] == c && forall|j: int| i < j < s.len() ==> s[j] != c
}

/// The trimmed text between the first `[` and the last `]`, when both occur with at least
/// one character between them.
pub open spec fn bracketed_inner(raw: Seq<char>) -> Option<Seq<char>> {
    if (exists|i: int| first_at(raw, '[', i)) && (exists|j: int| last_at(raw, ']', j)) {
        let start = choose|i: int| first_at(raw, '[', i);
        let end = choose|j: int| last_at(raw, ']', j);
        if end <= start || end - start <= 1 {
            None
        } else {
            Some(trimmed(raw.subrange(start + 1, end)))
        }
    } else {
        None
    }
}

/// The candidate name in an advertised name: the whole name when it is a stable identity,
/// else a stable identity written between brackets.
pub open spec fn candidate_name_of(raw: Seq<char>, prefix: Seq<char>) -> Option<Seq<char>> {
    if stable_identity(raw, prefix) {
        Some(raw)
    } else {
        match bracketed_inner(raw) {
            Some(inner) => if stable_identity(inner, prefix) {
                Some(inner)
            } else {
                None
            },
            None => None,
        }
    }
}

pub open spec fn option_text(o: Option<String>) -> Option<Seq<char>> {
    match o {
        Some(s) => Some(s@),
        None => None,
    }
}

proof fn lemma_trim_start(s: Seq<char>, a: int)
    requires
        0 <= a <= s.len(),
        forall|i: int| 0 <= i < a ==> white_space(#[trigger] s[i]),
        a == s.len() || !white_space(s[a]),
    ensures
        trim_start(s) == s.subrange(a, s.len() as int),
    decreases a,
{
    if a > 0 {
        let t = s.drop_first();
        assert forall|i: int| 0 <= i < a - 1 implies white_space(#[trigger] t[i]) by {
            assert(t[i] == s[i + 1]);
        }
        lemma_trim_start(t, a - 1);
        assert(t.subrange(a - 1, t.len() as int) =~= s.subrange(a, s.len() as int));
    } else {
        assert(s.subrange(0, s.len() as int) =~= s);
    }
}

proof fn lemma_trim_end(s: Seq<char>, b: int)
    requires
        0 <= b <= s.len(),
        forall|i: int| b <= i < s.len() ==> white_space(#[trigger] s[i]),
        b == 0 || !white_space(s[b - 1]),
    ensures
        trim_end(s) == s.subrange(0, b),
    decreases s.len() - b,
{
    if b < s.len() {
        let t = s.drop_last();
        assert forall|i: int| b <= i < t.len() implies white_space(#[trigger] t[i]) by {
            assert(t[i] == s[i]);
        }
        lemma_trim_end(t, b);
        assert(t.subrange(0, b) =~= s.subrange(0, b));
    } else {
        assert(s.subrange(0, b) =~= s);
    }
}

proof fn lemma_first_at_unique(s: Seq<char>, c: char, i: int, k: int)
    requires
        first_at(s, c, i),
        first_at(s, c, k),
    ensures
        i == k,
{
    if i < k {
        assert(s[i] != c);
    } else if k < i {
        assert(s[k] != c);
    }
}

proof fn lemma_last_at_unique(s: Seq<char>, c: char, i: int, k: int)
    requires
        last_at(s, c, i),
        last_at(s, c, k),
    ensures
        i == k,
{
    if i < k {
        assert(s[k] != c);
    } else if k < i {
        assert(s[i] != c);
    }
}

pub fn is_lower_base36(ch: char) -> (r: bool)
    ensures
        r == lower_base36(ch),
{
    ('0' <= ch && ch <= '9') || ('a' <= ch && ch <= 'z')
}

fn is_white_space(c: char) -> (r: bool)
    ensures
        r == white_space(c),
{
    ('\u{9}' <= c && c <= '\u{d}') || c == ' ' || c == '\u{85}' || c == '\u{a0}' || c
        == '\u{1680}' || ('\u{2000}' <= c && c <= '\u{200a}') || c == '\u{2028}' || c
        == '\u{2029}' || c == '\u{202f}' || c == '\u{205f}' || c == '\u{3000}'
}

/// Whether `suffix` is one or two non-empty runs of lower-case letters and digits joined
/// by a single `-`.
pub fn is_relaxed_identity_suffix(suffix: &str) -> (r: bool)
    ensures
        r == relaxed_identity_suffix(suffix@),
{
    let n = suffix.unicode_len();
    if n == 0 {
        return false;
    }
    let ghost s = suffix@;
    let mut dash: Option<usize> = None;
    let mut i: usize = 0;
    while i < n
        invariant
            n == s.len(),
            s == suffix@,
            i <= n,
            forall|k: int| 0 <= k < i ==> #[trigger] s[k] == '-' || lower_base36(s[k]),
            match dash {
                None => forall|k: int| 0 <= k < i ==> #[trigger] s[k] != '-',
                Some(d) => d < i && s[d as int] == '-' && forall|k: int|
                    0 <= k < i && k != d ==> #[trigger] s[k] != '-',
            },
        decreases n - i,
    {
        let c = suffix.get_char(i);
        if c == '-' {
            if dash.is_some() {
                let d = dash.unwrap();
                assert(s[d as int] == '-' && s[i as int] == '-');
                return false;
            }
            dash = Some(i);
        } else if !is_lower_base36(c) {
            return false;
        }
        i = i + 1;
    }
    let first = suffix.get_char(0);
    let last = suffix.get_char(n - 1);
    first != '-' && last != '-'
}

/// Whether `value` is `prefix`, a `-`, and a relaxed identity suffix.
pub fn is_stable_identity(value: &str, prefix: &str) -> (r: bool)
    ensures
        r == stable_identity(value@, prefix@),
{
    let n = value.unicode_len();
    let p = prefix.unicode_len();
    if n <= p {
        return false;
    }
    let head = value.substring_char(0, p);
    let head_text = text(head);
    let prefix_text = text(prefix);
    if !(head_text == prefix_text) {
        return false;
    }
    if value.get_char(p) != '-' {
        return false;
    }
    let rest = value.substring_char(p + 1, n);
    is_relaxed_identity_suffix(rest)
}

/// `s` without leading and trailing white space.
pub fn trim_text(s: &str) -> (r: String)
    ensures
        r@ == trimmed(s@),
{
    let ghost v = s@;
    let n = s.unicode_len();
    let mut a: usize = 0;
    while a < n && is_white_space(s.get_char(a))
        invariant
            v == s@,
            n == v.len(),
            a <= n,
            forall|i: int| 0 <= i < a ==> white_space(#[trigger] v[i]),
        decreases n - a,
    {
        a = a + 1;
    }
    proof {
        lemma_trim_start(v, a as int);
    }
    let ghost t = v.subrange(a as int, n as int);
    let mut b: usize = n;
    while b > a && is_white_space(s.get_char(b - 1))
        invariant
            v == s@,
            n == v.len(),
            a <= b <= n,
            t == v.subrange(a as int, n as int),
            forall|i: int| b <= i < n ==> white_space(#[trigger] v[i]),
        decreases b - a,
    {
        b = b - 1;
    }
    proof {
        assert forall|i: int| b - a <= i < t.len() implies white_space(#[trigger] t[i]) by {
            assert(t[i] == v[i + a]);
        }
        if b > a {
            assert(t[b - a - 1] == v[b - 1]);
        }
        lemma_trim_end(t, b - a);
        assert(t.subrange(0, b - a) =~= v.subrange(a as int, b as int));
    }
    text(s.substring_char(a, b))
}

/// The position of the first `c` in `s`, if any.
fn find_char(s: &str, c: char) -> (r: Option<usize>)
    ensures
        match r {
            Some(i) => first_at(s@, c, i as int),
            None => forall|i: int| 0 <= i < s@.len() ==> s@[i] != c,
        },
{
    let n = s.unicode_len();
    let mut i: usize = 0;
    while i < n
        invariant
            n == s@.len(),
            i <= n,
            forall|j: int| 0 <= j < i ==> s@[j] != c,
        decreases n - i,
    {
        if s.get_char(i) == c {
            return Some(i);
        }
        i = i + 1;
    }
    None
}

/// The position of the last `c` in `s`, if any.
fn rfind_char(s: &str, c: char) -> (r: Option<usize>)
    ensures
        match r {
            Some(i) => last_at(s@, c, i as int),
            None => forall|i: int| 0 <= i < s@.len() ==> s@[i] != c,
        },
{
    let n = s.unicode_len();
    let mut i: usize = n;
    while i > 0
        invariant
            n == s@.len(),
            i <= n,
            forall|j: int| i <= j < n ==> s@[j] != c,
        decreases i,
    {
        if s.get_char(i - 1) == c {
            return Some(i - 1);
        }
        i = i - 1;
    }
    None
}

/// The candidate name carried by an advertised name, if it carries one.
pub fn extract_candidate_name(raw_name: &str, criteria: &DiscoveryCriteria) -> (r: Option<
    String,
>)
    ensures
        option_text(r) == candidate_name_of(raw_name@, criteria.stable_prefix@),
{
    let ghost raw = raw_name@;
    if is_stable_identity(raw_name, criteria.stable_prefix.as_str()) {
        return Some(text(raw_name));
    }
    let start = match find_char(raw_name, '[') {
        Some(i) => i,
        None => {
            assert(!exists|i: int| first_at(raw, '[', i));
            return None;
        },
    };
    let end = match rfind_char(raw_name, ']') {
        Some(j) => j,
        None => {
            assert(!exists|j: int| last_at(raw, ']', j));
            return None;
        },
    };
    proof {
        let s = choose|i: int| first_at(raw, '[', i);
        let e = choose|j: int| last_at(raw, ']', j);
        lemma_first_at_unique(raw, '[', s, start as int);
        lemma_last_at_unique(raw, ']', e, end as int);
    }
    if end <= start || end - start <= 1 {
        return None;
    }
    let inner = trim_text(raw_name.substring_char(start + 1, end));
    if is_stable_identity(inner.as_str(), criteria.stable_prefix.as_str()) {
        Some(inner)
    } else {
        None
    }
}

impl DiscoveryCriteria {
    /// Criteria for names that start with `stable_prefix`, on the UART service.
    pub fn for_prefix(stable_prefix: &str) -> (r: DiscoveryCriteria)
        ensures
            r.stable_prefix@ == stable_prefix@,
            r.service_uuid@ == UART_SERVICE_UUID@,
    {
        DiscoveryCriteria { stable_prefix: text(stable_prefix), service_uuid: text(UART_SERVICE_UUID) }
    }
}

/// Classifies an advertisement by its local name; devices without one are skipped.
pub fn classify_properties(local_name: Option<&str>, criteria: &DiscoveryCriteria) -> (r: Option<
    DiscoveryMatch,
>)
    ensures
        match local_name {
            None => r is None,
            Some(raw) => r matches Some(m) && m.display_name@ == raw@ && option_text(
                m.candidate_name,
            ) == candidate_name_of(raw@, criteria.stable_prefix@) && m.matches_identity == (
            m.candidate_name is Some),
        },
{
    match local_name {
        None => None,
        Some(raw) => {
            let candidate_name = extract_candidate_name(raw, criteria);
            let matches_identity = candidate_name.is_some();
            Some(DiscoveryMatch { display_name: text(raw), candidate_name, matches_identity })
        },
    }
}

/// The filter for raw identity scans: no service filter, so that every named device is
/// seen and candidates are picked out afterwards.
pub fn raw_identity_scan_filter() -> (r: ScanServiceFilter)
    ensures
        r.services@.len() == 0,
{
    ScanServiceFilter { services: Vec::new() }
}


/// A lower-case letter or an ASCII digit.
pub open spec fn is_lower_alnum(c: char) -> bool {
    ('0' <= c && c <= '9') || ('a' <= c && c <= 'z')
}

/// A non-empty run of lower-case letters and ASCII digits.
pub open spec fn lower_alnum_run(a: Seq<char>) -> bool {
    a.len() > 0 && forall|i: int| 0 <= i < a.len() ==> #[trigger] is_lower_alnum(a[i])
}

/// Names of the form `<prefix>-<run>` and `<prefix>-<run>-<run>`, where each run is a
/// non-empty string of lower-case letters and digits, are gateway identities: such a name
/// is a candidate, and its candidate name is the whole name. The suffix may hold exactly
/// one inner `-`.
pub proof fn lemma_prefixed_run_names_are_candidates(p: Seq<char>, a: Seq<char>, b: Seq<char>)
    requires
        lower_alnum_run(a),
        lower_alnum_run(b),
    ensures
        candidate_name_of(p + seq!['-'] + a, p) == Some(p + seq!['-'] + a),
        candidate_name_of(p + seq!['-'] + a + seq!['-'] + b, p) == Some(p + seq!['-'] + a + seq!['-'] + b),
{
    let one = p + seq!['-'] + a;
    let two = p + seq!['-'] + a + seq!['-'] + b;
    let n = p.len() as int;
    assert(one.subrange(0, n) =~= p);
    assert(one[n] == '-');
    let s1 = one.subrange(n + 1, one.len() as int);
    assert(s1 =~= a);
    assert forall|i: int| 0 <= i < s1.len() implies #[trigger] s1[i] == '-' || lower_base36(s1[i]) by {
        assert(is_lower_alnum(a[i]));
    }
    assert forall|i: int, j: int|
        0 <= i < s1.len() && 0 <= j < s1.len() && #[trigger] s1[i] == '-' && #[trigger] s1[j] == '-'
            implies i == j by {
        assert(is_lower_alnum(a[i]));
    }
    assert(is_lower_alnum(a[0]) && is_lower_alnum(a[a.len() - 1]));
    assert(relaxed_identity_suffix(s1));
    assert(stable_identity(one, p));

    assert(two.subrange(0, n) =~= p);
    assert(two[n] == '-');
    let s2 = two.subrange(n + 1, two.len() as int);
    let m = a.len() as int;
    assert(s2 =~= a + seq!['-'] + b);
    assert forall|i: int| 0 <= i < s2.len() implies #[trigger] s2[i] == '-' || lower_base36(s2[i]) by {
        if i < m {
            assert(s2[i] == a[i] && is_lower_alnum(a[i]));
        } else if i > m {
            assert(s2[i] == b[i - m - 1] && is_lower_alnum(b[i - m - 1]));
        }
    }
    assert forall|i: int, j: int|
        0 <= i < s2.len() && 0 <= j < s2.len() && #[trigger] s2[i] == '-' && #[trigger] s2[j] == '-'
            implies i == j by {
        if i < m {
            assert(s2[i] == a[i] && is_lower_alnum(a[i]));
        } else if i > m {
            assert(s2[i] == b[i - m - 1] && is_lower_alnum(b[i - m - 1]));
        }
        if j < m {
            assert(s2[j] == a[j] && is_lower_alnum(a[j]));
        } else if j > m {
            assert(s2[j] == b[j - m - 1] && is_lower_alnum(b[j - m - 1]));
        }
    }
    assert(s2[0] == a[0] && is_lower_alnum(a[0]));
    assert(s2[s2.len() - 1] == b[b.len() - 1] && is_lower_alnum(b[b.len() - 1]));
    assert(relaxed_identity_suffix(s2));
    assert(stable_identity(two, p));
}


proof fn lemma_trims_shorten(s: Seq<char>)
    ensures
        trim_start(s).len() <= s.len(),
        trim_end(s).len() <= s.len(),
    decreases s.len(),
{
    if s.len() > 0 {
        lemma_trims_shorten(s.drop_first());
        lemma_trims_shorten(s.drop_last());
    }
}

proof fn lemma_inner_is_shorter(raw: Seq<char>)
    ensures
        bracketed_inner(raw) matches Some(inner) ==> inner.len() < raw.len(),
{
    if (exists|i: int| first_at(raw, '[', i)) && (exists|j: int| last_at(raw, ']', j)) {
        let start = choose|i: int| first_at(raw, '[', i);
        let end = choose|j: int| last_at(raw, ']', j);
        if !(end <= start || end - start <= 1) {
            let mid = raw.subrange(start + 1, end);
            lemma_trims_shorten(mid);
            lemma_trims_shorten(trim_start(mid));
        }
    }
}

/// A name `<prefix>-<suffix>` whose suffix is empty, starts or ends with `-`, holds a
/// character other than `-`, a lower-case letter or a digit, or holds `-` twice, is not a
/// gateway identity: it is never offered as a candidate under its whole name.
pub proof fn lemma_other_suffixes_are_refused(p: Seq<char>, t: Seq<char>)
    requires
        t.len() == 0 || t[0] == '-' || t[t.len() - 1] == '-' || (exists|i: int|
            0 <= i < t.len() && #[trigger] t[i] != '-' && !is_lower_alnum(t[i])) || (exists|
            i: int,
            j: int,
        | 0 <= i < j < t.len() && #[trigger] t[i] == '-' && #[trigger] t[j] == '-'),
    ensures
        candidate_name_of(p + seq!['-'] + t, p) != Some(p + seq!['-'] + t),
{
    let v = p + seq!['-'] + t;
    let n = p.len() as int;
    assert(v.subrange(n + 1, v.len() as int) =~= t);
    if exists|i: int| 0 <= i < t.len() && #[trigger] t[i] != '-' && !is_lower_alnum(t[i]) {
        let i = choose|i: int| 0 <= i < t.len() && #[trigger] t[i] != '-' && !is_lower_alnum(t[i]);
        assert(!(t[i] == '-' || lower_base36(t[i])));
    }
    if exists|i: int, j: int| 0 <= i < j < t.len() && #[trigger] t[i] == '-' && #[trigger] t[j] == '-' {
        let (i, j) = choose|i: int, j: int| 0 <= i < j < t.len() && #[trigger] t[i] == '-' && #[trigger] t[j] == '-';
        assert(t[i] == '-' && t[j] == '-' && i != j);
    }
    assert(!relaxed_identity_suffix(t));
    assert(!stable_identity(v, p));
    lemma_inner_is_shorter(v);
}

} // verus!
