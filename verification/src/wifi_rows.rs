use vstd::prelude::*;
use vstd::string::StrSliceExecFns;

use crate::responses::WifiNetwork;
use crate::scan::{
    lemma_text_le_antisymmetric, lemma_text_le_total, lemma_text_le_trans, text_le, text_le_exec,
};
use crate::text::{join_texts, joined, string_views, text, text_eq};

verus! {

/// One line of the Wi-Fi table: all sightings of one network name together.
#[derive(Clone, Debug, PartialEq, Eq)]
pub struct WifiDisplayRow {
    pub ssid: String,
    pub signal: i32,
    pub channels: String,
    pub instance_count: usize,
}

/// The value of a run of decimal digits.
pub open spec fn digits_value(d: Seq<char>) -> nat
    decreases d.len(),
{
    if d.len() == 0 {
        0
    } else {
        digits_value(d.drop_last()) * 10 + (d.last() as nat - 48) as nat
    }
}

pub open spec fn all_digits(d: Seq<char>) -> bool {
    forall|i: int| 0 <= i < d.len() ==> '0' <= #[trigger] d[i] && d[i] <= '9'
}

/// A channel read as a 16-bit number the way `str::parse::<u16>` reads one: an optional
/// `+`, then at least one digit, at most 65535.
pub open spec fn channel_number(s: Seq<char>) -> Option<u16> {
    let d = if s.len() > 0 && s[0] == '+' {
        s.drop_first()
    } else {
        s
    };
    if d.len() > 0 && all_digits(d) && digits_value(d) <= 65535 {
        Some(digits_value(d) as u16)
    } else {
        None
    }
}

pub open spec fn text_lt(a: Seq<char>, b: Seq<char>) -> bool {
    text_le(a, b) && a != b
}

/// The display order of channels: non-numeric ones first, then numbers ascending; equal
/// numbers, and non-numeric ones, by their text.
pub open spec fn channel_before(a: Seq<char>, b: Seq<char>) -> bool {
    match (channel_number(a), channel_number(b)) {
        (None, Some(_)) => true,
        (Some(_), None) => false,
        (Some(x), Some(y)) => x < y || (x == y && text_lt(a, b)),
        (None, None) => text_lt(a, b),
    }
}

pub open spec fn strictly_ordered(l: Seq<Seq<char>>) -> bool {
    forall|i: int, j: int| 0 <= i < j < l.len() ==> #[trigger] channel_before(l[i], l[j])
}

/// `s` cut at each `", "`.
pub open spec fn comma_pieces(s: Seq<char>) -> Seq<Seq<char>>
    decreases s.len(),
{
    if s.len() == 0 {
        seq![Seq::empty()]
    } else if s.len() >= 2 && s[s.len() - 2] == ',' && s[s.len() - 1] == ' ' {
        comma_pieces(s.take(s.len() - 2)).push(Seq::empty())
    } else {
        let r = comma_pieces(s.drop_last());
        r.update(r.len() - 1, r.last().push(s.last()))
    }
}

/// The channels named in a channel text: its non-empty pieces between `", "`.
pub open spec fn channel_tokens(s: Seq<char>) -> Set<Seq<char>> {
    Set::new(|t: Seq<char>| comma_pieces(s).contains(t) && t.len() > 0)
}

/// One row while the networks are gathered.
pub struct RowSpec {
    pub ssid: Seq<char>,
    pub signal: i32,
    pub channels: Set<Seq<char>>,
    pub count: nat,
}

pub open spec fn new_row(n: WifiNetwork) -> RowSpec {
    RowSpec { ssid: n.ssid@, signal: n.signal, channels: channel_tokens(n.channel@), count: 1 }
}

pub open spec fn merged_row(r: RowSpec, n: WifiNetwork) -> RowSpec {
    RowSpec {
        ssid: r.ssid,
        signal: if n.signal > r.signal {
            n.signal
        } else {
            r.signal
        },
        channels: r.channels.union(channel_tokens(n.channel@)),
        count: r.count + 1,
    }
}

/// The rows for `nets`: one per network name, in order of first sighting, with the
/// strongest signal, every channel seen and the number of sightings.
pub open spec fn gathered_rows(nets: Seq<WifiNetwork>) -> Seq<RowSpec>
    decreases nets.len(),
{
    if nets.len() == 0 {
        Seq::empty()
    } else {
        let r = gathered_rows(nets.drop_last());
        let n = nets.last();
        if exists|k: int| 0 <= k < r.len() && #[trigger] r[k].ssid == n.ssid@ {
            let k = choose|k: int| 0 <= k < r.len() && #[trigger] r[k].ssid == n.ssid@;
            r.update(k, merged_row(r[k], n))
        } else {
            r.push(new_row(n))
        }
    }
}

pub open spec fn distinct_ssids(r: Seq<RowSpec>) -> bool {
    forall|i: int, j: int| 0 <= i < j < r.len() ==> #[trigger] r[i].ssid != #[trigger] r[j].ssid
}

/// A display row shows `spec`: its channels are the row's channels in display order,
/// joined by `", "`.
pub open spec fn shows(row: WifiDisplayRow, spec: RowSpec) -> bool {
    &&& row.ssid@ == spec.ssid
    &&& row.signal == spec.signal
    &&& row.instance_count == spec.count
    &&& exists|l: Seq<Seq<char>>| strictly_ordered(l) && l.to_set() == spec.channels && row.channels@
        == joined(l, ", "@)
}

proof fn lemma_digits_bound(d: Seq<char>)
    requires
        all_digits(d),
    ensures
        digits_value(d) < pow10(d.len()),
    decreases d.len(),
{
    if d.len() > 0 {
        lemma_digits_bound(d.drop_last());
        assert(all_digits(d.drop_last()));
    }
}

pub open spec fn pow10(n: nat) -> nat
    decreases n,
{
    if n == 0 {
        1
    } else {
        10 * pow10((n - 1) as nat)
    }
}

/// Reads a channel as a number, as `str::parse::<u16>` does.
fn parse_channel_number(s: &str) -> (r: Option<u16>)
    ensures
        r == channel_number(s@),
{
    let n = s.unicode_len();
    let mut start: usize = 0;
    if n > 0 && s.get_char(0) == '+' {
        start = 1;
    }
    let ghost d = if s@.len() > 0 && s@[0] == '+' {
        s@.drop_first()
    } else {
        s@
    };
    assert(d =~= s@.subrange(start as int, n as int));
    if start >= n {
        return None;
    }
    let mut value: u32 = 0;
    let mut i: usize = start;
    while i < n
        invariant
            n == s@.len(),
            start <= i <= n,
            d == s@.subrange(start as int, n as int),
            d == (if s@.len() > 0 && s@[0] == '+' {
                s@.drop_first()
            } else {
                s@
            }),
            all_digits(s@.subrange(start as int, i as int)),
            value as nat == digits_value(s@.subrange(start as int, i as int)),
            value <= 65535,
        decreases n - i,
    {
        let c = s.get_char(i);
        if !('0' <= c && c <= '9') {
            assert(d[i - start] == c);
            assert(!all_digits(d));
            return None;
        }
        let digit: u32 = c as u32 - 48;
        proof {
            let pre = s@.subrange(start as int, i as int);
            let now = s@.subrange(start as int, i + 1);
            assert(now.drop_last() =~= pre);
            assert(now.last() == c);
        }
        if value > 6553 || (value == 6553 && digit > 5) {
            proof {
                let now = s@.subrange(start as int, i + 1);
                assert(digits_value(now) == digits_value(now.drop_last()) * 10 + (c as nat - 48) as nat);
                assert(digits_value(now) == value * 10 + digit);
                assert(digits_value(now) > 65535);
                let rest = s@.subrange(i + 1, n as int);
                lemma_digits_grow(now, rest);
                assert(now + rest =~= d);
            }
            return None;
        }
        value = value * 10 + digit;
        i = i + 1;
    }
    assert(s@.subrange(start as int, n as int) =~= d);
    Some(value as u16)
}

/// Appending digits never makes a number smaller.
proof fn lemma_digits_grow(a: Seq<char>, b: Seq<char>)
    ensures
        all_digits(a + b) ==> digits_value(a + b) >= digits_value(a),
    decreases b.len(),
{
    if b.len() > 0 {
        lemma_digits_grow(a, b.drop_last());
        assert((a + b).drop_last() =~= a + b.drop_last());
        if all_digits(a + b) {
            assert forall|i: int| 0 <= i < (a + b.drop_last()).len() implies '0' <= #[trigger] (a
                + b.drop_last())[i] && (a + b.drop_last())[i] <= '9' by {
                assert((a + b.drop_last())[i] == (a + b)[i]);
            }
        }
    } else {
        assert(a + b =~= a);
    }
}


proof fn lemma_before_total(a: Seq<char>, b: Seq<char>)
    requires
        a != b,
    ensures
        channel_before(a, b) || channel_before(b, a),
{
    lemma_text_le_total(a, b);
}

proof fn lemma_before_transitive(a: Seq<char>, b: Seq<char>, c: Seq<char>)
    requires
        channel_before(a, b),
        channel_before(b, c),
    ensures
        channel_before(a, c),
{
    if text_le(a, b) && text_le(b, c) {
        lemma_text_le_trans(a, b, c);
    }
    if a == c {
        if text_le(a, b) && text_le(b, a) {
            lemma_text_le_antisymmetric(a, b);
        }
    }
}

fn channel_before_exec(a: &str, b: &str) -> (r: bool)
    ensures
        r == channel_before(a@, b@),
{
    let x = parse_channel_number(a);
    let y = parse_channel_number(b);
    let lt = text_le_exec(a, b) && !text_eq(a, b);
    match (x, y) {
        (None, Some(_)) => true,
        (Some(_), None) => false,
        (Some(u), Some(v)) => u < v || (u == v && lt),
        (None, None) => lt,
    }
}

/// Adds a channel to a list kept in display order without repeats.
fn insert_channel(list: &mut Vec<String>, t: &str)
    requires
        strictly_ordered(string_views(old(list)@)),
    ensures
        strictly_ordered(string_views(final(list)@)),
        string_views(final(list)@).to_set() == string_views(old(list)@).to_set().insert(t@),
{
    let ghost v = string_views(list@);
    let mut p: usize = 0;
    while p < list.len() && channel_before_exec(list[p].as_str(), t)
        invariant
            v == string_views(list@),
            p <= v.len(),
            forall|k: int| 0 <= k < p ==> #[trigger] channel_before(v[k], t@),
        decreases v.len() - p,
    {
        p = p + 1;
    }
    if p < list.len() && text_eq(list[p].as_str(), t) {
        assert(v[p as int] == t@);
        assert(v.to_set().insert(t@) =~= v.to_set());
        return;
    }
    proof {
        if p < v.len() {
            lemma_before_total(v[p as int], t@);
            assert forall|j: int| p <= j < v.len() implies #[trigger] channel_before(t@, v[j]) by {
                if j > p {
                    assert(channel_before(v[p as int], v[j]));
                    lemma_before_transitive(t@, v[p as int], v[j]);
                }
            }
        }
    }
    list.insert(p, text(t));
    proof {
        let w = string_views(list@);
        assert(w =~= v.insert(p as int, t@));
        assert forall|i: int, j: int| 0 <= i < j < w.len() implies #[trigger] channel_before(w[i], w[j]) by {
            if j < p {
                assert(channel_before(v[i], v[j]));
            } else if j == p {
            } else if i < p {
                assert(channel_before(v[i], t@));
                assert(channel_before(t@, v[j - 1]));
                lemma_before_transitive(v[i], t@, v[j - 1]);
            } else if i == p {
            } else {
                assert(channel_before(v[i - 1], v[j - 1]));
            }
        }
        assert forall|x: Seq<char>| w.to_set().contains(x) <==> v.to_set().insert(t@).contains(x) by {
            if w.contains(x) {
                let i = choose|i: int| 0 <= i < w.len() && w[i] == x;
                if i < p {
                    assert(v[i] == x);
                } else if i > p {
                    assert(v[i - 1] == x);
                }
            }
            if v.contains(x) {
                let i = choose|i: int| 0 <= i < v.len() && v[i] == x;
                if i < p {
                    assert(w[i] == x);
                } else {
                    assert(w[i + 1] == x);
                }
            }
            if x == t@ {
                assert(w[p as int] == x);
            }
        }
        assert(w.to_set() =~= v.to_set().insert(t@));
    }
}

/// The set of non-empty pieces in `pieces`.
pub open spec fn nonempty_set(pieces: Seq<Seq<char>>) -> Set<Seq<char>> {
    Set::new(|t: Seq<char>| pieces.contains(t) && t.len() > 0)
}

/// Adds the channels named in a channel text.
fn add_channels(list: &mut Vec<String>, channel: &str)
    requires
        strictly_ordered(string_views(old(list)@)),
    ensures
        strictly_ordered(string_views(final(list)@)),
        string_views(final(list)@).to_set() == string_views(old(list)@).to_set().union(
            channel_tokens(channel@),
        ),
{
    let ghost base = string_views(list@).to_set();
    let ghost s = channel@;
    let n = channel.unicode_len();
    let ghost mut done: Seq<Seq<char>> = Seq::empty();
    let mut start: usize = 0;
    let mut i: usize = 0;
    assert(s.take(0) =~= Seq::<char>::empty());
    while i < n
        invariant
            s == channel@,
            n == s.len(),
            start <= i <= n,
            comma_pieces(s.take(i as int)) == done.push(s.subrange(start as int, i as int)),
            i > 0 && i < n ==> !(s[i - 1] == ',' && s[i as int] == ' '),
            strictly_ordered(string_views(list@)),
            string_views(list@).to_set() == base.union(nonempty_set(done)),
        decreases n - i,
    {
        let c = channel.get_char(i);
        if c == ',' && i + 1 < n && channel.get_char(i + 1) == ' ' {
            let piece = channel.substring_char(start, i);
            let ghost before = string_views(list@).to_set();
            if start < i {
                insert_channel(list, piece);
            }
            proof {
                let pc = s.subrange(start as int, i as int);
                let t2 = s.take(i + 2);
                assert(t2.take(i as int) =~= s.take(i as int));
                assert(t2[t2.len() - 2] == ',' && t2[t2.len() - 1] == ' ');
                assert(comma_pieces(t2) == comma_pieces(s.take(i as int)).push(Seq::empty()));
                let old_done = done;
                done = done.push(pc);
                assert(s.subrange(i + 2, i + 2) =~= Seq::<char>::empty());
                assert forall|t: Seq<char>| nonempty_set(done).contains(t) <==> (nonempty_set(old_done).contains(t) || (t == pc && pc.len() > 0)) by {
                    if done.contains(t) {
                        let k = choose|k: int| 0 <= k < done.len() && done[k] == t;
                        if k < old_done.len() {
                            assert(old_done[k] == t);
                        }
                    }
                    if old_done.contains(t) {
                        let k = choose|k: int| 0 <= k < old_done.len() && old_done[k] == t;
                        assert(done[k] == t);
                    }
                    if t == pc {
                        assert(done[old_done.len() as int] == t);
                    }
                }
                if start < i {
                    assert(string_views(list@).to_set() =~= base.union(nonempty_set(done)));
                } else {
                    assert(nonempty_set(done) =~= nonempty_set(old_done));
                }
            }
            i = i + 2;
            start = i;
        } else {
            proof {
                let t1 = s.take(i + 1);
                assert(t1.drop_last() =~= s.take(i as int));
                assert(t1.last() == c);
                if i >= 1 {
                    assert(t1[t1.len() - 2] == s[i - 1]);
                    assert(!(t1[t1.len() - 2] == ',' && t1[t1.len() - 1] == ' '));
                }
                assert(s.subrange(start as int, i + 1) =~= s.subrange(start as int, i as int).push(c));
            }
            i = i + 1;
        }
    }
    let last = channel.substring_char(start, n);
    if start < n {
        insert_channel(list, last);
    }
    proof {
        assert(s.take(n as int) =~= s);
        let pieces = done.push(s.subrange(start as int, n as int));
        assert(comma_pieces(s) == pieces);
        assert forall|t: Seq<char>| channel_tokens(s).contains(t) <==> (nonempty_set(done).contains(t) || (t == s.subrange(start as int, n as int) && t.len() > 0)) by {
            if pieces.contains(t) {
                let k = choose|k: int| 0 <= k < pieces.len() && pieces[k] == t;
                if k < done.len() {
                    assert(done[k] == t);
                }
            }
            if done.contains(t) {
                let k = choose|k: int| 0 <= k < done.len() && done[k] == t;
                assert(pieces[k] == t);
            }
            if t == s.subrange(start as int, n as int) {
                assert(pieces[done.len() as int] == t);
            }
        }
        assert(string_views(list@).to_set() =~= base.union(channel_tokens(s)));
    }
}


/// The channel list in display order, without repeats, joined by `", "`.
pub open spec fn channel_list_text(channels: Set<Seq<char>>, t: Seq<char>) -> bool {
    exists|l: Seq<Seq<char>>| strictly_ordered(l) && l.to_set() == channels && t == joined(
        l,
        ", "@,
    )
}

/// The channels named in `channels`, in display order, without repeats.
pub fn normalize_channels(channels: &str) -> (r: String)
    ensures
        channel_list_text(channel_tokens(channels@), r@),
{
    let mut list: Vec<String> = Vec::new();
    assert(string_views(list@) =~= Seq::<Seq<char>>::empty());
    add_channels(&mut list, channels);
    assert(string_views(list@).to_set() =~= channel_tokens(channels@)) by {
        assert(Seq::<Seq<char>>::empty().to_set() =~= Set::<Seq<char>>::empty());
    }
    let r = join_texts(list.as_slice(), ", ");
    assert(strictly_ordered(string_views(list@)));
    r
}

/// The non-empty pieces of `s` between `", "`, in order.
pub open spec fn nonempty_pieces(s: Seq<char>) -> Seq<Seq<char>> {
    comma_pieces(s).filter(|t: Seq<char>| t.len() > 0)
}

fn collect_pieces(channel: &str) -> (r: Vec<String>)
    ensures
        string_views(r@) == nonempty_pieces(channel@),
{
    let ghost s = channel@;
    let n = channel.unicode_len();
    let ghost mut done: Seq<Seq<char>> = Seq::empty();
    let mut out: Vec<String> = Vec::new();
    let mut start: usize = 0;
    let mut i: usize = 0;
    assert(s.take(0) =~= Seq::<char>::empty());
    while i < n
        invariant
            s == channel@,
            n == s.len(),
            start <= i <= n,
            comma_pieces(s.take(i as int)) == done.push(s.subrange(start as int, i as int)),
            i > 0 && i < n ==> !(s[i - 1] == ',' && s[i as int] == ' '),
            string_views(out@) == done.filter(|t: Seq<char>| t.len() > 0),
        decreases n - i,
    {
        let c = channel.get_char(i);
        if c == ',' && i + 1 < n && channel.get_char(i + 1) == ' ' {
            let ghost before = string_views(out@);
            let piece = text(channel.substring_char(start, i));
            proof {
                let t2 = s.take(i + 2);
                assert(t2.take(i as int) =~= s.take(i as int));
                assert(t2[t2.len() - 2] == ',' && t2[t2.len() - 1] == ' ');
                assert(comma_pieces(t2) == comma_pieces(s.take(i as int)).push(Seq::empty()));
                let old_done = done;
                done = done.push(piece@);
                assert(done.drop_last() =~= old_done);
                assert(s.subrange(i + 2, i + 2) =~= Seq::<char>::empty());
                reveal(Seq::filter);
            }
            if start < i {
                out.push(piece);
                assert(string_views(out@) =~= before.push(s.subrange(start as int, i as int)));
            }
            i = i + 2;
            start = i;
        } else {
            proof {
                let t1 = s.take(i + 1);
                assert(t1.drop_last() =~= s.take(i as int));
                assert(t1.last() == c);
                if i >= 1 {
                    assert(t1[t1.len() - 2] == s[i - 1]);
                }
                assert(s.subrange(start as int, i + 1) =~= s.subrange(start as int, i as int).push(c));
            }
            i = i + 1;
        }
    }
    let ghost before = string_views(out@);
    let last = text(channel.substring_char(start, n));
    proof {
        assert(s.take(n as int) =~= s);
        let pieces = done.push(last@);
        assert(comma_pieces(s) == pieces);
        assert(pieces.drop_last() =~= done);
        reveal(Seq::filter);
    }
    if start < n {
        out.push(last);
        assert(string_views(out@) =~= before.push(last@));
    }
    out
}

/// Adds a channel to a channel text unless it is one of its pieces already.
pub fn merge_channel(channels: &mut String, channel: &str)
    ensures
        final(channels)@ == joined(
            if nonempty_pieces(old(channels)@).contains(channel@) {
                nonempty_pieces(old(channels)@)
            } else {
                nonempty_pieces(old(channels)@).push(channel@)
            },
            ", "@,
        ),
{
    let mut values = collect_pieces(channels.as_str());
    let ghost v = string_views(values@);
    let mut found = false;
    let mut k: usize = 0;
    while k < values.len()
        invariant
            v == string_views(values@),
            k <= v.len(),
            found <==> exists|j: int| 0 <= j < k && v[j] == channel@,
        decreases v.len() - k,
    {
        if text_eq(values[k].as_str(), channel) {
            assert(v[k as int] == channel@);
            found = true;
        }
        k = k + 1;
    }
    if !found {
        values.push(text(channel));
        assert(string_views(values@) =~= v.push(channel@));
    }
    *channels = join_texts(values.as_slice(), ", ");
}

/// Private accumulator of one row.
struct RowAcc {
    ssid: String,
    signal: i32,
    channels: Vec<String>,
    count: usize,
}

spec fn acc_matches(a: RowAcc, r: RowSpec) -> bool {
    &&& a.ssid@ == r.ssid
    &&& a.signal == r.signal
    &&& a.count == r.count
    &&& strictly_ordered(string_views(a.channels@))
    &&& string_views(a.channels@).to_set() == r.channels
}

/// The Wi-Fi table: one row per network name, in order of first sighting, with its
/// strongest signal, its channels in display order and how often it was seen.
pub fn aggregate_wifi_networks(networks: &[WifiNetwork]) -> (r: Vec<WifiDisplayRow>)
    ensures
        r@.len() == gathered_rows(networks@).len(),
        forall|k: int| 0 <= k < r@.len() ==> shows(#[trigger] r@[k], gathered_rows(networks@)[k]),
{
    let mut rows: Vec<RowAcc> = Vec::new();
    let mut i: usize = 0;
    while i < networks.len()
        invariant
            i <= networks@.len(),
            rows@.len() == gathered_rows(networks@.take(i as int)).len(),
            distinct_ssids(gathered_rows(networks@.take(i as int))),
            forall|k: int| 0 <= k < rows@.len() ==> #[trigger] rows@[k].count <= i,
            forall|k: int| 0 <= k < rows@.len() ==> acc_matches(#[trigger] rows@[k], gathered_rows(networks@.take(i as int))[k]),
        decreases networks@.len() - i,
    {
        let ghost g = gathered_rows(networks@.take(i as int));
        let net = &networks[i];
        proof {
            assert(networks@.take(i + 1).drop_last() =~= networks@.take(i as int));
            assert(networks@.take(i + 1).last() == *net);
        }
        let mut p: usize = 0;
        while p < rows.len() && !text_eq(rows[p].ssid.as_str(), net.ssid.as_str())
            invariant
                p <= rows@.len(),
                rows@.len() == g.len(),
                forall|k: int| 0 <= k < rows@.len() ==> acc_matches(#[trigger] rows@[k], g[k]),
                forall|k: int| 0 <= k < p ==> #[trigger] g[k].ssid != net.ssid@,
            decreases rows@.len() - p,
        {
            assert(acc_matches(rows@[p as int], g[p as int]));
            p = p + 1;
        }
        if p < rows.len() {
            proof {
                assert(acc_matches(rows@[p as int], g[p as int]));
                assert(g[p as int].ssid == net.ssid@);
                let k = choose|k: int| 0 <= k < g.len() && #[trigger] g[k].ssid == net.ssid@;
                if k != p {
                    if k < p {
                        assert(g[k].ssid != g[p as int].ssid);
                    } else {
                        assert(g[p as int].ssid != g[k].ssid);
                    }
                }
            }
            let ghost rows_before = rows@;
            assert(rows@[p as int].count <= i);
            let mut row = rows.remove(p);
            if net.signal > row.signal {
                row.signal = net.signal;
            }
            row.count = row.count + 1;
            add_channels(&mut row.channels, net.channel.as_str());
            rows.insert(p, row);
            proof {
                assert(rows@ =~= rows_before.update(p as int, rows@[p as int]));
                let g2 = gathered_rows(networks@.take(i + 1));
                assert(g2 == g.update(p as int, merged_row(g[p as int], *net)));
                assert forall|k: int| 0 <= k < rows@.len() implies acc_matches(#[trigger] rows@[k], g2[k]) by {
                    if k != p {
                        assert(rows@[k] == rows_before[k]);
                        assert(acc_matches(rows_before[k], g[k]));
                    }
                }
            }
        } else {
            let mut channels: Vec<String> = Vec::new();
            assert(string_views(channels@) =~= Seq::<Seq<char>>::empty());
            add_channels(&mut channels, net.channel.as_str());
            assert(Seq::<Seq<char>>::empty().to_set() =~= Set::<Seq<char>>::empty());
            assert(string_views(channels@).to_set() =~= channel_tokens(net.channel@));
            rows.push(RowAcc { ssid: text(net.ssid.as_str()), signal: net.signal, channels, count: 1 });
            proof {
                let g2 = gathered_rows(networks@.take(i + 1));
                assert(!exists|k: int| 0 <= k < g.len() && #[trigger] g[k].ssid == net.ssid@);
                assert(g2 == g.push(new_row(*net)));
            }
        }
        i = i + 1;
    }
    proof {
        assert(networks@.take(networks@.len() as int) =~= networks@);
    }
    let ghost g = gathered_rows(networks@);
    let mut out: Vec<WifiDisplayRow> = Vec::new();
    let mut k: usize = 0;
    while k < rows.len()
        invariant
            k <= rows@.len(),
            rows@.len() == g.len(),
            out@.len() == k,
            forall|j: int| 0 <= j < rows@.len() ==> acc_matches(#[trigger] rows@[j], g[j]),
            forall|j: int| 0 <= j < k ==> shows(#[trigger] out@[j], g[j]),
        decreases rows@.len() - k,
    {
        let row = &rows[k];
        assert(acc_matches(rows@[k as int], g[k as int]));
        let channels = join_texts(row.channels.as_slice(), ", ");
        let shown = WifiDisplayRow {
            ssid: text(row.ssid.as_str()),
            signal: row.signal,
            channels,
            instance_count: row.count,
        };
        proof {
            let l = string_views(row.channels@);
            assert(strictly_ordered(l) && l.to_set() == g[k as int].channels && shown.channels@ == joined(l, ", "@));
        }
        out.push(shown);
        k = k + 1;
    }
    out
}

} // verus!
