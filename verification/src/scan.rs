use vstd::prelude::*;

use crate::discovery::{candidate_name_of, classify_properties, option_text, DiscoveryCriteria};
use crate::text::{append_decimal, decimal, text, text_eq};

verus! {

#[derive(Clone, Debug, PartialEq, Eq)]
pub struct ScanCandidateInfo {
    pub name: String,
    pub rssi: Option<i16>,
}

#[derive(Clone, Debug, PartialEq, Eq)]
pub struct ScanProgressEvent {
    pub device_name: String,
    pub rssi: Option<i16>,
    pub matches_prefix: bool,
}

#[derive(Clone, Copy, Debug, PartialEq, Eq, Structural)]
pub struct ScanRunSummary {
    pub named_device_count: usize,
    pub candidate_count: usize,
    pub cancelled: bool,
}

/// A progress event for a named device seen during a scan.
pub fn progress_event(device_name: String, rssi: Option<i16>, matches_prefix: bool) -> (e:
    ScanProgressEvent)
    ensures
        e.device_name == device_name,
        e.rssi == rssi,
        e.matches_prefix == matches_prefix,
{
    ScanProgressEvent { device_name, rssi, matches_prefix }
}

/// Lexicographic order on texts, by character code (the order of their UTF-8 bytes).
pub open spec fn text_le(x: Seq<char>, y: Seq<char>) -> bool
    decreases x.len(),
{
    if x.len() == 0 {
        true
    } else if y.len() == 0 {
        false
    } else if (x[0] as u32) < (y[0] as u32) {
        true
    } else if (x[0] as u32) > (y[0] as u32) {
        false
    } else {
        text_le(x.drop_first(), y.drop_first())
    }
}

/// Signal strength used for ordering: an unknown one counts as the weakest possible.
pub open spec fn rssi_key(rssi: Option<i16>) -> int {
    match rssi {
        Some(v) => v as int,
        None => i16::MIN as int,
    }
}

/// `a` may come before `b`: stronger signal first, then names in ascending order.
pub open spec fn candidate_le(a: ScanCandidateInfo, b: ScanCandidateInfo) -> bool {
    rssi_key(a.rssi) > rssi_key(b.rssi) || (rssi_key(a.rssi) == rssi_key(b.rssi) && text_le(
        a.name@,
        b.name@,
    ))
}

/// Strongest signal first, then by name.
pub open spec fn candidates_sorted(s: Seq<ScanCandidateInfo>) -> bool {
    forall|i: int, j: int| 0 <= i < j < s.len() ==> #[trigger] candidate_le(s[i], s[j])
}

/// Character order is total: of two texts, one comes first.
pub proof fn lemma_text_le_total(x: Seq<char>, y: Seq<char>)
    ensures
        text_le(x, y) || text_le(y, x),
    decreases x.len(),
{
    if x.len() > 0 && y.len() > 0 && (x[0] as u32) == (y[0] as u32) {
        lemma_text_le_total(x.drop_first(), y.drop_first());
    }
}

/// Character order is transitive.
pub proof fn lemma_text_le_trans(x: Seq<char>, y: Seq<char>, z: Seq<char>)
    requires
        text_le(x, y),
        text_le(y, z),
    ensures
        text_le(x, z),
    decreases x.len(),
{
    if x.len() > 0 && y.len() > 0 && z.len() > 0 && (x[0] as u32) == (y[0] as u32) && (y[0] as u32)
        == (z[0] as u32) {
        lemma_text_le_trans(x.drop_first(), y.drop_first(), z.drop_first());
    }
}

proof fn lemma_same_code_same_char(a: char, b: char)
    requires
        a as u32 == b as u32,
    ensures
        a == b,
{
}

/// Character order is antisymmetric: texts ordered both ways are equal.
pub proof fn lemma_text_le_antisymmetric(x: Seq<char>, y: Seq<char>)
    requires
        text_le(x, y),
        text_le(y, x),
    ensures
        x == y,
    decreases x.len(),
{
    if x.len() > 0 && y.len() > 0 {
        lemma_text_le_antisymmetric(x.drop_first(), y.drop_first());
        assert((x[0] as u32) == (y[0] as u32));
        lemma_same_code_same_char(x[0], y[0]);
        assert(x =~= seq![x[0]] + x.drop_first());
        assert(y =~= seq![y[0]] + y.drop_first());
    }
}

proof fn lemma_candidate_le_total(a: ScanCandidateInfo, b: ScanCandidateInfo)
    ensures
        candidate_le(a, b) || candidate_le(b, a),
{
    lemma_text_le_total(a.name@, b.name@);
}

proof fn lemma_candidate_le_trans(a: ScanCandidateInfo, b: ScanCandidateInfo, c: ScanCandidateInfo)
    requires
        candidate_le(a, b),
        candidate_le(b, c),
    ensures
        candidate_le(a, c),
{
    if rssi_key(a.rssi) == rssi_key(b.rssi) && rssi_key(b.rssi) == rssi_key(c.rssi) {
        lemma_text_le_trans(a.name@, b.name@, c.name@);
    }
}

/// Whether `a` comes before or with `b` in lexicographic character order.
pub fn text_le_exec(a: &str, b: &str) -> (r: bool)
    ensures
        r == text_le(a@, b@),
{
    let n = a.unicode_len();
    let m = b.unicode_len();
    let mut i: usize = 0;
    assert(a@.subrange(0, n as int) =~= a@);
    assert(b@.subrange(0, m as int) =~= b@);
    while i < n && i < m
        invariant
            n == a@.len(),
            m == b@.len(),
            i <= n,
            i <= m,
            text_le(a@, b@) == text_le(a@.subrange(i as int, n as int), b@.subrange(i as int, m as int)),
        decreases n - i,
    {
        let x = a.get_char(i);
        let y = b.get_char(i);
        let ghost sa = a@.subrange(i as int, n as int);
        let ghost sb = b@.subrange(i as int, m as int);
        assert(sa[0] == x && sb[0] == y);
        if (x as u32) < (y as u32) {
            return true;
        }
        if (x as u32) > (y as u32) {
            return false;
        }
        assert(sa.drop_first() =~= a@.subrange(i + 1, n as int));
        assert(sb.drop_first() =~= b@.subrange(i + 1, m as int));
        i = i + 1;
    }
    i == n
}

fn rssi_key_exec(rssi: Option<i16>) -> (k: i16)
    ensures
        k as int == rssi_key(rssi),
{
    match rssi {
        Some(v) => v,
        None => i16::MIN,
    }
}

fn candidate_le_exec(a: &ScanCandidateInfo, b: &ScanCandidateInfo) -> (r: bool)
    ensures
        r == candidate_le(*a, *b),
{
    let ka = rssi_key_exec(a.rssi);
    let kb = rssi_key_exec(b.rssi);
    ka > kb || (ka == kb && text_le_exec(a.name.as_str(), b.name.as_str()))
}

/// `a` and `b` rank the same: equal signal key and equal name.
pub open spec fn same_rank(a: ScanCandidateInfo, b: ScanCandidateInfo) -> bool {
    rssi_key(a.rssi) == rssi_key(b.rssi) && a.name@ == b.name@
}

/// The candidates of `s` that rank the same as `c`, in their order in `s`.
pub open spec fn same_rank_items(s: Seq<ScanCandidateInfo>, c: ScanCandidateInfo) -> Seq<ScanCandidateInfo>
    decreases s.len(),
{
    if s.len() == 0 {
        Seq::empty()
    } else {
        let r = same_rank_items(s.drop_last(), c);
        if same_rank(s.last(), c) {
            r.push(s.last())
        } else {
            r
        }
    }
}

proof fn lemma_same_rank_items_add(a: Seq<ScanCandidateInfo>, b: Seq<ScanCandidateInfo>, c: ScanCandidateInfo)
    ensures
        same_rank_items(a + b, c) == same_rank_items(a, c) + same_rank_items(b, c),
    decreases b.len(),
{
    if b.len() == 0 {
        assert(a + b =~= a);
        assert(same_rank_items(a, c) + same_rank_items(b, c) =~= same_rank_items(a, c));
    } else {
        assert((a + b).drop_last() =~= a + b.drop_last());
        lemma_same_rank_items_add(a, b.drop_last(), c);
        if same_rank(b.last(), c) {
            assert(same_rank_items(a, c) + same_rank_items(b, c) =~= (same_rank_items(a, c)
                + same_rank_items(b.drop_last(), c)).push(b.last()));
        }
    }
}

proof fn lemma_same_rank_items_none(s: Seq<ScanCandidateInfo>, c: ScanCandidateInfo)
    requires
        forall|i: int| 0 <= i < s.len() ==> !same_rank(#[trigger] s[i], c),
    ensures
        same_rank_items(s, c) == Seq::<ScanCandidateInfo>::empty(),
    decreases s.len(),
{
    if s.len() > 0 {
        lemma_same_rank_items_none(s.drop_last(), c);
    }
}

proof fn lemma_text_le_refl(x: Seq<char>)
    ensures
        text_le(x, x),
    decreases x.len(),
{
    if x.len() > 0 {
        lemma_text_le_refl(x.drop_first());
    }
}

/// `a` comes strictly before `b`.
pub open spec fn ranks_strictly_before(a: ScanCandidateInfo, b: ScanCandidateInfo) -> bool {
    candidate_le(a, b) && !candidate_le(b, a)
}

fn ranks_before(a: &ScanCandidateInfo, b: &ScanCandidateInfo) -> (r: bool)
    ensures
        r == ranks_strictly_before(*a, *b),
{
    candidate_le_exec(a, b) && !candidate_le_exec(b, a)
}

/// Orders candidates by signal strength (strongest first, unknown last), then by name.
/// The order is stable: candidates that rank the same keep the order they came in.
pub fn sort_scan_candidates(candidates: &mut Vec<ScanCandidateInfo>)
    ensures
        final(candidates)@.to_multiset() == old(candidates)@.to_multiset(),
        candidates_sorted(final(candidates)@),
        forall|c: ScanCandidateInfo| #[trigger] same_rank_items(final(candidates)@, c) == same_rank_items(
            old(candidates)@,
            c,
        ),
{
    broadcast use vstd::seq_lib::group_to_multiset_ensures;

    let mut input: Vec<ScanCandidateInfo> = Vec::new();
    std::mem::swap(candidates, &mut input);
    let ghost original = input@;
    let mut sorted: Vec<ScanCandidateInfo> = Vec::new();
    proof {
        assert(original.subrange(original.len() as int, original.len() as int) =~= Seq::<ScanCandidateInfo>::empty());
    }
    while input.len() > 0
        invariant
            sorted@.to_multiset().add(input@.to_multiset()) == original.to_multiset(),
            candidates_sorted(sorted@),
            input@ == original.take(input@.len() as int),
            input@.len() <= original.len(),
            forall|c: ScanCandidateInfo| #[trigger] same_rank_items(sorted@, c) == same_rank_items(
                original.subrange(input@.len() as int, original.len() as int),
                c,
            ),
        decreases input@.len(),
    {
        let ghost before_input = input@;
        let ghost before_sorted = sorted@;
        let x = input.pop().unwrap();
        assert(before_input =~= input@.push(x));
        let mut p: usize = 0;
        loop
            invariant
                p <= sorted@.len(),
                forall|i: int| 0 <= i < p ==> #[trigger] ranks_strictly_before(sorted@[i], x),
            ensures
                p <= sorted@.len(),
                forall|i: int| 0 <= i < p ==> #[trigger] ranks_strictly_before(sorted@[i], x),
                p < sorted@.len() ==> !ranks_strictly_before(sorted@[p as int], x),
            decreases sorted@.len() - p,
        {
            if p >= sorted.len() {
                break;
            }
            let before = ranks_before(&sorted[p], &x);
            if !before {
                break;
            }
            p = p + 1;
        }
        proof {
            if p < sorted@.len() {
                lemma_candidate_le_total(sorted@[p as int], x);
                assert(candidate_le(x, sorted@[p as int]));
                assert forall|j: int| p <= j < sorted@.len() implies #[trigger] candidate_le(
                    x,
                    sorted@[j],
                ) by {
                    if j > p {
                        assert(candidate_le(sorted@[p as int], sorted@[j]));
                        lemma_candidate_le_trans(x, sorted@[p as int], sorted@[j]);
                    }
                }
            }
        }
        sorted.insert(p, x);
        proof {
            let s = sorted@;
            assert(s =~= before_sorted.insert(p as int, x));
            assert forall|i: int, j: int| 0 <= i < j < s.len() implies #[trigger] candidate_le(
                s[i],
                s[j],
            ) by {
                if j < p {
                    assert(candidate_le(before_sorted[i], before_sorted[j]));
                } else if j == p {
                    assert(ranks_strictly_before(before_sorted[i], x));
                } else if i < p {
                    assert(ranks_strictly_before(before_sorted[i], x));
                    assert(candidate_le(x, before_sorted[j - 1]));
                    lemma_candidate_le_trans(before_sorted[i], x, before_sorted[j - 1]);
                } else if i == p {
                } else {
                    assert(candidate_le(before_sorted[i - 1], before_sorted[j - 1]));
                }
            }
            vstd::seq_lib::to_multiset_insert(before_sorted, p as int, x);
            vstd::seq_lib::to_multiset_build(input@, x);
            assert(sorted@.to_multiset().add(input@.to_multiset()) =~= original.to_multiset());
            // stability
            let k = input@.len() as int;
            let head = before_sorted.take(p as int);
            let tail = before_sorted.skip(p as int);
            assert(before_sorted =~= head + tail);
            assert(s =~= head + seq![x] + tail);
            let rest = original.subrange(k + 1, original.len() as int);
            assert(original.subrange(k, original.len() as int) =~= seq![x] + rest) by {
                assert(original[k] == before_input[k]);
            }
            assert(input@ =~= original.take(k));
            assert forall|c: ScanCandidateInfo| #[trigger] same_rank_items(sorted@, c) == same_rank_items(
                original.subrange(k, original.len() as int),
                c,
            ) by {
                lemma_same_rank_items_add(head + seq![x], tail, c);
                lemma_same_rank_items_add(head, seq![x], c);
                lemma_same_rank_items_add(head, tail, c);
                lemma_same_rank_items_add(seq![x], rest, c);
                assert(seq![x].drop_last() =~= Seq::<ScanCandidateInfo>::empty());
                reveal_with_fuel(same_rank_items, 2);
                assert(same_rank_items(before_sorted, c) == same_rank_items(rest, c));
                if same_rank(x, c) {
                    assert forall|i: int| 0 <= i < head.len() implies !same_rank(#[trigger] head[i], c) by {
                        assert(head[i] == before_sorted[i]);
                        assert(ranks_strictly_before(before_sorted[i], x));
                        if same_rank(head[i], c) {
                            lemma_text_le_refl(x.name@);
                            assert(candidate_le(x, head[i]));
                        }
                    }
                    lemma_same_rank_items_none(head, c);
                    assert(same_rank_items(head, c) + same_rank_items(seq![x], c) + same_rank_items(tail, c)
                        =~= same_rank_items(seq![x], c) + (same_rank_items(head, c) + same_rank_items(tail, c)));
                } else {
                    assert(same_rank_items(seq![x], c) =~= Seq::<ScanCandidateInfo>::empty());
                    assert(same_rank_items(head, c) + same_rank_items(seq![x], c) =~= same_rank_items(head, c));
                    assert(same_rank_items(seq![x], c) + same_rank_items(rest, c) =~= same_rank_items(rest, c));
                }
            }
        }
    }
    proof {
        assert(input@ =~= Seq::<ScanCandidateInfo>::empty());
        assert(input@.to_multiset() =~= vstd::multiset::Multiset::empty());
        assert(sorted@.to_multiset() =~= original.to_multiset());
        assert(original.subrange(0, original.len() as int) =~= original);
    }
    *candidates = sorted;
}

#[derive(Clone, Debug, PartialEq, Eq)]
pub struct ScanObservation {
    pub progress: Option<ScanProgressEvent>,
    pub candidate_name: Option<String>,
    pub matches_identity: bool,
}

/// Which devices a running scan has seen; devices are told apart by their identifier text.
pub struct LiveScanState {
    named_peripherals: Vec<String>,
    matched_peripherals: Vec<String>,
    pub named_device_count: usize,
    pub candidate_count: usize,
}

pub open spec fn texts_view(v: Seq<String>) -> Set<Seq<char>> {
    v.map_values(|s: String| s@).to_set()
}

fn contains_text(list: &Vec<String>, item: &str) -> (r: bool)
    ensures
        r == texts_view(list@).contains(item@),
{
    let ghost views = list@.map_values(|s: String| s@);
    let mut i: usize = 0;
    while i < list.len()
        invariant
            i <= list@.len(),
            views == list@.map_values(|s: String| s@),
            forall|j: int| 0 <= j < i ==> #[trigger] views[j] != item@,
        decreases list@.len() - i,
    {
        if text_eq(list[i].as_str(), item) {
            assert(views[i as int] == item@);
            assert(views.contains(item@));
            return true;
        }
        i = i + 1;
    }
    assert(!views.contains(item@));
    false
}

pub open spec fn text_views(v: Seq<String>) -> Seq<Seq<char>> {
    v.map_values(|s: String| s@)
}

fn insert_text(list: &mut Vec<String>, item: &str)
    requires
        text_views(old(list)@).no_duplicates(),
        !texts_view(old(list)@).contains(item@),
    ensures
        texts_view(final(list)@) == texts_view(old(list)@).insert(item@),
        final(list)@.len() == old(list)@.len() + 1,
        text_views(final(list)@).no_duplicates(),
{
    let ghost before = text_views(list@);
    list.push(text(item));
    let ghost after = text_views(list@);
    assert(after =~= before.push(item@));
    assert forall|x: Seq<char>| after.contains(x) <==> (before.contains(x) || x == item@) by {
        if before.contains(x) {
            let i = choose|i: int| 0 <= i < before.len() && before[i] == x;
            assert(after[i] == x);
        }
        if after.contains(x) {
            let i = choose|i: int| 0 <= i < after.len() && after[i] == x;
            if i < before.len() {
                assert(before[i] == x);
            }
        }
        if x == item@ {
            assert(after[before.len() as int] == x);
        }
    }
    assert(after.to_set() =~= before.to_set().insert(item@));
    assert forall|i: int, j: int| 0 <= i < after.len() && 0 <= j < after.len() && i != j
        implies after[i] != after[j] by {
        if i < before.len() && j < before.len() {
            assert(after[i] == before[i] && after[j] == before[j]);
        } else if i < before.len() {
            assert(before.to_set().contains(before[i]));
        } else if j < before.len() {
            assert(before.to_set().contains(before[j]));
        }
    }
}

impl LiveScanState {
    /// Identifiers of the named devices seen so far.
    pub closed spec fn named(&self) -> Set<Seq<char>> {
        texts_view(self.named_peripherals@)
    }

    /// Identifiers of the devices reported as candidates so far.
    pub closed spec fn matched(&self) -> Set<Seq<char>> {
        texts_view(self.matched_peripherals@)
    }

    /// The value of the public named-device counter.
    pub closed spec fn named_total(&self) -> nat {
        self.named_device_count as nat
    }

    /// The value of the public candidate counter.
    pub closed spec fn candidate_total(&self) -> nat {
        self.candidate_count as nat
    }

    /// Each identifier is kept once, and each counter equals the number of distinct
    /// identifiers it counts.
    pub closed spec fn wf(&self) -> bool {
        &&& text_views(self.named_peripherals@).no_duplicates()
        &&& text_views(self.matched_peripherals@).no_duplicates()
        &&& self.named_peripherals@.len() == self.named_device_count
        &&& self.matched_peripherals@.len() == self.candidate_count
    }

    /// A well-formed state counts every device once.
    pub proof fn lemma_counts_are_distinct_devices(&self)
        requires
            self.wf(),
        ensures
            self.named_total() == self.named().len(),
            self.candidate_total() == self.matched().len(),
            self.named().finite(),
            self.matched().finite(),
    {
        text_views(self.named_peripherals@).unique_seq_to_set();
        text_views(self.matched_peripherals@).unique_seq_to_set();
    }

    pub fn new() -> (s: LiveScanState)
        ensures
            s.wf(),
            s.named() == Set::<Seq<char>>::empty(),
            s.matched() == Set::<Seq<char>>::empty(),
            s.named_total() == 0,
            s.candidate_total() == 0,
    {
        let s = LiveScanState {
            named_peripherals: Vec::new(),
            matched_peripherals: Vec::new(),
            named_device_count: 0,
            candidate_count: 0,
        };
        assert(s.named() =~= Set::<Seq<char>>::empty());
        assert(s.matched() =~= Set::<Seq<char>>::empty());
        assert(text_views(s.named_peripherals@) =~= Seq::<Seq<char>>::empty());
        assert(text_views(s.matched_peripherals@) =~= Seq::<Seq<char>>::empty());
        s
    }

    /// Records one advertisement: the first sighting of a device yields a progress event,
    /// and the first sighting of a matching candidate yields its name.
    pub fn observe(
        &mut self,
        peripheral_id: String,
        display_name: &str,
        candidate_name: Option<String>,
        matches_identity: bool,
        rssi: Option<i16>,
    ) -> (obs: ScanObservation)
        requires
            old(self).wf(),
            old(self).named_total() < usize::MAX,
            old(self).candidate_total() < usize::MAX,
        ensures
            final(self).wf(),
            final(self).named() == old(self).named().insert(peripheral_id@),
            final(self).named_total() == final(self).named().len(),
            final(self).candidate_total() == final(self).matched().len(),
            obs.matches_identity == matches_identity,
            !old(self).named().contains(peripheral_id@) ==> (obs.progress matches Some(e)
                && e.device_name@ == display_name@ && e.rssi == rssi && e.matches_prefix
                == matches_identity && final(self).named_total() == old(self).named_total()
                + 1),
            old(self).named().contains(peripheral_id@) ==> (obs.progress is None
                && final(self).named_total() == old(self).named_total()),
            ({
                let fresh_match = candidate_name is Some && matches_identity && !old(
                    self,
                ).matched().contains(peripheral_id@);
                &&& fresh_match ==> (obs.candidate_name == candidate_name
                    && final(self).matched() == old(self).matched().insert(peripheral_id@)
                    && final(self).candidate_total() == old(self).candidate_total() + 1)
                &&& !fresh_match ==> (obs.candidate_name is None && final(self).matched()
                    == old(self).matched() && final(self).candidate_total() == old(
                    self,
                ).candidate_total())
            }),
    {
        let progress = if !contains_text(&self.named_peripherals, peripheral_id.as_str()) {
            insert_text(&mut self.named_peripherals, peripheral_id.as_str());
            self.named_device_count = self.named_device_count + 1;
            Some(progress_event(text(display_name), rssi, matches_identity))
        } else {
            assert(old(self).named().insert(peripheral_id@) =~= old(self).named());
            None
        };
        let candidate_name = match candidate_name {
            Some(name) => {
                if matches_identity && !contains_text(
                    &self.matched_peripherals,
                    peripheral_id.as_str(),
                ) {
                    insert_text(&mut self.matched_peripherals, peripheral_id.as_str());
                    Some(name)
                } else {
                    None
                }
            },
            None => None,
        };
        if candidate_name.is_some() {
            self.candidate_count = self.candidate_count + 1;
        }
        proof {
            self.lemma_counts_are_distinct_devices();
        }
        ScanObservation { progress, candidate_name, matches_identity }
    }
}


impl LiveScanState {
    /// Handles one advertisement seen during a scan: a device without a local name is
    /// skipped; otherwise its name is classified against `criteria` and recorded.
    pub fn scan_step(
        &mut self,
        peripheral_id: String,
        local_name: Option<&str>,
        criteria: &DiscoveryCriteria,
        rssi: Option<i16>,
    ) -> (obs: Option<ScanObservation>)
        requires
            old(self).wf(),
            old(self).named_total() < usize::MAX,
            old(self).candidate_total() < usize::MAX,
        ensures
            final(self).wf(),
            final(self).named_total() == final(self).named().len(),
            final(self).candidate_total() == final(self).matched().len(),
            local_name is None ==> obs is None && final(self).named() == old(self).named()
                && final(self).matched() == old(self).matched() && final(self).named_total()
                == old(self).named_total() && final(self).candidate_total() == old(self).candidate_total(),
            local_name matches Some(raw) ==> ({
                let c = candidate_name_of(raw@, criteria.stable_prefix@);
                let fresh_match = c is Some && !old(self).matched().contains(peripheral_id@);
                &&& obs matches Some(o)
                &&& final(self).named() == old(self).named().insert(peripheral_id@)
                &&& o.matches_identity == (c is Some)
                &&& !old(self).named().contains(peripheral_id@) ==> (o.progress matches Some(e)
                    && e.device_name@ == raw@ && e.rssi == rssi && e.matches_prefix == (c is Some)
                    && final(self).named_total() == old(self).named_total() + 1)
                &&& old(self).named().contains(peripheral_id@) ==> (o.progress is None
                    && final(self).named_total() == old(self).named_total())
                &&& fresh_match ==> (option_text(o.candidate_name) == c
                    && final(self).matched() == old(self).matched().insert(peripheral_id@)
                    && final(self).candidate_total() == old(self).candidate_total() + 1)
                &&& !fresh_match ==> (o.candidate_name is None && final(self).matched()
                    == old(self).matched() && final(self).candidate_total() == old(
                    self,
                ).candidate_total())
            }),
    {
        proof {
            self.lemma_counts_are_distinct_devices();
        }
        match classify_properties(local_name, criteria) {
            None => None,
            Some(m) => Some(
                self.observe(
                    peripheral_id,
                    m.display_name.as_str(),
                    m.candidate_name,
                    m.matches_identity,
                    rssi,
                ),
            ),
        }
    }

    /// The summary of a scan that ended, cancelled or not.
    pub fn summary(&self, cancelled: bool) -> (s: ScanRunSummary)
        ensures
            s.named_device_count == self.named_total(),
            s.candidate_count == self.candidate_total(),
            s.cancelled == cancelled,
    {
        ScanRunSummary {
            named_device_count: self.named_device_count,
            candidate_count: self.candidate_count,
            cancelled,
        }
    }
}

/// The error of a scan for `prefix` that found no candidate within `timeout_secs`.
pub open spec fn not_found_error(prefix: Seq<char>, timeout_secs: u64) -> Seq<char> {
    "Device '"@ + prefix + "' not found after "@ + decimal(timeout_secs as nat) + "s scan"@
}

/// The candidates a finished scan for `prefix` found, strongest signal first and then by
/// name; a scan that found none is an error.
pub fn rank_scan_candidates(candidates: Vec<ScanCandidateInfo>, prefix: &str, timeout_secs: u64) -> (r: Result<Vec<ScanCandidateInfo>, String>)
    ensures
        candidates@.len() == 0 ==> (r matches Err(e) && e@ == not_found_error(prefix@, timeout_secs)),
        candidates@.len() > 0 ==> (r matches Ok(v) && v@.to_multiset() == candidates@.to_multiset()
            && candidates_sorted(v@) && forall|c: ScanCandidateInfo| #[trigger] same_rank_items(v@, c)
            == same_rank_items(candidates@, c)),
{
    if candidates.len() == 0 {
        let mut msg = text("Device '");
        msg.append(prefix);
        msg.append("' not found after ");
        append_decimal(&mut msg, timeout_secs);
        msg.append("s scan");
        return Err(msg);
    }
    let mut ranked = candidates;
    sort_scan_candidates(&mut ranked);
    Ok(ranked)
}

} // verus!
