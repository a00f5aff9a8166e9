use vstd::prelude::*;
use vstd::string::StrSliceExecFns;

use crate::chunking::{
    build_response_json_chunk, chunk_faults, chunk_read, chunk_step, drop_session, empty_parts,
    first_index, put_session, session_for, with_piece, ChunkRead, JsonChunkView, OutcomeView,
    SessionView,
};
use crate::protocol::{CommandResponse, ProtocolErrorView, PROTOCOL_VERSION};
use crate::receipt::{receipt_for, ReceiptView};
use crate::transport::seen_within;
use crate::text::{joined, string_views, text};

verus! {

/// Sum of the piece lengths.
pub open spec fn total_length(lengths: Seq<usize>) -> int
    decreases lengths.len(),
{
    if lengths.len() == 0 {
        0
    } else {
        total_length(lengths.drop_last()) + lengths.last()
    }
}

/// Where piece `i` starts: the sum of the lengths before it.
pub open spec fn piece_start(lengths: Seq<usize>, i: int) -> int {
    total_length(lengths.take(i))
}

/// Whether the chunk carrying `len` characters from `start` was found to fit.
pub open spec fn answered(answers: Map<(int, int), bool>, start: int, len: int, fits: bool) -> bool {
    answers.contains_key((start, len)) && answers[(start, len)] == fits
}

/// A piece as the search leaves it: it fits, and it is the rest of the text or one more
/// character would not fit; or it is a single character that does not fit on its own.
pub open spec fn longest_fit(answers: Map<(int, int), bool>, start: int, len: int, text_len: int) -> bool {
    ||| answered(answers, start, len, true) && (start + len == text_len || answered(
        answers,
        start,
        len + 1,
        false,
    ))
    ||| len == 1 && answered(answers, start, 1, false)
}

/// Plans how a serialized response is cut into `response_json` chunk payloads.
///
/// For each piece the plan searches, by halving, for the longest run of characters whose
/// chunk still fits one BLE write. The plan names the candidate to measure next, and is
/// told whether its chunk fits; measuring is left to the caller, who serializes the chunk.
pub struct ChunkPlan {
    text_len: usize,
    start: usize,
    low: usize,
    high: usize,
    best: usize,
    lengths: Vec<usize>,
    answers: Ghost<Map<(int, int), bool>>,
}

impl ChunkPlan {
    /// Number of characters of the serialized response.
    pub closed spec fn text_len(&self) -> nat {
        self.text_len as nat
    }

    /// Characters already cut into pieces.
    pub closed spec fn cut(&self) -> nat {
        self.start as nat
    }

    /// Lengths of the pieces cut so far, in order.
    pub closed spec fn lengths(&self) -> Seq<usize> {
        self.lengths@
    }

    /// What the caller answered for each measured candidate, by start and length.
    pub closed spec fn answers(&self) -> Map<(int, int), bool> {
        self.answers@
    }

    /// The lengths still open for the piece being searched for, lowest and highest.
    pub closed spec fn window(&self) -> (int, int) {
        (self.low as int, self.high as int)
    }

    /// The longest candidate found to fit so far for the piece being searched for (1 when
    /// none has).
    pub closed spec fn best(&self) -> int {
        self.best as int
    }

    /// The candidate length the search tries next, while a piece is being searched for.
    pub open spec fn next_len(&self) -> int {
        (self.window().0 + self.window().1) / 2
    }

    pub closed spec fn wf(&self) -> bool {
        &&& self.text_len < usize::MAX
        &&& self.start <= self.text_len
        &&& total_length(self.lengths@) == self.start
        &&& forall|i: int|
            0 <= i < self.lengths@.len() ==> #[trigger] self.lengths@[i] >= 1 && longest_fit(
                self.answers@,
                piece_start(self.lengths@, i),
                self.lengths@[i] as int,
                self.text_len as int,
            )
        &&& forall|k: (int, int)| #[trigger] self.answers@.contains_key(k) ==> k.0 <= self.start
        &&& self.start < self.text_len ==> {
            &&& forall|k: (int, int)|
                #[trigger] self.answers@.contains_key(k) && k.0 == self.start ==> k.1 < self.low
                    || k.1 > self.high
            &&& 1 <= self.low <= self.high <= self.text_len - self.start
            &&& self.best == if self.low == 1 {
                1
            } else {
                self.low - 1
            }
            &&& self.low > 1 ==> answered(self.answers@, self.start as int, self.low - 1, true)
            &&& self.high < self.text_len - self.start ==> answered(
                self.answers@,
                self.start as int,
                self.high + 1,
                false,
            )
        }
    }

    /// A plan for a text of `text_len` characters, with nothing cut or measured yet.
    pub fn new(text_len: usize) -> (r: ChunkPlan)
        requires
            text_len < usize::MAX,
        ensures
            r.wf(),
            r.text_len() == text_len,
            r.cut() == 0,
            r.lengths() == Seq::<usize>::empty(),
            r.answers() == Map::<(int, int), bool>::empty(),
            r.window() == (1int, text_len as int),
            r.best() == 1,
    {
        let r = ChunkPlan {
            text_len,
            start: 0,
            low: 1,
            high: text_len,
            best: 1,
            lengths: Vec::new(),
            answers: Ghost(Map::empty()),
        };
        assert(r.lengths@ =~= Seq::<usize>::empty());
        r
    }

    /// The candidate to measure next, as its start and length in characters: the middle of
    /// the lengths still open for the piece being searched. `None` once the whole text is cut.
    pub fn probe(&self) -> (r: Option<(usize, usize)>)
        requires
            self.wf(),
        ensures
            match r {
                None => self.cut() == self.text_len(),
                Some((s, len)) => {
                    &&& self.cut() < self.text_len()
                    &&& s == self.cut()
                    &&& len == self.next_len()
                    &&& 1 <= len
                    &&& s + len <= self.text_len()
                    &&& !self.answers().contains_key((s as int, len as int))
                },
            },
    {
        if self.start == self.text_len {
            None
        } else {
            let mid = self.low + (self.high - self.low) / 2;
            assert(mid == (self.low + self.high) / 2);
            Some((self.start, mid))
        }
    }

    proof fn lemma_pieces_kept(&self, next: Map<(int, int), bool>, key: (int, int))
        requires
            self.wf(),
            key.0 == self.start,
            self.start < self.text_len,
            next == self.answers@.insert(key, next[key]),
        ensures
            forall|i: int|
                0 <= i < self.lengths@.len() ==> longest_fit(
                    next,
                    #[trigger] piece_start(self.lengths@, i),
                    self.lengths@[i] as int,
                    self.text_len as int,
                ),
    {
        assert forall|i: int| 0 <= i < self.lengths@.len() implies longest_fit(
            next,
            #[trigger] piece_start(self.lengths@, i),
            self.lengths@[i] as int,
            self.text_len as int,
        ) by {
            lemma_piece_before_end(self.lengths@, i);
            assert(longest_fit(
                self.answers@,
                piece_start(self.lengths@, i),
                self.lengths@[i] as int,
                self.text_len as int,
            ));
        }
    }

    /// Records whether the candidate of [`Self::probe`] fits. A fitting candidate becomes
    /// the longest fit so far and the search goes on above it; otherwise it goes on below.
    /// Once the search for a piece is over, the piece is cut and the next search starts
    /// after it.
    #[verifier::rlimit(40)]
    pub fn record(&mut self, fits: bool)
        requires
            old(self).wf(),
            old(self).cut() < old(self).text_len(),
        ensures
            final(self).wf(),
            final(self).text_len() == old(self).text_len(),
            final(self).answers() == old(self).answers().insert(
                (old(self).cut() as int, old(self).next_len()),
                fits,
            ),
            ({
                let (lo, hi) = old(self).window();
                let mid = old(self).next_len();
                let (lo2, hi2, best2) = if fits {
                    (mid + 1, hi, mid)
                } else {
                    (lo, mid - 1, old(self).best())
                };
                if lo2 <= hi2 {
                    &&& final(self).cut() == old(self).cut()
                    &&& final(self).lengths() == old(self).lengths()
                    &&& final(self).window() == (lo2, hi2)
                    &&& final(self).best() == best2
                } else {
                    &&& final(self).cut() == old(self).cut() + best2
                    &&& final(self).lengths() == old(self).lengths().push(best2 as usize)
                    &&& final(self).cut() < final(self).text_len() ==> final(self).window() == (
                        1int,
                        final(self).text_len() - final(self).cut(),
                    ) && final(self).best() == 1
                }
            }),
    {
        let ghost old_answers = self.answers@;
        let ghost start = self.start as int;
        let ghost n = self.text_len - self.start;
        let mid = self.low + (self.high - self.low) / 2;
        assert(mid == (self.low + self.high) / 2);
        let ghost key = (self.start as int, mid as int);
        let ghost next = old_answers.insert(key, fits);
        proof {
            self.lemma_pieces_kept(next, key);
        }
        let (low, high, best) = if fits {
            (mid + 1, self.high, mid)
        } else {
            (self.low, mid - 1, self.best)
        };
        assert(1 <= low <= high + 1 <= n + 1);
        assert(best == if low == 1 { 1 } else { low - 1 });
        assert(low > 1 ==> answered(next, start, low - 1, true));
        assert(high < n ==> answered(next, start, high + 1, false));
        assert forall|k: (int, int)| #[trigger] next.contains_key(k) && k.0 == start implies k.1 < low
            || k.1 > high by {
            if k != key {
                assert(old_answers.contains_key(k));
            }
        }
        assert forall|k: (int, int)| #[trigger] next.contains_key(k) implies k.0 <= start by {
            if k != key {
                assert(old_answers.contains_key(k));
            }
        }
        self.answers = Ghost(next);
        if low > high {
            assert(longest_fit(next, start, best as int, self.text_len as int));
            let ghost before = self.lengths@;
            self.lengths.push(best);
            proof {
                assert(self.lengths@.take(before.len() as int) =~= before);
                assert(self.lengths@.drop_last() =~= before);
                assert forall|i: int| 0 <= i < before.len() implies #[trigger] piece_start(
                    self.lengths@,
                    i,
                ) == piece_start(before, i) by {
                    assert(self.lengths@.take(i) =~= before.take(i));
                }
            }
            self.start = self.start + best;
            if self.start < self.text_len {
                self.low = 1;
                self.high = self.text_len - self.start;
                self.best = 1;
            } else {
                self.low = low;
                self.high = high;
                self.best = best;
            }
        } else {
            self.low = low;
            self.high = high;
            self.best = best;
        }
    }

    /// The lengths of the pieces, once the whole text is cut: each one the longest fit from
    /// where it starts, and together the whole text.
    pub fn piece_lengths(&self) -> (r: &Vec<usize>)
        requires
            self.wf(),
            self.cut() == self.text_len(),
        ensures
            r@ == self.lengths(),
            total_length(r@) == self.text_len(),
            forall|i: int|
                0 <= i < r@.len() ==> #[trigger] r@[i] >= 1 && longest_fit(
                    self.answers(),
                    piece_start(r@, i),
                    r@[i] as int,
                    self.text_len() as int,
                ),
    {
        &self.lengths
    }
}

/// The payloads of a fully cut text: piece `i` is the run of characters its length gives
/// from where it starts, and the payloads joined give the text back.
pub fn cut_payloads(plan: &ChunkPlan, raw: &str) -> (r: Vec<String>)
    requires
        plan.wf(),
        plan.cut() == plan.text_len(),
        raw@.len() == plan.text_len(),
    ensures
        r@.len() == plan.lengths().len(),
        forall|i: int| 0 <= i < r@.len() ==> (#[trigger] r@[i]@).len() >= 1,
        forall|i: int|
            0 <= i < r@.len() ==> #[trigger] r@[i]@ == raw@.subrange(
                piece_start(plan.lengths(), i),
                piece_start(plan.lengths(), i) + plan.lengths()[i],
            ),
        joined(string_views(r@), Seq::empty()) == raw@,
{
    let lengths = plan.piece_lengths();
    let ghost ls = lengths@;
    let mut out: Vec<String> = Vec::new();
    let mut pos: usize = 0;
    let mut i: usize = 0;
    proof {
        reveal_strlit("");
    }
    while i < lengths.len()
        invariant
            ls == lengths@,
            ls == plan.lengths(),
            total_length(ls) == raw@.len(),
            raw@.len() < usize::MAX,
            i <= ls.len(),
            pos == piece_start(ls, i as int),
            out@.len() == i,
            forall|j: int| 0 <= j < ls.len() ==> #[trigger] ls[j] >= 1,
            forall|j: int| 0 <= j < i ==> (#[trigger] out@[j]@).len() >= 1,
            forall|j: int|
                0 <= j < i ==> #[trigger] out@[j]@ == raw@.subrange(
                    piece_start(ls, j),
                    piece_start(ls, j) + ls[j],
                ),
            joined(string_views(out@), Seq::empty()) == raw@.subrange(0, pos as int),
        decreases ls.len() - i,
    {
        proof {
            lemma_total_length_prefix(ls, i as int);
            lemma_total_length_prefix(ls, i as int + 1);
        }
        let len = lengths[i];
        let piece = char_range(raw, pos, len);
        assert(piece@.len() == len);
        let ghost before = out@;
        out.push(piece);
        proof {
            let vs = string_views(out@);
            assert(vs.drop_last() =~= string_views(before));
            assert(vs.last() == piece@);
            if before.len() == 0 {
                assert(raw@.subrange(0, pos as int) =~= Seq::<char>::empty());
            }
            assert(joined(vs, Seq::empty()) =~= raw@.subrange(0, pos + len));
            assert forall|j: int| 0 <= j < i implies #[trigger] out@[j] == before[j] by {}
        }
        pos = pos + len;
        i = i + 1;
    }
    proof {
        assert(ls.take(ls.len() as int) =~= ls);
        assert(raw@.subrange(0, raw@.len() as int) =~= raw@);
    }
    out
}

proof fn lemma_total_length_prefix(lengths: Seq<usize>, i: int)
    requires
        0 <= i <= lengths.len(),
    ensures
        total_length(lengths.take(i)) <= total_length(lengths),
        i < lengths.len() ==> total_length(lengths.take(i + 1)) == total_length(lengths.take(i))
            + lengths[i],
    decreases lengths.len() - i,
{
    if i < lengths.len() {
        assert(lengths.take(i + 1).drop_last() =~= lengths.take(i));
        assert(lengths.take(i + 1).last() == lengths[i]);
        lemma_total_length_prefix(lengths, i + 1);
    } else {
        assert(lengths.take(i) =~= lengths);
    }
}

proof fn lemma_piece_before_end(lengths: Seq<usize>, i: int)
    requires
        0 <= i < lengths.len(),
    ensures
        piece_start(lengths, i) + lengths[i] <= total_length(lengths),
{
    lemma_total_length_prefix(lengths, i);
    lemma_total_length_prefix(lengths, i + 1);
}

/// The `count` characters of `raw` from character `start`.
pub fn char_range(raw: &str, start: usize, count: usize) -> (r: String)
    requires
        start + count <= raw@.len(),
        start + count <= usize::MAX,
    ensures
        r@ == raw@.subrange(start as int, start + count),
{
    text(raw.substring_char(start, start + count))
}

/// The `response_json` chunks that carry the given payloads of `resp`, numbered from 1.
pub fn response_json_chunks(resp: &CommandResponse, payloads: Vec<String>) -> (r: Vec<CommandResponse>)
    ensures
        r@.len() == payloads@.len(),
        forall|i: int|
            #![trigger r@[i]]
            0 <= i < r@.len() ==> {
                &&& r@[i].id@ == resp.id@
                &&& r@[i].ok == resp.ok
                &&& r@[i].code@ == resp.code@
                &&& r@[i].v@ == resp.v@
                &&& r@[i].text@ == Seq::<char>::empty()
                &&& receipt_for(r@[i]) == Some(
                    ReceiptView {
                        response_id: resp.id@,
                        response_seq: 1,
                        chunk_index: (i + 1) as usize,
                        chunk_total: payloads@.len() as usize,
                    },
                )
                &&& chunk_read(r@[i].data) == ChunkRead::Json(
                    JsonChunkView {
                        mode: "response_json"@,
                        index: (i + 1) as usize,
                        total: payloads@.len() as usize,
                        payload: payloads@[i]@,
                    },
                )
            },
{
    let total = payloads.len();
    let mut out: Vec<CommandResponse> = Vec::new();
    let mut i: usize = 0;
    while i < total
        invariant
            total == payloads@.len(),
            i <= total,
            out@.len() == i,
            forall|j: int|
                #![trigger out@[j]]
                0 <= j < i ==> {
                    &&& out@[j].id@ == resp.id@
                    &&& out@[j].ok == resp.ok
                    &&& out@[j].code@ == resp.code@
                    &&& out@[j].v@ == resp.v@
                    &&& out@[j].text@ == Seq::<char>::empty()
                    &&& receipt_for(out@[j]) == Some(
                        ReceiptView {
                            response_id: resp.id@,
                            response_seq: 1,
                            chunk_index: (j + 1) as usize,
                            chunk_total: total,
                        },
                    )
                    &&& chunk_read(out@[j].data) == ChunkRead::Json(
                        JsonChunkView {
                            mode: "response_json"@,
                            index: (j + 1) as usize,
                            total: total,
                            payload: payloads@[j]@,
                        },
                    )
                },
        decreases total - i,
    {
        let payload = text(payloads[i].as_str());
        assert(payload@ == payloads@[i as int]@);
        let chunk = build_response_json_chunk(resp, payload, i + 1, total);
        let ghost before = out@;
        out.push(chunk);
        assert(out@ == before.push(chunk));
        assert(out@[i as int] == chunk);
        assert forall|j: int| 0 <= j < i implies #[trigger] out@[j] == before[j] by {}
        i = i + 1;
    }
    out
}


/// Whether `c` is chunk `i` (counting from 0) of `n` of response `id`, carrying `payload`.
pub open spec fn is_json_chunk(c: CommandResponse, id: Seq<char>, i: int, n: int, payload: Seq<char>) -> bool {
    &&& c.id@ == id
    &&& chunk_read(c.data) == ChunkRead::Json(
        JsonChunkView { mode: "response_json"@, index: (i + 1) as usize, total: n as usize, payload },
    )
}

/// Feeds responses to the assembly in order, collecting what each one gives.
pub open spec fn assembly_run(s: Seq<SessionView>, resps: Seq<CommandResponse>) -> (
    Seq<SessionView>,
    Seq<Result<OutcomeView, ProtocolErrorView>>,
)
    decreases resps.len(),
{
    if resps.len() == 0 {
        (s, Seq::empty())
    } else {
        let before = assembly_run(s, resps.drop_last());
        let step = chunk_step(before.0, resps.last());
        (step.0, before.1.push(step.1))
    }
}

/// Number of non-empty parts.
pub open spec fn filled(parts: Seq<Seq<char>>) -> nat
    decreases parts.len(),
{
    if parts.len() == 0 {
        0
    } else {
        filled(parts.drop_last()) + if parts.last().len() > 0 {
            1nat
        } else {
            0nat
        }
    }
}

proof fn lemma_filled_update(parts: Seq<Seq<char>>, i: int, x: Seq<char>)
    requires
        0 <= i < parts.len(),
        x.len() > 0,
    ensures
        filled(parts.update(i, x)) == filled(parts) + if parts[i].len() == 0 {
            1int
        } else {
            0int
        },
    decreases parts.len(),
{
    let u = parts.update(i, x);
    if i == parts.len() - 1 {
        assert(u.drop_last() =~= parts.drop_last());
    } else {
        assert(u.drop_last() =~= parts.drop_last().update(i, x));
        lemma_filled_update(parts.drop_last(), i, x);
    }
}

proof fn lemma_filled_bounds(parts: Seq<Seq<char>>)
    ensures
        filled(parts) <= parts.len(),
        filled(parts) == parts.len() <==> forall|j: int| 0 <= j < parts.len() ==> #[trigger] parts[j].len() > 0,
    decreases parts.len(),
{
    if parts.len() > 0 {
        let d = parts.drop_last();
        lemma_filled_bounds(d);
        if filled(parts) == parts.len() {
            assert forall|j: int| 0 <= j < parts.len() implies #[trigger] parts[j].len() > 0 by {
                if j < parts.len() - 1 {
                    assert(d[j] == parts[j]);
                }
            }
        }
        if forall|j: int| 0 <= j < parts.len() ==> #[trigger] parts[j].len() > 0 {
            assert forall|j: int| 0 <= j < d.len() implies #[trigger] d[j].len() > 0 by {
                assert(d[j] == parts[j]);
            }
        }
    }
}

/// The session of response `id` once the chunks at the first `k` entries of `order` came.
pub open spec fn partial_session(id: Seq<char>, payloads: Seq<Seq<char>>, order: Seq<int>, k: int) -> SessionView {
    let parts = Seq::new(
        payloads.len(),
        |j: int|
            if seen_within(order, k, j) {
                payloads[j]
            } else {
                Seq::<char>::empty()
            },
    );
    SessionView {
        response_id: id,
        total: payloads.len() as usize,
        received: filled(parts) as usize,
        parts,
        final_data: None,
        code: Seq::empty(),
        ok: true,
        version: PROTOCOL_VERSION@,
    }
}

/// The sessions once the chunks at the first `k` entries of `order` came.
pub open spec fn partial_sessions(
    s: Seq<SessionView>,
    id: Seq<char>,
    payloads: Seq<Seq<char>>,
    order: Seq<int>,
    k: int,
) -> Seq<SessionView> {
    if k == 0 {
        s
    } else {
        s.push(partial_session(id, payloads, order, k))
    }
}

/// One chunk step, from the sessions of the chunks seen so far.
proof fn lemma_chunk_assembly_step(
    s: Seq<SessionView>,
    id: Seq<char>,
    payloads: Seq<Seq<char>>,
    chunks: Seq<CommandResponse>,
    order: Seq<int>,
    k: int,
)
    requires
        first_index(s, id) < 0,
        1 <= payloads.len() <= usize::MAX,
        forall|i: int| 0 <= i < payloads.len() ==> #[trigger] payloads[i].len() > 0,
        chunks.len() == payloads.len(),
        forall|i: int|
            0 <= i < chunks.len() ==> #[trigger] is_json_chunk(
                chunks[i],
                id,
                i,
                payloads.len() as int,
                payloads[i],
            ),
        0 <= k < order.len(),
        0 <= order[k] < payloads.len(),
        k == 0 || exists|j: int| 0 <= j < payloads.len() && !#[trigger] seen_within(order, k, j),
    ensures
        ({
            let st = partial_sessions(s, id, payloads, order, k);
            let c = chunks[order[k]];
            let (t, out) = chunk_step(st, c);
            &&& !chunk_faults(st, c)
            &&& if forall|j: int| 0 <= j < payloads.len() ==> #[trigger] seen_within(order, k + 1, j) {
                &&& t == s
                &&& out == Ok::<OutcomeView, ProtocolErrorView>(OutcomeView::JsonText(joined(payloads, Seq::empty())))
            } else {
                &&& t == partial_sessions(s, id, payloads, order, k + 1)
                &&& out == Ok::<OutcomeView, ProtocolErrorView>(OutcomeView::Pending)
            }
        }),
{
    let n = payloads.len();
    let st = partial_sessions(s, id, payloads, order, k);
    let i = order[k];
    let c = chunks[i];
    assert(is_json_chunk(c, id, i, n as int, payloads[i]));
    let x0 = partial_session(id, payloads, order, k);
    let x1 = partial_session(id, payloads, order, k + 1);
    // the session the chunk lands in
    if k == 0 {
        assert(x0.parts =~= empty_parts(n));
        lemma_filled_bounds(x0.parts);
        assert(filled(x0.parts) == 0) by {
            if filled(x0.parts) > 0 {
                lemma_filled_zero(x0.parts);
            }
        }
        assert(session_for(st, id, n as usize, Seq::empty(), true, PROTOCOL_VERSION@) == x0);
    } else {
        lemma_first_index_pushed(s, id, x0);
        assert(session_for(st, id, n as usize, Seq::empty(), true, PROTOCOL_VERSION@) == x0);
    }
    // the parts after the chunk
    assert forall|j: int| 0 <= j < n implies (#[trigger] seen_within(order, k + 1, j)) == (seen_within(order, k, j) || j == i) by {
        if seen_within(order, k + 1, j) && j != i {
            let p = choose|p: int| 0 <= p < k + 1 && #[trigger] order[p] == j;
            assert(p < k);
        }
        if seen_within(order, k, j) {
            let p = choose|p: int| 0 <= p < k && #[trigger] order[p] == j;
            assert(0 <= p < k + 1 && order[p] == j);
        }
        if j == i {
            assert(order[k] == j);
        }
    }
    assert(x1.parts =~= x0.parts.update(i, payloads[i]));
    lemma_filled_update(x0.parts, i, payloads[i]);
    lemma_filled_bounds(x0.parts);
    lemma_filled_bounds(x1.parts);
    let x = with_piece(x0, (i + 1) as usize, n as usize, payloads[i]);
    assert(x == x1);
    assert(!chunk_faults(st, c));
    if forall|j: int| 0 <= j < n ==> #[trigger] seen_within(order, k + 1, j) {
        assert forall|j: int| 0 <= j < n implies #[trigger] x1.parts[j].len() > 0 by {
            assert(seen_within(order, k + 1, j));
        }
        assert(x1.parts =~= payloads);
        assert(x.received == x.total);
        if k == 0 {
            assert(drop_session(st, id) == s);
        } else {
            lemma_first_index_pushed(s, id, x0);
            assert(drop_session(st, id) =~= s);
        }
    } else {
        let j = choose|j: int| 0 <= j < n && !#[trigger] seen_within(order, k + 1, j);
        assert(x1.parts[j].len() == 0);
        assert(x.received != x.total);
        if k == 0 {
            assert(put_session(st, id, x) == s.push(x));
        } else {
            lemma_first_index_pushed(s, id, x0);
            assert(put_session(st, id, x) =~= s.push(x));
        }
    }
}

proof fn lemma_filled_zero(parts: Seq<Seq<char>>)
    requires
        forall|j: int| 0 <= j < parts.len() ==> #[trigger] parts[j].len() == 0,
    ensures
        filled(parts) == 0,
    decreases parts.len(),
{
    if parts.len() > 0 {
        lemma_filled_zero(parts.drop_last());
    }
}

proof fn lemma_first_index_pushed(s: Seq<SessionView>, id: Seq<char>, x: SessionView)
    requires
        first_index(s, id) < 0,
        x.response_id == id,
    ensures
        first_index(s.push(x), id) == s.len(),
    decreases s.len(),
{
    if s.len() > 0 {
        assert(s[0].response_id != id) by {
            if s[0].response_id == id {
                assert(first_index(s, id) == 0);
            }
        }
        assert(s.push(x).drop_first() =~= s.drop_first().push(x));
        assert(first_index(s.drop_first(), id) < 0);
        lemma_first_index_pushed(s.drop_first(), id, x);
    }
}

proof fn lemma_chunk_assembly_prefix(
    s: Seq<SessionView>,
    id: Seq<char>,
    payloads: Seq<Seq<char>>,
    chunks: Seq<CommandResponse>,
    order: Seq<int>,
    k: int,
)
    requires
        first_index(s, id) < 0,
        1 <= payloads.len() <= usize::MAX,
        forall|i: int| 0 <= i < payloads.len() ==> #[trigger] payloads[i].len() > 0,
        chunks.len() == payloads.len(),
        forall|i: int|
            0 <= i < chunks.len() ==> #[trigger] is_json_chunk(
                chunks[i],
                id,
                i,
                payloads.len() as int,
                payloads[i],
            ),
        0 <= k < order.len(),
        forall|p: int| 0 <= p < order.len() ==> 0 <= #[trigger] order[p] < payloads.len(),
        exists|j: int| 0 <= j < payloads.len() && !#[trigger] seen_within(order, k, j),
    ensures
        ({
            let run = assembly_run(s, order.take(k).map_values(|i: int| chunks[i]));
            &&& run.0 == partial_sessions(s, id, payloads, order, k)
            &&& run.1.len() == k
            &&& forall|p: int| 0 <= p < k ==> #[trigger] run.1[p] == Ok::<OutcomeView, ProtocolErrorView>(OutcomeView::Pending)
        }),
    decreases k,
{
    let resps = order.take(k).map_values(|i: int| chunks[i]);
    if k == 0 {
        assert(resps =~= Seq::<CommandResponse>::empty());
    } else {
        let missing = choose|j: int| 0 <= j < payloads.len() && !#[trigger] seen_within(order, k, j);
        assert(!seen_within(order, k - 1, missing)) by {
            if seen_within(order, k - 1, missing) {
                let p = choose|p: int| 0 <= p < k - 1 && #[trigger] order[p] == missing;
                assert(0 <= p < k && order[p] == missing);
            }
        }
        lemma_chunk_assembly_prefix(s, id, payloads, chunks, order, k - 1);
        assert(resps.drop_last() =~= order.take(k - 1).map_values(|i: int| chunks[i]));
        assert(resps.last() == chunks[order[k - 1]]);
        lemma_chunk_assembly_step(s, id, payloads, chunks, order, k - 1);
    }
}

/// The `response_json` chunks of one response, fed to an assembly with no session for
/// that response in any order and with any repetitions, give nothing until the last
/// missing chunk arrives, which gives the joined payloads, and the assembly is left as it
/// was. No step faults, so every call of `add_chunk` on them is allowed.
pub proof fn lemma_json_chunks_reassemble_in_any_order(
    s: Seq<SessionView>,
    id: Seq<char>,
    payloads: Seq<Seq<char>>,
    chunks: Seq<CommandResponse>,
    order: Seq<int>,
)
    requires
        first_index(s, id) < 0,
        1 <= payloads.len() <= usize::MAX,
        forall|i: int| 0 <= i < payloads.len() ==> #[trigger] payloads[i].len() > 0,
        chunks.len() == payloads.len(),
        forall|i: int|
            0 <= i < chunks.len() ==> #[trigger] is_json_chunk(
                chunks[i],
                id,
                i,
                payloads.len() as int,
                payloads[i],
            ),
        order.len() >= 1,
        forall|p: int| 0 <= p < order.len() ==> 0 <= #[trigger] order[p] < payloads.len(),
        forall|j: int| 0 <= j < payloads.len() ==> seen_within(order, order.len() as int, j),
        exists|j: int| 0 <= j < payloads.len() && !#[trigger] seen_within(order, order.len() - 1, j),
    ensures
        ({
            let resps = order.map_values(|i: int| chunks[i]);
            let run = assembly_run(s, resps);
            &&& run.0 == s
            &&& run.1.len() == order.len()
            &&& run.1.last() == Ok::<OutcomeView, ProtocolErrorView>(OutcomeView::JsonText(joined(payloads, Seq::empty())))
            &&& forall|p: int| 0 <= p < order.len() - 1 ==> #[trigger] run.1[p] == Ok::<OutcomeView, ProtocolErrorView>(OutcomeView::Pending)
            &&& forall|p: int|
                0 <= p < order.len() ==> !chunk_faults(
                    #[trigger] assembly_run(s, resps.take(p)).0,
                    resps[p],
                )
        }),
{
    let n = order.len() as int;
    let resps = order.map_values(|i: int| chunks[i]);
    let missing = choose|j: int| 0 <= j < payloads.len() && !#[trigger] seen_within(order, n - 1, j);
    lemma_chunk_assembly_prefix(s, id, payloads, chunks, order, n - 1);
    assert(resps.drop_last() =~= order.take(n - 1).map_values(|i: int| chunks[i]));
    lemma_chunk_assembly_step(s, id, payloads, chunks, order, n - 1);
    assert forall|p: int| 0 <= p < n implies !chunk_faults(
        #[trigger] assembly_run(s, resps.take(p)).0,
        resps[p],
    ) by {
        assert(!seen_within(order, p, missing)) by {
            if seen_within(order, p, missing) {
                let q = choose|q: int| 0 <= q < p && #[trigger] order[q] == missing;
                assert(0 <= q < n - 1 && order[q] == missing);
            }
        }
        lemma_chunk_assembly_prefix(s, id, payloads, chunks, order, p);
        assert(resps.take(p) =~= order.take(p).map_values(|i: int| chunks[i]));
        lemma_chunk_assembly_step(s, id, payloads, chunks, order, p);
    }
}

} // verus!
