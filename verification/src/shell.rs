//! The output buffer of a single terminal: an append-only byte stream received
//! in possibly overlapping segments, of which only a bounded tail is kept.

use vstd::prelude::*;

verus! {

/// Largest number of output bytes kept for one shell (2 MiB).
pub const SHELL_STORED_BYTES: u64 = 2097152;

/// The bytes of a list of chunks, one after the other.
pub open spec fn concat(chunks: Seq<Seq<u8>>) -> Seq<u8>
    decreases chunks.len(),
{
    if chunks.len() == 0 {
        Seq::empty()
    } else {
        concat(chunks.drop_last()) + chunks.last()
    }
}

/// How many leading chunks are pruned so that what is left holds at most
/// `limit` bytes: chunks are dropped from the front one by one while too
/// many bytes remain.
pub open spec fn trim_count(chunks: Seq<Seq<u8>>, limit: nat) -> nat
    decreases chunks.len(),
{
    if chunks.len() == 0 || concat(chunks).len() <= limit {
        0
    } else {
        1 + trim_count(chunks.drop_first(), limit)
    }
}

pub proof fn lemma_concat_single(c: Seq<u8>)
    ensures
        concat(seq![c]) == c,
{
    let s = seq![c];
    assert(s.drop_last() =~= Seq::<Seq<u8>>::empty());
    assert(s.last() == c);
    assert(concat(Seq::<Seq<u8>>::empty()) == Seq::<u8>::empty());
    assert(Seq::<u8>::empty() + c =~= c);
}

pub proof fn lemma_concat_push(chunks: Seq<Seq<u8>>, c: Seq<u8>)
    ensures
        concat(chunks.push(c)) == concat(chunks) + c,
{
    assert(chunks.push(c).drop_last() =~= chunks);
}

/// Splitting a list of chunks splits its bytes at the same place.
pub proof fn lemma_concat_split(chunks: Seq<Seq<u8>>, k: int)
    requires
        0 <= k <= chunks.len(),
    ensures
        concat(chunks) == concat(chunks.take(k)) + concat(chunks.skip(k)),
    decreases chunks.len(),
{
    if k == chunks.len() {
        assert(chunks.take(k) =~= chunks);
        assert(chunks.skip(k) =~= Seq::<Seq<u8>>::empty());
        assert(concat(chunks) + Seq::<u8>::empty() =~= concat(chunks));
    } else {
        let init = chunks.drop_last();
        lemma_concat_split(init, k);
        assert(init.take(k) =~= chunks.take(k));
        assert(chunks.skip(k).drop_last() =~= init.skip(k));
        assert(chunks.skip(k).last() == chunks.last());
        assert(concat(chunks.take(k)) + concat(init.skip(k)) + chunks.last() =~= concat(
            chunks.take(k),
        ) + (concat(init.skip(k)) + chunks.last()));
    }
}

/// Chunks that are all nonempty hold at least one byte each.
pub proof fn lemma_concat_len_at_least_count(chunks: Seq<Seq<u8>>)
    requires
        forall|i: int| 0 <= i < chunks.len() ==> #[trigger] chunks[i].len() > 0,
    ensures
        concat(chunks).len() >= chunks.len(),
    decreases chunks.len(),
{
    if chunks.len() > 0 {
        let init = chunks.drop_last();
        assert forall|i: int| 0 <= i < init.len() implies #[trigger] init[i].len() > 0 by {
            assert(init[i] == chunks[i]);
        }
        lemma_concat_len_at_least_count(init);
        assert(chunks[chunks.len() - 1].len() > 0);
    }
}

/// The abstract state of one shell.
pub struct ShellView {
    /// Every output byte received so far, in order.
    pub history: Seq<u8>,
    /// Number of chunks pruned from the front of the buffer.
    pub chunk_offset: nat,
    /// Number of bytes in the pruned chunks.
    pub byte_offset: nat,
    /// The chunks still held.
    pub chunks: Seq<Seq<u8>>,
    /// Whether the shell has terminated.
    pub closed: bool,
}

impl ShellView {
    /// The sequence number: how many bytes have been received.
    pub open spec fn seqnum(self) -> nat {
        self.history.len()
    }

    pub open spec fn wf(self) -> bool {
        &&& self.byte_offset <= self.history.len()
        &&& concat(self.chunks) == self.history.skip(self.byte_offset as int)
        &&& concat(self.chunks).len() <= SHELL_STORED_BYTES
        &&& self.chunk_offset <= self.byte_offset
        &&& forall|i: int| 0 <= i < self.chunks.len() ==> #[trigger] self.chunks[i].len() > 0
        &&& self.history.len() <= u64::MAX
    }

    /// Number of chunks received so far, pruned ones included.
    pub open spec fn chunk_count(self) -> nat {
        self.chunk_offset + self.chunks.len()
    }

    /// Index in `chunks` of the first chunk a subscriber at absolute chunk
    /// number `chunknum` still needs (chunks pruned meanwhile are skipped).
    pub open spec fn start_index(self, chunknum: nat) -> int {
        if chunknum <= self.chunk_offset {
            0
        } else {
            chunknum - self.chunk_offset
        }
    }

    /// The byte position at which chunk number `i` starts: for a chunk still
    /// held (or the end of the held ones), its offset in the stream; for a
    /// pruned chunk, the oldest byte still held.
    pub open spec fn chunk_start(self, i: nat) -> nat {
        if i <= self.chunk_offset {
            self.byte_offset
        } else {
            self.byte_offset + concat(self.chunks.take(i - self.chunk_offset)).len()
        }
    }

    /// Whether `later` is a state this shell can reach by receiving output
    /// (and pruning): the received stream only grows, chunks are numbered
    /// and pruned from the front only, every chunk still held in both states
    /// starts at the same byte, and what was pruned lies before every kept
    /// byte.
    pub open spec fn grows_to(self, later: ShellView) -> bool {
        &&& self.history.len() <= later.history.len()
        &&& later.history.take(self.history.len() as int) == self.history
        &&& self.chunk_offset <= later.chunk_offset
        &&& self.chunk_count() <= later.chunk_count()
        &&& self.byte_offset <= later.byte_offset
        &&& forall|i: nat|
            later.chunk_offset <= i <= self.chunk_count() && self.chunk_offset <= i
                ==> #[trigger] later.chunk_start(i) == self.chunk_start(i)
        &&& forall|i: nat|
            self.chunk_offset <= i <= self.chunk_count() && i <= later.chunk_offset
                ==> later.byte_offset >= #[trigger] self.chunk_start(i)
    }

    /// What a subscriber that has seen chunks up to `chunknum` receives: the
    /// byte position of the first chunk it gets, the chunks themselves, and
    /// the chunk number it is at afterwards. A subscriber already at the end
    /// gets nothing and stays where it is.
    pub open spec fn since(self, chunknum: nat) -> (nat, Seq<Seq<u8>>, nat) {
        if chunknum < self.chunk_count() {
            let start = self.start_index(chunknum);
            (
                self.byte_offset + concat(self.chunks.take(start)).len(),
                self.chunks.skip(start),
                self.chunk_count(),
            )
        } else {
            (self.byte_offset, Seq::empty(), chunknum)
        }
    }

    /// Whether a segment of `data` starting at byte `seq` brings bytes that
    /// have not been received yet.
    pub open spec fn extends(self, data: Seq<u8>, seq: nat) -> bool {
        seq <= self.seqnum() && seq + data.len() > self.seqnum()
    }

    /// The state after receiving `data` at byte position `seq`: the part of
    /// the segment past the current sequence number becomes a new chunk, and
    /// the oldest chunks are pruned while more than `SHELL_STORED_BYTES` bytes
    /// are held. A segment that starts past the sequence number, or brings
    /// nothing new, leaves the state as it is.
    pub open spec fn receive(self, data: Seq<u8>, seq: nat) -> ShellView {
        if self.extends(data, seq) {
            let segment = data.skip(self.seqnum() - seq);
            let pushed = self.chunks.push(segment);
            let k = trim_count(pushed, SHELL_STORED_BYTES as nat);
            ShellView {
                history: self.history + segment,
                chunk_offset: self.chunk_offset + k,
                byte_offset: self.byte_offset + concat(pushed.take(k as int)).len(),
                chunks: pushed.skip(k as int),
                closed: self.closed,
            }
        } else {
            self
        }
    }
}

/// Pruning drops no more than it must: what is kept fits within the limit,
/// and keeping one more of the dropped chunks would not.
pub proof fn law_pruning_keeps_longest_fitting_tail(chunks: Seq<Seq<u8>>, limit: nat)
    ensures
        trim_count(chunks, limit) <= chunks.len(),
        concat(chunks.skip(trim_count(chunks, limit) as int)).len() <= limit,
        trim_count(chunks, limit) > 0 ==> concat(
            chunks.skip(trim_count(chunks, limit) - 1),
        ).len() > limit,
    decreases chunks.len(),
{
    let k = trim_count(chunks, limit);
    if chunks.len() == 0 {
        assert(chunks.skip(0) =~= chunks);
    } else if concat(chunks).len() <= limit {
        assert(chunks.skip(0) =~= chunks);
    } else {
        let rest = chunks.drop_first();
        law_pruning_keeps_longest_fitting_tail(rest, limit);
        let k2 = trim_count(rest, limit);
        assert(chunks.skip(k as int) =~= rest.skip(k2 as int));
        if k2 > 0 {
            assert(chunks.skip(k - 1) =~= rest.skip(k2 - 1));
        } else {
            assert(chunks.skip(0) =~= chunks);
        }
    }
}

/// Receiving new output prunes only the oldest chunks, and only as many as
/// must go: the held chunks are the old ones followed by the new segment,
/// minus some prefix; what is held fits in `SHELL_STORED_BYTES`; and if any
/// chunk was pruned, keeping the last pruned one as well would exceed the
/// limit. The pruned chunks' bytes move the byte offset forward.
pub proof fn law_receive_prunes_minimally(v: ShellView, data: Seq<u8>, seq: nat)
    requires
        v.wf(),
        v.extends(data, seq),
    ensures
        ({
            let segment = data.skip(v.seqnum() - seq);
            let pushed = v.chunks.push(segment);
            let v2 = v.receive(data, seq);
            let k = v2.chunk_offset - v.chunk_offset;
            &&& 0 <= k <= pushed.len()
            &&& v2.chunks == pushed.skip(k)
            &&& v2.byte_offset == v.byte_offset + concat(pushed.take(k)).len()
            &&& v2.history == v.history + segment
            &&& concat(v2.chunks).len() <= SHELL_STORED_BYTES
            &&& k > 0 ==> concat(pushed.skip(k - 1)).len() > SHELL_STORED_BYTES
        }),
{
    let segment = data.skip(v.seqnum() - seq);
    let pushed = v.chunks.push(segment);
    law_pruning_keeps_longest_fitting_tail(pushed, SHELL_STORED_BYTES as nat);
}

/// A segment delivered twice is stored once: receiving the same data at the
/// same position again changes nothing.
pub proof fn law_receive_idempotent(v: ShellView, data: Seq<u8>, seq: nat)
    requires
        v.wf(),
    ensures
        v.receive(data, seq).receive(data, seq) == v.receive(data, seq),
{
}

/// Each segment lands at its own byte position: the received stream grows by
/// the part of the segment past the sequence number, and, where the segment
/// agrees with what was already received, the stream up to `seq` followed by
/// the whole segment is what results.
pub proof fn law_receive_places_segment(v: ShellView, data: Seq<u8>, seq: nat)
    requires
        v.wf(),
        v.extends(data, seq),
    ensures
        v.receive(data, seq).history == v.history + data.skip(v.seqnum() - seq),
        v.receive(data, seq).seqnum() == seq + data.len(),
        data.take(v.seqnum() - seq) == v.history.skip(seq as int) ==> v.receive(data, seq).history
            == v.history.take(seq as int) + data,
{
    let k = v.seqnum() - seq;
    if data.take(k) == v.history.skip(seq as int) {
        assert(v.history =~= v.history.take(seq as int) + v.history.skip(seq as int));
        assert(data =~= data.take(k) + data.skip(k));
        assert(v.history + data.skip(k) =~= v.history.take(seq as int) + data);
    }
}

/// What a subscriber behind the end is handed is exactly the stream from the
/// returned byte position to the end of what has been received, that position
/// is never before the oldest byte still held, and the subscriber moves to the
/// end. A subscriber already at the end is handed nothing and stays put.
pub proof fn law_since_is_stream_tail(v: ShellView, chunknum: nat)
    requires
        v.wf(),
    ensures
        chunknum < v.chunk_count() ==> {
            &&& v.byte_offset <= v.since(chunknum).0 <= v.seqnum()
            &&& concat(v.since(chunknum).1) == v.history.skip(v.since(chunknum).0 as int)
            &&& v.since(chunknum).2 == v.chunk_count()
        },
        chunknum >= v.chunk_count() ==> v.since(chunknum).1.len() == 0 && v.since(chunknum).2
            == chunknum,
{
    if chunknum < v.chunk_count() {
        let start = v.start_index(chunknum);
        lemma_concat_split(v.chunks, start);
        let a = concat(v.chunks.take(start));
        let b = concat(v.chunks.skip(start));
        assert(b =~= (a + b).skip(a.len() as int));
        assert(v.history.skip(v.byte_offset as int).skip(a.len() as int) =~= v.history.skip(
            (v.byte_offset + a.len()) as int,
        ));
    }
}

/// A subscriber that was up to date is handed exactly the newly received
/// segment, starting at the old sequence number, unless pruning has already
/// dropped it.
pub proof fn law_subscriber_gets_new_segment(v: ShellView, data: Seq<u8>, seq: nat)
    requires
        v.wf(),
        v.extends(data, seq),
        v.receive(data, seq).chunk_offset <= v.chunk_count(),
    ensures
        v.receive(data, seq).since(v.chunk_count()) == (
            v.seqnum(),
            seq![data.skip(v.seqnum() - seq)],
            v.chunk_count() + 1,
        ),
{
    let segment = data.skip(v.seqnum() - seq);
    let pushed = v.chunks.push(segment);
    let k = trim_count(pushed, SHELL_STORED_BYTES as nat);
    let v2 = v.receive(data, seq);
    let n = v.chunk_count();
    assert(v2.chunk_count() == n + 1);
    let start = v2.start_index(n);
    assert(start == n - v2.chunk_offset);
    assert(v2.chunks.skip(start) =~= seq![segment]);
    assert(v2.chunks.take(start) =~= v.chunks.skip(k as int));
    lemma_concat_split(v.chunks, k as int);
    assert(pushed.take(k as int) =~= v.chunks.take(k as int));
    assert(concat(v.chunks) == v.history.skip(v.byte_offset as int));
}

proof fn lemma_chunk_start_end(v: ShellView)
    requires
        v.wf(),
    ensures
        v.chunk_start(v.chunk_count()) == v.seqnum(),
{
    if v.chunks.len() == 0 {
        assert(concat(v.chunks) == Seq::<u8>::empty());
    } else {
        assert(v.chunks.take(v.chunks.len() as int) =~= v.chunks);
    }
}

proof fn lemma_chunk_start_mono(v: ShellView, p: nat, q: nat)
    requires
        p <= q <= v.chunk_count(),
    ensures
        v.chunk_start(p) <= v.chunk_start(q),
{
    if p > v.chunk_offset {
        let a = v.chunks.take(q - v.chunk_offset);
        lemma_concat_split(a, p - v.chunk_offset);
        assert(a.take(p - v.chunk_offset) =~= v.chunks.take(p - v.chunk_offset));
    }
}

proof fn lemma_since_starts_at_chunk(v: ShellView, n: nat)
    requires
        n < v.chunk_count(),
    ensures
        v.since(n).0 == v.chunk_start(n),
{
    if n <= v.chunk_offset {
        assert(v.chunks.take(0) =~= Seq::<Seq<u8>>::empty());
        assert(concat(Seq::<Seq<u8>>::empty()) == Seq::<u8>::empty());
    }
}

/// Every state can reach itself.
pub proof fn lemma_grows_to_reflexive(v: ShellView)
    ensures
        v.grows_to(v),
{
    assert(v.history.take(v.history.len() as int) =~= v.history);
}

/// Reachability composes.
pub proof fn lemma_grows_to_transitive(a: ShellView, b: ShellView, c: ShellView)
    requires
        a.grows_to(b),
        b.grows_to(c),
    ensures
        a.grows_to(c),
{
    assert(c.history.take(a.history.len() as int) =~= c.history.take(
        b.history.len() as int,
    ).take(a.history.len() as int));
    assert forall|i: nat|
        c.chunk_offset <= i <= a.chunk_count() && a.chunk_offset <= i implies #[trigger] c.chunk_start(i)
        == a.chunk_start(i) by {
        assert(b.chunk_start(i) == a.chunk_start(i));
        assert(c.chunk_start(i) == b.chunk_start(i));
    }
    assert forall|i: nat|
        a.chunk_offset <= i <= a.chunk_count() && i <= c.chunk_offset implies c.byte_offset
        >= #[trigger] a.chunk_start(i) by {
        if i <= b.chunk_offset {
            assert(b.byte_offset >= a.chunk_start(i));
        } else {
            assert(b.chunk_start(i) == a.chunk_start(i));
            assert(c.byte_offset >= b.chunk_start(i));
        }
    }
}

/// Receiving output is a step the shell can take.
pub proof fn lemma_receive_grows(v: ShellView, data: Seq<u8>, seq: nat)
    requires
        v.wf(),
    ensures
        v.grows_to(v.receive(data, seq)),
{
    if !v.extends(data, seq) {
        lemma_grows_to_reflexive(v);
    } else {
        let segment = data.skip(v.seqnum() - seq);
        let pushed = v.chunks.push(segment);
        let k = trim_count(pushed, SHELL_STORED_BYTES as nat);
        let v2 = v.receive(data, seq);
        law_pruning_keeps_longest_fitting_tail(pushed, SHELL_STORED_BYTES as nat);
        assert(v2.history.take(v.history.len() as int) =~= v.history);
        assert forall|i: nat|
            v2.chunk_offset <= i <= v.chunk_count() && v.chunk_offset <= i implies #[trigger] v2.chunk_start(i)
            == v.chunk_start(i) by {
            let j = i - v.chunk_offset;
            assert(pushed.take(j) =~= v.chunks.take(j));
            if i == v2.chunk_offset {
                if k == 0 {
                    assert(pushed.take(0) =~= Seq::<Seq<u8>>::empty());
                    assert(concat(Seq::<Seq<u8>>::empty()) == Seq::<u8>::empty());
                }
            } else {
                let a = pushed.take(j);
                lemma_concat_split(a, k as int);
                assert(a.take(k as int) =~= pushed.take(k as int));
                assert(a.skip(k as int) =~= pushed.skip(k as int).take(i - v2.chunk_offset));
            }
        }
        assert forall|i: nat|
            v.chunk_offset <= i <= v.chunk_count() && i <= v2.chunk_offset implies v2.byte_offset
            >= #[trigger] v.chunk_start(i) by {
            if i > v.chunk_offset {
                let j = i - v.chunk_offset;
                let a = pushed.take(k as int);
                lemma_concat_split(a, j);
                assert(a.take(j) =~= v.chunks.take(j));
            }
        }
    }
}

/// Closing a shell is a step it can take.
pub proof fn lemma_close_grows(v: ShellView)
    ensures
        v.grows_to(ShellView { closed: true, ..v }),
{
    lemma_grows_to_reflexive(v);
}

/// No byte reaches a subscriber twice, and none is skipped unless pruned:
/// after a read that handed over chunks, any later read (however much
/// output arrived in between) starts at or after the end of what was handed
/// over, and exactly there if the subscriber's next chunk is still held.
pub proof fn law_subscriber_reads_follow_on(v1: ShellView, v2: ShellView, n: nat)
    requires
        v1.wf(),
        v2.wf(),
        v1.grows_to(v2),
        n < v1.chunk_count(),
    ensures
        ({
            let (s1, c1, n1) = v1.since(n);
            let end = s1 + concat(c1).len();
            &&& forall|i: int| 0 <= i < c1.len() ==> #[trigger] c1[i].len() > 0
            &&& concat(c1) == v2.history.subrange(s1 as int, end as int)
            &&& end == v1.seqnum()
            &&& n1 == v1.chunk_count()
            &&& n1 < v2.chunk_count() ==> {
                &&& v2.since(n1).0 >= end
                &&& v2.chunk_offset <= n1 ==> v2.since(n1).0 == end
                &&& concat(v2.since(n1).1) == v2.history.subrange(
                    v2.since(n1).0 as int,
                    v2.seqnum() as int,
                )
            }
            &&& n1 >= v2.chunk_count() ==> v2.since(n1).1.len() == 0
        }),
{
    let (s1, c1, n1) = v1.since(n);
    law_since_is_stream_tail(v1, n);
    let start = v1.start_index(n);
    assert forall|i: int| 0 <= i < c1.len() implies #[trigger] c1[i].len() > 0 by {
        assert(c1[i] == v1.chunks[i + start]);
    }
    assert(v2.history.take(v1.history.len() as int) == v1.history);
    assert(concat(c1) =~= v2.history.subrange(s1 as int, v1.seqnum() as int));
    if n1 < v2.chunk_count() {
        law_since_is_stream_tail(v2, n1);
        lemma_since_starts_at_chunk(v2, n1);
        lemma_chunk_start_end(v1);
        if v2.chunk_offset <= n1 {
            assert(v2.chunk_start(n1) == v1.chunk_start(n1));
        } else {
            assert(v2.byte_offset >= v1.chunk_start(n1));
        }
        assert(v2.history.skip(v2.since(n1).0 as int) =~= v2.history.subrange(
            v2.since(n1).0 as int,
            v2.seqnum() as int,
        ));
    }
}

/// The chunk number a subscriber that started at `n0` is at before reading
/// the `k`-th of a run of states.
pub open spec fn read_position(states: Seq<ShellView>, n0: nat, k: nat) -> nat
    decreases k,
{
    if k == 0 {
        n0
    } else {
        states[k - 1].since(read_position(states, n0, (k - 1) as nat)).2
    }
}

/// A run of well-formed states of one shell, each reachable from the one
/// before.
pub open spec fn is_run(states: Seq<ShellView>) -> bool {
    &&& forall|i: int| 0 <= i < states.len() ==> #[trigger] states[i].wf()
    &&& forall|i: int| 0 <= i < states.len() - 1 ==> #[trigger] states[i].grows_to(states[i + 1])
}

proof fn lemma_run_grows(states: Seq<ShellView>, i: int, j: int)
    requires
        is_run(states),
        0 <= i <= j < states.len(),
    ensures
        states[i].grows_to(states[j]),
    decreases j - i,
{
    if i == j {
        lemma_grows_to_reflexive(states[i]);
    } else {
        lemma_run_grows(states, i, j - 1);
        assert(states[j - 1].grows_to(states[j - 1 + 1]));
        lemma_grows_to_transitive(states[i], states[j - 1], states[j]);
    }
}

proof fn lemma_position_mono(states: Seq<ShellView>, n0: nat, i: nat, j: nat)
    requires
        is_run(states),
        i <= j <= states.len(),
    ensures
        read_position(states, n0, i) <= read_position(states, n0, j),
    decreases j - i,
{
    if i < j {
        lemma_position_mono(states, n0, i, (j - 1) as nat);
        law_since_is_stream_tail(states[j - 1], read_position(states, n0, (j - 1) as nat));
    }
}

/// Over a whole run of reads, with output arriving between them, a
/// subscriber never receives a byte twice: every read that hands over
/// chunks starts at or after the end of every earlier such read, and exactly
/// there if nothing was handed over in between and its next chunk is still
/// held.
pub proof fn law_subscriber_run(states: Seq<ShellView>, n0: nat, i: nat, j: nat)
    requires
        is_run(states),
        i < j < states.len(),
        read_position(states, n0, i) < states[i as int].chunk_count(),
        read_position(states, n0, j) < states[j as int].chunk_count(),
    ensures
        ({
            let first = states[i as int].since(read_position(states, n0, i));
            let later = states[j as int].since(read_position(states, n0, j));
            &&& later.0 >= first.0 + concat(first.1).len()
            &&& read_position(states, n0, j) == states[i as int].chunk_count()
                && states[j as int].chunk_offset <= states[i as int].chunk_count() ==> later.0
                == first.0 + concat(first.1).len()
        }),
{
    let vi = states[i as int];
    let vj = states[j as int];
    let pi = read_position(states, n0, i);
    let pj = read_position(states, n0, j);
    lemma_run_grows(states, i as int, j as int);
    law_subscriber_reads_follow_on(vi, vj, pi);
    assert(read_position(states, n0, i + 1) == vi.chunk_count());
    lemma_position_mono(states, n0, i + 1, j);
    lemma_since_starts_at_chunk(vj, pj);
    lemma_since_starts_at_chunk(vj, vi.chunk_count());
    lemma_chunk_start_mono(vj, vi.chunk_count(), pj);
}

/// Receiving output keeps a shell well formed, and adds one chunk exactly
/// when the segment brings new bytes.
pub proof fn lemma_receive_wf(v: ShellView, data: Seq<u8>, seq: nat)
    requires
        v.wf(),
        seq + data.len() <= u64::MAX,
    ensures
        v.receive(data, seq).wf(),
        v.receive(data, seq).chunk_count() == v.chunk_count() + if v.extends(data, seq) {
            1nat
        } else {
            0nat
        },
{
    if v.extends(data, seq) {
        let segment = data.skip(v.seqnum() - seq);
        let pushed = v.chunks.push(segment);
        let k = trim_count(pushed, SHELL_STORED_BYTES as nat);
        let v2 = v.receive(data, seq);
        law_pruning_keeps_longest_fitting_tail(pushed, SHELL_STORED_BYTES as nat);
        lemma_concat_push(v.chunks, segment);
        assert forall|j: int| 0 <= j < pushed.len() implies #[trigger] pushed[j].len() > 0 by {
            if j < v.chunks.len() {
                assert(pushed[j] == v.chunks[j]);
            }
        }
        lemma_concat_split(pushed, k as int);
        let a = concat(pushed.take(k as int));
        let b = concat(pushed.skip(k as int));
        assert(concat(pushed) =~= v2.history.skip(v.byte_offset as int));
        assert(b =~= (a + b).skip(a.len() as int));
        assert(v2.history.skip(v.byte_offset as int).skip(a.len() as int) =~= v2.history.skip(
            (v.byte_offset + a.len()) as int,
        ));
        assert forall|j: int| 0 <= j < pushed.take(k as int).len() implies #[trigger] pushed.take(
            k as int,
        )[j].len() > 0 by {
            assert(pushed.take(k as int)[j] == pushed[j]);
        }
        lemma_concat_len_at_least_count(pushed.take(k as int));
        assert forall|j: int| 0 <= j < v2.chunks.len() implies #[trigger] v2.chunks[j].len() > 0 by {
            assert(v2.chunks[j] == pushed[j + k]);
        }
    }
}

/// A shell that has received nothing.
pub open spec fn fresh_shell() -> ShellView {
    ShellView {
        history: Seq::empty(),
        chunk_offset: 0,
        byte_offset: 0,
        chunks: Seq::empty(),
        closed: false,
    }
}

/// The shell after receiving each `(data, seq)` segment in turn.
pub open spec fn receive_all(v: ShellView, segments: Seq<(Seq<u8>, nat)>) -> ShellView
    decreases segments.len(),
{
    if segments.len() == 0 {
        v
    } else {
        receive_all(v, segments.drop_last()).receive(segments.last().0, segments.last().1)
    }
}

/// How many of the segments brought new bytes, each becoming a chunk.
pub open spec fn new_chunk_count(v: ShellView, segments: Seq<(Seq<u8>, nat)>) -> nat
    decreases segments.len(),
{
    if segments.len() == 0 {
        0
    } else {
        new_chunk_count(v, segments.drop_last()) + if receive_all(v, segments.drop_last()).extends(
            segments.last().0,
            segments.last().1,
        ) {
            1nat
        } else {
            0nat
        }
    }
}

/// Whatever output a new shell receives (within the range of sequence
/// numbers), it stays well formed: it holds at most `SHELL_STORED_BYTES`
/// bytes, exactly the tail of everything received, in nonempty chunks; the
/// chunks pruned plus those held are exactly the segments that brought new
/// bytes; and every state is reachable from the one before.
pub proof fn law_received_output_stays_bounded(segments: Seq<(Seq<u8>, nat)>)
    requires
        forall|i: int| 0 <= i < segments.len() ==> #[trigger] segments[i].1 + segments[i].0.len()
            <= u64::MAX,
    ensures
        receive_all(fresh_shell(), segments).wf(),
        concat(receive_all(fresh_shell(), segments).chunks).len() <= SHELL_STORED_BYTES,
        receive_all(fresh_shell(), segments).chunk_count() == new_chunk_count(fresh_shell(), segments),
        fresh_shell().grows_to(receive_all(fresh_shell(), segments)),
    decreases segments.len(),
{
    if segments.len() == 0 {
        assert(concat(Seq::<Seq<u8>>::empty()) == Seq::<u8>::empty());
        assert(fresh_shell().history.skip(0) =~= Seq::<u8>::empty());
        lemma_grows_to_reflexive(fresh_shell());
    } else {
        let init = segments.drop_last();
        assert forall|i: int| 0 <= i < init.len() implies #[trigger] init[i].1 + init[i].0.len()
            <= u64::MAX by {
            assert(init[i] == segments[i]);
        }
        law_received_output_stays_bounded(init);
        let prev = receive_all(fresh_shell(), init);
        let last = segments.last();
        assert(last == segments[segments.len() - 1]);
        lemma_receive_wf(prev, last.0, last.1);
        lemma_receive_grows(prev, last.0, last.1);
        lemma_grows_to_transitive(fresh_shell(), prev, prev.receive(last.0, last.1));
    }
}

/// The state of one shell, as the server keeps it.
pub struct ShellState {
    seqnum: u64,
    data: Vec<Vec<u8>>,
    chunk_offset: u64,
    byte_offset: u64,
    closed: bool,
    history: Ghost<Seq<u8>>,
}

impl View for ShellState {
    type V = ShellView;

    closed spec fn view(&self) -> ShellView {
        ShellView {
            history: self.history@,
            chunk_offset: self.chunk_offset as nat,
            byte_offset: self.byte_offset as nat,
            chunks: self.data@.map_values(|c: Vec<u8>| c@),
            closed: self.closed,
        }
    }
}

impl ShellState {
    pub closed spec fn wf(&self) -> bool {
        &&& self@.wf()
        &&& self.seqnum as nat == self@.seqnum()
    }

    /// A well-formed shell has a well-formed view.
    pub proof fn lemma_view_wf(&self)
        requires
            self.wf(),
        ensures
            self@.wf(),
    {
    }

    /// A fresh shell: nothing received, open.
    pub fn new() -> (s: Self)
        ensures
            s.wf(),
            s@ == fresh_shell(),
            s@.history == Seq::<u8>::empty(),
            s@.chunk_offset == 0,
            s@.byte_offset == 0,
            s@.chunks == Seq::<Seq<u8>>::empty(),
            !s@.closed,
    {
        let s = ShellState {
            seqnum: 0,
            data: Vec::new(),
            chunk_offset: 0,
            byte_offset: 0,
            closed: false,
            history: Ghost(Seq::empty()),
        };
        assert(s@.chunks =~= Seq::<Seq<u8>>::empty());
        assert(s@.history.skip(0) =~= Seq::<u8>::empty());
        s
    }

    pub fn seqnum(&self) -> (n: u64)
        requires
            self.wf(),
        ensures
            n == self@.seqnum(),
    {
        self.seqnum
    }

    pub fn is_closed(&self) -> (b: bool)
        ensures
            b == self@.closed,
    {
        self.closed
    }

    /// Marks the shell as terminated.
    pub fn close(&mut self)
        requires
            old(self).wf(),
        ensures
            final(self).wf(),
            final(self)@ == (ShellView { closed: true, ..old(self)@ }),
    {
        self.closed = true;
    }

    /// The chunks a subscriber at chunk number `chunknum` is due, with the byte
    /// position of the first one and the chunk number to continue from.
    pub fn chunks_since(&self, chunknum: u64) -> (r: (u64, Vec<Vec<u8>>, u64))
        requires
            self.wf(),
        ensures
            ({
                let (pos, chunks, next) = self@.since(chunknum as nat);
                &&& r.0 == pos
                &&& r.1@.map_values(|c: Vec<u8>| c@) == chunks
                &&& r.2 == next
            }),
    {
        let ghost v = self@;
        proof {
            lemma_concat_len_at_least_count(v.chunks);
        }
        let current_chunks = self.chunk_offset + self.data.len() as u64;
        let mut seqnum = self.byte_offset;
        let mut chunks: Vec<Vec<u8>> = Vec::new();
        let mut next = chunknum;
        if chunknum < current_chunks {
            let start: usize = if chunknum <= self.chunk_offset {
                0
            } else {
                (chunknum - self.chunk_offset) as usize
            };
            let mut i: usize = 0;
            let mut sum: u64 = 0;
            while i < start
                invariant
                    self@ == v,
                    v.wf(),
                    self.data@.len() == v.chunks.len(),
                    0 <= i <= start <= v.chunks.len(),
                    sum == concat(v.chunks.take(i as int)).len(),
                    self.byte_offset == v.byte_offset,
                decreases start - i,
            {
                proof {
                    lemma_concat_split(v.chunks, i + 1);
                    assert(v.chunks.take(i + 1) =~= v.chunks.take(i as int).push(v.chunks[i as int]));
                    lemma_concat_push(v.chunks.take(i as int), v.chunks[i as int]);
                    assert(self.data@[i as int]@ == v.chunks[i as int]);
                }
                sum = sum + self.data[i].len() as u64;
                i = i + 1;
            }
            proof {
                lemma_concat_split(v.chunks, start as int);
            }
            seqnum = seqnum + sum;
            let mut j = start;
            while j < self.data.len()
                invariant
                    self@ == v,
                    self.data@.len() == v.chunks.len(),
                    start <= j <= v.chunks.len(),
                    chunks@.map_values(|c: Vec<u8>| c@) == v.chunks.subrange(start as int, j as int),
                decreases v.chunks.len() - j,
            {
                assert(self.data@[j as int]@ == v.chunks[j as int]);
                let c = self.data[j].clone();
                assert(c@ =~= self.data@[j as int]@);
                let ghost before = chunks@;
                chunks.push(c);
                assert(chunks@.map_values(|c: Vec<u8>| c@) =~= before.map_values(|c: Vec<u8>| c@).push(c@));
                assert(v.chunks.subrange(start as int, j + 1) =~= v.chunks.subrange(start as int, j as int).push(v.chunks[j as int]));
                j = j + 1;
            }
            next = current_chunks;
        }
        proof {
            if !(chunknum < current_chunks) {
                assert(chunks@.map_values(|c: Vec<u8>| c@) =~= Seq::<Seq<u8>>::empty());
            }
        }
        (seqnum, chunks, next)
    }

    /// Receives `data` at byte position `seq`; returns whether anything new
    /// was stored.
    pub fn receive(&mut self, data: &[u8], seq: u64) -> (changed: bool)
        requires
            old(self).wf(),
            seq + data@.len() <= u64::MAX,
        ensures
            final(self).wf(),
            final(self)@ == old(self)@.receive(data@, seq as nat),
            old(self)@.grows_to(final(self)@),
            changed == old(self)@.extends(data@, seq as nat),
    {
        proof {
            lemma_receive_grows(self@, data@, seq as nat);
        }
        let len = data.len() as u64;
        if seq <= self.seqnum && len > self.seqnum - seq {
            let start = (self.seqnum - seq) as usize;
            let mut segment: Vec<u8> = Vec::new();
            let mut i = start;
            while i < data.len()
                invariant
                    start <= i <= data@.len(),
                    segment@ == data@.subrange(start as int, i as int),
                decreases data@.len() - i,
            {
                segment.push(data[i]);
                i = i + 1;
            }
            assert(segment@ =~= data@.skip(start as int));
            let ghost old_view = self@;
            let ghost pushed = old_view.chunks.push(segment@);
            proof {
                lemma_concat_push(old_view.chunks, segment@);
            }
            self.seqnum = seq + len;
            self.data.push(segment);
            self.history = Ghost(self.history@ + segment@);
            assert(self.data@.map_values(|c: Vec<u8>| c@) =~= pushed);
            let mut stored = self.seqnum - self.byte_offset;
            let ghost mid_history = self.history@;
            assert(concat(pushed) =~= mid_history.skip(old_view.byte_offset as int));
            if stored > SHELL_STORED_BYTES {
                let mut offset: usize = 0;
                proof {
                    assert(pushed.skip(0) =~= pushed);
                    assert(pushed.take(0) =~= Seq::<Seq<u8>>::empty());
                    lemma_concat_split(old_view.chunks, 0);
                }
                while offset < self.data.len() && stored > SHELL_STORED_BYTES
                    invariant
                        self.data@.map_values(|c: Vec<u8>| c@) == pushed,
                        self.history@ == mid_history,
                        self.closed == old_view.closed,
                        self.seqnum == mid_history.len(),
                        mid_history.len() <= u64::MAX,
                        old_view.byte_offset <= mid_history.len(),
                        concat(pushed) == mid_history.skip(old_view.byte_offset as int),
                        forall|j: int| 0 <= j < pushed.len() ==> #[trigger] pushed[j].len() > 0,
                        old_view.chunk_offset <= old_view.byte_offset,
                        0 <= offset <= pushed.len(),
                        stored == concat(pushed.skip(offset as int)).len(),
                        self.chunk_offset == old_view.chunk_offset + offset,
                        self.byte_offset == old_view.byte_offset + concat(
                            pushed.take(offset as int),
                        ).len(),
                        trim_count(pushed, SHELL_STORED_BYTES as nat) == offset + trim_count(
                            pushed.skip(offset as int),
                            SHELL_STORED_BYTES as nat,
                        ),
                    decreases pushed.len() - offset,
                {
                    proof {
                        lemma_concat_split(pushed, offset as int);
                        lemma_concat_split(pushed, offset + 1);
                        let rest = pushed.skip(offset as int);
                        assert(rest.drop_first() =~= pushed.skip(offset + 1));
                        assert(rest.take(1) =~= seq![pushed[offset as int]]);
                        lemma_concat_split(rest, 1);
                        lemma_concat_single(pushed[offset as int]);
                        assert(pushed.take(offset + 1) =~= pushed.take(offset as int).push(
                            pushed[offset as int],
                        ));
                        lemma_concat_push(pushed.take(offset as int), pushed[offset as int]);
                        lemma_concat_len_at_least_count(pushed.take(offset as int));
                        assert forall|j: int| 0 <= j < pushed.take(offset as int).len() implies #[trigger] pushed.take(offset as int)[j].len() > 0 by {
                            assert(pushed.take(offset as int)[j] == pushed[j]);
                        }
                    }
                    let bytes = self.data[offset].len() as u64;
                    stored = stored - bytes;
                    self.chunk_offset = self.chunk_offset + 1;
                    self.byte_offset = self.byte_offset + bytes;
                    offset = offset + 1;
                }
                let tail = self.data.split_off(offset);
                self.data = tail;
                proof {
                    let k = offset as int;
                    lemma_concat_split(pushed, k);
                    assert(self.data@.map_values(|c: Vec<u8>| c@) =~= pushed.skip(k));
                    if k == pushed.len() {
                        assert(pushed.skip(k) =~= Seq::<Seq<u8>>::empty());
                        assert(concat(Seq::<Seq<u8>>::empty()) == Seq::<u8>::empty());
                    }
                    let a = concat(pushed.take(k));
                    let b = concat(pushed.skip(k));
                    assert(b =~= (a + b).skip(a.len() as int));
                    assert(mid_history.skip(old_view.byte_offset as int).skip(a.len() as int)
                        =~= mid_history.skip((old_view.byte_offset + a.len()) as int));
                    assert(b == mid_history.skip(self.byte_offset as int));
                    assert forall|j: int| 0 <= j < pushed.skip(k).len() implies #[trigger] pushed.skip(k)[j].len() > 0 by {
                        assert(pushed.skip(k)[j] == pushed[j + k]);
                    }
                    assert(trim_count(pushed.skip(k), SHELL_STORED_BYTES as nat) == 0);
                    assert forall|j: int| 0 <= j < pushed.take(k).len() implies #[trigger] pushed.take(k)[j].len() > 0 by {
                        assert(pushed.take(k)[j] == pushed[j]);
                    }
                    lemma_concat_len_at_least_count(pushed.take(k));
                }
            } else {
                proof {
                    assert(pushed.skip(0) =~= pushed);
                    assert(pushed.take(0) =~= Seq::<Seq<u8>>::empty());
                }
            }
            true
        } else {
            false
        }
    }
}

} // verus!
