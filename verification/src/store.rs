//! Bounded retention of the received stream. Logical offsets only grow; a retained
//! offset always reads back the bytes that were received there.
use vstd::prelude::*;
use crate::index::{Index, TS_PACKET_SIZE};
use crate::limits::{Policy, Retention};
use crate::live::History;
use crate::slots::SEGMENT_BYTES;
use crate::timeline::RetentionChange;

verus! {

/// Bytes handed to a reader at once: 256 packets.
pub const READ_BYTES: usize = 48128;

/// A run of received bytes, from stream offset `start`. In memory it holds its bytes;
/// on disk they are in its slot.
pub struct Segment {
    start: u64,
    size: usize,
    end_ns: u64,
    bytes: Vec<u8>,
}

pub struct SegmentView {
    pub start: u64,
    pub size: usize,
    pub end_ns: u64,
    pub bytes: Seq<u8>,
}

impl View for Segment {
    type V = SegmentView;

    closed spec fn view(&self) -> SegmentView {
        SegmentView { start: self.start, size: self.size, end_ns: self.end_ns, bytes: self.bytes@ }
    }
}

pub open spec fn segment_views(segments: Seq<Segment>) -> Seq<SegmentView> {
    segments.map_values(|s: Segment| s@)
}

/// Whether reception goes on.
#[derive(Debug)]
pub enum Status {
    Receiving,
    Ended,
    Failed(String),
}

/// What a read at an offset finds.
#[derive(Debug)]
pub enum ReadResult {
    /// Bytes held in memory; `reconnected` when a reconnection starts here.
    Data { bytes: Vec<u8>, reconnected: bool },
    /// Bytes on disk: `count` bytes at `within` of the segment at `start`.
    Disk { start: u64, within: usize, count: usize, reconnected: bool },
    /// Nothing received there yet.
    Awaiting,
    /// No longer retained.
    Expired,
    /// Reception ended there.
    End,
    /// Reception failed there, with its message.
    Failed(String),
}

/// A write of a length that is not whole packets.
#[derive(Clone, Copy, Debug, PartialEq, Eq, Structural)]
pub struct Unaligned;

pub struct StoreView {
    pub memory: bool,
    pub segments: Seq<SegmentView>,
    pub boundaries: Seq<u64>,
    pub end: u64,
    pub received: Seq<u8>,
}

/// Segments are contiguous, whole packets, at most a segment long, and end where
/// reception ended; in memory, each holds exactly the bytes received over its range.
pub open spec fn store_wf(v: StoreView) -> bool {
    &&& v.end == v.received.len()
    &&& forall|i: int|
        #![trigger v.segments[i]]
        0 <= i < v.segments.len() ==> {
            let s = v.segments[i];
            &&& s.size <= SEGMENT_BYTES
            &&& s.size % 188 == 0
            &&& s.start + s.size <= v.end
            &&& (v.memory ==> s.bytes == v.received.subrange(s.start as int, s.start + s.size))
            &&& (!v.memory ==> s.bytes.len() == 0)
            &&& (i + 1 < v.segments.len() ==> s.start + s.size == v.segments[i + 1].start)
        }
    &&& (v.segments.len() > 0 ==> v.segments.last().start + v.segments.last().size == v.end)
    &&& forall|i: int| 0 <= i < v.boundaries.len() ==> #[trigger] v.boundaries[i] <= v.end
}

/// The first retained offset.
pub open spec fn start_of(v: StoreView) -> u64 {
    if v.segments.len() > 0 {
        v.segments[0].start
    } else {
        v.end
    }
}

/// Retained stream with its index and program history.
pub struct Store {
    memory: bool,
    segments: std::collections::VecDeque<Segment>,
    boundaries: std::collections::VecDeque<u64>,
    end: u64,
    received: Ghost<Seq<u8>>,
    policy: Policy,
    index: Index,
    history: History,
    status: Status,
}

impl View for Store {
    type V = StoreView;

    closed spec fn view(&self) -> StoreView {
        StoreView {
            memory: self.memory,
            segments: segment_views(self.segments@),
            boundaries: self.boundaries@,
            end: self.end,
            received: self.received@,
        }
    }
}

/// Whether a change of retention replaces the storage: switching between memory and disk,
/// or turning retention off from either.
pub open spec fn replaces_storage(from: Retention, to: Retention) -> bool {
    match (from, to) {
        (Retention::Memory, Retention::Memory) => false,
        (Retention::Filesystem, Retention::Filesystem) => false,
        (Retention::Off, Retention::Off) => false,
        (Retention::Off, Retention::Memory) => false,
        _ => true,
    }
}

pub fn needs_new_storage(from: Retention, to: Retention) -> (reset: bool)
    ensures
        reset == replaces_storage(from, to),
{
    match (from, to) {
        (Retention::Memory, Retention::Memory) => false,
        (Retention::Filesystem, Retention::Filesystem) => false,
        (Retention::Off, Retention::Off) => false,
        (Retention::Off, Retention::Memory) => false,
        _ => true,
    }
}

/// The first boundary after `offset`, if any.
pub open spec fn next_boundary(boundaries: Seq<u64>, offset: u64, from: int) -> Option<u64>
    decreases boundaries.len() - from,
{
    if from < 0 || from >= boundaries.len() {
        None
    } else if boundaries[from] > offset {
        Some(boundaries[from])
    } else {
        next_boundary(boundaries, offset, from + 1)
    }
}

/// The segment holding `offset`.
pub open spec fn holding(segments: Seq<SegmentView>, offset: u64, from: int) -> int
    decreases segments.len() - from,
{
    if from < 0 || from >= segments.len() {
        segments.len() as int
    } else if segments[from].start <= offset < segments[from].start + segments[from].size {
        from
    } else {
        holding(segments, offset, from + 1)
    }
}

/// The retained segments once the oldest are evicted while the byte budget cannot hold
/// them beside one more segment.
pub open spec fn evicted(segments: Seq<SegmentView>, byte_limit: u64) -> Seq<SegmentView>
    decreases segments.len(),
{
    if segments.len() > 0 && (segments.len() + 1) * SEGMENT_BYTES > byte_limit {
        evicted(segments.drop_first(), byte_limit)
    } else {
        segments
    }
}

/// Whether a chunk needs a new segment: there is none, or the newest has no room for a
/// packet.
pub open spec fn needs_segment(segments: Seq<SegmentView>) -> bool {
    segments.len() == 0 || segments.last().size + 188 > SEGMENT_BYTES
}

/// The segments once room for a chunk is opened: when a new segment is needed, memory
/// retention first evicts what the byte budget cannot hold beside it, and an empty segment
/// starts at the end; otherwise nothing changes.
pub open spec fn opened(v: StoreView, byte_limit: u64) -> Seq<SegmentView> {
    if needs_segment(v.segments) {
        (if v.memory {
            evicted(v.segments, byte_limit)
        } else {
            v.segments
        }).push(SegmentView { start: v.end, size: 0, end_ns: 0, bytes: Seq::empty() })
    } else {
        v.segments
    }
}

impl Store {
    pub closed spec fn wf(self) -> bool {
        &&& store_wf(self@)
        &&& self.memory == (self.policy.storage_spec() != Retention::Filesystem)
        &&& self.index.wf()
        &&& self.history.wf()
    }

    pub closed spec fn policy_spec(self) -> Policy {
        self.policy
    }

    pub closed spec fn index_spec(self) -> Index {
        self.index
    }

    pub closed spec fn history_spec(self) -> History {
        self.history
    }

    pub fn index(&self) -> (index: &Index)
        ensures
            *index == self.index_spec(),
    {
        &self.index
    }

    pub fn history(&self) -> (history: &History)
        ensures
            *history == self.history_spec(),
    {
        &self.history
    }

    /// An empty store under `policy`.
    pub fn new(policy: Policy) -> (store: Store)
        ensures
            store.wf(),
            store@.segments.len() == 0,
            store@.end == 0,
            store@.memory == (policy.storage_spec() != Retention::Filesystem),
            store.policy_spec() == policy,
            store.receiving(),
            store.failure() is None,
    {
        let store = Store {
            memory: !matches!(policy.storage(), Retention::Filesystem),
            segments: std::collections::VecDeque::new(),
            boundaries: std::collections::VecDeque::new(),
            end: 0,
            received: Ghost(Seq::empty()),
            policy,
            index: Index::new(),
            history: History::new(),
            status: Status::Receiving,
        };
        assert(segment_views(store.segments@) =~= Seq::<SegmentView>::empty());
        store
    }

    pub fn policy(&self) -> (policy: Policy)
        ensures
            policy == self.policy_spec(),
    {
        self.policy
    }

    pub fn end(&self) -> (end: u64)
        ensures
            end == self@.end,
    {
        self.end
    }

    /// The first retained offset.
    pub fn start(&self) -> (start: u64)
        ensures
            start == start_of(self@),
    {
        if self.segments.len() > 0 {
            assert(segment_views(self.segments@)[0] == self.segments@[0]@);
            self.segments[0].start
        } else {
            self.end
        }
    }

    /// Where the open segment starts and how much it holds: where the next chunk goes.
    pub fn open_segment(&self) -> (segment: (u64, usize))
        requires
            self@.segments.len() > 0,
        ensures
            segment == (self@.segments.last().start, self@.segments.last().size),
    {
        let count = self.segments.len();
        assert(segment_views(self.segments@)[count - 1] == self.segments@[count - 1]@);
        (self.segments[count - 1].start, self.segments[count - 1].size)
    }

    /// A reconnection: reading stops at this offset, and the index starts a new epoch.
    pub fn reconnect(&mut self)
        requires
            old(self).wf(),
            old(self).index_spec()@.epoch < u64::MAX,
        ensures
            final(self).wf(),
            final(self)@ == (StoreView { boundaries: old(self)@.boundaries.push(old(self)@.end), ..old(self)@ }),
            final(self).index_spec()@ == (crate::index::IndexView {
                epoch: (old(self).index_spec()@.epoch + 1) as u64,
                ..old(self).index_spec()@
            }),
            final(self).history_spec() == old(self).history_spec(),
            final(self).policy_spec() == old(self).policy_spec(),
    {
        self.boundaries.push_back(self.end);
        self.index.discontinuity();
    }

    /// Whether a write of `len` bytes is whole packets.
    pub fn check_aligned(len: usize) -> (result: Result<(), Unaligned>)
        ensures
            result is Ok <==> len % 188 == 0,
    {
        if len % TS_PACKET_SIZE != 0 {
            Err(Unaligned)
        } else {
            Ok(())
        }
    }

    /// Make room for the next chunk of a write with `remaining` bytes left: open a new
    /// segment when the last one cannot take another packet, first dropping, in memory,
    /// the oldest segments that the byte budget cannot hold together with it. Returns how
    /// many bytes the chunk takes: whole packets that fit the segment.
    pub fn open_chunk(&mut self, remaining: usize, byte_limit: u64) -> (count: usize)
        requires
            old(self).wf(),
        ensures
            final(self).wf(),
            final(self)@.end == old(self)@.end,
            final(self)@.received == old(self)@.received,
            final(self)@.boundaries == old(self)@.boundaries,
            final(self)@.memory == old(self)@.memory,
            final(self).index_spec() == old(self).index_spec(),
            final(self).history_spec() == old(self).history_spec(),
            final(self).policy_spec() == old(self).policy_spec(),
            final(self)@.segments.len() > 0,
            count <= remaining,
            count == (if remaining < (SEGMENT_BYTES - final(self)@.segments.last().size) / 188 * 188 {
                remaining as int
            } else {
                (SEGMENT_BYTES - final(self)@.segments.last().size) / 188 * 188
            }),
            count % 188 == 0 || count == remaining,
            final(self)@.segments.last().size + count <= SEGMENT_BYTES,
            final(self)@.segments.last().size + 188 <= SEGMENT_BYTES,
            remaining > 0 ==> count > 0,
            old(self)@.segments.len() > 0 && old(self)@.segments.last().size + 188 <= SEGMENT_BYTES
                ==> final(self)@.segments == old(self)@.segments,
            final(self)@.segments == opened(old(self)@, byte_limit),
    {
        let ghost start_segments = self@.segments;
        let count_now = self.segments.len();
        let full = if count_now == 0 {
            true
        } else {
            assert(segment_views(self.segments@)[count_now - 1] == self.segments@[count_now - 1]@);
            self.segments[count_now - 1].size + TS_PACKET_SIZE > SEGMENT_BYTES
        };
        if full {
            if self.memory {
                while self.segments.len() > 0 && (self.segments.len() as u128 + 1) * (SEGMENT_BYTES as u128) > byte_limit as u128
                    invariant
                        store_wf(self@),
                        evicted(self@.segments, byte_limit) == evicted(start_segments, byte_limit),
                        self.memory,
                        self.memory == old(self).memory,
                        self.end == old(self).end,
                        self.received == old(self).received,
                        self.boundaries == old(self).boundaries,
                        self.index == old(self).index,
                        self.history == old(self).history,
                        self.policy == old(self).policy,
                    decreases self.segments@.len(),
                {
                    let ghost before = segment_views(self.segments@);
                    let ghost raw = self.segments@;
                    let ghost start_view = self@;
                    assert(forall|i: int| 0 <= i < start_view.boundaries.len() ==> #[trigger] start_view.boundaries[i] <= start_view.end);
                    self.segments.pop_front();
                    assert(self@.boundaries == start_view.boundaries);
                    assert(self@.end == start_view.end);
                    assert(self.segments@ =~= raw.drop_first());
                    assert(segment_views(self.segments@) =~= before.drop_first());
                    proof {
                        let v = self@;
                        assert forall|i: int| #![trigger v.segments[i]] 0 <= i < v.segments.len() implies {
                            let s = v.segments[i];
                            &&& s.size <= SEGMENT_BYTES
                            &&& s.size % 188 == 0
                            &&& s.start + s.size <= v.end
                            &&& (v.memory ==> s.bytes == v.received.subrange(s.start as int, s.start + s.size))
                            &&& (!v.memory ==> s.bytes.len() == 0)
                            &&& (i + 1 < v.segments.len() ==> s.start + s.size == v.segments[i + 1].start)
                        } by {
                            assert(v.segments[i] == before[i + 1]);
                            if i + 1 < v.segments.len() {
                                assert(v.segments[i + 1] == before[i + 2]);
                            }
                        }
                        if v.segments.len() > 0 {
                            assert(v.segments.last() == before.last());
                        }
                        assert(v.end == v.received.len());
                        assert(forall|i: int| 0 <= i < v.boundaries.len() ==> #[trigger] v.boundaries[i] <= v.end);
                    }
                }
            }
            let ghost before = segment_views(self.segments@);
            let ghost raw = self.segments@;
            let ghost start_view = self@;
            assert(forall|i: int| 0 <= i < start_view.boundaries.len() ==> #[trigger] start_view.boundaries[i] <= start_view.end);
            let segment = Segment { start: self.end, size: 0, end_ns: 0, bytes: Vec::new() };
            self.segments.push_back(segment);
            assert(self@.boundaries == start_view.boundaries);
            assert(self.segments@ =~= raw.push(segment));
            assert(segment_views(self.segments@) =~= before.push(segment@));
            proof {
                let v = self@;
                assert(segment@.bytes =~= v.received.subrange(self.end as int, self.end as int));
                assert forall|i: int| #![trigger v.segments[i]] 0 <= i < v.segments.len() implies {
                    let s = v.segments[i];
                    &&& s.size <= SEGMENT_BYTES
                    &&& s.size % 188 == 0
                    &&& s.start + s.size <= v.end
                    &&& (v.memory ==> s.bytes == v.received.subrange(s.start as int, s.start + s.size))
                    &&& (!v.memory ==> s.bytes.len() == 0)
                    &&& (i + 1 < v.segments.len() ==> s.start + s.size == v.segments[i + 1].start)
                } by {
                    if i < before.len() {
                        assert(v.segments[i] == before[i]);
                        if i + 1 < before.len() {
                            assert(v.segments[i + 1] == before[i + 1]);
                        } else {
                            assert(before.last() == before[i]);
                        }
                    }
                }
            }
        }
        let last = self.segments.len() - 1;
        assert(segment_views(self.segments@)[last as int] == self.segments@[last as int]@);
        let room = (SEGMENT_BYTES - self.segments[last].size) / TS_PACKET_SIZE * TS_PACKET_SIZE;
        assert(room % 188 == 0 && room <= SEGMENT_BYTES - self.segments@[last as int].size) by (nonlinear_arith)
            requires
                room == (SEGMENT_BYTES - self.segments@[last as int].size) / 188 * 188,
                self.segments@[last as int].size <= SEGMENT_BYTES,
        ;
        assert(self.segments@[last as int].size + 188 <= SEGMENT_BYTES);
        assert(room >= 188) by (nonlinear_arith)
            requires
                room == (SEGMENT_BYTES - self.segments@[last as int].size) / 188 * 188,
                self.segments@[last as int].size + 188 <= SEGMENT_BYTES,
        ;
        if remaining < room {
            remaining
        } else {
            room
        }
    }
}

} // verus!

verus! {

/// Segments without the leading ones that the budgets no longer hold; the last segment
/// always stays. In memory a segment costs a whole segment; on disk, the bytes from its
/// start to the end.
pub open spec fn trimmed(segments: Seq<SegmentView>, memory: bool, end: u64, byte_limit: u64, earliest: u64) -> Seq<SegmentView>
    decreases segments.len(),
{
    if segments.len() > 1 && ((if memory {
        segments.len() * SEGMENT_BYTES
    } else {
        end - segments[0].start
    }) > byte_limit || segments[0].end_ns < earliest) {
        trimmed(segments.drop_first(), memory, end, byte_limit, earliest)
    } else {
        segments
    }
}

/// Boundaries from `start` on.
pub open spec fn boundaries_from(boundaries: Seq<u64>, start: u64) -> Seq<u64>
    decreases boundaries.len(),
{
    if boundaries.len() > 0 && boundaries[0] < start {
        boundaries_from(boundaries.drop_first(), start)
    } else {
        boundaries
    }
}

proof fn lemma_trimmed_suffix(segments: Seq<SegmentView>, memory: bool, end: u64, byte_limit: u64, earliest: u64)
    ensures
        ({
            let t = trimmed(segments, memory, end, byte_limit, earliest);
            &&& t.len() <= segments.len()
            &&& t == segments.subrange(segments.len() - t.len(), segments.len() as int)
            &&& segments.len() > 0 ==> t.len() > 0
        }),
    decreases segments.len(),
{
    if segments.len() > 1 && ((if memory {
        segments.len() * SEGMENT_BYTES
    } else {
        end - segments[0].start
    }) > byte_limit || segments[0].end_ns < earliest) {
        lemma_trimmed_suffix(segments.drop_first(), memory, end, byte_limit, earliest);
        let t = trimmed(segments, memory, end, byte_limit, earliest);
        assert(segments.drop_first().subrange(segments.len() - 1 - t.len(), segments.len() - 1)
            =~= segments.subrange(segments.len() - t.len(), segments.len() as int));
    } else {
        assert(segments.subrange(0, segments.len() as int) =~= segments);
    }
}

proof fn lemma_boundaries_suffix(boundaries: Seq<u64>, start: u64)
    ensures
        ({
            let b = boundaries_from(boundaries, start);
            &&& b.len() <= boundaries.len()
            &&& b == boundaries.subrange(boundaries.len() - b.len(), boundaries.len() as int)
        }),
    decreases boundaries.len(),
{
    if boundaries.len() > 0 && boundaries[0] < start {
        lemma_boundaries_suffix(boundaries.drop_first(), start);
        let b = boundaries_from(boundaries, start);
        assert(boundaries.drop_first().subrange(boundaries.len() - 1 - b.len(), boundaries.len() - 1)
            =~= boundaries.subrange(boundaries.len() - b.len(), boundaries.len() as int));
    } else {
        assert(boundaries.subrange(0, boundaries.len() as int) =~= boundaries);
    }
}

/// A suffix of well-formed segments is well formed.
proof fn lemma_wf_suffix(v: StoreView, n: int)
    requires
        store_wf(v),
        0 <= n <= v.segments.len(),
    ensures
        store_wf(StoreView { segments: v.segments.subrange(n, v.segments.len() as int), ..v }),
{
    let w = StoreView { segments: v.segments.subrange(n, v.segments.len() as int), ..v };
    assert forall|i: int| #![trigger w.segments[i]] 0 <= i < w.segments.len() implies {
        let s = w.segments[i];
        &&& s.size <= SEGMENT_BYTES
        &&& s.size % 188 == 0
        &&& s.start + s.size <= w.end
        &&& (w.memory ==> s.bytes == w.received.subrange(s.start as int, s.start + s.size))
        &&& (!w.memory ==> s.bytes.len() == 0)
        &&& (i + 1 < w.segments.len() ==> s.start + s.size == w.segments[i + 1].start)
    } by {
        assert(w.segments[i] == v.segments[i + n]);
        if i + 1 < w.segments.len() {
            assert(w.segments[i + 1] == v.segments[i + 1 + n]);
        }
    }
    if w.segments.len() > 0 {
        assert(w.segments.last() == v.segments.last());
    }
}

impl Store {
    /// Append a chunk of whole packets to the open segment; returns the offset where the
    /// chunk starts.
    pub fn commit_chunk(&mut self, packets: &[u8]) -> (offset: u64)
        requires
            old(self).wf(),
            old(self)@.segments.len() > 0,
            old(self)@.segments.last().size + packets@.len() <= SEGMENT_BYTES,
            packets@.len() % 188 == 0,
            old(self)@.end + packets@.len() <= u64::MAX,
        ensures
            final(self).wf(),
            offset == old(self)@.end,
            final(self)@.end == old(self)@.end + packets@.len(),
            final(self)@.received == old(self)@.received + packets@,
            final(self)@.boundaries == old(self)@.boundaries,
            final(self)@.memory == old(self)@.memory,
            final(self)@.segments.len() == old(self)@.segments.len(),
            final(self)@.segments.drop_last() == old(self)@.segments.drop_last(),
            final(self)@.segments.last().start == old(self)@.segments.last().start,
            final(self)@.segments.last().size == old(self)@.segments.last().size + packets@.len(),
            final(self)@.segments.last().end_ns == old(self)@.segments.last().end_ns,
            final(self).index_spec() == old(self).index_spec(),
            final(self).history_spec() == old(self).history_spec(),
            final(self).policy_spec() == old(self).policy_spec(),
    {
        let ghost before = self@;
        let offset = self.end;
        let ghost raw = self.segments@;
        let mut segment = self.segments.pop_back().unwrap();
        assert(segment@ == before.segments.last());
        if self.memory {
            let ghost held = segment.bytes@;
            let mut i: usize = 0;
            while i < packets.len()
                invariant
                    i <= packets@.len(),
                    segment.bytes@ == held + packets@.subrange(0, i as int),
                    segment.start == before.segments.last().start,
                    segment.size == before.segments.last().size,
                    segment.end_ns == before.segments.last().end_ns,
                decreases packets@.len() - i,
            {
                segment.bytes.push(packets[i]);
                i = i + 1;
                assert(segment.bytes@ =~= held + packets@.subrange(0, i as int));
            }
            assert(packets@.subrange(0, packets@.len() as int) =~= packets@);
        }
        segment.size = segment.size + packets.len();
        self.end = self.end + packets.len() as u64;
        proof {
            self.received@ = self.received@ + packets@;
        }
        self.segments.push_back(segment);
        assert(self.segments@ =~= raw.drop_last().push(segment));
        assert(segment_views(self.segments@) =~= before.segments.drop_last().push(segment@));
        proof {
            let v = self@;
            let n = before.segments.len();
            assert forall|i: int| #![trigger v.segments[i]] 0 <= i < v.segments.len() implies {
                let s = v.segments[i];
                &&& s.size <= SEGMENT_BYTES
                &&& s.size % 188 == 0
                &&& s.start + s.size <= v.end
                &&& (v.memory ==> s.bytes == v.received.subrange(s.start as int, s.start + s.size))
                &&& (!v.memory ==> s.bytes.len() == 0)
                &&& (i + 1 < v.segments.len() ==> s.start + s.size == v.segments[i + 1].start)
            } by {
                if i < n - 1 {
                    assert(v.segments[i] == before.segments[i]);
                    if i + 1 < n - 1 {
                        assert(v.segments[i + 1] == before.segments[i + 1]);
                    } else {
                        assert(before.segments[i + 1] == before.segments.last());
                    }
                    let s = v.segments[i];
                    if v.memory {
                        assert(v.received.subrange(s.start as int, s.start + s.size) =~= before.received.subrange(s.start as int, s.start + s.size));
                    }
                } else {
                    let s = v.segments[i];
                    assert(s == segment@);
                    if v.memory {
                        assert(v.received.subrange(s.start as int, s.start + s.size) =~= before.received.subrange(s.start as int, before.segments.last().start + before.segments.last().size) + packets@);
                    }
                }
            }
            assert(forall|i: int| 0 <= i < before.boundaries.len() ==> #[trigger] before.boundaries[i] <= before.end);
            assert(v.boundaries == before.boundaries);
        }
        offset
    }

    /// The open segment's bytes are presented up to the index's end.
    pub fn seal_chunk(&mut self)
        requires
            old(self).wf(),
            old(self)@.segments.len() > 0,
        ensures
            final(self).wf(),
            final(self)@.segments == old(self)@.segments.drop_last().push(SegmentView {
                end_ns: match old(self).index_spec()@.clock {
                    Some(_) => crate::index::end_value(old(self).index_spec()@),
                    None => 0,
                },
                ..old(self)@.segments.last()
            }),
            final(self)@.end == old(self)@.end,
            final(self)@.received == old(self)@.received,
            final(self)@.boundaries == old(self)@.boundaries,
            final(self)@.memory == old(self)@.memory,
            final(self).index_spec() == old(self).index_spec(),
            final(self).history_spec() == old(self).history_spec(),
            final(self).policy_spec() == old(self).policy_spec(),
    {
        let ghost before = self@;
        let ghost raw = self.segments@;
        let end_ns = match self.index.end_ns() {
            Some(end) => end,
            None => 0,
        };
        let mut segment = self.segments.pop_back().unwrap();
        assert(segment@ == before.segments.last());
        segment.end_ns = end_ns;
        self.segments.push_back(segment);
        assert(self.segments@ =~= raw.drop_last().push(segment));
        assert(segment_views(self.segments@) =~= before.segments.drop_last().push(segment@));
        proof {
            let v = self@;
            let n = before.segments.len();
            assert forall|i: int| #![trigger v.segments[i]] 0 <= i < v.segments.len() implies {
                let s = v.segments[i];
                &&& s.size <= SEGMENT_BYTES
                &&& s.size % 188 == 0
                &&& s.start + s.size <= v.end
                &&& (v.memory ==> s.bytes == v.received.subrange(s.start as int, s.start + s.size))
                &&& (!v.memory ==> s.bytes.len() == 0)
                &&& (i + 1 < v.segments.len() ==> s.start + s.size == v.segments[i + 1].start)
            } by {
                if i < n - 1 {
                    assert(v.segments[i] == before.segments[i]);
                    if i + 1 < n - 1 {
                        assert(v.segments[i + 1] == before.segments[i + 1]);
                    } else {
                        assert(before.segments[i + 1] == before.segments.last());
                    }
                } else {
                    assert(before.segments[i] == before.segments.last());
                }
            }
            assert(forall|i: int| 0 <= i < before.boundaries.len() ==> #[trigger] before.boundaries[i] <= before.end);
            assert(v.boundaries == before.boundaries);
        }
    }
}

} // verus!

verus! {

/// The anchors a trim keeps: it drops those before the first retained byte, then those
/// before the earliest kept time and the oldest while their metadata is over budget.
pub open spec fn expired_anchors(before: Seq<crate::index::Anchor>, after: Seq<crate::index::Anchor>, start: u64, earliest: u64) -> bool {
    exists|m: int, n: int|
        0 <= m <= n <= before.len() && after == before.subrange(n, before.len() as int)
        && (forall|i: int| 0 <= i < m ==> (#[trigger] before[i]).offset < start)
        && (m < before.len() ==> before[m].offset >= start)
        && (forall|i: int| m <= i < n ==> (#[trigger] before[i]).time_ns < earliest
            || crate::index::charges(before.subrange(i, before.len() as int)) > crate::index::MAX_METADATA_BYTES)
        && (n < before.len() ==> before[n].time_ns >= earliest
            && crate::index::charges(before.subrange(n, before.len() as int)) <= crate::index::MAX_METADATA_BYTES)
}

/// The earliest presentation time the time budget keeps.
pub open spec fn earliest_kept(index: crate::index::IndexView, time_limit_ns: u64) -> u64 {
    let end = end_value(index);
    if end >= time_limit_ns {
        (end - time_limit_ns) as u64
    } else {
        0
    }
}

pub open spec fn starts_of(segments: Seq<SegmentView>) -> Seq<u64> {
    segments.map_values(|s: SegmentView| s.start)
}

use crate::index::end_value;
use crate::index::end_option;

impl Store {
    /// Drop what the budgets no longer hold: the oldest segments beyond the byte budget or
    /// the time budget, then the boundaries, anchors and program history before the new
    /// start. Returns the starts of dropped disk segments, whose slots are to be released.
    #[verifier::rlimit(40)]
    #[verifier::spinoff_prover]
    pub fn trim(&mut self, byte_limit: u64, time_limit_ns: u64, lookback_ns: u64) -> (removed: Vec<u64>)
        requires
            old(self).wf(),
        ensures
            final(self).wf(),
            ({
                let earliest = earliest_kept(old(self).index_spec()@, time_limit_ns);
                let kept = trimmed(old(self)@.segments, old(self)@.memory, old(self)@.end, byte_limit, earliest);
                let dropped = old(self)@.segments.subrange(0, old(self)@.segments.len() - kept.len());
                &&& final(self)@.segments == kept
                &&& removed@ == if old(self)@.memory {
                    Seq::<u64>::empty()
                } else {
                    starts_of(dropped)
                }
                &&& final(self)@.boundaries == boundaries_from(old(self)@.boundaries, start_of(final(self)@))
                &&& final(self).index_spec()@.entries.len() > 0 ==> final(self).index_spec()@.entries[0].time_ns >= earliest
            }),
            final(self)@.end == old(self)@.end,
            final(self)@.received == old(self)@.received,
            final(self)@.memory == old(self)@.memory,
            final(self).index_spec()@.clock == old(self).index_spec()@.clock,
            final(self).index_spec()@.epoch == old(self).index_spec()@.epoch,
            final(self).index_spec()@.entries.len() <= old(self).index_spec()@.entries.len(),
            exists|n: int|
                0 <= n <= old(self).index_spec()@.entries.len() && final(self).index_spec()@.entries
                    == old(self).index_spec()@.entries.subrange(n, old(self).index_spec()@.entries.len() as int),
            expired_anchors(
                old(self).index_spec()@.entries,
                final(self).index_spec()@.entries,
                start_of(final(self)@),
                earliest_kept(old(self).index_spec()@, time_limit_ns),
            ),
            final(self).history_spec()@ == {
                let entries = final(self).index_spec()@.entries;
                let history = if entries.len() > 0 {
                    crate::live::expired_view(old(self).history_spec()@, entries[0].time_ns, lookback_ns)
                } else {
                    old(self).history_spec()@
                };
                match end_option(final(self).index_spec()@) {
                    Some(end) => crate::live::advanced_view(history, end),
                    None => history,
                }
            },
            final(self).index_spec()@.step == old(self).index_spec()@.step,
            final(self).index_spec()@.interval == old(self).index_spec()@.interval,
            final(self).index_spec()@.presentation_end == old(self).index_spec()@.presentation_end,
            final(self).index_spec()@.last_pts == old(self).index_spec()@.last_pts,
            final(self).policy_spec() == old(self).policy_spec(),
    {
        let ghost entries_before = self.index@.entries;
        let end_ns = match self.index.end_ns() {
            Some(end) => end,
            None => 0,
        };
        let earliest = end_ns.saturating_sub(time_limit_ns);
        let ghost all = self@.segments;
        let ghost start_view = self@;
        let mut removed: Vec<u64> = Vec::new();
        proof {
            lemma_trimmed_suffix(all, self.memory, self.end, byte_limit, earliest);
        }
        let ghost mut n: int = 0;
        loop
            invariant
                0 <= n <= all.len(),
                self@.segments == all.subrange(n, all.len() as int),
                trimmed(all, start_view.memory, start_view.end, byte_limit, earliest) == trimmed(self@.segments, start_view.memory, start_view.end, byte_limit, earliest),
                removed@ == if start_view.memory {
                    Seq::<u64>::empty()
                } else {
                    starts_of(all.subrange(0, n))
                },
                self@.end == start_view.end,
                self@.received == start_view.received,
                self@.memory == start_view.memory,
                self@.boundaries == start_view.boundaries,
                store_wf(start_view),
                all == start_view.segments,
                self.index == old(self).index,
                self.history == old(self).history,
                self.policy == old(self).policy,
                self.memory == old(self).memory,
                end_ns == end_value(old(self).index@),
                earliest == earliest_kept(old(self).index@, time_limit_ns),
            ensures
                0 <= n <= all.len(),
                self@.segments == all.subrange(n, all.len() as int),
                trimmed(all, start_view.memory, start_view.end, byte_limit, earliest) == self@.segments,
                removed@ == if start_view.memory {
                    Seq::<u64>::empty()
                } else {
                    starts_of(all.subrange(0, n))
                },
                self@.end == start_view.end,
                self@.received == start_view.received,
                self@.memory == start_view.memory,
                self@.boundaries == start_view.boundaries,
                self.index == old(self).index,
                self.history == old(self).history,
                self.policy == old(self).policy,
                self.memory == old(self).memory,
            decreases self@.segments.len(),
        {
            let len = self.segments.len();
            if len <= 1 {
                break;
            }
            assert(segment_views(self.segments@)[0] == self.segments@[0]@);
            let first = self.segments[0].start;
            let first_end = self.segments[0].end_ns;
            let measure: u128 = if self.memory {
                len as u128 * SEGMENT_BYTES as u128
            } else {
                assert(all[n] == self@.segments[0]);
                assert(all == start_view.segments);
                let ghost sv = start_view.segments[n];
                assert(sv.start + sv.size <= start_view.end);
                (self.end - first) as u128
            };
            if !(measure > byte_limit as u128 || first_end < earliest) {
                assert(measure == (if start_view.memory {
                    self@.segments.len() * SEGMENT_BYTES
                } else {
                    start_view.end - self@.segments[0].start
                }));
                break;
            }
            if !self.memory {
                removed.push(first);
            }
            let ghost raw = self.segments@;
            self.segments.pop_front();
            assert(self.segments@ =~= raw.drop_first());
            proof {
                assert(segment_views(self.segments@) =~= segment_views(raw).drop_first());
                assert(all.subrange(n + 1, all.len() as int) =~= all.subrange(n, all.len() as int).drop_first());
                if !start_view.memory {
                    assert(starts_of(all.subrange(0, n + 1)) =~= starts_of(all.subrange(0, n)).push(first));
                }
                n = n + 1;
            }
        }
        proof {
            lemma_wf_suffix(start_view, n);
            let kept = trimmed(all, start_view.memory, start_view.end, byte_limit, earliest);
            assert(kept == self@.segments);
            assert(all.subrange(0, all.len() - kept.len()) =~= all.subrange(0, n));
            assert(self@ == StoreView { segments: all.subrange(n, all.len() as int), ..start_view });
        }
        let start = self.start();
        self.index.expire(start);
        let ghost m1: int = choose|m: int| 0 <= m <= entries_before.len() && self.index@.entries == entries_before.subrange(m, entries_before.len() as int) && (forall|i: int| 0 <= i < m ==> #[trigger] entries_before[i].offset < start);
        let ghost entries_mid = self.index@.entries;
        let ghost bounds = self.boundaries@;
        let ghost snap_segments = self.segments;
        let ghost snap_index = self.index;
        let ghost snap_history = self.history;
        let ghost snap_received = self.received;
        proof {
            lemma_boundaries_suffix(bounds, start);
        }
        while self.boundaries.len() > 0 && self.boundaries[0] < start
            invariant
                boundaries_from(bounds, start) == boundaries_from(self.boundaries@, start),
                self.boundaries@.len() <= bounds.len(),
                self.end == start_view.end,
                bounds == start_view.boundaries,
                self.index.wf(),
                self.history.wf(),
                self.index@.entries.len() <= entries_before.len(),
                self.segments == snap_segments,
                self.index == snap_index,
                self.history == snap_history,
                self.received == snap_received,
                self.memory == old(self).memory,
                self.policy == old(self).policy,
                start == start_of(self@),
                self.boundaries@ == bounds.subrange(bounds.len() - self.boundaries@.len(), bounds.len() as int),
            decreases self.boundaries@.len(),
        {
            let ghost raw = self.boundaries@;
            self.boundaries.pop_front();
            assert(self.boundaries@ =~= raw.drop_first());
            assert(self.boundaries@ =~= bounds.subrange(bounds.len() - self.boundaries@.len(), bounds.len() as int));
        }
        proof {
            assert forall|i: int| 0 <= i < self.boundaries@.len() implies #[trigger] self.boundaries@[i] <= self.end by {
                assert(self.boundaries@[i] == bounds[bounds.len() - self.boundaries@.len() + i]);
                assert(bounds == start_view.boundaries);
            }
        }
        let ghost expired_offsets = self.index@.entries;
        self.index.expire_time(earliest);
        proof {
            let e = self.index@.entries;
            let m = choose|m: int| 0 <= m <= expired_offsets.len() && e == expired_offsets.subrange(m, expired_offsets.len() as int) && (forall|i: int| 0 <= i < m ==> #[trigger] expired_offsets[i].time_ns < earliest || crate::index::charges(expired_offsets.subrange(i, expired_offsets.len() as int)) > crate::index::MAX_METADATA_BYTES);
            if e.len() > 0 {
                assert(e[0] == expired_offsets[m]);
            }
            assert(expired_offsets == entries_mid);
            assert(e =~= entries_before.subrange(m1 + m, entries_before.len() as int));
            if m1 < entries_before.len() {
                assert(entries_mid[0] == entries_before[m1]);
            }
            assert forall|i: int| m1 <= i < m1 + m implies (#[trigger] entries_before[i]).time_ns < earliest
                || crate::index::charges(entries_before.subrange(i, entries_before.len() as int)) > crate::index::MAX_METADATA_BYTES by {
                assert(expired_offsets[i - m1] == entries_before[i]);
                assert(expired_offsets.subrange(i - m1, expired_offsets.len() as int) =~= entries_before.subrange(i, entries_before.len() as int));
            }
            if m1 + m < entries_before.len() {
                assert(e[0] == entries_before[m1 + m]);
            }
            assert(expired_anchors(entries_before, e, start, earliest));
        }
        let count = self.index.entries().len();
        if count > 0 {
            let first = self.index.entries()[0].time_ns;
            self.history.expire(first, lookback_ns);
        }
        match self.index.end_ns() {
            Some(end) => self.history.advance_end(end),
            None => {},
        }
        removed
    }
}

} // verus!

verus! {

/// Where reading may start: the first retained offset, or the first anchor with a clock
/// time when that is later.
pub open spec fn readable_start(v: StoreView, index: crate::index::IndexView) -> u64 {
    if index.entries.len() > 0 && index.entries[0].time_ns > 0 {
        if index.entries[0].offset > start_of(v) {
            index.entries[0].offset
        } else {
            start_of(v)
        }
    } else {
        start_of(v)
    }
}

/// How many bytes a read at `offset` returns: at most a read's worth, within its segment,
/// and never across a reconnection.
pub open spec fn read_count(v: StoreView, offset: u64) -> int {
    let s = v.segments[holding(v.segments, offset, 0)];
    let left = s.size - (offset - s.start);
    let until = match next_boundary(v.boundaries, offset, 0) {
        Some(b) => b - offset,
        None => READ_BYTES as int,
    };
    let a = if (READ_BYTES as int) < left {
        READ_BYTES as int
    } else {
        left
    };
    if a < until {
        a
    } else {
        until
    }
}

proof fn lemma_holding(v: StoreView, offset: u64, i: int)
    requires
        store_wf(v),
        0 <= i < v.segments.len(),
        v.segments[i].start <= offset < v.end,
    ensures
        i <= holding(v.segments, offset, i) < v.segments.len(),
        v.segments[holding(v.segments, offset, i)].start <= offset < v.segments[holding(v.segments, offset, i)].start
            + v.segments[holding(v.segments, offset, i)].size,
        holding(v.segments, offset, 0) == holding(v.segments, offset, i) || i > 0,
    decreases v.segments.len() - i,
{
    let s = v.segments[i];
    if !(offset < s.start + s.size) {
        if i + 1 < v.segments.len() {
            assert(s.start + s.size == v.segments[i + 1].start);
            lemma_holding(v, offset, i + 1);
        } else {
            assert(v.segments.last() == s);
        }
    }
}

proof fn lemma_holding_from_start(v: StoreView, offset: u64)
    requires
        store_wf(v),
        v.segments.len() > 0,
        v.segments[0].start <= offset < v.end,
    ensures
        0 <= holding(v.segments, offset, 0) < v.segments.len(),
        v.segments[holding(v.segments, offset, 0)].start <= offset < v.segments[holding(v.segments, offset, 0)].start
            + v.segments[holding(v.segments, offset, 0)].size,
{
    lemma_holding(v, offset, 0);
}

impl Store {
    /// Reception goes on.
    pub closed spec fn receiving(self) -> bool {
        self.status is Receiving
    }

    /// Reception ended normally.
    pub closed spec fn ended(self) -> bool {
        self.status is Ended
    }

    /// The message of a failed reception.
    pub closed spec fn failure(self) -> Option<Seq<char>> {
        match self.status {
            Status::Failed(message) => Some(message@),
            _ => None,
        }
    }

    /// Reception is in exactly one state: going on, ended, or failed with a message.
    pub proof fn status_is_exclusive(&self)
        ensures
            self.receiving() ==> !self.ended() && self.failure() is None,
            self.ended() ==> !self.receiving() && self.failure() is None,
            self.failure() is Some ==> !self.receiving() && !self.ended(),
            self.receiving() || self.ended() || self.failure() is Some,
    {
    }

    pub fn set_status(&mut self, status: Status)
        requires
            old(self).wf(),
        ensures
            final(self).wf(),
            final(self).receiving() == (status is Receiving),
            final(self).ended() == (status is Ended),
            final(self).failure() == match status {
                Status::Failed(message) => Some(message@),
                _ => None,
            },
            final(self)@ == old(self)@,
            final(self).index_spec() == old(self).index_spec(),
            final(self).history_spec() == old(self).history_spec(),
            final(self).policy_spec() == old(self).policy_spec(),
    {
        self.status = status;
    }
}


proof fn lemma_next_boundary(boundaries: Seq<u64>, offset: u64, from: int)
    ensures
        next_boundary(boundaries, offset, from) matches Some(b) ==> b > offset,
    decreases boundaries.len() - from,
{
    if 0 <= from < boundaries.len() && boundaries[from] <= offset {
        lemma_next_boundary(boundaries, offset, from + 1);
    }
}

fn copy_range(bytes: &Vec<u8>, from: usize, count: usize) -> (copy: Vec<u8>)
    requires
        from + count <= bytes@.len(),
    ensures
        copy@ == bytes@.subrange(from as int, from + count),
{
    let mut copy: Vec<u8> = Vec::new();
    let mut i: usize = 0;
    while i < count
        invariant
            i <= count,
            from + count <= bytes.len(),
            copy@ == bytes@.subrange(from as int, from + i),
        decreases count - i,
    {
        copy.push(bytes[from + i]);
        i = i + 1;
        assert(copy@ =~= bytes@.subrange(from as int, from + i));
    }
    copy
}

impl Store {
    fn segment_at(&self, offset: u64) -> (k: usize)
        requires
            store_wf(self@),
            0 <= holding(self@.segments, offset, 0) < self@.segments.len(),
        ensures
            k == holding(self@.segments, offset, 0),
    {
        let ghost v = self@;
        let mut k: usize = 0;
        while k < self.segments.len()
            invariant
                k <= v.segments.len(),
                v == self@,
                store_wf(v),
                holding(v.segments, offset, 0) == holding(v.segments, offset, k as int),
                0 <= holding(v.segments, offset, 0) < v.segments.len(),
            decreases v.segments.len() - k,
        {
            assert(segment_views(self.segments@)[k as int] == self.segments@[k as int]@);
            let s = &self.segments[k];
            assert(v.segments[k as int].start + v.segments[k as int].size <= v.end);
            if offset >= s.start && offset < s.start + s.size as u64 {
                return k;
            }
            k = k + 1;
        }
        k
    }

    fn boundary_after(&self, offset: u64) -> (next: Option<u64>)
        ensures
            next == next_boundary(self@.boundaries, offset, 0),
    {
        let ghost v = self@;
        let mut b: usize = 0;
        while b < self.boundaries.len()
            invariant
                b <= v.boundaries.len(),
                v == self@,
                next_boundary(v.boundaries, offset, 0) == next_boundary(v.boundaries, offset, b as int),
            decreases v.boundaries.len() - b,
        {
            if self.boundaries[b] > offset {
                return Some(self.boundaries[b]);
            }
            b = b + 1;
        }
        None
    }

    fn boundary_at(&self, offset: u64) -> (found: bool)
        ensures
            found == self@.boundaries.contains(offset),
    {
        let ghost v = self@;
        let mut c: usize = 0;
        while c < self.boundaries.len()
            invariant
                c <= v.boundaries.len(),
                v == self@,
                forall|j: int| 0 <= j < c ==> v.boundaries[j] != offset,
            decreases v.boundaries.len() - c,
        {
            if self.boundaries[c] == offset {
                assert(v.boundaries[c as int] == offset);
                return true;
            }
            c = c + 1;
        }
        false
    }

    /// What a read at `offset` finds: expired before the readable start; past the end,
    /// waiting, the end, or the failure of reception; else the bytes received there, up to
    /// a read's worth, within one segment and never across a reconnection.
    #[verifier::rlimit(50)]
    #[verifier::spinoff_prover]
    pub fn read(&self, offset: u64) -> (result: ReadResult)
        requires
            self.wf(),
        ensures
            ({
                let v = self@;
                let readable = readable_start(v, self.index_spec()@);
                match result {
                    ReadResult::Expired => offset < readable,
                    ReadResult::Awaiting => readable <= offset && offset >= v.end && self.receiving(),
                    ReadResult::End => readable <= offset && offset >= v.end && self.ended(),
                    ReadResult::Failed(message) => readable <= offset && offset >= v.end && !self.receiving()
                        && !self.ended() && self.failure() == Some(message@),
                    ReadResult::Data { bytes, reconnected } => v.memory && readable <= offset < v.end
                        && bytes@.len() == read_count(v, offset) && bytes@ == v.received.subrange(
                        offset as int,
                        offset + bytes@.len(),
                    ) && reconnected == v.boundaries.contains(offset),
                    ReadResult::Disk { start, within, count, reconnected } => !v.memory && readable
                        <= offset < v.end && start == v.segments[holding(v.segments, offset, 0)].start
                        && within == offset - start && count == read_count(v, offset)
                        && reconnected == v.boundaries.contains(offset),
                }
            }),
    {
        let start = self.start();
        let entries = self.index.entries();
        let readable = if entries.len() > 0 && entries[0].time_ns > 0 {
            if entries[0].offset > start {
                entries[0].offset
            } else {
                start
            }
        } else {
            start
        };
        if offset < readable {
            return ReadResult::Expired;
        }
        if offset >= self.end {
            return match &self.status {
                Status::Receiving => ReadResult::Awaiting,
                Status::Ended => ReadResult::End,
                Status::Failed(message) => ReadResult::Failed(message.clone()),
            };
        }
        let ghost v = self@;
        proof {
            if v.segments.len() == 0 {
                assert(start == v.end);
            }
            lemma_holding_from_start(v, offset);
        }
        let k = self.segment_at(offset);
        assert(segment_views(self.segments@)[k as int] == self.segments@[k as int]@);
        let segment = &self.segments[k];
        assert(v.segments[k as int].start <= offset < v.segments[k as int].start + v.segments[k as int].size);
        let within = (offset - segment.start) as usize;
        let next = self.boundary_after(offset);
        proof {
            lemma_next_boundary(v.boundaries, offset, 0);
        }
        let until: u64 = match next {
            Some(boundary) => boundary - offset,
            None => READ_BYTES as u64,
        };
        let left = segment.size - within;
        let first = if READ_BYTES < left {
            READ_BYTES
        } else {
            left
        };
        let count: usize = if (first as u64) < until {
            first
        } else {
            until as usize
        };
        let reconnected = self.boundary_at(offset);
        assert(reconnected == v.boundaries.contains(offset));
        if self.memory {
            assert(segment.bytes@ == v.received.subrange(segment.start as int, segment.start + segment.size));
            let bytes = copy_range(&segment.bytes, within, count);
            assert(bytes@ =~= v.received.subrange(offset as int, offset + count));
            ReadResult::Data { bytes, reconnected }
        } else {
            ReadResult::Disk { start: segment.start, within, count, reconnected }
        }
    }
}

} // verus!

verus! {

/// How a change of policy affects playback: a new storage returns to live; a smaller
/// budget clamps the position; anything else leaves it.
pub open spec fn policy_change(from: Policy, to: Policy) -> Option<RetentionChange> {
    let (bytes, time) = crate::limits::budget_spec(to.storage_spec(), to.limits_spec().saved_spec());
    let (before_bytes, before_time) = crate::limits::budget_spec(
        from.storage_spec(),
        from.limits_spec().saved_spec(),
    );
    if replaces_storage(from.storage_spec(), to.storage_spec()) {
        Some(RetentionChange::ReturnToLive)
    } else if bytes < before_bytes || time < before_time {
        Some(RetentionChange::ClampPosition)
    } else {
        None
    }
}

/// Turning retention off drops what memory or disk held: the storage is replaced, so
/// playback returns to live and the store starts over with one empty segment at its end.
/// Retention that was already off changes nothing that way.
pub proof fn turning_retention_off_returns_to_live(from: Policy, to: Policy)
    requires
        to.storage_spec() == Retention::Off,
    ensures
        from.storage_spec() != Retention::Off ==> replaces_storage(from.storage_spec(), to.storage_spec())
            && policy_change(from, to) == Some(RetentionChange::ReturnToLive),
        from.storage_spec() == Retention::Off ==> !replaces_storage(from.storage_spec(), to.storage_spec())
            && policy_change(from, to) != Some(RetentionChange::ReturnToLive),
{
}

impl Store {
    /// Apply a new retention policy. A change of storage starts over with an empty segment
    /// at the current end and no anchors; then the new budgets are enforced. Returns how
    /// playback is affected and the starts of dropped disk segments.
    pub fn commit_policy(&mut self, policy: Policy, lookback_ns: u64) -> (result: (Option<RetentionChange>, Vec<u64>))
        requires
            old(self).wf(),
        ensures
            final(self).wf(),
            final(self).policy_spec() == policy,
            result.0 == policy_change(old(self).policy_spec(), policy),
            final(self)@.end == old(self)@.end,
            final(self)@.received == old(self)@.received,
            final(self)@.memory == (policy.storage_spec() != Retention::Filesystem),
            replaces_storage(old(self).policy_spec().storage_spec(), policy.storage_spec()) ==> final(self)@.segments.len() == 1
                && final(self)@.segments[0].start == old(self)@.end && final(self)@.segments[0].size == 0
                && final(self)@.boundaries.len() == 0 && final(self).index_spec()@.entries.len() == 0,
    {
        let (bytes, time) = policy.budget();
        let (before_bytes, before_time) = self.policy.budget();
        let reset = needs_new_storage(self.policy.storage(), policy.storage());
        let change = if reset {
            let ghost start_view = self@;
            self.segments.clear();
            self.memory = !matches!(policy.storage(), Retention::Filesystem);
            let segment = Segment { start: self.end, size: 0, end_ns: 0, bytes: Vec::new() };
            self.segments.push_back(segment);
            self.boundaries.clear();
            self.index.clear_entries();
            match self.index.end_ns() {
                Some(end) => self.history.expire(end, lookback_ns),
                None => {},
            }
            proof {
                let v = self@;
                assert(segment_views(self.segments@) =~= seq![segment@]);
                assert(segment@.bytes =~= v.received.subrange(v.end as int, v.end as int));
                assert(v.boundaries =~= Seq::<u64>::empty());
                assert(start_view.end == start_view.received.len());
            }
            Some(RetentionChange::ReturnToLive)
        } else if bytes < before_bytes || time < before_time {
            Some(RetentionChange::ClampPosition)
        } else {
            None
        };
        self.policy = policy;
        let removed = self.trim(bytes, time, lookback_ns);
        proof {
            if reset {
                assert(boundaries_from(Seq::<u64>::empty(), start_of(self@)) == Seq::<u64>::empty());
            }
        }
        (change, removed)
    }

    /// A PCR on the service's PCR stream, at `offset`: see `Index::pcr_packet`.
    pub fn record_pcr(&mut self, offset: u64, pcr: u64, discontinuity: bool, tables: u64, charge: usize) -> (anchor: crate::index::Anchor)
        requires
            old(self).wf(),
            pcr < crate::index::PCR_WRAP,
            crate::index::clock_ticks(old(self).index_spec()@.clock) + crate::index::DISCONTINUITY_TICKS <= crate::index::TICKS_LIMIT,
            old(self).index_spec()@.epoch < u64::MAX,
            old(self).index_spec()@.metadata_bytes + charge <= usize::MAX,
        ensures
            final(self).wf(),
            final(self)@ == old(self)@,
            final(self).history_spec() == old(self).history_spec(),
            final(self).policy_spec() == old(self).policy_spec(),
            final(self).index_spec()@.clock == Some((pcr, crate::index::advance(old(self).index_spec()@.clock, old(self).index_spec()@.step, pcr, discontinuity).0 as u64)),
            anchor.offset == offset && anchor.pcr == pcr && anchor.tables == tables,
            (final(self).index_spec()@, anchor) == crate::index::pcr_effect(old(self).index_spec()@, offset, pcr, discontinuity, tables, charge),
    {
        self.index.pcr_packet(offset, pcr, discontinuity, tables, charge)
    }

    /// A PTS on the PCR stream: see `Index::pts_packet`.
    pub fn record_pts(&mut self, pid: u16, pts: u64)
        requires
            old(self).wf(),
            pts < crate::index::PCR_WRAP,
        ensures
            final(self).wf(),
            final(self)@ == old(self)@,
            final(self).history_spec() == old(self).history_spec(),
            final(self).policy_spec() == old(self).policy_spec(),
            final(self).index_spec()@ == crate::index::pts_effect(old(self).index_spec()@, pid, pts),
    {
        self.index.pts_packet(pid, pts)
    }

    /// A reception for the program history: see `History::observe`.
    pub fn observe(&mut self, epoch: u64, time_ns: u64, end_ns: u64, observation: Option<&crate::live::Observation>, reading: Option<crate::live::Reading>)
        requires
            old(self).wf(),
            old(self).history_spec()@.serial < u64::MAX,
        ensures
            final(self).wf(),
            final(self)@ == old(self)@,
            final(self).index_spec() == old(self).index_spec(),
            final(self).policy_spec() == old(self).policy_spec(),
            crate::live::observation_effect(
                old(self).history_spec()@,
                final(self).history_spec()@,
                epoch,
                time_ns,
                end_ns,
                crate::live::observation_view(observation),
                reading,
            ),
    {
        self.history.observe(epoch, time_ns, end_ns, observation, reading)
    }
}

/// A read never returns bytes other than those received at its offset: every retained
/// in-memory byte is the byte received at its stream offset.
pub proof fn retained_bytes_are_received(v: StoreView, i: int, within: int)
    requires
        store_wf(v),
        v.memory,
        0 <= i < v.segments.len(),
        0 <= within < v.segments[i].size,
    ensures
        v.segments[i].bytes[within] == v.received[v.segments[i].start + within],
{
    let s = v.segments[i];
    assert(s.bytes == v.received.subrange(s.start as int, s.start + s.size));
}

/// What the retained segments measure against the byte budget: the whole segments held
/// in memory, or the bytes from the first retained one on disk to the end.
pub open spec fn retained_measure(segments: Seq<SegmentView>, memory: bool, end: u64) -> int {
    if memory {
        segments.len() * SEGMENT_BYTES
    } else {
        end - segments[0].start
    }
}

/// After a trim, retention stays within its budgets: what is kept fits the byte budget and
/// reaches back no earlier than the time budget allows, unless only the newest segment,
/// which is never dropped, is left.
pub proof fn trim_stays_within_budget(segments: Seq<SegmentView>, memory: bool, end: u64, byte_limit: u64, earliest: u64)
    requires
        segments.len() > 0,
    ensures
        ({
            let kept = trimmed(segments, memory, end, byte_limit, earliest);
            &&& kept.len() > 0
            &&& kept.last() == segments.last()
            &&& kept.len() == 1 || (retained_measure(kept, memory, end) <= byte_limit && kept[0].end_ns >= earliest)
        }),
    decreases segments.len(),
{
    lemma_trimmed_suffix(segments, memory, end, byte_limit, earliest);
    if segments.len() > 1 && (retained_measure(segments, memory, end) > byte_limit || segments[0].end_ns < earliest) {
        trim_stays_within_budget(segments.drop_first(), memory, end, byte_limit, earliest);
    }
}

} // verus!
