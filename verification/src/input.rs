//! Decisions of the stream input: the seekable window, where a seek starts, how read
//! output is cut at clock anchors, and how the pipeline source is answered.
use vstd::prelude::*;
use crate::index::{Anchor, Index};
use crate::store::ReadResult;

verus! {

/// Preroll before a seek target.
pub const SEEK_PREROLL_NS: u64 = 3000000000;
/// Reconnections after the first connection.
pub const MAX_RECONNECTS: usize = 3;
/// A position this close to the live end counts as at the edge.
pub const LIVE_EDGE_TOLERANCE_NS: u64 = 5000000000;
/// A seek-generation value that no seek can have had.
pub const NO_EXPIRED_GENERATION: u64 = 0xffff_ffff_ffff_ffff;

#[derive(Clone, Copy, Debug, PartialEq, Eq, Structural)]
pub enum InputError {
    /// The seek target is outside the retained stream.
    Expired,
    /// No clock anchor is known yet.
    Unindexed,
}

/// How much of the stream's duration is known.
#[derive(Clone, Copy, Debug, PartialEq, Eq, Structural)]
pub enum Coverage {
    Complete,
    Estimated,
    Partial,
}

/// The stream time that can be played, and whether it can be sought.
#[derive(Clone, Copy, Debug, PartialEq, Eq, Structural)]
pub struct Window {
    pub start: u64,
    pub end: u64,
    pub coverage: Coverage,
    pub seekable: bool,
}

/// A live window: from the first anchor to the index end; seekable with retention.
pub fn live_window(first: Option<u64>, end: Option<u64>, retained: bool) -> (window: Option<Window>)
    ensures
        window == match (first, end) {
            (Some(s), Some(e)) => Some(Window { start: s, end: e, coverage: Coverage::Partial, seekable: retained }),
            _ => None,
        },
{
    match (first, end) {
        (Some(s), Some(e)) => Some(Window { start: s, end: e, coverage: Coverage::Partial, seekable: retained }),
        _ => None,
    }
}

/// A file window: from the first anchor (else the surveyed start) to the index end once
/// indexing ended (else the surveyed end, else the index end). Coverage is complete once
/// indexing ended, estimated from a survey, else partial.
pub open spec fn file_window_spec(ended: bool, first: Option<u64>, survey: Option<(u64, u64)>, index_end: Option<u64>) -> Option<Window> {
    let start = match first {
        Some(t) => Some(t),
        None => match survey {
            Some((s, _)) => Some(s),
            None => None,
        },
    };
    let end = if ended {
        index_end
    } else {
        match survey {
            Some((_, e)) => Some(e),
            None => index_end,
        }
    };
    let coverage = if ended {
        Coverage::Complete
    } else if survey is Some {
        Coverage::Estimated
    } else {
        Coverage::Partial
    };
    match (start, end) {
        (Some(s), Some(e)) => Some(Window { start: s, end: e, coverage, seekable: true }),
        _ => None,
    }
}

/// A file's window while indexing goes on reaches to the surveyed end, estimated, even
/// when less is indexed; the index end bounds it only once indexing ended, or without a
/// survey. It starts at the first anchor, else at the surveyed start.
pub proof fn window_reaches_the_surveyed_end(ended: bool, first: Option<u64>, survey: Option<(u64, u64)>, index_end: Option<u64>)
    ensures
        ({
            let w = file_window_spec(ended, first, survey, index_end);
            &&& (!ended && survey is Some) ==> w == Some(
                Window {
                    start: match first {
                        Some(t) => t,
                        None => match survey {
                            Some((s, _)) => s,
                            None => 0,
                        },
                    },
                    end: match survey {
                        Some((_, e)) => e,
                        None => 0,
                    },
                    coverage: Coverage::Estimated,
                    seekable: true,
                },
            )
            &&& (ended && w is Some) ==> index_end == Some(w->0.end) && w->0.coverage == Coverage::Complete
            &&& (survey is None && w is Some) ==> index_end == Some(w->0.end) && first == Some(w->0.start)
        }),
{
}

pub fn file_window(ended: bool, first: Option<u64>, survey: Option<(u64, u64)>, index_end: Option<u64>) -> (window: Option<Window>)
    ensures
        window == file_window_spec(ended, first, survey, index_end),
{
    let start = match first {
        Some(t) => Some(t),
        None => match survey {
            Some((s, _)) => Some(s),
            None => None,
        },
    };
    let end = if ended {
        index_end
    } else {
        match survey {
            Some((_, e)) => Some(e),
            None => index_end,
        }
    };
    let coverage = if ended {
        Coverage::Complete
    } else if survey.is_some() {
        Coverage::Estimated
    } else {
        Coverage::Partial
    };
    match (start, end) {
        (Some(s), Some(e)) => Some(Window { start: s, end: e, coverage, seekable: true }),
        _ => None,
    }
}

/// The index of the newest anchor at or before `time`, searching from the back.
pub open spec fn last_at_or_before(entries: Seq<Anchor>, time: u64, n: int) -> Option<int>
    decreases n,
{
    if n <= 0 || n > entries.len() {
        None
    } else if entries[n - 1].time_ns <= time {
        Some(n - 1)
    } else {
        last_at_or_before(entries, time, n - 1)
    }
}

/// The preroll point of a seek: the preroll before the target; on a live stream at most
/// half the distance back to the oldest anchor.
pub open spec fn preroll_point(target: u64, first: u64, live: bool) -> u64 {
    let preroll = if live && (target - first) / 2 < SEEK_PREROLL_NS {
        (target - first) / 2
    } else {
        SEEK_PREROLL_NS as int
    };
    if target >= preroll {
        (target - preroll) as u64
    } else {
        0
    }
}

/// Where a seek to `target` starts: the newest anchor at or before its preroll point, or
/// the oldest anchor; refused before the first anchor or at or after the end.
pub open spec fn anchor_for(entries: Seq<Anchor>, end: Option<u64>, target: u64, live: bool) -> Result<Anchor, InputError> {
    if entries.len() == 0 || end is None {
        Err(InputError::Unindexed)
    } else if target < entries[0].time_ns || target >= end->0 {
        Err(InputError::Expired)
    } else {
        match last_at_or_before(entries, preroll_point(target, entries[0].time_ns, live), entries.len() as int) {
            Some(i) => Ok(entries[i]),
            None => Ok(entries[0]),
        }
    }
}

proof fn lemma_last_at_or_before(entries: Seq<Anchor>, time: u64, n: int)
    ensures
        last_at_or_before(entries, time, n) matches Some(i) ==> 0 <= i < n <= entries.len()
            && entries[i].time_ns <= time,
    decreases n,
{
    if 0 < n <= entries.len() && entries[n - 1].time_ns > time {
        lemma_last_at_or_before(entries, time, n - 1);
    }
}

fn newest_at_or_before(entries: &std::collections::VecDeque<Anchor>, time: u64) -> (found: Option<usize>)
    ensures
        match found {
            Some(i) => last_at_or_before(entries@, time, entries@.len() as int) == Some(i as int),
            None => last_at_or_before(entries@, time, entries@.len() as int) is None,
        },
{
    let count = entries.len();
    let mut n = count;
    while n > 0
        invariant
            n <= count,
            count == entries@.len(),
            last_at_or_before(entries@, time, count as int) == last_at_or_before(entries@, time, n as int),
        decreases n,
    {
        if entries[n - 1].time_ns <= time {
            return Some(n - 1);
        }
        n = n - 1;
    }
    None
}

/// Choose the anchor a seek to `target` starts from.
pub fn choose_anchor(index: &Index, target: u64, live: bool) -> (anchor: Result<Anchor, InputError>)
    requires
        index.wf(),
    ensures
        anchor == anchor_for(index@.entries, crate::index::end_option(index@), target, live),
{
    let entries = index.entries();
    let count = entries.len();
    if count == 0 {
        return Err(InputError::Unindexed);
    }
    let end = match index.end_ns() {
        Some(end) => end,
        None => {
            return Err(InputError::Unindexed);
        },
    };
    let first = entries[0];
    if target < first.time_ns || target >= end {
        return Err(InputError::Expired);
    }
    let half = (target - first.time_ns) / 2;
    let preroll_ns = if live && half < SEEK_PREROLL_NS {
        half
    } else {
        SEEK_PREROLL_NS
    };
    let preroll = target.saturating_sub(preroll_ns);
    let found = newest_at_or_before(entries, preroll);
    proof {
        lemma_last_at_or_before(entries@, preroll, entries@.len() as int);
    }
    match found {
        Some(i) => Ok(entries[i]),
        None => Ok(first),
    }
}

/// A seek never starts after its target: the chosen anchor lies at or before the
/// target, inside the indexed window.
pub proof fn seek_starts_before_target(entries: Seq<Anchor>, end: Option<u64>, target: u64, live: bool)
    ensures
        anchor_for(entries, end, target, live) matches Ok(a) ==> a.time_ns <= target && entries.len() > 0
            && entries[0].time_ns <= target,
{
    if entries.len() > 0 && end is Some && !(target < entries[0].time_ns || target >= end->0) {
        lemma_last_at_or_before(entries, preroll_point(target, entries[0].time_ns, live), entries.len() as int);
    }
}

proof fn lemma_newest_at_or_before(entries: Seq<Anchor>, time: u64, n: int)
    requires
        0 <= n <= entries.len(),
    ensures
        match last_at_or_before(entries, time, n) {
            Some(i) => 0 <= i < n && entries[i].time_ns <= time && forall|j: int|
                i < j < n ==> #[trigger] entries[j].time_ns > time,
            None => forall|j: int| 0 <= j < n ==> #[trigger] entries[j].time_ns > time,
        },
    decreases n,
{
    if n > 0 && entries[n - 1].time_ns > time {
        lemma_newest_at_or_before(entries, time, n - 1);
    }
}

/// A seek starts its preroll before the target: on a recording the preroll is
/// `SEEK_PREROLL_NS`, on a live stream the smaller of that and half the way back to the
/// oldest anchor. When some anchor lies at least the preroll before the target, the seek
/// starts from such an anchor, and from the newest of them in the index; when none does,
/// it starts from the oldest anchor.
pub proof fn seek_prerolls_before_target(entries: Seq<Anchor>, end: Option<u64>, target: u64, live: bool)
    ensures
        anchor_for(entries, end, target, live) matches Ok(a) ==> ({
            let first = entries[0].time_ns;
            let preroll: int = if !live {
                SEEK_PREROLL_NS as int
            } else if (target - first) / 2 < SEEK_PREROLL_NS {
                (target - first) / 2
            } else {
                SEEK_PREROLL_NS as int
            };
            &&& (exists|j: int| 0 <= j < entries.len() && #[trigger] entries[j].time_ns + preroll <= target) ==> {
                &&& a.time_ns + preroll <= target
                &&& exists|i: int|
                    0 <= i < entries.len() && entries[i] == a && forall|j: int|
                        i < j < entries.len() ==> #[trigger] entries[j].time_ns + preroll > target
            }
            &&& (target >= preroll && forall|j: int| 0 <= j < entries.len() ==> #[trigger] entries[j].time_ns + preroll
                > target) ==> a == entries[0]
        }),
{
    if entries.len() > 0 && end is Some && !(target < entries[0].time_ns || target >= end->0) {
        let first = entries[0].time_ns;
        let point = preroll_point(target, first, live);
        lemma_newest_at_or_before(entries, point, entries.len() as int);
        let preroll: int = if !live {
            SEEK_PREROLL_NS as int
        } else if (target - first) / 2 < SEEK_PREROLL_NS {
            (target - first) / 2
        } else {
            SEEK_PREROLL_NS as int
        };
        if exists|j: int| 0 <= j < entries.len() && #[trigger] entries[j].time_ns + preroll <= target {
            let j = choose|j: int| 0 <= j < entries.len() && #[trigger] entries[j].time_ns + preroll <= target;
            assert(target >= preroll);
            assert(point == target - preroll);
            assert(entries[j].time_ns <= point);
            match last_at_or_before(entries, point, entries.len() as int) {
                Some(i) => {
                    assert(entries[i] == anchor_for(entries, end, target, live)->Ok_0);
                },
                None => {
                    assert(entries[j].time_ns > point);
                },
            }
        }
        if target >= preroll && forall|j: int| 0 <= j < entries.len() ==> #[trigger] entries[j].time_ns + preroll > target {
            assert(point == target - preroll);
            match last_at_or_before(entries, point, entries.len() as int) {
                Some(i) => {
                    assert(entries[i].time_ns + preroll > target);
                },
                None => {},
            }
        }
    }
}

/// How a seek is prepared: from an indexed anchor, or, for a file whose survey reaches
/// the target, by searching the file.
#[derive(Clone, Copy, Debug, PartialEq, Eq, Structural)]
pub enum SeekStart {
    Indexed(Anchor),
    Search(u64),
}

pub open spec fn seek_start_spec(anchor: Result<Anchor, InputError>, file: bool, survey_end: Option<u64>, target: u64) -> Result<SeekStart, InputError> {
    match anchor {
        Ok(a) => Ok(SeekStart::Indexed(a)),
        Err(e) => if file && survey_end is Some && target < survey_end->0 {
            Ok(SeekStart::Search(target))
        } else {
            Err(e)
        },
    }
}

pub fn seek_start(anchor: Result<Anchor, InputError>, file: bool, survey_end: Option<u64>, target: u64) -> (start: Result<SeekStart, InputError>)
    ensures
        start == seek_start_spec(anchor, file, survey_end, target),
{
    match anchor {
        Ok(a) => Ok(SeekStart::Indexed(a)),
        Err(e) => match survey_end {
            Some(end) => if file && target < end {
                Ok(SeekStart::Search(target))
            } else {
                Err(e)
            },
            None => Err(e),
        },
    }
}

/// The seek generation and the generation whose read expired. A report of expiry is
/// taken at most once, and never across a later seek.
pub struct Feedback {
    generation: u64,
    expired: u64,
}

impl Feedback {
    pub closed spec fn generation_spec(self) -> u64 {
        self.generation
    }

    pub closed spec fn expired_spec(self) -> u64 {
        self.expired
    }

    pub fn new() -> (feedback: Feedback)
        ensures
            feedback.generation_spec() == 0,
            feedback.expired_spec() == NO_EXPIRED_GENERATION,
    {
        Feedback { generation: 0, expired: NO_EXPIRED_GENERATION }
    }

    pub fn generation(&self) -> (generation: u64)
        ensures
            generation == self.generation_spec(),
    {
        self.generation
    }

    /// A seek starts a new generation.
    pub fn seek(&mut self) -> (generation: u64)
        ensures
            generation == final(self).generation_spec(),
            final(self).generation_spec() == (old(self).generation_spec() + 1) % 0x1_0000_0000_0000_0000,
            final(self).expired_spec() == old(self).expired_spec(),
    {
        self.generation = self.generation.wrapping_add(1);
        self.generation
    }

    /// A read of `generation` found its data expired.
    pub fn report_expired(&mut self, generation: u64)
        ensures
            final(self).generation_spec() == old(self).generation_spec(),
            final(self).expired_spec() == generation,
    {
        self.expired = generation;
    }

    /// Whether the current generation's read expired; the report is consumed.
    pub fn take_expired(&mut self) -> (expired: bool)
        ensures
            expired == (old(self).expired_spec() == old(self).generation_spec()),
            final(self).expired_spec() == NO_EXPIRED_GENERATION,
            final(self).generation_spec() == old(self).generation_spec(),
    {
        let reported = self.expired;
        self.expired = NO_EXPIRED_GENERATION;
        reported == self.generation
    }
}

/// A seek request from the pipeline is accepted at the start of the stream, or inside
/// the window.
pub open spec fn seek_accepted(target: u64, window: Option<Window>) -> bool {
    target == 0 || (window matches Some(w) && w.start <= target < w.end)
}

pub fn accept_seek(target: u64, window: Option<Window>) -> (result: Result<(), InputError>)
    ensures
        result is Ok <==> seek_accepted(target, window),
        result matches Err(e) ==> e == InputError::Expired,
{
    if target != 0 && !match window {
        Some(w) => target >= w.start && target < w.end,
        None => false,
    } {
        return Err(InputError::Expired);
    }
    Ok(())
}

/// The answer to a seeking query: whether the window can be sought, and its range.
pub fn seeking_answer(window: Option<Window>) -> (answer: (bool, u64, Option<u64>))
    ensures
        answer == match window {
            Some(w) => (w.seekable, w.start, Some(w.end)),
            None => (false, 0u64, None::<u64>),
        },
{
    match window {
        Some(w) => (w.seekable, w.start, Some(w.end)),
        None => (false, 0, None),
    }
}

/// The answer to a duration query: the window's end, once the duration is known or
/// estimated.
pub fn duration_answer(window: Option<Window>) -> (duration: Option<u64>)
    ensures
        duration == match window {
            Some(w) => if w.coverage == Coverage::Complete || w.coverage == Coverage::Estimated {
                Some(w.end)
            } else {
                None
            },
            None => None,
        },
{
    match window {
        Some(w) => match w.coverage {
            Coverage::Complete => Some(w.end),
            Coverage::Estimated => Some(w.end),
            Coverage::Partial => None,
        },
        None => None,
    }
}

/// A pending seek request is carried out unless it asks for the start while the reader
/// is already there.
pub fn seek_to_prepare(request: Option<u64>, reader_offset: u64, start_offset: u64) -> (target: Option<u64>)
    ensures
        target == match request {
            Some(t) => if t == 0 && reader_offset == start_offset {
                None
            } else {
                Some(t)
            },
            None => None,
        },
{
    match request {
        Some(t) => if t == 0 && reader_offset == start_offset {
            None
        } else {
            Some(t)
        },
        None => None,
    }
}

/// Whether a position is at the live edge: unknown positions are.
pub fn at_live_edge(window_end: u64, position: Option<u64>) -> (at_edge: bool)
    ensures
        at_edge == match position {
            Some(p) => (if window_end >= p {
                window_end - p
            } else {
                0
            }) <= LIVE_EDGE_TOLERANCE_NS,
            None => true,
        },
{
    match position {
        Some(p) => window_end.saturating_sub(p) <= LIVE_EDGE_TOLERANCE_NS,
        None => true,
    }
}

} // verus!

verus! {

/// What a read hands the pipeline.
#[derive(Debug)]
pub enum Output {
    Data { bytes: Vec<u8>, time_ns: u64, discontinuity: bool },
    Awaiting,
    Expired,
    End,
}

/// What a read of the retained stream hands the pipeline when it carries no bytes:
/// waiting, expiry and the end pass through, and a failed reception is the reader's error
/// with its message. A read that carries bytes gives `None`: they go on to be cut at the
/// clock's anchors.
pub fn output_of_read(read: &ReadResult) -> (output: Option<Result<Output, String>>)
    ensures
        match read {
            ReadResult::Awaiting => output matches Some(Ok(Output::Awaiting)),
            ReadResult::Expired => output matches Some(Ok(Output::Expired)),
            ReadResult::End => output matches Some(Ok(Output::End)),
            ReadResult::Failed(message) => output matches Some(Err(e)) && e@ == message@,
            ReadResult::Data { .. } | ReadResult::Disk { .. } => output is None,
        },
{
    match read {
        ReadResult::Awaiting => Some(Ok(Output::Awaiting)),
        ReadResult::Expired => Some(Ok(Output::Expired)),
        ReadResult::End => Some(Ok(Output::End)),
        ReadResult::Failed(message) => Some(Err(message.clone())),
        ReadResult::Data { .. } | ReadResult::Disk { .. } => None,
    }
}


/// One output chunk in the making: its bytes, its clock time and whether it starts after a
/// clock discontinuity.
pub struct ChunkView {
    pub bytes: Seq<u8>,
    pub time_ns: u64,
    pub discontinuity: bool,
}

/// A read's output cut at clock anchors: each anchor closes the chunk before it, and
/// the chunk after it carries the anchor's time and whether its epoch changed.
pub struct Cut {
    bytes: Vec<u8>,
    time_ns: u64,
    discontinuity: bool,
    epoch: u64,
    done: Vec<(Vec<u8>, u64, bool)>,
}

pub struct CutView {
    pub current: ChunkView,
    pub epoch: u64,
    pub done: Seq<ChunkView>,
}

pub open spec fn chunk_views(done: Seq<(Vec<u8>, u64, bool)>) -> Seq<ChunkView> {
    done.map_values(|c: (Vec<u8>, u64, bool)| ChunkView { bytes: c.0@, time_ns: c.1, discontinuity: c.2 })
}

/// The bytes of chunks, in order.
pub open spec fn flatten(chunks: Seq<ChunkView>) -> Seq<u8>
    decreases chunks.len(),
{
    if chunks.len() == 0 {
        Seq::empty()
    } else {
        flatten(chunks.drop_last()) + chunks.last().bytes
    }
}

proof fn lemma_flatten_push(chunks: Seq<ChunkView>, chunk: ChunkView)
    ensures
        flatten(chunks.push(chunk)) == flatten(chunks) + chunk.bytes,
{
    assert(chunks.push(chunk).drop_last() =~= chunks);
}

impl View for Cut {
    type V = CutView;

    closed spec fn view(&self) -> CutView {
        CutView {
            current: ChunkView { bytes: self.bytes@, time_ns: self.time_ns, discontinuity: self.discontinuity },
            epoch: self.epoch,
            done: chunk_views(self.done@),
        }
    }
}

impl Cut {
    /// Start a read at the reader's clock time and epoch, with `head` (the bootstrap
    /// tables of a seek) first.
    pub fn begin(time_ns: u64, epoch: u64, head: Vec<u8>) -> (cut: Cut)
        ensures
            cut@.current == (ChunkView { bytes: head@, time_ns, discontinuity: false }),
            cut@.epoch == epoch,
            cut@.done == Seq::<ChunkView>::empty(),
    {
        let cut = Cut { bytes: head, time_ns, discontinuity: false, epoch, done: Vec::new() };
        assert(chunk_views(cut.done@) =~= Seq::<ChunkView>::empty());
        cut
    }

    /// A clock anchor: the chunk so far is closed if it holds bytes; the next chunk starts
    /// at the anchor's time, marked discontinuous when the epoch changed. Returns whether
    /// the epoch changed, so that stream normalization starts over.
    pub fn anchor(&mut self, epoch: u64, time_ns: u64) -> (changed: bool)
        ensures
            changed == (epoch != old(self)@.epoch),
            final(self)@.done == if old(self)@.current.bytes.len() > 0 {
                old(self)@.done.push(old(self)@.current)
            } else {
                old(self)@.done
            },
            final(self)@.current == (ChunkView { bytes: Seq::empty(), time_ns, discontinuity: changed }),
            final(self)@.epoch == epoch,
            flatten(final(self)@.done) + final(self)@.current.bytes == flatten(old(self)@.done)
                + old(self)@.current.bytes,
    {
        let ghost before = self@;
        if self.bytes.len() > 0 {
            let mut closed: Vec<u8> = Vec::new();
            std::mem::swap(&mut closed, &mut self.bytes);
            let ghost raw = self.done@;
            let item = (closed, self.time_ns, self.discontinuity);
            self.done.push(item);
            assert(self.done@ =~= raw.push(item));
            assert(chunk_views(self.done@) =~= before.done.push(before.current));
        } else {
            self.bytes = Vec::new();
        }
        let changed = self.epoch != epoch;
        self.time_ns = time_ns;
        self.discontinuity = changed;
        self.epoch = epoch;
        assert(self.bytes@ =~= Seq::<u8>::empty());
        proof {
            lemma_flatten_push(before.done, before.current);
            assert(flatten(self@.done) + self@.current.bytes =~= flatten(before.done) + before.current.bytes);
        }
        changed
    }

    /// Normalized stream bytes for the current chunk.
    pub fn extend(&mut self, bytes: &[u8])
        ensures
            final(self)@.current.bytes == old(self)@.current.bytes + bytes@,
            final(self)@.current.time_ns == old(self)@.current.time_ns,
            final(self)@.current.discontinuity == old(self)@.current.discontinuity,
            final(self)@.epoch == old(self)@.epoch,
            final(self)@.done == old(self)@.done,
    {
        let ghost before = self.bytes@;
        let mut i: usize = 0;
        while i < bytes.len()
            invariant
                i <= bytes@.len(),
                self.bytes@ == before + bytes@.subrange(0, i as int),
                self.time_ns == old(self).time_ns,
                self.discontinuity == old(self).discontinuity,
                self.epoch == old(self).epoch,
                self.done == old(self).done,
            decreases bytes@.len() - i,
        {
            self.bytes.push(bytes[i]);
            i = i + 1;
            assert(self.bytes@ =~= before + bytes@.subrange(0, i as int));
        }
        assert(bytes@.subrange(0, bytes@.len() as int) =~= bytes@);
    }

    /// The read's chunks, the last one included if it holds bytes, with the clock time and
    /// epoch the reader continues from.
    pub fn finish(self) -> (result: (Vec<(Vec<u8>, u64, bool)>, u64, u64))
        ensures
            chunk_views(result.0@) == if self@.current.bytes.len() > 0 {
                self@.done.push(self@.current)
            } else {
                self@.done
            },
            result.1 == self@.current.time_ns,
            result.2 == self@.epoch,
            flatten(chunk_views(result.0@)) == flatten(self@.done) + self@.current.bytes,
    {
        let ghost view = self@;
        proof {
            lemma_flatten_push(view.done, view.current);
            assert(view.current.bytes.len() == 0 ==> flatten(view.done) + view.current.bytes =~= flatten(view.done));
        }
        let Cut { bytes, time_ns, discontinuity, epoch, done } = self;
        let mut done = done;
        if bytes.len() > 0 {
            let ghost raw = done@;
            let item = (bytes, time_ns, discontinuity);
            done.push(item);
            assert(done@ =~= raw.push(item));
            assert(chunk_views(done@) =~= chunk_views(raw).push(ChunkView { bytes: item.0@, time_ns, discontinuity }));
        }
        (done, time_ns, epoch)
    }
}

/// How one connection of a live reception ended.
#[derive(Clone, Copy, Debug, PartialEq, Eq, Structural)]
pub enum Attempt {
    /// The stream ended normally.
    Finished,
    /// Retention storage failed.
    Storage,
    /// Shared state was lost.
    Poisoned,
    /// The server refused the request.
    ClientError,
    /// The network failed.
    Network,
    /// The server closed the stream.
    Disconnected,
}

#[derive(Clone, Copy, Debug, PartialEq, Eq, Structural)]
pub enum ReceiveNext {
    /// Reception is over.
    Done,
    /// Reception failed for good.
    Fail,
    /// Reconnect, if attempts remain.
    Retry,
}

/// After a connection: storage and client errors end reception; network failures and
/// disconnections are retried.
pub fn after_attempt(attempt: Attempt) -> (next: ReceiveNext)
    ensures
        next == match attempt {
            Attempt::Finished => ReceiveNext::Done,
            Attempt::Storage | Attempt::Poisoned | Attempt::ClientError => ReceiveNext::Fail,
            Attempt::Network | Attempt::Disconnected => ReceiveNext::Retry,
        },
{
    match attempt {
        Attempt::Finished => ReceiveNext::Done,
        Attempt::Storage => ReceiveNext::Fail,
        Attempt::Poisoned => ReceiveNext::Fail,
        Attempt::ClientError => ReceiveNext::Fail,
        Attempt::Network => ReceiveNext::Retry,
        Attempt::Disconnected => ReceiveNext::Retry,
    }
}

/// Whether connection `attempt` (from zero) may be made: the first and at most the
/// allowed reconnections.
pub fn may_connect(attempt: usize) -> (allowed: bool)
    ensures
        allowed == (attempt <= MAX_RECONNECTS),
{
    attempt <= MAX_RECONNECTS
}

/// Metadata scanning after a seek stops after this many bytes.
pub const MAX_SCAN_BYTES: u64 = 67108864;
/// Metadata scanning after a seek stops this long after the anchor.
pub const MAX_SCAN_NS: u64 = 30000000000;

/// Whether a metadata scan from `anchor_offset` continues at `offset`.
pub fn scan_continues(offset: u64, anchor_offset: u64) -> (go_on: bool)
    ensures
        go_on == ((if offset >= anchor_offset {
            offset - anchor_offset
        } else {
            0
        }) < MAX_SCAN_BYTES),
{
    offset.saturating_sub(anchor_offset) < MAX_SCAN_BYTES
}

/// Whether a metadata scan has reached far enough past its anchor's time.
pub fn scan_reached(end_ns: Option<u64>, anchor_time_ns: u64) -> (reached: bool)
    ensures
        reached == match end_ns {
            Some(e) => e >= (if anchor_time_ns + MAX_SCAN_NS > u64::MAX {
                u64::MAX as int
            } else {
                anchor_time_ns + MAX_SCAN_NS
            }),
            None => false,
        },
{
    match end_ns {
        Some(e) => e >= anchor_time_ns.saturating_add(MAX_SCAN_NS),
        None => false,
    }
}

} // verus!
