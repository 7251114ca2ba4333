//! Receive-time program history of a live stream and the timeline projected from it.
//! Media coordinates are monotonic stream time, never UTC seek offsets.
use vstd::prelude::*;
use crate::timeline::{Range, Error, recovery_spec};

verus! {

pub const NS_PER_MS: u64 = 1000000;
/// Broadcast time has whole-second precision.
pub const CLOCK_TOLERANCE_MS: i64 = 1500;
pub const MAX_EPOCHS: usize = 128;
pub const MAX_PROGRAMS: usize = 512;
pub const MAX_PROGRAM_BYTES: usize = 1048576;
pub const MIN_AXIS_MS: i64 = 1000;

/// A position in stream time, in milliseconds.
#[derive(Clone, Copy, Debug, PartialEq, Eq, Structural)]
pub struct MediaMs(pub i64);

/// A broadcast wall-clock time, in milliseconds.
#[derive(Clone, Copy, Debug, PartialEq, Eq, Structural)]
pub struct UtcMs(pub i64);

impl MediaMs {
    pub fn from_ns(ns: u64) -> (ms: MediaMs)
        ensures
            ms.0 == ns / NS_PER_MS,
    {
        MediaMs((ns / NS_PER_MS) as i64)
    }
}

/// A half-open interval of stream time.
#[derive(Clone, Copy, Debug, PartialEq, Eq, Structural)]
pub struct Span {
    pub start: MediaMs,
    pub end: MediaMs,
}

impl Span {
    pub open spec fn holds(self, point: MediaMs) -> bool {
        self.start.0 <= point.0 < self.end.0
    }

    pub open spec fn meets(self, other: Span) -> bool {
        self.start.0 < other.end.0 && self.end.0 > other.start.0
    }

    pub fn contains(self, point: MediaMs) -> (inside: bool)
        ensures
            inside == self.holds(point),
    {
        point.0 >= self.start.0 && point.0 < self.end.0
    }

    pub fn intersects(self, other: Span) -> (meets: bool)
        ensures
            meets == self.meets(other),
    {
        self.start.0 < other.end.0 && self.end.0 > other.start.0
    }
}

/// `a + b`, saturated to `i64`.
pub open spec fn sat_add(a: int, b: int) -> int {
    if a + b > i64::MAX {
        i64::MAX as int
    } else if a + b < i64::MIN {
        i64::MIN as int
    } else {
        a + b
    }
}

fn saturating_add(a: i64, b: i64) -> (sum: i64)
    ensures
        sum == sat_add(a as int, b as int),
{
    let wide: i128 = a as i128 + b as i128;
    if wide > i64::MAX as i128 {
        i64::MAX
    } else if wide < i64::MIN as i128 {
        i64::MIN
    } else {
        wide as i64
    }
}

fn saturating_sub(a: i64, b: i64) -> (difference: i64)
    ensures
        difference == sat_add(a as int, -b),
{
    let wide: i128 = a as i128 - b as i128;
    if wide > i64::MAX as i128 {
        i64::MAX
    } else if wide < i64::MIN as i128 {
        i64::MIN
    } else {
        wide as i64
    }
}

/// One correspondence between stream time and broadcast time.
#[derive(Clone, Copy, Debug, PartialEq, Eq, Structural)]
pub struct Clock {
    pub media: MediaMs,
    pub utc: UtcMs,
}

impl Clock {
    /// The broadcast time of a stream position.
    pub fn utc(self, media: MediaMs) -> (utc: UtcMs)
        requires
            i64::MIN <= media.0 - self.media.0 <= i64::MAX,
        ensures
            utc.0 == sat_add(self.utc.0 as int, media.0 - self.media.0),
    {
        UtcMs(saturating_add(self.utc.0, media.0 - self.media.0))
    }

    /// The stream position of a broadcast time.
    pub fn media(self, utc: i64) -> (media: MediaMs)
        ensures
            media.0 == sat_add(self.media.0 as int, sat_add(utc as int, -self.utc.0)),
    {
        MediaMs(saturating_add(self.media.0, saturating_sub(utc, self.utc.0)))
    }
}

/// Whether a clock may be applied to a position without overflow.
pub open spec fn clock_fits(clock: Clock, media: MediaMs) -> bool {
    i64::MIN <= media.0 - clock.media.0 <= i64::MAX
}

/// A scheduled event, as the history reads it.
#[derive(Debug)]
pub struct Program {
    pub network_id: u16,
    pub transport_stream_id: u16,
    pub service_id: u16,
    pub event_id: u16,
    /// Scheduled start, broadcast milliseconds.
    pub start_at: Option<i64>,
    /// Scheduled length, milliseconds.
    pub duration: Option<u64>,
    pub name: String,
    pub description: String,
    pub extended: String,
    pub genre_count: usize,
    /// Heap bytes of the event's audio descriptions.
    pub audio_bytes: usize,
}

/// Whether the current or the following event announced a program.
#[derive(Clone, Copy, Debug, PartialEq, Eq, Structural)]
pub enum Announcement {
    Following,
    Current,
}

/// Which event of which epoch a record stands for.
#[derive(Clone, Copy, Debug, PartialEq, Eq, Structural)]
pub struct RecordId {
    pub epoch: u64,
    pub network_id: u16,
    pub transport_stream_id: u16,
    pub service_id: u16,
    pub event_id: u16,
}

/// A known event of one epoch.
#[derive(Debug)]
pub struct Record {
    pub program: Program,
    pub station: String,
    pub provider: String,
    pub announcement: Announcement,
}

/// The media span of a scheduled event under a clock.
pub open spec fn event_span(clock: Option<Clock>, start_at: Option<i64>, duration: Option<u64>) -> Option<Span> {
    match (clock, start_at, duration) {
        (Some(clock), Some(at), Some(length)) => {
            let start = sat_add(clock.media.0 as int, sat_add(at as int, -clock.utc.0));
            if length > i64::MAX || length == 0 || start + length > i64::MAX {
                None
            } else {
                Some(Span { start: MediaMs(start as i64), end: MediaMs((start + length) as i64) })
            }
        },
        _ => None,
    }
}

impl Record {
    pub fn id(&self, epoch: u64) -> (id: RecordId)
        ensures
            id == (RecordId {
                epoch,
                network_id: self.program.network_id,
                transport_stream_id: self.program.transport_stream_id,
                service_id: self.program.service_id,
                event_id: self.program.event_id,
            }),
    {
        RecordId {
            epoch,
            network_id: self.program.network_id,
            transport_stream_id: self.program.transport_stream_id,
            service_id: self.program.service_id,
            event_id: self.program.event_id,
        }
    }

    /// The event's span in stream time, when the clock, its start and a positive length
    /// that fits `i64` are known.
    pub fn span(&self, clock: Option<Clock>) -> (span: Option<Span>)
        ensures
            span == event_span(clock, self.program.start_at, self.program.duration),
    {
        let clock = match clock {
            Some(clock) => clock,
            None => {
                return None;
            },
        };
        let at = match self.program.start_at {
            Some(at) => at,
            None => {
                return None;
            },
        };
        let length = match self.program.duration {
            Some(length) => length,
            None => {
                return None;
            },
        };
        let start = clock.media(at);
        if length > i64::MAX as u64 {
            return None;
        }
        let length = length as i64;
        if length <= 0 {
            return None;
        }
        match start.0.checked_add(length) {
            Some(end) => Some(Span { start, end: MediaMs(end) }),
            None => None,
        }
    }

    /// Whether `program` is the same event.
    pub fn matches(&self, program: &Program) -> (same: bool)
        ensures
            same == same_event(self.program, *program),
    {
        self.program.network_id == program.network_id && self.program.transport_stream_id
            == program.transport_stream_id && self.program.service_id == program.service_id
            && self.program.event_id == program.event_id
    }
}

/// Two programs name the same event.
pub open spec fn same_event(a: Program, b: Program) -> bool {
    a.network_id == b.network_id && a.transport_stream_id == b.transport_stream_id
        && a.service_id == b.service_id && a.event_id == b.event_id
}

} // verus!

verus! {

/// A span clipped to a range, when anything of it remains.
pub open spec fn clip(span: Span, range: Span) -> Option<Span> {
    let start = if span.start.0 >= range.start.0 {
        span.start
    } else {
        range.start
    };
    let end = if span.end.0 <= range.end.0 {
        span.end
    } else {
        range.end
    };
    if end.0 > start.0 {
        Some(Span { start, end })
    } else {
        None
    }
}

/// The spans of `coverage` clipped to `range`, in order, empty ones left out.
pub open spec fn clipped(coverage: Seq<Span>, range: Span) -> Seq<Span>
    decreases coverage.len(),
{
    if coverage.len() == 0 {
        Seq::empty()
    } else {
        let rest = clipped(coverage.drop_last(), range);
        match clip(coverage.last(), range) {
            Some(span) => rest.push(span),
            None => rest,
        }
    }
}

/// Clip every span of `coverage` to `range`.
pub fn clip_all(coverage: &std::collections::VecDeque<Span>, range: Span) -> (spans: Vec<Span>)
    ensures
        spans@ == clipped(coverage@, range),
{
    let mut spans: Vec<Span> = Vec::new();
    let mut i: usize = 0;
    while i < coverage.len()
        invariant
            i <= coverage@.len(),
            spans@ == clipped(coverage@.subrange(0, i as int), range),
        decreases coverage@.len() - i,
    {
        let span = coverage[i];
        let start = if span.start.0 >= range.start.0 {
            span.start
        } else {
            range.start
        };
        let end = if span.end.0 <= range.end.0 {
            span.end
        } else {
            range.end
        };
        assert(coverage@.subrange(0, i + 1).drop_last() =~= coverage@.subrange(0, i as int));
        if end.0 > start.0 {
            spans.push(Span { start, end });
        }
        i = i + 1;
    }
    assert(coverage@.subrange(0, coverage@.len() as int) =~= coverage@);
    spans
}

/// How a live seek request was answered: the request stands, or it moved to another
/// position, in milliseconds.
#[derive(Clone, Copy, Debug, PartialEq, Eq, Structural)]
pub enum LiveSeek {
    Unchanged,
    Adjusted(i64),
}

/// The index of the first span from `from` on that starts after `point`, or the length.
pub open spec fn first_after(spans: Seq<Span>, point: MediaMs, from: int) -> int
    decreases spans.len() - from,
{
    if from < 0 || from >= spans.len() {
        spans.len() as int
    } else if spans[from].start.0 > point.0 {
        from
    } else {
        first_after(spans, point, from + 1)
    }
}

/// The first span that starts after `point`, else the last span.
pub open spec fn fallback(spans: Seq<Span>, point: MediaMs) -> Option<int> {
    let first = first_after(spans, point, 0);
    if first < spans.len() {
        Some(first)
    } else if spans.len() > 0 {
        Some(spans.len() - 1)
    } else {
        None
    }
}

/// Where a live seek to `requested` lands among the available spans: the request itself
/// when a span holds it; else the following span (at its recovery point) or, past the
/// end, the last received millisecond.
pub open spec fn live_seek_spec(spans: Seq<Span>, requested: MediaMs) -> Result<LiveSeek, Error> {
    if exists|i: int| 0 <= i < spans.len() && spans[i].holds(requested) {
        Ok(LiveSeek::Unchanged)
    } else {
        match fallback(spans, requested) {
            None => Err(Error::Unavailable),
            Some(i) => {
                let span = spans[i];
                if requested.0 < span.start.0 {
                    Ok(
                        LiveSeek::Adjusted(
                            (recovery_spec(span.start.0 * 1000000, span.end.0 * 1000000)
                                / 1000000) as i64,
                        ),
                    )
                } else {
                    Ok(LiveSeek::Adjusted((span.end.0 - 1) as i64))
                }
            },
        }
    }
}

/// Spans inside `0..=u64::MAX / 1_000_000` milliseconds, each nonempty.
pub open spec fn ms_spans(spans: Seq<Span>) -> bool {
    forall|i: int|
        0 <= i < spans.len() ==> 0 <= #[trigger] spans[i].start.0 < spans[i].end.0
            <= 18446744073709
}

fn fallback_index(spans: &Vec<Span>, point: MediaMs) -> (index: Option<usize>)
    ensures
        match index {
            Some(i) => fallback(spans@, point) == Some(i as int),
            None => fallback(spans@, point) is None,
        },
{
    let mut k: usize = 0;
    while k < spans.len()
        invariant
            k <= spans@.len(),
            first_after(spans@, point, 0) == first_after(spans@, point, k as int),
        decreases spans@.len() - k,
    {
        if spans[k].start.0 > point.0 {
            return Some(k);
        }
        k = k + 1;
    }
    if spans.len() > 0 {
        Some(spans.len() - 1)
    } else {
        None
    }
}

/// Answer a live seek among `spans`.
pub fn live_seek(spans: &Vec<Span>, requested: MediaMs) -> (seek: Result<LiveSeek, Error>)
    requires
        ms_spans(spans@),
    ensures
        seek == live_seek_spec(spans@, requested),
{
    let mut i: usize = 0;
    while i < spans.len()
        invariant
            i <= spans@.len(),
            forall|j: int| 0 <= j < i ==> !spans@[j].holds(requested),
        decreases spans@.len() - i,
    {
        if spans[i].contains(requested) {
            return Ok(LiveSeek::Unchanged);
        }
        i = i + 1;
    }
    let index = match fallback_index(spans, requested) {
        Some(index) => index,
        None => {
            return Err(Error::Unavailable);
        },
    };
    let span = spans[index];
    assert(0 <= span.start.0 < span.end.0 <= 18446744073709);
    if requested.0 < span.start.0 {
        assert(span.end.0 * 1000000 <= u64::MAX);
        let range = match Range::new(span.start.0 as u64 * 1000000, span.end.0 as u64 * 1000000) {
            Some(range) => range,
            None => {
                return Err(Error::Unavailable);
            },
        };
        let target = range.recovery_target();
        Ok(LiveSeek::Adjusted((target / 1000000) as i64))
    } else {
        Ok(LiveSeek::Adjusted(span.end.0 - 1))
    }
}

} // verus!

verus! {

/// The fields of a program that the history reads.
pub struct ProgramView {
    pub network_id: u16,
    pub transport_stream_id: u16,
    pub service_id: u16,
    pub event_id: u16,
    pub start_at: Option<i64>,
    pub duration: Option<u64>,
    pub name: Seq<char>,
    pub description: Seq<char>,
    pub extended: Seq<char>,
    pub genre_count: usize,
    pub audio_bytes: usize,
}

impl View for Program {
    type V = ProgramView;

    open spec fn view(&self) -> ProgramView {
        ProgramView {
            network_id: self.network_id,
            transport_stream_id: self.transport_stream_id,
            service_id: self.service_id,
            event_id: self.event_id,
            start_at: self.start_at,
            duration: self.duration,
            name: self.name@,
            description: self.description@,
            extended: self.extended@,
            genre_count: self.genre_count,
            audio_bytes: self.audio_bytes,
        }
    }
}

impl Program {
    pub fn duplicate(&self) -> (copy: Program)
        ensures
            copy@ == self@,
    {
        Program {
            network_id: self.network_id,
            transport_stream_id: self.transport_stream_id,
            service_id: self.service_id,
            event_id: self.event_id,
            start_at: self.start_at,
            duration: self.duration,
            name: self.name.clone(),
            description: self.description.clone(),
            extended: self.extended.clone(),
            genre_count: self.genre_count,
            audio_bytes: self.audio_bytes,
        }
    }
}

pub struct RecordView {
    pub program: ProgramView,
    pub station: Seq<char>,
    pub provider: Seq<char>,
    pub announcement: Announcement,
}

impl View for Record {
    type V = RecordView;

    open spec fn view(&self) -> RecordView {
        RecordView {
            program: self.program@,
            station: self.station@,
            provider: self.provider@,
            announcement: self.announcement,
        }
    }
}

/// Bytes of UTF-8 text.
pub open spec fn text_bytes(text: Seq<char>) -> int {
    (vstd::utf8::encode_utf8(text).len() as usize) as int
}

/// The memory a record holds: the record itself, its text, genres and audio
/// descriptions.
pub open spec fn record_bytes(record: RecordView) -> int {
    vstd::layout::size_of::<Record>() + text_bytes(record.program.name) + text_bytes(
        record.program.description,
    ) + text_bytes(record.program.extended) + record.program.genre_count * 2
        + record.program.audio_bytes + text_bytes(record.station) + text_bytes(record.provider)
}

fn text_len(text: &String) -> (len: u128)
    ensures
        len == text_bytes(text@),
{
    text.as_str().len() as u128
}

impl Record {
    /// The memory this record holds, where it fits `usize`.
    pub fn bytes(&self) -> (bytes: Option<usize>)
        ensures
            match bytes {
                Some(b) => b == record_bytes(self@),
                None => record_bytes(self@) > usize::MAX,
            },
    {
        let total: u128 = core::mem::size_of::<Record>() as u128 + text_len(&self.program.name)
            + text_len(&self.program.description) + text_len(&self.program.extended)
            + self.program.genre_count as u128 * 2 + self.program.audio_bytes as u128
            + text_len(&self.station) + text_len(&self.provider);
        if total > usize::MAX as u128 {
            None
        } else {
            Some(total as usize)
        }
    }
}

/// A stretch of stream time on one PCR epoch and one broadcast clock.
pub struct Epoch {
    pub pcr_epoch: u64,
    pub serial: u64,
    pub span: Span,
    pub clock: Option<Clock>,
    pub records: Vec<Record>,
}

pub struct EpochView {
    pub pcr_epoch: u64,
    pub serial: u64,
    pub span: Span,
    pub clock: Option<Clock>,
    pub records: Seq<RecordView>,
}

pub open spec fn record_views(records: Seq<Record>) -> Seq<RecordView> {
    records.map_values(|r: Record| r@)
}

impl View for Epoch {
    type V = EpochView;

    open spec fn view(&self) -> EpochView {
        EpochView {
            pcr_epoch: self.pcr_epoch,
            serial: self.serial,
            span: self.span,
            clock: self.clock,
            records: record_views(self.records@),
        }
    }
}

/// A reception of schedule information: an identity, the station and the current and
/// following events.
pub struct Observation {
    /// Equal identities are the same reception.
    pub id: u64,
    pub station: String,
    pub provider: String,
    pub current: Vec<Program>,
    pub next: Vec<Program>,
}

/// The broadcast clock at an observed position: its time there, when known, and where
/// the clock's validity begins.
#[derive(Clone, Copy, Debug, PartialEq, Eq, Structural)]
pub struct Reading {
    pub utc_ms: Option<i64>,
    pub range_start_ns: u64,
}

/// The index of the first record that is the same event as `program`, or the length.
pub open spec fn first_match(records: Seq<RecordView>, program: ProgramView, from: int) -> int
    decreases records.len() - from,
{
    if from < 0 || from >= records.len() {
        records.len() as int
    } else if records[from].program.network_id == program.network_id
        && records[from].program.transport_stream_id == program.transport_stream_id
        && records[from].program.service_id == program.service_id
        && records[from].program.event_id == program.event_id {
        from
    } else {
        first_match(records, program, from + 1)
    }
}

/// Merge one announced event: a known event takes the new schedule and names, and
/// becomes current when announced as current; an unknown event is appended.
pub open spec fn merge_one(
    records: Seq<RecordView>,
    program: ProgramView,
    current: bool,
    station: Seq<char>,
    provider: Seq<char>,
) -> Seq<RecordView> {
    let i = first_match(records, program, 0);
    if i < records.len() {
        records.update(
            i,
            RecordView {
                program,
                station,
                provider,
                announcement: if current {
                    Announcement::Current
                } else {
                    records[i].announcement
                },
            },
        )
    } else {
        records.push(
            RecordView {
                program,
                station,
                provider,
                announcement: if current {
                    Announcement::Current
                } else {
                    Announcement::Following
                },
            },
        )
    }
}

/// Merge announced events in order.
pub open spec fn merge_all(
    records: Seq<RecordView>,
    programs: Seq<ProgramView>,
    current: bool,
    station: Seq<char>,
    provider: Seq<char>,
) -> Seq<RecordView>
    decreases programs.len(),
{
    if programs.len() == 0 {
        records
    } else {
        merge_one(
            merge_all(records, programs.drop_last(), current, station, provider),
            programs.last(),
            current,
            station,
            provider,
        )
    }
}

pub open spec fn program_views(programs: Seq<Program>) -> Seq<ProgramView> {
    programs.map_values(|p: Program| p@)
}

fn find_record(records: &Vec<Record>, program: &Program) -> (i: usize)
    ensures
        i == first_match(record_views(records@), program@, 0),
{
    let ghost views = record_views(records@);
    let mut i: usize = 0;
    while i < records.len()
        invariant
            i <= records@.len(),
            views == record_views(records@),
            first_match(views, program@, 0) == first_match(views, program@, i as int),
        decreases records@.len() - i,
    {
        assert(views[i as int] == records@[i as int]@);
        if records[i].matches(program) {
            return i;
        }
        i = i + 1;
    }
    i
}

fn merge_programs(
    records: &mut Vec<Record>,
    programs: &Vec<Program>,
    current: bool,
    station: &String,
    provider: &String,
)
    ensures
        record_views(final(records)@) == merge_all(
            record_views(old(records)@),
            program_views(programs@),
            current,
            station@,
            provider@,
        ),
{
    let mut p: usize = 0;
    while p < programs.len()
        invariant
            p <= programs@.len(),
            record_views(records@) == merge_all(
                record_views(old(records)@),
                program_views(programs@.subrange(0, p as int)),
                current,
                station@,
                provider@,
            ),
        decreases programs@.len() - p,
    {
        let program = &programs[p];
        let ghost views = record_views(records@);
        let i = find_record(records, program);
        let announcement = if current {
            Announcement::Current
        } else if i < records.len() {
            records[i].announcement
        } else {
            Announcement::Following
        };
        let record = Record {
            program: program.duplicate(),
            station: station.clone(),
            provider: provider.clone(),
            announcement,
        };
        let ghost fresh = record@;
        if i < records.len() {
            records.set(i, record);
            assert(record_views(records@) =~= views.update(i as int, fresh));
        } else {
            records.push(record);
            assert(record_views(records@) =~= views.push(fresh));
        }
        proof {
            let done = program_views(programs@.subrange(0, p + 1));
            assert(done.drop_last() =~= program_views(programs@.subrange(0, p as int)));
            assert(done.last() == program@);
            assert(record_views(records@) =~= merge_one(views, program@, current, station@, provider@));
        }
        p = p + 1;
    }
    assert(programs@.subrange(0, programs@.len() as int) =~= programs@);
}

} // verus!

verus! {

/// The largest millisecond a nanosecond position can name.
pub const MAX_MEDIA_MS: i64 = 18446744073709;

/// What an observation contributes: its identity, names and announced events.
pub struct ObservationView {
    pub id: u64,
    pub station: Seq<char>,
    pub provider: Seq<char>,
    pub current: Seq<ProgramView>,
    pub next: Seq<ProgramView>,
}

impl View for Observation {
    type V = ObservationView;

    open spec fn view(&self) -> ObservationView {
        ObservationView {
            id: self.id,
            station: self.station@,
            provider: self.provider@,
            current: program_views(self.current@),
            next: program_views(self.next@),
        }
    }
}

/// The history once the stream has reached `end_ns`: the last span of coverage and of
/// the last epoch reach to it.
pub open spec fn advanced_view(v: HistoryView, end_ns: u64) -> HistoryView {
    let end = (end_ns / NS_PER_MS) as i64;
    let c = v.coverage;
    let e = v.epochs;
    HistoryView {
        coverage: if c.len() > 0 {
            c.update(
                c.len() - 1,
                Span { start: c.last().start, end: MediaMs(if end > c.last().end.0 { end } else { c.last().end.0 }) },
            )
        } else {
            c
        },
        epochs: if e.len() > 0 {
            e.update(
                e.len() - 1,
                EpochView {
                    span: Span {
                        start: e.last().span.start,
                        end: MediaMs(if end > e.last().span.end.0 { end } else { e.last().span.end.0 }),
                    },
                    ..e.last()
                },
            )
        } else {
            e
        },
        ..v
    }
}

/// The history once the stream before `start_ns` is gone: coverage from there, and the
/// epochs the metadata lookback keeps.
pub open spec fn expired_view(v: HistoryView, start_ns: u64, lookback_ns: u64) -> HistoryView {
    HistoryView {
        coverage: expired_coverage(v.coverage, MediaMs((start_ns / NS_PER_MS) as i64)),
        epochs: expired_epochs(
            v.epochs,
            MediaMs((metadata_start(start_ns, v.presented_position_ns, lookback_ns) / NS_PER_MS) as i64),
        ),
        ..v
    }
}

pub struct HistoryView {
    pub coverage: Seq<Span>,
    pub epochs: Seq<EpochView>,
    pub serial: u64,
    pub presented_position_ns: Option<u64>,
    pub observed: Option<u64>,
}

/// Program history of a live reception: the stream time that can be sought, and the
/// epochs of PCR and broadcast clock with the events known in each.
pub struct History {
    coverage: std::collections::VecDeque<Span>,
    epochs: Vec<Epoch>,
    serial: u64,
    presented_position_ns: Option<u64>,
    observed: Option<u64>,
}

pub open spec fn epoch_views(epochs: Seq<Epoch>) -> Seq<EpochView> {
    epochs.map_values(|e: Epoch| e@)
}

impl View for History {
    type V = HistoryView;

    closed spec fn view(&self) -> HistoryView {
        HistoryView {
            coverage: self.coverage@,
            epochs: epoch_views(self.epochs@),
            serial: self.serial,
            presented_position_ns: self.presented_position_ns,
            observed: self.observed,
        }
    }
}

/// Clocks are anchored at observed positions.
pub open spec fn clocks_anchored(epochs: Seq<EpochView>) -> bool {
    forall|i: int|
        0 <= i < epochs.len() ==> (#[trigger] epochs[i].clock matches Some(c) ==> 0 <= c.media.0
            <= MAX_MEDIA_MS)
}

/// The end of an observation: its end, at least one millisecond past its position.
pub open spec fn observed_end(time_ns: u64, end_ns: u64) -> MediaMs {
    let position = time_ns / NS_PER_MS;
    let end = end_ns / NS_PER_MS;
    MediaMs(
        if end > position + 1 {
            end as i64
        } else {
            (position + 1) as i64
        },
    )
}

/// Coverage after an observation: a new span when there is none, or when a new PCR epoch
/// starts after a gap; else the last span grows to the observation's end.
pub open spec fn covered(coverage: Seq<Span>, new_pcr_epoch: bool, position: MediaMs, end: MediaMs) -> Seq<Span> {
    if coverage.len() == 0 || (new_pcr_epoch && coverage.last().end.0 < position.0) {
        coverage.push(Span { start: position, end })
    } else {
        let last = coverage.last();
        coverage.update(
            coverage.len() - 1,
            Span {
                start: last.start,
                end: if end.0 > last.end.0 {
                    end
                } else {
                    last.end
                },
            },
        )
    }
}

/// The distance, in milliseconds, between what two clocks say of one position.
pub open spec fn clock_gap(a: Clock, b: Clock, position: MediaMs) -> int {
    let x = sat_add(a.utc.0 as int, position.0 - a.media.0);
    let y = sat_add(b.utc.0 as int, position.0 - b.media.0);
    if x >= y {
        x - y
    } else {
        y - x
    }
}

/// Whether the observation changed from the last one.
pub open spec fn observation_changed(observed: Option<u64>, observation: Option<ObservationView>) -> bool {
    match (observed, observation) {
        (Some(a), Some(b)) => a != b.id,
        (None, None) => false,
        _ => true,
    }
}

/// The epochs, clock and serial after an observation at `position`.
pub open spec fn observe_epochs(
    h: HistoryView,
    epoch: u64,
    position: MediaMs,
    end: MediaMs,
    observation: Option<ObservationView>,
    reading: Option<Reading>,
) -> (Seq<EpochView>, u64, bool) {
    let changed = observation_changed(h.observed, observation);
    let has_last = h.epochs.len() > 0;
    let last = h.epochs.last();
    let new_pcr_epoch = has_last && last.pcr_epoch != epoch;
    let epoch_start = if new_pcr_epoch || !has_last {
        position
    } else {
        last.span.start
    };
    let fresh = match reading {
        Some(r) => match r.utc_ms {
            Some(utc) => Some(Clock { media: position, utc: UtcMs(utc) }),
            None => None,
        },
        None => None,
    };
    let clock = if h.serial > 0 && fresh is Some && position.0 < epoch_start.0 {
        None
    } else {
        fresh
    };
    let discontinuity = !has_last || last.pcr_epoch != epoch || (changed && last.clock is Some
        && clock is Some && clock_gap(last.clock->0, clock->0, position) > CLOCK_TOLERANCE_MS);
    let boundary = if new_pcr_epoch {
        position
    } else {
        let read = match reading {
            Some(r) => (r.range_start_ns / NS_PER_MS) as i64,
            None => position.0,
        };
        let late = if read > epoch_start.0 {
            read
        } else {
            epoch_start.0
        };
        MediaMs(
            if late < position.0 {
                late
            } else {
                position.0
            },
        )
    };
    let opened = if discontinuity {
        let closed = if has_last {
            h.epochs.update(
                h.epochs.len() - 1,
                EpochView {
                    span: Span {
                        start: last.span.start,
                        end: if boundary.0 < last.span.end.0 {
                            boundary
                        } else {
                            last.span.end
                        },
                    },
                    ..last
                },
            )
        } else {
            h.epochs
        };
        closed.push(
            EpochView {
                pcr_epoch: epoch,
                serial: (h.serial + 1) as u64,
                span: Span { start: boundary, end },
                clock,
                records: Seq::empty(),
            },
        )
    } else {
        h.epochs
    };
    let current = opened.last();
    let records = match observation {
        Some(o) if changed || discontinuity => merge_all(
            merge_all(current.records, o.current, true, o.station, o.provider),
            o.next,
            false,
            o.station,
            o.provider,
        ),
        _ => current.records,
    };
    let updated = opened.update(
        opened.len() - 1,
        EpochView {
            span: Span { start: current.span.start, end },
            clock: if current.clock is None {
                clock
            } else {
                current.clock
            },
            records,
            ..current
        },
    );
    (
        updated,
        if discontinuity {
            (h.serial + 1) as u64
        } else {
            h.serial
        },
        changed || discontinuity,
    )
}

/// Records of all epochs.
pub open spec fn record_count(epochs: Seq<EpochView>) -> int
    decreases epochs.len(),
{
    if epochs.len() == 0 {
        0
    } else {
        record_count(epochs.drop_last()) + epochs.last().records.len()
    }
}

pub open spec fn records_bytes(records: Seq<RecordView>) -> int
    decreases records.len(),
{
    if records.len() == 0 {
        0
    } else {
        records_bytes(records.drop_last()) + record_bytes(records.last())
    }
}

pub open spec fn epochs_bytes(epochs: Seq<EpochView>) -> int
    decreases epochs.len(),
{
    if epochs.len() == 0 {
        0
    } else {
        epochs_bytes(epochs.drop_last()) + records_bytes(epochs.last().records)
    }
}

/// Drop the oldest records of one epoch while the totals exceed their budgets.
pub open spec fn trim_records(records: Seq<RecordView>, count: int, bytes: int) -> (Seq<RecordView>, int, int)
    decreases records.len(),
{
    if (count > MAX_PROGRAMS || bytes > MAX_PROGRAM_BYTES) && records.len() > 0 {
        trim_records(records.drop_first(), count - 1, bytes - record_bytes(records[0]))
    } else {
        (records, count, bytes)
    }
}

/// Drop the oldest records, oldest epoch first, while the totals exceed their budgets.
pub open spec fn trim_epochs(epochs: Seq<EpochView>, count: int, bytes: int) -> Seq<EpochView>
    decreases epochs.len(),
{
    if epochs.len() == 0 {
        Seq::empty()
    } else {
        let (records, c, b) = trim_records(epochs[0].records, count, bytes);
        seq![EpochView { records, ..epochs[0] }] + trim_epochs(epochs.drop_first(), c, b)
    }
}

/// The newest epochs within the epoch budget.
pub open spec fn newest_epochs(epochs: Seq<EpochView>) -> Seq<EpochView> {
    if epochs.len() > MAX_EPOCHS {
        epochs.subrange(epochs.len() - MAX_EPOCHS, epochs.len() as int)
    } else {
        epochs
    }
}

} // verus!

verus! {

proof fn lemma_records_bytes_front(records: Seq<RecordView>)
    requires
        records.len() > 0,
    ensures
        records_bytes(records) == record_bytes(records[0]) + records_bytes(records.drop_first()),
    decreases records.len(),
{
    if records.len() > 1 {
        lemma_records_bytes_front(records.drop_last());
        assert(records.drop_last().drop_first() =~= records.drop_first().drop_last());
    } else {
        assert(records.drop_first() =~= Seq::<RecordView>::empty());
        assert(records.drop_last() =~= Seq::<RecordView>::empty());
    }
}

proof fn lemma_epochs_front(epochs: Seq<EpochView>)
    requires
        epochs.len() > 0,
    ensures
        epochs_bytes(epochs) == records_bytes(epochs[0].records) + epochs_bytes(epochs.drop_first()),
        record_count(epochs) == epochs[0].records.len() + record_count(epochs.drop_first()),
    decreases epochs.len(),
{
    if epochs.len() > 1 {
        lemma_epochs_front(epochs.drop_last());
        assert(epochs.drop_last().drop_first() =~= epochs.drop_first().drop_last());
    } else {
        assert(epochs.drop_first() =~= Seq::<EpochView>::empty());
        assert(epochs.drop_last() =~= Seq::<EpochView>::empty());
    }
}

proof fn lemma_records_bytes_nonneg(records: Seq<RecordView>)
    ensures
        records_bytes(records) >= 0,
    decreases records.len(),
{
    if records.len() > 0 {
        lemma_records_bytes_nonneg(records.drop_last());
    }
}

proof fn lemma_epochs_bytes_nonneg(epochs: Seq<EpochView>)
    ensures
        epochs_bytes(epochs) >= 0,
        record_count(epochs) >= 0,
    decreases epochs.len(),
{
    if epochs.len() > 0 {
        lemma_epochs_bytes_nonneg(epochs.drop_last());
        lemma_records_bytes_nonneg(epochs.last().records);
    }
}

/// The memory a record holds, as a wide integer.
fn record_size(record: &Record) -> (size: u128)
    ensures
        size == record_bytes(record@),
{
    core::mem::size_of::<Record>() as u128 + text_len(&record.program.name) + text_len(
        &record.program.description,
    ) + text_len(&record.program.extended) + record.program.genre_count as u128 * 2
        + record.program.audio_bytes as u128 + text_len(&record.station) + text_len(
        &record.provider,
    )
}

/// `min(total, u128::MAX)`.
pub open spec fn saturated(total: int) -> int {
    if total > u128::MAX {
        u128::MAX as int
    } else {
        total
    }
}

fn count_records(epochs: &Vec<Epoch>) -> (totals: (u128, u128))
    requires
        epochs@.len() <= MAX_EPOCHS,
    ensures
        totals.0 == record_count(epoch_views(epochs@)),
        totals.1 == saturated(epochs_bytes(epoch_views(epochs@))),
{
    let mut count: u128 = 0;
    let mut bytes: u128 = 0;
    let mut k: usize = 0;
    while k < epochs.len()
        invariant
            k <= epochs@.len() <= MAX_EPOCHS,
            count == record_count(epoch_views(epochs@.subrange(0, k as int))),
            count <= k * 18446744073709551615,
            bytes == saturated(epochs_bytes(epoch_views(epochs@.subrange(0, k as int)))),
        decreases epochs@.len() - k,
    {
        let ghost before = epoch_views(epochs@.subrange(0, k as int));
        let ghost after = epoch_views(epochs@.subrange(0, k + 1));
        assert(after.drop_last() =~= before);
        assert(after.last() == epochs@[k as int]@);
        let records = &epochs[k].records;
        let ghost views = record_views(records@);
        let mut partial: u128 = 0;
        let mut i: usize = 0;
        proof {
            lemma_epochs_bytes_nonneg(before);
        }
        while i < records.len()
            invariant
                i <= records@.len(),
                views == record_views(records@),
                partial == saturated(records_bytes(views.subrange(0, i as int))),
            decreases records@.len() - i,
        {
            let size = record_size(&records[i]);
            assert(views.subrange(0, i + 1).drop_last() =~= views.subrange(0, i as int));
            proof {
                lemma_records_bytes_nonneg(views.subrange(0, i as int));
            }
            partial = partial.saturating_add(size);
            i = i + 1;
        }
        assert(views.subrange(0, records@.len() as int) =~= views);
        proof {
            lemma_records_bytes_nonneg(views);
        }
        assert(count + records@.len() <= (k + 1) * 18446744073709551615) by (nonlinear_arith)
            requires
                count <= k * 18446744073709551615,
                records@.len() <= 18446744073709551615,
        ;
        assert((k + 1) * 18446744073709551615 <= 129 * 18446744073709551615) by (nonlinear_arith)
            requires
                k < 128,
        ;
        count = count + records.len() as u128;
        bytes = bytes.saturating_add(partial);
        k = k + 1;
    }
    assert(epochs@.subrange(0, epochs@.len() as int) =~= epochs@);
    (count, bytes)
}

} // verus!

verus! {

fn trim_front(records: &mut Vec<Record>, count: u128, bytes: u128) -> (left: (u128, u128))
    requires
        count >= old(records)@.len(),
    ensures
        left.0 >= final(records)@.len(),
        left.0 == count - (old(records)@.len() - final(records)@.len()),
        bytes >= records_bytes(record_views(old(records)@)) ==> {
            &&& left.1 == bytes - records_bytes(record_views(old(records)@)) + records_bytes(
                record_views(final(records)@),
            )
            &&& (record_views(final(records)@), left.0 as int, left.1 as int) == trim_records(
                record_views(old(records)@),
                count as int,
                bytes as int,
            )
        },
{
    let ghost start = record_views(records@);
    let ghost exact = bytes >= records_bytes(start);
    let mut c = count;
    let mut b = bytes;
    while (c > MAX_PROGRAMS as u128 || b > MAX_PROGRAM_BYTES as u128) && records.len() > 0
        invariant
            c >= records@.len(),
            c == count - (start.len() - records@.len()),
            records@.len() <= start.len(),
            record_views(records@) == start.subrange(start.len() - records@.len(), start.len() as int),
            start == record_views(old(records)@),
            exact == (bytes >= records_bytes(start)),
            exact ==> b == bytes - records_bytes(start) + records_bytes(record_views(records@)),
            exact ==> trim_records(start, count as int, bytes as int) == trim_records(
                record_views(records@),
                c as int,
                b as int,
            ),
        decreases records@.len(),
    {
        let ghost views = record_views(records@);
        proof {
            lemma_records_bytes_front(views);
            lemma_records_bytes_nonneg(views.drop_first());
            lemma_records_bytes_nonneg(start);
        }
        let record = records.remove(0);
        assert(record@ == views[0]);
        let size = record_size(&record);
        assert(record_views(records@) =~= views.drop_first());
        c = c - 1;
        b = b.saturating_sub(size);
    }
    (c, b)
}

impl History {
    /// Clocks are anchored at observed positions.
    pub closed spec fn wf(self) -> bool {
        clocks_anchored(self@.epochs)
    }

    /// What well-formedness says.
    pub proof fn reveal_wf(&self)
        ensures
            self.wf() == clocks_anchored(self@.epochs),
    {
    }

    pub fn new() -> (history: History)
        ensures
            history.wf(),
            history@ == (HistoryView {
                coverage: Seq::empty(),
                epochs: Seq::empty(),
                serial: 0,
                presented_position_ns: None,
                observed: None,
            }),
    {
        let history = History {
            coverage: std::collections::VecDeque::new(),
            epochs: Vec::new(),
            serial: 0,
            presented_position_ns: None,
            observed: None,
        };
        assert(history@.epochs =~= Seq::<EpochView>::empty());
        history
    }

    /// Keep the newest epochs within the epoch budget, then drop the oldest records while
    /// the records exceed their count or byte budget.
    fn limit(&mut self)
        requires
            old(self).wf(),
        ensures
            final(self).wf(),
            final(self)@.coverage == old(self)@.coverage,
            final(self)@.serial == old(self)@.serial,
            final(self)@.presented_position_ns == old(self)@.presented_position_ns,
            final(self)@.observed == old(self)@.observed,
            final(self)@.epochs.len() == newest_epochs(old(self)@.epochs).len(),
            epochs_bytes(newest_epochs(old(self)@.epochs)) <= usize::MAX ==> final(self)@.epochs
                == trim_epochs(
                newest_epochs(old(self)@.epochs),
                record_count(newest_epochs(old(self)@.epochs)),
                epochs_bytes(newest_epochs(old(self)@.epochs)),
            ),
    {
        let ghost original = epoch_views(self.epochs@);
        while self.epochs.len() > MAX_EPOCHS
            invariant
                epoch_views(self.epochs@) == original.subrange(
                    original.len() - self.epochs@.len(),
                    original.len() as int,
                ),
                self.epochs@.len() <= original.len(),
                original == epoch_views(old(self).epochs@),
                original.len() > MAX_EPOCHS ==> self.epochs@.len() >= MAX_EPOCHS,
                original.len() <= MAX_EPOCHS ==> self.epochs@.len() == original.len(),
                self.coverage == old(self).coverage,
                self.serial == old(self).serial,
                self.presented_position_ns == old(self).presented_position_ns,
                self.observed == old(self).observed,
            decreases self.epochs@.len(),
        {
            let ghost raw = self.epochs@;
            self.epochs.remove(0);
            assert(self.epochs@ =~= raw.drop_first());
            assert(epoch_views(self.epochs@) =~= epoch_views(raw).drop_first());
            assert(epoch_views(self.epochs@) =~= original.subrange(
                original.len() - self.epochs@.len(),
                original.len() as int,
            ));
        }
        let ghost all = epoch_views(self.epochs@);
        assert(all =~= newest_epochs(original));
        let (count, bytes) = count_records(&self.epochs);
        let ghost exact = epochs_bytes(all) <= usize::MAX;
        let mut source: Vec<Epoch> = Vec::new();
        std::mem::swap(&mut source, &mut self.epochs);
        let mut count = count;
        let mut bytes = bytes;
        proof {
            lemma_epochs_bytes_nonneg(all);
            assert(epoch_views(self.epochs@) =~= Seq::<EpochView>::empty());
            assert(epoch_views(self.epochs@) + trim_epochs(all, count as int, bytes as int) =~= trim_epochs(all, count as int, bytes as int));
        }
        while source.len() > 0
            invariant
                exact == (epochs_bytes(all) <= usize::MAX),
                exact ==> trim_epochs(all, record_count(all), epochs_bytes(all)) == epoch_views(
                    self.epochs@,
                ) + trim_epochs(epoch_views(source@), count as int, bytes as int),
                exact ==> bytes >= epochs_bytes(epoch_views(source@)),
                count >= record_count(epoch_views(source@)),
                self.epochs@.len() + source@.len() == all.len(),
                clocks_anchored(epoch_views(self.epochs@)),
                clocks_anchored(epoch_views(source@)),
                self.coverage == old(self).coverage,
                self.serial == old(self).serial,
                self.presented_position_ns == old(self).presented_position_ns,
                self.observed == old(self).observed,
            decreases source@.len(),
        {
            let ghost views = epoch_views(source@);
            proof {
                lemma_epochs_front(views);
                lemma_epochs_bytes_nonneg(views.drop_first());
            }
            let mut epoch = source.remove(0);
            assert(epoch@ == views[0]);
            assert(epoch_views(source@) =~= views.drop_first());
            let ghost before = epoch@;
            let left = trim_front(&mut epoch.records, count, bytes);
            proof {
                if exact {
                    let (r, c, b) = trim_records(before.records, count as int, bytes as int);
                    assert(epoch@ == EpochView { records: r, ..views[0] });
                    assert(trim_epochs(views, count as int, bytes as int) == seq![epoch@] + trim_epochs(views.drop_first(), c, b));
                    lemma_records_bytes_nonneg(record_views(epoch.records@));
                }
            }
            let ghost done = epoch_views(self.epochs@);
            self.epochs.push(epoch);
            assert(epoch_views(self.epochs@) =~= done.push(epoch@));
            proof {
                if exact {
                    assert(done + (seq![epoch@] + trim_epochs(epoch_views(source@), left.0 as int, left.1 as int)) =~= done.push(epoch@) + trim_epochs(epoch_views(source@), left.0 as int, left.1 as int));
                }
                assert forall|i: int| 0 <= i < epoch_views(self.epochs@).len() implies (#[trigger] epoch_views(self.epochs@)[i].clock matches Some(c) ==> 0 <= c.media.0 <= MAX_MEDIA_MS) by {
                    if i < done.len() {
                        assert(epoch_views(self.epochs@)[i] == done[i]);
                    } else {
                        assert(epoch_views(self.epochs@)[i] == epoch@);
                        assert(epoch@.clock == views[0].clock);
                    }
                }
                assert forall|i: int| 0 <= i < epoch_views(source@).len() implies (#[trigger] epoch_views(source@)[i].clock matches Some(c) ==> 0 <= c.media.0 <= MAX_MEDIA_MS) by {
                    assert(epoch_views(source@)[i] == views[i + 1]);
                }
            }
            count = left.0;
            bytes = left.1;
        }
        proof {
            assert(epoch_views(source@) =~= Seq::<EpochView>::empty());
            if exact {
                assert(epoch_views(self.epochs@) + Seq::<EpochView>::empty() =~= epoch_views(self.epochs@));
            }
        }
    }
}

} // verus!

verus! {

fn clock_distance(a: Clock, b: Clock, position: MediaMs) -> (gap: u64)
    requires
        clock_fits(a, position),
        clock_fits(b, position),
    ensures
        gap == clock_gap(a, b, position),
{
    let x = a.utc(position);
    let y = b.utc(position);
    if x.0 >= y.0 {
        (x.0 as i128 - y.0 as i128) as u64
    } else {
        (y.0 as i128 - x.0 as i128) as u64
    }
}

/// The view of an optional observation.
pub open spec fn observation_view(observation: Option<&Observation>) -> Option<ObservationView> {
    match observation {
        Some(o) => Some(o@),
        None => None,
    }
}

/// What recording a reception does to a history: coverage grows by the received span,
/// the epochs take the observed events, the serial counts the change, and the newest epochs
/// are kept within their record and byte budgets.
pub open spec fn observation_effect(
    before: HistoryView,
    after: HistoryView,
    epoch: u64,
    time_ns: u64,
    end_ns: u64,
    observation: Option<ObservationView>,
    reading: Option<Reading>,
) -> bool {
    let position = MediaMs((time_ns / NS_PER_MS) as i64);
    let end = observed_end(time_ns, end_ns);
    let (epochs, serial, touched) = observe_epochs(before, epoch, position, end, observation, reading);
    let new_pcr_epoch = before.epochs.len() > 0 && before.epochs.last().pcr_epoch != epoch;
    &&& after.coverage == covered(before.coverage, new_pcr_epoch, position, end)
    &&& after.serial == serial
    &&& after.observed == match observation {
        Some(o) => Some(o.id),
        None => None,
    }
    &&& after.presented_position_ns == before.presented_position_ns
    &&& !touched ==> after.epochs == epochs
    &&& touched ==> after.epochs.len() == newest_epochs(epochs).len()
    &&& touched && epochs_bytes(newest_epochs(epochs)) <= usize::MAX ==> after.epochs == trim_epochs(
        newest_epochs(epochs),
        record_count(newest_epochs(epochs)),
        epochs_bytes(newest_epochs(epochs)),
    )
}

impl History {
    /// Record a reception at `time_ns` of PCR epoch `epoch`, received up to `end_ns`, with
    /// the schedule information and broadcast clock reading available there.
    #[verifier::rlimit(40)]
    #[verifier::spinoff_prover]
    pub fn observe(
        &mut self,
        epoch: u64,
        time_ns: u64,
        end_ns: u64,
        observation: Option<&Observation>,
        reading: Option<Reading>,
    )
        requires
            old(self).wf(),
            old(self)@.serial < u64::MAX,
        ensures
            final(self).wf(),
            observation_effect(old(self)@, final(self)@, epoch, time_ns, end_ns, observation_view(observation), reading),
    {
        let ghost old_view = self@;
        let position = MediaMs::from_ns(time_ns);
        let end_ms = MediaMs::from_ns(end_ns);
        let end = if end_ms.0 > position.0 + 1 {
            end_ms
        } else {
            MediaMs(position.0 + 1)
        };
        let fresh = match reading {
            Some(r) => match r.utc_ms {
                Some(utc) => Some(Clock { media: position, utc: UtcMs(utc) }),
                None => None,
            },
            None => None,
        };
        let changed = match (self.observed, observation) {
            (Some(a), Some(o)) => a != o.id,
            (None, None) => false,
            _ => true,
        };
        let count = self.epochs.len();
        let has_last = count > 0;
        let (last_pcr, last_start, last_clock) = if has_last {
            let last = &self.epochs[count - 1];
            assert(epoch_views(self.epochs@)[count - 1] == last@);
            (last.pcr_epoch, last.span.start, last.clock)
        } else {
            (0u64, position, None)
        };
        let new_pcr_epoch = has_last && last_pcr != epoch;
        let spans = self.coverage.len();
        if spans == 0 || (new_pcr_epoch && self.coverage[spans - 1].end.0 < position.0) {
            self.coverage.push_back(Span { start: position, end });
        } else {
            let ghost before = self.coverage@;
            let last = self.coverage[spans - 1];
            self.coverage.pop_back();
            self.coverage.push_back(
                Span {
                    start: last.start,
                    end: if end.0 > last.end.0 {
                        end
                    } else {
                        last.end
                    },
                },
            );
            assert(self.coverage@ =~= covered(before, new_pcr_epoch, position, end));
        }
        let epoch_start = if new_pcr_epoch || !has_last {
            position
        } else {
            last_start
        };
        let clock = if self.serial > 0 && fresh.is_some() && position.0 < epoch_start.0 {
            None
        } else {
            fresh
        };
        let gap_too_large = match (last_clock, clock) {
            (Some(a), Some(b)) => {
                assert(clocks_anchored(epoch_views(self.epochs@)));
                assert(epoch_views(self.epochs@)[count - 1].clock == last_clock);
                clock_distance(a, b, position) > CLOCK_TOLERANCE_MS as u64
            },
            _ => false,
        };
        let discontinuity = !has_last || last_pcr != epoch || (changed && gap_too_large);
        if discontinuity {
            let boundary = if new_pcr_epoch {
                position
            } else {
                let read = match reading {
                    Some(r) => MediaMs::from_ns(r.range_start_ns).0,
                    None => position.0,
                };
                let late = if read > epoch_start.0 {
                    read
                } else {
                    epoch_start.0
                };
                MediaMs(
                    if late < position.0 {
                        late
                    } else {
                        position.0
                    },
                )
            };
            if has_last {
                let ghost raw = self.epochs@;
                let mut last = self.epochs.pop().unwrap();
                assert(last@ == epoch_views(raw)[count - 1]);
                if boundary.0 < last.span.end.0 {
                    last.span = Span { start: last.span.start, end: boundary };
                }
                self.epochs.push(last);
                assert(self.epochs@ =~= raw.update(count - 1, last));
                assert(epoch_views(self.epochs@) =~= epoch_views(raw).update(count - 1, last@));
            }
            self.serial = self.serial + 1;
            let ghost raw = self.epochs@;
            let opened = Epoch {
                pcr_epoch: epoch,
                serial: self.serial,
                span: Span { start: boundary, end },
                clock,
                records: Vec::new(),
            };
            assert(opened@.records =~= Seq::<RecordView>::empty());
            self.epochs.push(opened);
            assert(epoch_views(self.epochs@) =~= epoch_views(raw).push(opened@));
        }
        let ghost raw = self.epochs@;
        let mut current = self.epochs.pop().unwrap();
        assert(current@ == epoch_views(raw).last());
        current.span = Span { start: current.span.start, end };
        if current.clock.is_none() {
            current.clock = clock;
        }
        if changed || discontinuity {
            match observation {
                Some(o) => {
                    merge_programs(&mut current.records, &o.current, true, &o.station, &o.provider);
                    merge_programs(&mut current.records, &o.next, false, &o.station, &o.provider);
                },
                None => {},
            }
        }
        self.epochs.push(current);
        assert(epoch_views(self.epochs@) =~= epoch_views(raw).update(raw.len() - 1, current@));
        self.observed = match observation {
            Some(o) => Some(o.id),
            None => None,
        };
        proof {
            let views = epoch_views(self.epochs@);
            assert forall|i: int| 0 <= i < views.len() implies (#[trigger] views[i].clock matches Some(c) ==> 0 <= c.media.0 <= MAX_MEDIA_MS) by {
                if i < views.len() - 1 {
                    assert(views[i] == epoch_views(raw)[i]);
                }
            }
        }
        if changed || discontinuity {
            self.limit();
        }
    }
}

} // verus!

verus! {

/// Coverage without its leading spans that end by `start`.
pub open spec fn drop_ended(coverage: Seq<Span>, start: MediaMs) -> Seq<Span>
    decreases coverage.len(),
{
    if coverage.len() > 0 && coverage[0].end.0 <= start.0 {
        drop_ended(coverage.drop_first(), start)
    } else {
        coverage
    }
}

/// Coverage after retention moved to `start`: ended spans go, the first starts no
/// earlier than `start`.
pub open spec fn expired_coverage(coverage: Seq<Span>, start: MediaMs) -> Seq<Span> {
    let kept = drop_ended(coverage, start);
    if kept.len() > 0 {
        kept.update(
            0,
            Span {
                start: if kept[0].start.0 >= start.0 {
                    kept[0].start
                } else {
                    start
                },
                end: kept[0].end,
            },
        )
    } else {
        kept
    }
}

/// Epochs without the leading ones that end by `start`; the last epoch always stays.
pub open spec fn drop_old_epochs(epochs: Seq<EpochView>, start: MediaMs) -> Seq<EpochView>
    decreases epochs.len(),
{
    if epochs.len() > 1 && epochs[0].span.end.0 <= start.0 {
        drop_old_epochs(epochs.drop_first(), start)
    } else {
        epochs
    }
}

/// Whether a record is still of interest at `start`: its event has no span, or ends
/// after `start`.
pub open spec fn still_relevant(record: RecordView, clock: Option<Clock>, start: MediaMs) -> bool {
    match event_span(clock, record.program.start_at, record.program.duration) {
        Some(span) => span.end.0 > start.0,
        None => true,
    }
}

pub open spec fn relevant_records(records: Seq<RecordView>, clock: Option<Clock>, start: MediaMs) -> Seq<RecordView>
    decreases records.len(),
{
    if records.len() == 0 {
        Seq::empty()
    } else {
        let rest = relevant_records(records.drop_last(), clock, start);
        if still_relevant(records.last(), clock, start) {
            rest.push(records.last())
        } else {
            rest
        }
    }
}

/// Metadata retention: everything before `start`, except records whose events last
/// past it.
pub open spec fn expired_epochs(epochs: Seq<EpochView>, start: MediaMs) -> Seq<EpochView> {
    let kept = drop_old_epochs(epochs, start);
    Seq::new(
        kept.len(),
        |i: int|
            EpochView { records: relevant_records(kept[i].records, kept[i].clock, start), ..kept[i] },
    )
}

/// Where metadata retention starts: the retention start or the presented frame, if that
/// is earlier, less the look-back.
pub open spec fn metadata_start(start_ns: u64, presented: Option<u64>, lookback_ns: u64) -> u64 {
    let presented = match presented {
        Some(p) => p,
        None => 0,
    };
    let earliest = if start_ns < presented {
        start_ns
    } else {
        presented
    };
    if earliest >= lookback_ns {
        (earliest - lookback_ns) as u64
    } else {
        0
    }
}

/// Where an observed position lies: the index of the last epoch whose span holds it.
pub open spec fn last_holding(epochs: Seq<EpochView>, position: MediaMs) -> Option<int>
    decreases epochs.len(),
{
    if epochs.len() == 0 {
        None
    } else if epochs.last().span.holds(position) {
        Some(epochs.len() - 1)
    } else {
        last_holding(epochs.drop_last(), position)
    }
}

/// Clipped spans lie inside the range they were clipped to, each nonempty.
pub(crate) proof fn lemma_clipped_inside(coverage: Seq<Span>, range: Span)
    ensures
        forall|i: int|
            0 <= i < clipped(coverage, range).len() ==> range.start.0 <= #[trigger] clipped(
                coverage,
                range,
            )[i].start.0 < clipped(coverage, range)[i].end.0 <= range.end.0,
    decreases coverage.len(),
{
    if coverage.len() > 0 {
        lemma_clipped_inside(coverage.drop_last(), range);
        let rest = clipped(coverage.drop_last(), range);
        match clip(coverage.last(), range) {
            Some(span) => {
                assert forall|i: int| 0 <= i < rest.push(span).len() implies range.start.0
                    <= #[trigger] rest.push(span)[i].start.0 < rest.push(span)[i].end.0
                    <= range.end.0 by {
                    if i < rest.len() {
                        assert(rest.push(span)[i] == rest[i]);
                    }
                }
            },
            None => {},
        }
    }
}

/// The epoch found for a position holds it.
pub(crate) proof fn lemma_last_holding(epochs: Seq<EpochView>, position: MediaMs)
    ensures
        last_holding(epochs, position) matches Some(i) ==> 0 <= i < epochs.len()
            && epochs[i].span.holds(position),
    decreases epochs.len(),
{
    if epochs.len() > 0 && !epochs.last().span.holds(position) {
        lemma_last_holding(epochs.drop_last(), position);
    }
}

fn keep_relevant(records: &mut Vec<Record>, clock: Option<Clock>, start: MediaMs)
    ensures
        record_views(final(records)@) == relevant_records(record_views(old(records)@), clock, start),
{
    let mut source: Vec<Record> = Vec::new();
    std::mem::swap(&mut source, records);
    let ghost all = record_views(source@);
    let mut taken: usize = 0;
    let ghost mut n: int = 0;
    while source.len() > 0
        invariant
            all == record_views(old(records)@),
            0 <= n <= all.len(),
            record_views(source@) == all.subrange(n, all.len() as int),
            record_views(records@) == relevant_records(all.subrange(0, n), clock, start),
        decreases source@.len(),
    {
        let ghost views = record_views(source@);
        let ghost raw = source@;
        let record = source.remove(0);
        assert(source@ =~= raw.drop_first());
        assert(record@ == views[0]);
        assert(record_views(source@) =~= views.drop_first());
        assert(record_views(source@) =~= all.subrange(n + 1, all.len() as int));
        let keep = match record.span(clock) {
            Some(span) => span.end.0 > start.0,
            None => true,
        };
        let ghost before = record_views(records@);
        assert(all.subrange(0, n + 1).drop_last() =~= all.subrange(0, n));
        assert(all.subrange(0, n + 1).last() == record@);
        if keep {
            records.push(record);
            assert(record_views(records@) =~= before.push(record@));
        }
        proof {
            n = n + 1;
        }
    }
    assert(all.subrange(0, all.len() as int) =~= all);
}

impl History {
    /// The reception reached `end_ns`: the last span and epoch reach there too.
    pub fn advance_end(&mut self, end_ns: u64)
        requires
            old(self).wf(),
        ensures
            final(self).wf(),
            final(self)@ == advanced_view(old(self)@, end_ns),
    {
        let end = MediaMs::from_ns(end_ns);
        let spans = self.coverage.len();
        if spans > 0 {
            let ghost before = self.coverage@;
            let last = self.coverage[spans - 1];
            self.coverage.pop_back();
            self.coverage.push_back(
                Span {
                    start: last.start,
                    end: if end.0 > last.end.0 {
                        end
                    } else {
                        last.end
                    },
                },
            );
            assert(self.coverage@ =~= before.update(
                before.len() - 1,
                Span {
                    start: last.start,
                    end: if end.0 > last.end.0 {
                        end
                    } else {
                        last.end
                    },
                },
            ));
        }
        let count = self.epochs.len();
        if count > 0 {
            let ghost raw = self.epochs@;
            let mut last = self.epochs.pop().unwrap();
            assert(last@ == epoch_views(raw)[count - 1]);
            if end.0 > last.span.end.0 {
                last.span = Span { start: last.span.start, end };
            }
            self.epochs.push(last);
            assert(epoch_views(self.epochs@) =~= epoch_views(raw).update(count - 1, last@));
            proof {
                let views = epoch_views(self.epochs@);
                assert forall|i: int| 0 <= i < views.len() implies (#[trigger] views[i].clock matches Some(c) ==> 0 <= c.media.0 <= MAX_MEDIA_MS) by {
                    assert(views[i].clock == epoch_views(raw)[i].clock);
                }
            }
        }
    }

    /// Retention moved to `start_ns`. Seekable coverage follows it; metadata stays from
    /// the earlier of it and the presented frame, less `lookback_ns`, so that what is
    /// still on screen keeps its program.
    pub fn expire(&mut self, start_ns: u64, lookback_ns: u64)
        requires
            old(self).wf(),
        ensures
            final(self).wf(),
            final(self)@.coverage == expired_coverage(
                old(self)@.coverage,
                MediaMs((start_ns / NS_PER_MS) as i64),
            ),
            final(self)@.epochs == expired_epochs(
                old(self)@.epochs,
                MediaMs(
                    (metadata_start(start_ns, old(self)@.presented_position_ns, lookback_ns)
                        / NS_PER_MS) as i64,
                ),
            ),
            final(self)@.serial == old(self)@.serial,
            final(self)@.presented_position_ns == old(self)@.presented_position_ns,
            final(self)@.observed == old(self)@.observed,
            final(self)@ == expired_view(old(self)@, start_ns, lookback_ns),
    {
        let start = MediaMs::from_ns(start_ns);
        let ghost cov = self.coverage@;
        while self.coverage.len() > 0 && self.coverage[0].end.0 <= start.0
            invariant
                drop_ended(cov, start) == drop_ended(self.coverage@, start),
                clocks_anchored(epoch_views(self.epochs@)),
                self.epochs == old(self).epochs,
                self.serial == old(self).serial,
                self.presented_position_ns == old(self).presented_position_ns,
                self.observed == old(self).observed,
            decreases self.coverage@.len(),
        {
            let ghost before = self.coverage@;
            self.coverage.pop_front();
            assert(self.coverage@ =~= before.drop_first());
        }
        assert(drop_ended(self.coverage@, start) == self.coverage@);
        if self.coverage.len() > 0 {
            let ghost before = self.coverage@;
            let first = self.coverage[0];
            self.coverage.pop_front();
            self.coverage.push_front(
                Span {
                    start: if first.start.0 >= start.0 {
                        first.start
                    } else {
                        start
                    },
                    end: first.end,
                },
            );
            assert(self.coverage@ =~= expired_coverage(cov, start));
        } else {
            assert(self.coverage@ =~= expired_coverage(cov, start));
        }
        let presented = match self.presented_position_ns {
            Some(p) => p,
            None => 0,
        };
        let earliest = if start_ns < presented {
            start_ns
        } else {
            presented
        };
        let metadata_ns = earliest.saturating_sub(lookback_ns);
        let kept_from = MediaMs::from_ns(metadata_ns);
        let ghost eps = epoch_views(self.epochs@);
        while self.epochs.len() > 1 && self.epochs[0].span.end.0 <= kept_from.0
            invariant
                drop_old_epochs(eps, kept_from) == drop_old_epochs(epoch_views(self.epochs@), kept_from),
                self.coverage@ == expired_coverage(cov, start),
                clocks_anchored(epoch_views(self.epochs@)),
                self.serial == old(self).serial,
                self.presented_position_ns == old(self).presented_position_ns,
                self.observed == old(self).observed,
            decreases self.epochs@.len(),
        {
            let ghost raw = self.epochs@;
            assert(epoch_views(raw)[0] == raw[0]@);
            self.epochs.remove(0);
            assert(epoch_views(self.epochs@) =~= epoch_views(raw).drop_first());
            proof {
                let views = epoch_views(self.epochs@);
                assert forall|i: int| 0 <= i < views.len() implies (#[trigger] views[i].clock matches Some(c) ==> 0 <= c.media.0 <= MAX_MEDIA_MS) by {
                    assert(views[i] == epoch_views(raw)[i + 1]);
                }
            }
        }
        let ghost kept = epoch_views(self.epochs@);
        assert(drop_old_epochs(kept, kept_from) == kept);
        let count = self.epochs.len();
        let mut k: usize = 0;
        let mut source: Vec<Epoch> = Vec::new();
        std::mem::swap(&mut source, &mut self.epochs);
        while source.len() > 0
            invariant
                k + source@.len() == count,
                count == kept.len(),
                epoch_views(source@) == kept.subrange(k as int, count as int),
                epoch_views(self.epochs@) == expired_epochs(eps, kept_from).subrange(0, k as int),
                drop_old_epochs(eps, kept_from) == kept,
                clocks_anchored(kept),
                self.coverage@ == expired_coverage(cov, start),
                self.serial == old(self).serial,
                self.presented_position_ns == old(self).presented_position_ns,
                self.observed == old(self).observed,
            decreases source@.len(),
        {
            let ghost views = epoch_views(source@);
            let ghost raw = source@;
            let mut epoch = source.remove(0);
            assert(source@ =~= raw.drop_first());
            assert(epoch@ == views[0]);
            assert(epoch_views(source@) =~= views.drop_first());
            assert(epoch@ == kept[k as int]);
            assert(epoch_views(source@) =~= kept.subrange(k + 1, count as int));
            let clock = epoch.clock;
            keep_relevant(&mut epoch.records, clock, kept_from);
            let ghost done = epoch_views(self.epochs@);
            let ghost raw_done = self.epochs@;
            assert(epoch@ == expired_epochs(eps, kept_from)[k as int]);
            self.epochs.push(epoch);
            assert(self.epochs@ =~= raw_done.push(epoch));
            assert(epoch_views(self.epochs@) =~= done.push(epoch@));
            assert(epoch_views(self.epochs@) =~= expired_epochs(eps, kept_from).subrange(0, k + 1));
            k = k + 1;
        }
        assert(expired_epochs(eps, kept_from).subrange(0, k as int) =~= expired_epochs(eps, kept_from));
        proof {
            let views = epoch_views(self.epochs@);
            assert forall|i: int| 0 <= i < views.len() implies (#[trigger] views[i].clock matches Some(c) ==> 0 <= c.media.0 <= MAX_MEDIA_MS) by {
                assert(views[i].clock == kept[i].clock);
            }
        }
    }

    /// The retained coverage within `range`; none without a range.
    pub fn retained(&self, range: Option<Span>) -> (spans: Vec<Span>)
        ensures
            spans@ == match range {
                Some(r) => clipped(self@.coverage, r),
                None => Seq::empty(),
            },
    {
        match range {
            Some(r) => clip_all(&self.coverage, r),
            None => Vec::new(),
        }
    }

    /// Answer a seek to `requested` milliseconds within the retained coverage of
    /// `start_ns..end_ns`.
    pub fn seek_target(&self, start_ns: u64, end_ns: u64, requested: crate::timeline::RequestedMs) -> (target: Result<LiveSeek, Error>)
        ensures
            target == match requested {
                crate::timeline::RequestedMs::Invalid => Err(Error::InvalidPosition),
                crate::timeline::RequestedMs::Millis(ms) => live_seek_spec(
                    clipped(
                        self@.coverage,
                        Span {
                            start: MediaMs((start_ns / NS_PER_MS) as i64),
                            end: MediaMs((end_ns / NS_PER_MS) as i64),
                        },
                    ),
                    MediaMs(ms),
                ),
            },
    {
        let ms = match requested {
            crate::timeline::RequestedMs::Invalid => {
                return Err(Error::InvalidPosition);
            },
            crate::timeline::RequestedMs::Millis(ms) => ms,
        };
        let range = Span { start: MediaMs::from_ns(start_ns), end: MediaMs::from_ns(end_ns) };
        let available = clip_all(&self.coverage, range);
        proof {
            lemma_clipped_inside(self.coverage@, range);
        }
        live_seek(&available, MediaMs(ms))
    }

    /// The index of the epoch that holds `position`.
    pub fn epoch_index(&self, position: MediaMs) -> (index: Option<usize>)
        ensures
            match index {
                Some(i) => last_holding(self@.epochs, position) == Some(i as int),
                None => last_holding(self@.epochs, position) is None,
            },
    {
        let mut k = self.epochs.len();
        let ghost views = epoch_views(self.epochs@);
        assert(views.subrange(0, k as int) =~= views);
        while k > 0
            invariant
                k <= views.len(),
                views == epoch_views(self.epochs@),
                last_holding(views, position) == last_holding(views.subrange(0, k as int), position),
            decreases k,
        {
            let ghost prefix = views.subrange(0, k as int);
            assert(prefix.last() == self.epochs@[k - 1]@);
            assert(prefix.drop_last() =~= views.subrange(0, k - 1));
            if self.epochs[k - 1].span.contains(position) {
                return Some(k - 1);
            }
            k = k - 1;
        }
        None
    }

    /// The broadcast clock of the epoch that holds `position`.
    pub fn epoch_clock(&self, position: MediaMs) -> (clock: Option<Clock>)
        ensures
            clock == match last_holding(self@.epochs, position) {
                Some(i) => self@.epochs[i].clock,
                None => None,
            },
    {
        proof {
            lemma_last_holding(self@.epochs, position);
        }
        match self.epoch_index(position) {
            Some(i) => {
                assert(epoch_views(self.epochs@)[i as int] == self.epochs@[i as int]@);
                self.epochs[i].clock
            },
            None => None,
        }
    }

    /// The presenter confirmed the frame at `position_ns` on screen.
    pub fn set_presented(&mut self, position_ns: u64)
        requires
            old(self).wf(),
        ensures
            final(self).wf(),
            final(self)@ == (HistoryView { presented_position_ns: Some(position_ns), ..old(self)@ }),
    {
        self.presented_position_ns = Some(position_ns);
    }

    pub fn epochs(&self) -> (epochs: &Vec<Epoch>)
        ensures
            epoch_views(epochs@) == self@.epochs,
    {
        &self.epochs
    }
}

/// Whether a history is within its budgets: at most `MAX_EPOCHS` epochs, `MAX_PROGRAMS`
/// records and `MAX_PROGRAM_BYTES` bytes of records.
pub open spec fn within_limits(h: HistoryView) -> bool {
    &&& h.epochs.len() <= MAX_EPOCHS
    &&& record_count(h.epochs) <= MAX_PROGRAMS
    &&& epochs_bytes(h.epochs) <= MAX_PROGRAM_BYTES
}

proof fn lemma_record_count_front(epochs: Seq<EpochView>)
    requires
        epochs.len() > 0,
    ensures
        record_count(epochs) == epochs[0].records.len() + record_count(epochs.drop_first()),
        epochs_bytes(epochs) == records_bytes(epochs[0].records) + epochs_bytes(epochs.drop_first()),
{
    lemma_epochs_front(epochs);
}

/// Trimming drops records from the front, keeping the running totals in step, and stops
/// with records left only once the totals are within the budgets.
proof fn lemma_trim_records(records: Seq<RecordView>, count: int, bytes: int)
    ensures
        ({
            let (kept, c, b) = trim_records(records, count, bytes);
            &&& kept.len() <= records.len()
            &&& kept == records.subrange(records.len() - kept.len(), records.len() as int)
            &&& c == count - (records.len() - kept.len())
            &&& b == bytes - (records_bytes(records) - records_bytes(kept))
            &&& (kept.len() == 0 || (c <= MAX_PROGRAMS && b <= MAX_PROGRAM_BYTES))
        }),
    decreases records.len(),
{
    if (count > MAX_PROGRAMS || bytes > MAX_PROGRAM_BYTES) && records.len() > 0 {
        let rest = records.drop_first();
        let c1 = count - 1;
        let b1 = bytes - record_bytes(records[0]);
        lemma_records_bytes_front(records);
        lemma_trim_records(rest, c1, b1);
        let (kept, c, b) = trim_records(rest, c1, b1);
        assert(trim_records(records, count, bytes) == trim_records(rest, c1, b1));
        assert(rest.subrange(rest.len() - kept.len(), rest.len() as int) =~= records.subrange(
            records.len() - kept.len(),
            records.len() as int,
        ));
        assert(b == bytes - (records_bytes(records) - records_bytes(kept)));
    } else {
        assert(records.subrange(0, records.len() as int) =~= records);
    }
}

/// Trimming within the budgets changes nothing.
proof fn lemma_trim_within(epochs: Seq<EpochView>, count: int, bytes: int)
    requires
        count <= MAX_PROGRAMS,
        bytes <= MAX_PROGRAM_BYTES,
    ensures
        trim_epochs(epochs, count, bytes) == epochs,
    decreases epochs.len(),
{
    if epochs.len() > 0 {
        lemma_trim_within(epochs.drop_first(), count, bytes);
        assert(seq![EpochView { records: epochs[0].records, ..epochs[0] }] + epochs.drop_first() =~= epochs);
    }
}

/// Trimming the epochs by their own totals keeps their number and brings the totals
/// within the budgets.
proof fn lemma_trim_epochs(epochs: Seq<EpochView>)
    ensures
        ({
            let trimmed = trim_epochs(epochs, record_count(epochs), epochs_bytes(epochs));
            &&& trimmed.len() == epochs.len()
            &&& record_count(trimmed) <= MAX_PROGRAMS
            &&& epochs_bytes(trimmed) <= MAX_PROGRAM_BYTES
        }),
    decreases epochs.len(),
{
    let trimmed = trim_epochs(epochs, record_count(epochs), epochs_bytes(epochs));
    if epochs.len() > 0 {
        lemma_record_count_front(epochs);
        let rest = epochs.drop_first();
        let (kept, c, b) = trim_records(epochs[0].records, record_count(epochs), epochs_bytes(epochs));
        lemma_trim_records(epochs[0].records, record_count(epochs), epochs_bytes(epochs));
        let head = EpochView { records: kept, ..epochs[0] };
        assert(trimmed == seq![head] + trim_epochs(rest, c, b));
        if kept.len() == 0 {
            assert(c == record_count(rest));
            assert(records_bytes(kept) == 0);
            assert(b == epochs_bytes(rest));
            lemma_trim_epochs(rest);
        } else {
            lemma_trim_within(rest, c, b);
        }
        let tail = trim_epochs(rest, c, b);
        assert((seq![head] + tail).drop_first() =~= tail);
        lemma_record_count_front(seq![head] + tail);
    }
}

proof fn lemma_totals_update_last(epochs: Seq<EpochView>, e: EpochView)
    requires
        epochs.len() > 0,
        e.records == epochs.last().records,
    ensures
        record_count(epochs.update(epochs.len() - 1, e)) == record_count(epochs),
        epochs_bytes(epochs.update(epochs.len() - 1, e)) == epochs_bytes(epochs),
{
    let u = epochs.update(epochs.len() - 1, e);
    assert(u.drop_last() =~= epochs.drop_last());
}

/// A reception keeps a history within its budgets: at most `MAX_EPOCHS` epochs,
/// `MAX_PROGRAMS` records and `MAX_PROGRAM_BYTES` bytes of records, the oldest records
/// going first. Record sizes that cannot be counted in memory are left out.
pub proof fn observation_keeps_limits(
    before: HistoryView,
    after: HistoryView,
    epoch: u64,
    time_ns: u64,
    end_ns: u64,
    observation: Option<ObservationView>,
    reading: Option<Reading>,
)
    requires
        within_limits(before),
        observation_effect(before, after, epoch, time_ns, end_ns, observation, reading),
        epochs_bytes(newest_epochs(observe_epochs(before, epoch, MediaMs((time_ns / NS_PER_MS) as i64),
            observed_end(time_ns, end_ns), observation, reading).0)) <= usize::MAX,
    ensures
        within_limits(after),
{
    let position = MediaMs((time_ns / NS_PER_MS) as i64);
    let end = observed_end(time_ns, end_ns);
    let (epochs, serial, touched) = observe_epochs(before, epoch, position, end, observation, reading);
    if touched {
        let newest = newest_epochs(epochs);
        lemma_trim_epochs(newest);
    } else {
        assert(before.epochs.len() > 0);
        assert(epochs.len() == before.epochs.len());
        assert(epochs.last().records == before.epochs.last().records);
        assert(epochs =~= before.epochs.update(before.epochs.len() - 1, epochs.last()));
        lemma_totals_update_last(before.epochs, epochs.last());
    }
}

} // verus!
