//! The live timeline as the interface draws it: the axis, availability, program spans
//! and their boundaries, projected from the receive-side history.
use vstd::prelude::*;
use crate::live::{
    Clock, History, MediaMs, Span, UtcMs, EpochView, RecordView, RecordId, Epoch, Record,
    event_span, epoch_views, record_views, clock_fits, sat_add, clocks_anchored, last_holding,
    first_after,
    MIN_AXIS_MS, MAX_MEDIA_MS,
};
use crate::timeline::{Phase, Resume};

verus! {

#[derive(Clone, Copy, Debug, PartialEq, Eq, Structural)]
pub enum ClockMode {
    Elapsed,
    Broadcast,
}

#[derive(Clone, Copy, Debug, PartialEq, Eq, Structural)]
pub enum Availability {
    Disabled,
    Available,
    Expired,
    Unavailable,
}

#[derive(Clone, Copy, Debug, PartialEq, Eq, Structural)]
pub enum PlaybackState {
    Playing,
    Paused,
    Seeking,
    Ended,
}

/// The drawn axis: its media bounds, whether it is labelled with broadcast time, and
/// that time at both ends.
#[derive(Clone, Copy, Debug, PartialEq, Eq, Structural)]
pub struct Axis {
    pub start: MediaMs,
    pub end: MediaMs,
    pub clock: ClockMode,
    pub start_utc: Option<UtcMs>,
    pub end_utc: Option<UtcMs>,
}

pub fn playback_state(phase: Phase) -> (state: PlaybackState)
    ensures
        state == match phase {
            Phase::Playing => PlaybackState::Playing,
            Phase::Paused => PlaybackState::Paused,
            Phase::Seeking(_) => PlaybackState::Seeking,
            Phase::Ended => PlaybackState::Ended,
        },
{
    match phase {
        Phase::Playing => PlaybackState::Playing,
        Phase::Paused => PlaybackState::Paused,
        Phase::Seeking(Resume::Playing) => PlaybackState::Seeking,
        Phase::Seeking(Resume::Paused) => PlaybackState::Seeking,
        Phase::Ended => PlaybackState::Ended,
    }
}

/// Whether the previously presented view stays: without a position, while seeking, or
/// when still paused or still ended.
pub open spec fn frozen_spec(position_known: bool, state: PlaybackState, previous: Option<PlaybackState>) -> bool {
    !position_known || state == PlaybackState::Seeking || (match previous {
        Some(p) => (state == PlaybackState::Paused || state == PlaybackState::Ended) && p == state,
        None => false,
    })
}

pub fn frozen(position_known: bool, state: PlaybackState, previous: Option<PlaybackState>) -> (keep: bool)
    ensures
        keep == frozen_spec(position_known, state, previous),
{
    !position_known || state == PlaybackState::Seeking || match previous {
        Some(p) => (state == PlaybackState::Paused || state == PlaybackState::Ended) && p == state,
        None => false,
    }
}

/// How a viewed position relates to the retained stream.
pub open spec fn availability_spec(enabled: bool, available: Seq<Span>, position: MediaMs, start: MediaMs) -> Availability {
    if !enabled {
        Availability::Disabled
    } else if exists|i: int|
        0 <= i < available.len() && #[trigger] available[i].start.0 <= position.0 < available[i].end.0 {
        Availability::Available
    } else if position.0 < start.0 {
        Availability::Expired
    } else {
        Availability::Unavailable
    }
}

pub fn availability(enabled: bool, available: &Vec<Span>, position: MediaMs, start: MediaMs) -> (a: Availability)
    ensures
        a == availability_spec(enabled, available@, position, start),
{
    if !enabled {
        return Availability::Disabled;
    }
    let mut i: usize = 0;
    while i < available.len()
        invariant
            enabled,
            i <= available@.len(),
            forall|j: int| 0 <= j < i ==> !(#[trigger] available@[j]).holds(position),
        decreases available@.len() - i,
    {
        if available[i].contains(position) {
            assert(available@[i as int].holds(position));
            return Availability::Available;
        }
        i = i + 1;
    }
    if position.0 < start.0 {
        Availability::Expired
    } else {
        Availability::Unavailable
    }
}

/// The axis bounds: from the start of the oldest program (else the oldest position) to
/// the end of the live program (else the previous axis end, else the live edge), never
/// before the live edge and never shorter than the minimum axis.
pub open spec fn axis_bounds_spec(
    oldest: MediaMs,
    oldest_program: Option<Span>,
    live_program: Option<Span>,
    previous_end: Option<MediaMs>,
    edge: MediaMs,
) -> (MediaMs, MediaMs) {
    let left = match oldest_program {
        Some(span) => span.start,
        None => oldest,
    };
    let planned = match live_program {
        Some(span) => span.end,
        None => match previous_end {
            Some(end) => end,
            None => edge,
        },
    };
    let reach: int = if planned.0 >= edge.0 {
        planned.0 as int
    } else {
        edge.0 as int
    };
    let right: int = if reach >= left.0 + MIN_AXIS_MS {
        reach
    } else {
        left.0 + MIN_AXIS_MS
    };
    (left, MediaMs(right as i64))
}

pub fn axis_bounds(
    oldest: MediaMs,
    oldest_program: Option<Span>,
    live_program: Option<Span>,
    previous_end: Option<MediaMs>,
    edge: MediaMs,
) -> (bounds: (MediaMs, MediaMs))
    requires
        (match oldest_program {
            Some(span) => span.start.0,
            None => oldest.0,
        }) + MIN_AXIS_MS <= i64::MAX,
    ensures
        bounds == axis_bounds_spec(oldest, oldest_program, live_program, previous_end, edge),
{
    let left = match oldest_program {
        Some(span) => span.start,
        None => oldest,
    };
    let planned = match live_program {
        Some(span) => span.end,
        None => match previous_end {
            Some(end) => end,
            None => edge,
        },
    };
    let reach = if planned.0 >= edge.0 {
        planned.0
    } else {
        edge.0
    };
    let right = if reach >= left.0 + MIN_AXIS_MS {
        reach
    } else {
        left.0 + MIN_AXIS_MS
    };
    (left, MediaMs(right))
}

/// The axis over `left..right`: labelled with broadcast time when the live position has
/// a clock, each end at the time of its epoch's clock.
pub open spec fn axis_spec(first_clock: Option<Clock>, last_clock: Option<Clock>, left: MediaMs, right: MediaMs) -> Axis {
    Axis {
        start: left,
        end: right,
        clock: if last_clock is Some {
            ClockMode::Broadcast
        } else {
            ClockMode::Elapsed
        },
        start_utc: match first_clock {
            Some(c) => Some(UtcMs(sat_add(c.utc.0 as int, left.0 - c.media.0) as i64)),
            None => None,
        },
        end_utc: match last_clock {
            Some(c) => Some(UtcMs(sat_add(c.utc.0 as int, right.0 - c.media.0) as i64)),
            None => None,
        },
    }
}

impl History {
    /// The axis over `left..right`, with the clocks of the epochs holding the oldest and
    /// the live position.
    pub fn axis(&self, left: MediaMs, right: MediaMs, oldest: MediaMs, live: MediaMs) -> (axis: Axis)
        requires
            self.wf(),
            left.0 >= i64::MIN + MAX_MEDIA_MS,
            right.0 >= i64::MIN + MAX_MEDIA_MS,
        ensures
            axis == axis_spec(
                match last_holding(self@.epochs, oldest) {
                    Some(i) => self@.epochs[i].clock,
                    None => None,
                },
                match last_holding(self@.epochs, live) {
                    Some(i) => self@.epochs[i].clock,
                    None => None,
                },
                left,
                right,
            ),
    {
        let first_clock = self.epoch_clock(oldest);
        let last_clock = self.epoch_clock(live);
        proof {
            self.lemma_clock_anchored(oldest);
            self.lemma_clock_anchored(live);
        }
        Axis {
            start: left,
            end: right,
            clock: if last_clock.is_some() {
                ClockMode::Broadcast
            } else {
                ClockMode::Elapsed
            },
            start_utc: match first_clock {
                Some(c) => Some(c.utc(left)),
                None => None,
            },
            end_utc: match last_clock {
                Some(c) => Some(c.utc(right)),
                None => None,
            },
        }
    }
}

/// A program drawn on the axis.
pub struct ProgramSpan {
    pub id: RecordId,
    pub title: String,
    pub start: MediaMs,
    pub end: MediaMs,
}

pub struct ProgramSpanView {
    pub id: RecordId,
    pub title: Seq<char>,
    pub start: MediaMs,
    pub end: MediaMs,
}

impl View for ProgramSpan {
    type V = ProgramSpanView;

    open spec fn view(&self) -> ProgramSpanView {
        ProgramSpanView { id: self.id, title: self.title@, start: self.start, end: self.end }
    }
}

pub open spec fn span_views(spans: Seq<ProgramSpan>) -> Seq<ProgramSpanView> {
    spans.map_values(|p: ProgramSpan| p@)
}

/// A record's event as drawn in epoch `k` of `count`: clipped to its epoch, except at the
/// oldest start and the newest end; dropped when empty or off the display.
pub open spec fn drawn(epoch: EpochView, k: int, count: int, record: RecordView, display: Span) -> Option<ProgramSpanView> {
    match event_span(epoch.clock, record.program.start_at, record.program.duration) {
        None => None,
        Some(span) => {
            let start = if k == 0 || span.start.0 >= epoch.span.start.0 {
                span.start
            } else {
                epoch.span.start
            };
            let end = if k + 1 == count || span.end.0 <= epoch.span.end.0 {
                span.end
            } else {
                epoch.span.end
            };
            let clipped = Span { start, end };
            if clipped.end.0 <= clipped.start.0 || !clipped.meets(display) {
                None
            } else {
                Some(
                    ProgramSpanView {
                        id: RecordId {
                            epoch: epoch.serial,
                            network_id: record.program.network_id,
                            transport_stream_id: record.program.transport_stream_id,
                            service_id: record.program.service_id,
                            event_id: record.program.event_id,
                        },
                        title: record.program.name,
                        start,
                        end,
                    },
                )
            }
        },
    }
}

/// The drawn events of the first `n` records of epoch `k`.
pub open spec fn drawn_records(epoch: EpochView, k: int, count: int, n: int, display: Span) -> Seq<ProgramSpanView>
    decreases n,
{
    if n <= 0 {
        Seq::empty()
    } else {
        let rest = drawn_records(epoch, k, count, n - 1, display);
        match drawn(epoch, k, count, epoch.records[n - 1], display) {
            Some(p) => rest.push(p),
            None => rest,
        }
    }
}

/// The drawn events of the first `n` epochs, in epoch and record order.
pub open spec fn drawn_epochs(epochs: Seq<EpochView>, n: int, display: Span) -> Seq<ProgramSpanView>
    decreases n,
{
    if n <= 0 {
        Seq::empty()
    } else {
        drawn_epochs(epochs, n - 1, display) + drawn_records(
            epochs[n - 1],
            n - 1,
            epochs.len() as int,
            epochs[n - 1].records.len() as int,
            display,
        )
    }
}

/// Insert after every span that starts no later.
pub open spec fn insert_by_start(sorted: Seq<ProgramSpanView>, p: ProgramSpanView) -> Seq<ProgramSpanView> {
    sorted.insert(first_later(sorted, p.start, 0), p)
}

/// The first index from `from` whose span starts after `start`, or the length.
pub open spec fn first_later(sorted: Seq<ProgramSpanView>, start: MediaMs, from: int) -> int
    decreases sorted.len() - from,
{
    if from < 0 || from >= sorted.len() {
        sorted.len() as int
    } else if sorted[from].start.0 > start.0 {
        from
    } else {
        first_later(sorted, start, from + 1)
    }
}

/// A stable sort by start.
pub open spec fn sort_by_start(spans: Seq<ProgramSpanView>) -> Seq<ProgramSpanView>
    decreases spans.len(),
{
    if spans.len() == 0 {
        Seq::empty()
    } else {
        insert_by_start(sort_by_start(spans.drop_last()), spans.last())
    }
}

proof fn lemma_first_later_bound(sorted: Seq<ProgramSpanView>, start: MediaMs, from: int)
    requires
        0 <= from,
    ensures
        from <= first_later(sorted, start, from) <= sorted.len() || from > sorted.len(),
    decreases sorted.len() - from,
{
    if from < sorted.len() && sorted[from].start.0 <= start.0 {
        lemma_first_later_bound(sorted, start, from + 1);
    }
}

fn later_index(sorted: &Vec<ProgramSpan>, start: MediaMs) -> (i: usize)
    ensures
        i == first_later(span_views(sorted@), start, 0),
        i <= sorted@.len(),
{
    let ghost views = span_views(sorted@);
    let mut i: usize = 0;
    while i < sorted.len()
        invariant
            i <= sorted@.len(),
            views == span_views(sorted@),
            first_later(views, start, 0) == first_later(views, start, i as int),
        decreases sorted@.len() - i,
    {
        assert(views[i as int] == sorted@[i as int]@);
        if sorted[i].start.0 > start.0 {
            return i;
        }
        i = i + 1;
    }
    i
}

fn drawn_span(epoch: &Epoch, k: usize, count: usize, record: &Record, display: Span) -> (p: Option<ProgramSpan>)
    requires
        k < count,
    ensures
        match p {
            Some(p) => drawn(epoch@, k as int, count as int, record@, display) == Some(p@),
            None => drawn(epoch@, k as int, count as int, record@, display) is None,
        },
{
    match record.span(epoch.clock) {
        None => None,
        Some(span) => {
            let start = if k == 0 || span.start.0 >= epoch.span.start.0 {
                span.start
            } else {
                epoch.span.start
            };
            let end = if k + 1 == count || span.end.0 <= epoch.span.end.0 {
                span.end
            } else {
                epoch.span.end
            };
            let clipped = Span { start, end };
            if clipped.end.0 <= clipped.start.0 || !clipped.intersects(display) {
                None
            } else {
                Some(
                    ProgramSpan {
                        id: record.id(epoch.serial),
                        title: record.program.name.clone(),
                        start,
                        end,
                    },
                )
            }
        },
    }
}

impl History {
    proof fn lemma_clock_anchored(&self, position: MediaMs)
        requires
            self.wf(),
        ensures
            match last_holding(self@.epochs, position) {
                Some(i) => match self@.epochs[i].clock {
                    Some(c) => 0 <= c.media.0 <= MAX_MEDIA_MS,
                    None => true,
                },
                None => true,
            },
    {
        crate::live::lemma_last_holding(self@.epochs, position);
        self.reveal_wf();
    }

    /// The programs drawn over `display`, sorted by start (stable).
    pub fn program_spans(&self, display: Span) -> (programs: Vec<ProgramSpan>)
        ensures
            span_views(programs@) == sort_by_start(
                drawn_epochs(self@.epochs, self@.epochs.len() as int, display),
            ),
    {
        let epochs = self.epochs();
        let count = epochs.len();
        let ghost views = epoch_views(epochs@);
        let mut drawn_list: Vec<ProgramSpan> = Vec::new();
        let mut sorted: Vec<ProgramSpan> = Vec::new();
        let mut k: usize = 0;
        while k < count
            invariant
                k <= count,
                count == views.len(),
                views == epoch_views(epochs@),
                views == self@.epochs,
                span_views(sorted@) == sort_by_start(drawn_epochs(views, k as int, display)),
            decreases count - k,
        {
            let epoch = &epochs[k];
            assert(views[k as int] == epoch@);
            let ghost before = drawn_epochs(views, k as int, display);
            let mut r: usize = 0;
            while r < epoch.records.len()
                invariant
                    k < count,
                    count == views.len(),
                    views[k as int] == epoch@,
                    r <= epoch.records@.len(),
                    span_views(sorted@) == sort_by_start(
                        before + drawn_records(epoch@, k as int, count as int, r as int, display),
                    ),
                decreases epoch.records@.len() - r,
            {
                assert(record_views(epoch.records@)[r as int] == epoch.records@[r as int]@);
                let item = drawn_span(epoch, k, count, &epoch.records[r], display);
                let ghost prefix = before + drawn_records(epoch@, k as int, count as int, r as int, display);
                match item {
                    Some(p) => {
                        let ghost pv = p@;
                        let at = later_index(&sorted, p.start);
                        let ghost sv = span_views(sorted@);
                        sorted.insert(at, p);
                        assert(span_views(sorted@) =~= sv.insert(at as int, pv));
                        assert(prefix.push(pv).drop_last() =~= prefix);
                        assert(before + drawn_records(epoch@, k as int, count as int, r + 1, display) =~= prefix.push(pv));
                    },
                    None => {
                        assert(before + drawn_records(epoch@, k as int, count as int, r + 1, display) =~= prefix);
                    },
                }
                r = r + 1;
            }
            assert(drawn_epochs(views, k + 1, display) == before + drawn_records(
                epoch@,
                k as int,
                count as int,
                epoch.records@.len() as int,
                display,
            ));
            k = k + 1;
        }
        sorted
    }
}

} // verus!

verus! {

/// A position is a boundary when a drawn program starts or ends there, strictly inside
/// the axis.
pub open spec fn is_boundary(programs: Seq<ProgramSpanView>, left: MediaMs, right: MediaMs, x: i64) -> bool {
    left.0 < x < right.0 && exists|i: int|
        #![trigger programs[i]]
        0 <= i < programs.len() && (programs[i].start.0 == x || programs[i].end.0 == x)
}

/// Strictly increasing positions.
pub open spec fn increasing(points: Seq<MediaMs>) -> bool {
    forall|i: int, j: int| 0 <= i < j < points.len() ==> points[i].0 < points[j].0
}

/// Whether `y` is one of `points`.
pub open spec fn has_point(points: Seq<MediaMs>, y: i64) -> bool {
    exists|k: int| 0 <= k < points.len() && #[trigger] points[k].0 == y
}

/// The candidates `x` first seen among the first `n` programs' starts and ends.
pub open spec fn seen(programs: Seq<ProgramSpanView>, n: int, x: i64) -> bool {
    exists|i: int| #![trigger programs[i]] 0 <= i < n && (programs[i].start.0 == x || programs[i].end.0 == x)
}

fn point_index(points: &Vec<MediaMs>, x: i64) -> (i: usize)
    ensures
        i <= points@.len(),
        forall|k: int| 0 <= k < i ==> (#[trigger] points@[k]).0 < x,
        i < points@.len() ==> points@[i as int].0 >= x,
{
    let mut i: usize = 0;
    while i < points.len()
        invariant
            i <= points@.len(),
            forall|k: int| 0 <= k < i ==> (#[trigger] points@[k]).0 < x,
        decreases points@.len() - i,
    {
        if points[i].0 >= x {
            return i;
        }
        i = i + 1;
    }
    i
}

fn insert_point(points: &mut Vec<MediaMs>, x: i64)
    requires
        increasing(old(points)@),
    ensures
        increasing(final(points)@),
        forall|y: i64| #[trigger] has_point(final(points)@, y) <==> (has_point(old(points)@, y) || y == x),
{
    let i = point_index(points, x);
    let ghost before = points@;
    if i < points.len() && points[i].0 == x {
        assert(has_point(before, x));
        return;
    }
    points.insert(i, MediaMs(x));
    proof {
        assert(points@ =~= before.insert(i as int, MediaMs(x)));
        assert(i < before.len() ==> before[i as int].0 > x);
        assert forall|a: int, b: int| 0 <= a < b < points@.len() implies points@[a].0 < points@[b].0 by {
            if b < i {
                assert(points@[a] == before[a] && points@[b] == before[b]);
            } else if b == i {
                assert(points@[a] == before[a]);
            } else if a < i {
                assert(points@[a] == before[a]);
                assert(points@[b] == before[b - 1]);
                assert(before[i as int].0 <= before[b - 1].0 || b - 1 == i);
            } else if a == i {
                assert(points@[b] == before[b - 1]);
                assert(before[i as int].0 <= before[b - 1].0 || b - 1 == i);
            } else {
                assert(points@[a] == before[a - 1]);
                assert(points@[b] == before[b - 1]);
            }
        }
        assert forall|y: i64| (has_point(before, y) || y == x) implies #[trigger] has_point(points@, y) by {
            if y == x {
                assert(points@[i as int].0 == y);
            } else {
                let k = choose|k: int| 0 <= k < before.len() && #[trigger] before[k].0 == y;
                if k < i {
                    assert(points@[k].0 == y);
                } else {
                    assert(points@[k + 1].0 == y);
                }
            }
        }
        assert forall|y: i64| #[trigger] has_point(points@, y) implies (has_point(before, y) || y == x) by {
            let k = choose|k: int| 0 <= k < points@.len() && #[trigger] points@[k].0 == y;
            if k < i {
                assert(before[k].0 == y);
            } else if k > i {
                assert(before[k - 1].0 == y);
            }
        }
    }
}

proof fn lemma_seen_step(views: Seq<ProgramSpanView>, n: int, x: i64)
    requires
        0 <= n < views.len(),
    ensures
        seen(views, n + 1, x) == (seen(views, n, x) || views[n].start.0 == x || views[n].end.0 == x),
{
    if seen(views, n + 1, x) {
        let i = choose|i: int| #![trigger views[i]] 0 <= i < n + 1 && (views[i].start.0 == x || views[i].end.0 == x);
        if i < n {
            assert(0 <= i < n && (views[i].start.0 == x || views[i].end.0 == x));
            assert(seen(views, n, x));
        }
    }
    if seen(views, n, x) {
        let i = choose|i: int| #![trigger views[i]] 0 <= i < n && (views[i].start.0 == x || views[i].end.0 == x);
        assert(0 <= i < n + 1);
    }
    if views[n].start.0 == x || views[n].end.0 == x {
        assert(0 <= n < n + 1 && (views[n].start.0 == x || views[n].end.0 == x));
    }
}

/// The boundaries of the drawn programs: every start or end strictly inside the axis,
/// in increasing order, each once.
pub fn boundaries(programs: &Vec<ProgramSpan>, left: MediaMs, right: MediaMs) -> (points: Vec<MediaMs>)
    ensures
        increasing(points@),
        forall|x: i64| #[trigger] has_point(points@, x) <==> is_boundary(span_views(programs@), left, right, x),
{
    let ghost views = span_views(programs@);
    let mut points: Vec<MediaMs> = Vec::new();
    let mut n: usize = 0;
    while n < programs.len()
        invariant
            n <= programs@.len(),
            views == span_views(programs@),
            increasing(points@),
            forall|x: i64| #[trigger] has_point(points@, x) <==> (left.0 < x < right.0 && seen(views, n as int, x)),
        decreases programs@.len() - n,
    {
        let p = &programs[n];
        assert(views[n as int] == p@);
        let ghost before = points@;
        if left.0 < p.start.0 && p.start.0 < right.0 {
            insert_point(&mut points, p.start.0);
        }
        let ghost middle = points@;
        if left.0 < p.end.0 && p.end.0 < right.0 {
            insert_point(&mut points, p.end.0);
        }
        proof {
            assert forall|x: i64| #[trigger] has_point(points@, x) <==> (left.0 < x < right.0 && seen(views, n + 1, x)) by {
                lemma_seen_step(views, n as int, x);
                assert(has_point(before, x) <==> (left.0 < x < right.0 && seen(views, n as int, x)));
            }
        }
        n = n + 1;
    }
    proof {
        assert forall|x: i64| #[trigger] has_point(points@, x) <==> is_boundary(views, left, right, x) by {
            assert(seen(views, n as int, x) == (exists|i: int|
                #![trigger views[i]]
                0 <= i < views.len() && (views[i].start.0 == x || views[i].end.0 == x)));
        }
    }
    points
}

/// Each clock with the span it labels: its epoch, reaching to the axis at the oldest
/// and the newest epoch.
pub open spec fn clock_span(epochs: Seq<EpochView>, k: int, left: MediaMs, right: MediaMs) -> Span {
    let e = epochs[k];
    Span {
        start: if k == 0 && left.0 < e.span.start.0 {
            left
        } else {
            e.span.start
        },
        end: if k + 1 == epochs.len() && right.0 > e.span.end.0 {
            right
        } else {
            e.span.end
        },
    }
}

pub open spec fn clock_spans_spec(epochs: Seq<EpochView>, n: int, left: MediaMs, right: MediaMs) -> Seq<(Span, Clock)>
    decreases n,
{
    if n <= 0 {
        Seq::empty()
    } else {
        let rest = clock_spans_spec(epochs, n - 1, left, right);
        match epochs[n - 1].clock {
            Some(c) => rest.push((clock_span(epochs, n - 1, left, right), c)),
            None => rest,
        }
    }
}

proof fn lemma_first_clock_span(epochs: Seq<EpochView>, n: int, left: MediaMs, right: MediaMs)
    requires
        1 <= n <= epochs.len(),
        epochs[0].clock is Some,
    ensures
        clock_spans_spec(epochs, n, left, right).len() > 0,
        clock_spans_spec(epochs, n, left, right)[0] == (clock_span(epochs, 0, left, right), epochs[0].clock->0),
    decreases n,
{
    if n > 1 {
        lemma_first_clock_span(epochs, n - 1, left, right);
    } else {
        assert(clock_spans_spec(epochs, 0, left, right) =~= Seq::<(Span, Clock)>::empty());
    }
}

/// The broadcast clocks cover the whole axis from the newest epoch on: the newest epoch's
/// clock labels from its start (or earlier) to the later of its end and the axis's right
/// end, so every position from the newest epoch's start to `right` has a broadcast time;
/// and the oldest epoch's clock labels from the earlier of its start and the axis's left
/// end.
pub proof fn clocks_reach_the_axis_ends(epochs: Seq<EpochView>, left: MediaMs, right: MediaMs)
    ensures
        (epochs.len() > 0 && epochs.last().clock is Some) ==> ({
            let spans = clock_spans_spec(epochs, epochs.len() as int, left, right);
            let e = epochs.last();
            let span = spans.last().0;
            &&& spans.len() > 0
            &&& spans.last().1 == e.clock->0
            &&& span.end.0 >= right.0 && span.end.0 >= e.span.end.0
            &&& (span.end == right || span.end == e.span.end)
            &&& span.start.0 <= e.span.start.0
            &&& forall|p: MediaMs| e.span.start.0 <= p.0 < right.0 ==> #[trigger] span.holds(p)
        }),
        (epochs.len() > 0 && epochs[0].clock is Some) ==> ({
            let spans = clock_spans_spec(epochs, epochs.len() as int, left, right);
            let start = spans[0].0.start;
            &&& spans.len() > 0
            &&& spans[0].1 == epochs[0].clock->0
            &&& start.0 <= left.0 && start.0 <= epochs[0].span.start.0
            &&& (start == left || start == epochs[0].span.start)
        }),
{
    if epochs.len() > 0 && epochs[0].clock is Some {
        lemma_first_clock_span(epochs, epochs.len() as int, left, right);
    }
}

impl History {
    /// The clocks of the epochs with the spans they label on an axis `left..right`.
    pub fn clock_spans(&self, left: MediaMs, right: MediaMs) -> (clocks: Vec<(Span, Clock)>)
        ensures
            clocks@ == clock_spans_spec(self@.epochs, self@.epochs.len() as int, left, right),
    {
        let epochs = self.epochs();
        let ghost views = epoch_views(epochs@);
        let count = epochs.len();
        let mut clocks: Vec<(Span, Clock)> = Vec::new();
        let mut k: usize = 0;
        while k < count
            invariant
                k <= count,
                count == views.len(),
                views == epoch_views(epochs@),
                views == self@.epochs,
                clocks@ == clock_spans_spec(views, k as int, left, right),
            decreases count - k,
        {
            let e = &epochs[k];
            assert(views[k as int] == e@);
            match e.clock {
                Some(c) => {
                    let span = Span {
                        start: if k == 0 && left.0 < e.span.start.0 {
                            left
                        } else {
                            e.span.start
                        },
                        end: if k + 1 == count && right.0 > e.span.end.0 {
                            right
                        } else {
                            e.span.end
                        },
                    };
                    clocks.push((span, c));
                },
                None => {},
            }
            k = k + 1;
        }
        clocks
    }
}

/// A snapshot's revision: the previous one, advanced when the content changed.
pub fn next_revision(previous: Option<u64>, unchanged: bool) -> (revision: u64)
    requires
        previous matches Some(r) ==> r < u64::MAX,
    ensures
        revision == match previous {
            Some(r) => if unchanged {
                r as int
            } else {
                r + 1
            },
            None => 1,
        },
{
    match previous {
        Some(r) => if unchanged {
            r
        } else {
            r + 1
        },
        None => 1,
    }
}

} // verus!

verus! {

/// Starts never decrease.
pub open spec fn by_start(spans: Seq<ProgramSpanView>) -> bool {
    forall|i: int, j: int| 0 <= i < j < spans.len() ==> spans[i].start.0 <= spans[j].start.0
}

proof fn lemma_first_later_split(sorted: Seq<ProgramSpanView>, start: MediaMs, from: int)
    requires
        0 <= from <= sorted.len(),
        by_start(sorted),
    ensures
        from <= first_later(sorted, start, from) <= sorted.len(),
        forall|k: int| from <= k < first_later(sorted, start, from) ==> sorted[k].start.0 <= start.0,
        forall|k: int| first_later(sorted, start, from) <= k < sorted.len() ==> sorted[k].start.0 > start.0,
    decreases sorted.len() - from,
{
    if from < sorted.len() && sorted[from].start.0 <= start.0 {
        lemma_first_later_split(sorted, start, from + 1);
    }
}

/// The drawn programs come in order of their start.
pub proof fn programs_sorted_by_start(spans: Seq<ProgramSpanView>)
    ensures
        by_start(sort_by_start(spans)),
        sort_by_start(spans).len() == spans.len(),
    decreases spans.len(),
{
    if spans.len() > 0 {
        programs_sorted_by_start(spans.drop_last());
        let sorted = sort_by_start(spans.drop_last());
        let p = spans.last();
        lemma_first_later_split(sorted, p.start, 0);
        let at = first_later(sorted, p.start, 0);
        let result = sorted.insert(at, p);
        assert forall|i: int, j: int| 0 <= i < j < result.len() implies result[i].start.0
            <= result[j].start.0 by {
            if j < at {
            } else if j == at {
                assert(result[i] == sorted[i]);
            } else if i < at {
                assert(result[j] == sorted[j - 1]);
            } else if i == at {
                assert(result[j] == sorted[j - 1]);
            } else {
                assert(result[i] == sorted[i - 1]);
                assert(result[j] == sorted[j - 1]);
            }
        }
    }
}

proof fn lemma_first_after_bound(spans: Seq<Span>, point: MediaMs, from: int)
    requires
        0 <= from,
    ensures
        first_after(spans, point, from) <= spans.len(),
        first_after(spans, point, from) < spans.len() ==> first_after(spans, point, from) >= from
            && spans[first_after(spans, point, from)].start.0 > point.0,
    decreases spans.len() - from,
{
    if from < spans.len() && spans[from].start.0 <= point.0 {
        lemma_first_after_bound(spans, point, from + 1);
    }
}

/// A live seek never lands outside retained stream: a request the spans hold stands; a
/// corrected one lands inside a span; with no span at all the seek is refused.
pub proof fn live_seek_lands_on_retained(spans: Seq<Span>, requested: MediaMs)
    requires
        crate::live::ms_spans(spans),
    ensures
        match crate::live::live_seek_spec(spans, requested) {
            Ok(crate::live::LiveSeek::Unchanged) => exists|i: int|
                #![trigger spans[i]]
                0 <= i < spans.len() && spans[i].start.0 <= requested.0 < spans[i].end.0,
            Ok(crate::live::LiveSeek::Adjusted(t)) => exists|i: int|
                #![trigger spans[i]]
                0 <= i < spans.len() && spans[i].start.0 <= t < spans[i].end.0,
            Err(_) => spans.len() == 0,
        },
{
    lemma_first_after_bound(spans, requested, 0);
    if exists|i: int| 0 <= i < spans.len() && spans[i].holds(requested) {
        let i = choose|i: int| 0 <= i < spans.len() && spans[i].holds(requested);
        assert(spans[i].start.0 <= requested.0 < spans[i].end.0);
    } else {
        match crate::live::fallback(spans, requested) {
            Some(i) => {
                let span = spans[i];
                assert(0 <= span.start.0 < span.end.0 <= 18446744073709);
                if requested.0 < span.start.0 {
                    let s = span.start.0 * 1000000;
                    let e = span.end.0 * 1000000;
                    let r = crate::timeline::recovery_spec(s, e);
                    assert(s <= r < e) by {
                        assert(e - s >= 1000000) by (nonlinear_arith)
                            requires
                                s == span.start.0 * 1000000,
                                e == span.end.0 * 1000000,
                                span.start.0 < span.end.0,
                        ;
                    }
                    assert(span.start.0 <= r / 1000000 < span.end.0) by (nonlinear_arith)
                        requires
                            s <= r < e,
                            s == span.start.0 * 1000000,
                            e == span.end.0 * 1000000,
                    ;
                    assert(spans[i].holds(MediaMs((r / 1000000) as i64)));
                } else {
                    assert(spans[i].holds(MediaMs((span.end.0 - 1) as i64)));
                }
            },
            None => {},
        }
    }
}

/// Retained spans lie inside the range they were clipped to, and none is empty.
pub proof fn retained_spans_inside(coverage: Seq<Span>, range: Span)
    ensures
        forall|i: int|
            0 <= i < crate::live::clipped(coverage, range).len() ==> range.start.0
                <= #[trigger] crate::live::clipped(coverage, range)[i].start.0
                < crate::live::clipped(coverage, range)[i].end.0 <= range.end.0,
{
    crate::live::lemma_clipped_inside(coverage, range);
}

/// A drawn program is not empty and overlaps the display it was drawn for.
pub open spec fn drawn_inside(p: ProgramSpanView, display: Span) -> bool {
    p.start.0 < p.end.0 && (Span { start: p.start, end: p.end }).meets(display)
}

proof fn lemma_drawn_records_inside(epoch: EpochView, k: int, count: int, n: int, display: Span)
    ensures
        forall|i: int|
            0 <= i < drawn_records(epoch, k, count, n, display).len() ==> drawn_inside(
                #[trigger] drawn_records(epoch, k, count, n, display)[i],
                display,
            ),
    decreases n,
{
    if n > 0 {
        lemma_drawn_records_inside(epoch, k, count, n - 1, display);
        let rest = drawn_records(epoch, k, count, n - 1, display);
        match drawn(epoch, k, count, epoch.records[n - 1], display) {
            Some(p) => {
                assert(drawn_inside(p, display));
                assert forall|i: int| 0 <= i < rest.push(p).len() implies drawn_inside(#[trigger] rest.push(p)[i], display) by {
                    if i < rest.len() {
                        assert(rest.push(p)[i] == rest[i]);
                    }
                }
            },
            None => {},
        }
    }
}

pub proof fn lemma_drawn_epochs_inside(epochs: Seq<EpochView>, n: int, display: Span)
    ensures
        forall|i: int|
            0 <= i < drawn_epochs(epochs, n, display).len() ==> drawn_inside(
                #[trigger] drawn_epochs(epochs, n, display)[i],
                display,
            ),
    decreases n,
{
    if n > 0 {
        lemma_drawn_epochs_inside(epochs, n - 1, display);
        let before = drawn_epochs(epochs, n - 1, display);
        let added = drawn_records(epochs[n - 1], n - 1, epochs.len() as int, epochs[n - 1].records.len() as int, display);
        lemma_drawn_records_inside(epochs[n - 1], n - 1, epochs.len() as int, epochs[n - 1].records.len() as int, display);
        assert forall|i: int| 0 <= i < (before + added).len() implies drawn_inside(#[trigger] (before + added)[i], display) by {
            if i < before.len() {
                assert((before + added)[i] == before[i]);
            } else {
                assert((before + added)[i] == added[i - before.len()]);
            }
        }
    }
}

/// Sorting keeps what holds of every program.
pub proof fn lemma_sort_keeps_inside(spans: Seq<ProgramSpanView>, display: Span)
    requires
        forall|i: int| 0 <= i < spans.len() ==> drawn_inside(#[trigger] spans[i], display),
    ensures
        forall|i: int| 0 <= i < sort_by_start(spans).len() ==> drawn_inside(#[trigger] sort_by_start(spans)[i], display),
    decreases spans.len(),
{
    if spans.len() > 0 {
        let rest = spans.drop_last();
        assert forall|i: int| 0 <= i < rest.len() implies drawn_inside(#[trigger] rest[i], display) by {
            assert(rest[i] == spans[i]);
        }
        lemma_sort_keeps_inside(rest, display);
        let sorted = sort_by_start(rest);
        let p = spans.last();
        assert(drawn_inside(p, display));
        lemma_first_later_bound(sorted, p.start, 0);
        let at = first_later(sorted, p.start, 0);
        sorted.insert_ensures(at, p);
        let result = sorted.insert(at, p);
        assert forall|i: int| 0 <= i < result.len() implies drawn_inside(#[trigger] result[i], display) by {
            if i < at {
                assert(result[i] == sorted[i]);
            } else if i > at {
                assert(result[i] == sorted[i - 1]);
            }
        }
    }
}

} // verus!
