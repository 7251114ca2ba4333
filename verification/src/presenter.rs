//! One presentation session of the live timeline: each projection combines the receive
//! window, the program history, the playhead and what the program catalog says at the
//! positions it shows, and counts a revision whenever what it shows changed.
use vstd::prelude::*;
use crate::live::{
    Clock, History, HistoryView, MediaMs, Span, UtcMs, clipped, last_holding, sat_add,
    NS_PER_MS, MAX_MEDIA_MS, MIN_AXIS_MS,
};
use crate::live::RecordId;
use crate::projection::{
    availability, availability_spec, axis_bounds, axis_bounds_spec, axis_spec, boundaries,
    clock_spans_spec, drawn_epochs, frozen, frozen_spec, has_point, increasing, is_boundary,
    next_revision, playback_state, sort_by_start, span_views, by_start, programs_sorted_by_start, drawn_inside,
    lemma_drawn_epochs_inside, lemma_sort_keeps_inside, Availability, Axis, PlaybackState,
    ProgramSpan, ProgramSpanView,
};
use crate::text::is_word;
use crate::timeline::Phase;

verus! {

/// The program the catalog projects at a position: which event, and its span in stream
/// time when its schedule and the clock are known.
#[derive(Clone, Copy, Debug, PartialEq, Eq, Structural)]
pub struct Selection {
    pub id: RecordId,
    pub span: Option<Span>,
}

/// What the program catalog says at one position: its program, whether its status is
/// still pending, and the broadcast time there.
#[derive(Clone, Copy, Debug, PartialEq, Eq, Structural)]
pub struct Lookup {
    pub program: Option<Selection>,
    pub pending: bool,
    pub utc: Option<UtcMs>,
}

/// The catalog at the three positions a projection shows: the last received
/// millisecond, the oldest shown position and the viewed position (`viewed_position`).
#[derive(Clone, Copy, Debug, PartialEq, Eq, Structural)]
pub struct Lookups {
    pub live: Lookup,
    pub oldest: Lookup,
    pub viewing: Lookup,
}

/// The playhead: the transport phase, the output position and the pending seek target.
#[derive(Clone, Copy, Debug, PartialEq, Eq, Structural)]
pub struct Reading {
    pub phase: Phase,
    pub position_ns: Option<u64>,
    pub target_ns: Option<u64>,
}

/// The viewed frame, with its program and how it relates to the retained stream.
#[derive(Clone, Copy, Debug, PartialEq, Eq, Structural)]
pub struct Viewing {
    pub position: MediaMs,
    /// The exact position, for catalog lookups.
    pub position_ns: u64,
    pub utc: Option<UtcMs>,
    pub program: Option<Selection>,
    pub pending: bool,
    pub availability: Availability,
    /// Outside the drawn axis.
    pub offscreen: bool,
}

/// The live edge and its program.
#[derive(Clone, Copy, Debug, PartialEq, Eq, Structural)]
pub struct Live {
    pub position: MediaMs,
    pub utc: Option<UtcMs>,
    pub program: Option<Selection>,
}

/// What the timeline shows.
pub struct Snapshot {
    pub revision: u64,
    pub axis: Axis,
    pub available: Vec<Span>,
    pub state: PlaybackState,
    pub viewing: Option<Viewing>,
    pub live: Live,
    pub seek_target: Option<MediaMs>,
    pub programs: Vec<ProgramSpan>,
    pub boundaries: Vec<MediaMs>,
    pub clocks: Vec<(Span, Clock)>,
}

pub struct SnapshotView {
    pub revision: u64,
    pub axis: Axis,
    pub available: Seq<Span>,
    pub state: PlaybackState,
    pub viewing: Option<Viewing>,
    pub live: Live,
    pub seek_target: Option<MediaMs>,
    pub programs: Seq<ProgramSpanView>,
    pub boundaries: Seq<MediaMs>,
    pub clocks: Seq<(Span, Clock)>,
}

impl View for Snapshot {
    type V = SnapshotView;

    open spec fn view(&self) -> SnapshotView {
        SnapshotView {
            revision: self.revision,
            axis: self.axis,
            available: self.available@,
            state: self.state,
            viewing: self.viewing,
            live: self.live,
            seek_target: self.seek_target,
            programs: span_views(self.programs@),
            boundaries: self.boundaries@,
            clocks: self.clocks@,
        }
    }
}

/// A position in whole milliseconds.
pub open spec fn ms_of(ns: u64) -> MediaMs {
    MediaMs((ns / NS_PER_MS) as i64)
}

/// The clock of the epoch that holds `position`.
pub open spec fn clock_at(h: HistoryView, position: MediaMs) -> Option<Clock> {
    match last_holding(h.epochs, position) {
        Some(i) => h.epochs[i].clock,
        None => None,
    }
}

/// The span of an optional selection.
pub open spec fn selection_span(selection: Option<Selection>) -> Option<Span> {
    match selection {
        Some(s) => s.span,
        None => None,
    }
}

/// The live edge: the receive end, the broadcast time one millisecond after the last
/// received one, and the program there.
pub open spec fn live_spec(end_ns: u64, at: Lookup) -> Live {
    Live {
        position: ms_of(end_ns),
        utc: match at.utc {
            Some(u) => Some(UtcMs(sat_add(u.0 as int, 1) as i64)),
            None => None,
        },
        program: at.program,
    }
}

/// The oldest position shown: the receive start with retention, else the live position.
pub open spec fn oldest_ns(start_ns: u64, end_ns: u64, enabled: bool) -> u64 {
    if enabled {
        start_ns
    } else if end_ns >= NS_PER_MS {
        (end_ns - NS_PER_MS) as u64
    } else {
        0
    }
}

/// The viewed frame before it is refreshed: the previous one while frozen, else the
/// frame at the output position.
pub open spec fn base_view(previous: Option<Viewing>, keep: bool, position_ns: Option<u64>, at: Lookup) -> Option<Viewing> {
    if keep && previous is Some {
        previous
    } else {
        match position_ns {
            Some(p) => Some(
                Viewing {
                    position: ms_of(p),
                    position_ns: p,
                    utc: at.utc,
                    program: at.program,
                    pending: at.pending,
                    availability: Availability::Unavailable,
                    offscreen: false,
                },
            ),
            None => None,
        }
    }
}

/// A viewed frame inside the receive window, outside a seek, takes the catalog's time
/// and, unless the catalog is pending and a program is shown, its program.
pub open spec fn refreshed(v: Viewing, state: PlaybackState, start_ns: u64, end_ns: u64, at: Lookup) -> Viewing {
    if state != PlaybackState::Seeking && start_ns <= v.position_ns < end_ns {
        let w = if !at.pending || v.program is None {
            Viewing { program: at.program, pending: at.pending, ..v }
        } else {
            v
        };
        Viewing { utc: at.utc, ..w }
    } else {
        v
    }
}

/// The viewed frame: refreshed, with its availability and whether it is off the axis.
pub open spec fn viewing_spec(
    base: Option<Viewing>,
    state: PlaybackState,
    start_ns: u64,
    end_ns: u64,
    at: Lookup,
    enabled: bool,
    available: Seq<Span>,
    left: MediaMs,
    right: MediaMs,
) -> Option<Viewing> {
    match base {
        None => None,
        Some(v) => {
            let w = refreshed(v, state, start_ns, end_ns, at);
            Some(
                Viewing {
                    availability: availability_spec(enabled, available, w.position, ms_of(start_ns)),
                    offscreen: w.position.0 < left.0 || w.position.0 > right.0,
                    ..w
                },
            )
        },
    }
}

/// The playback state a transport phase shows.
pub open spec fn state_of(phase: Phase) -> PlaybackState {
    match phase {
        Phase::Playing => PlaybackState::Playing,
        Phase::Paused => PlaybackState::Paused,
        Phase::Seeking(_) => PlaybackState::Seeking,
        Phase::Ended => PlaybackState::Ended,
    }
}

/// Whether a projection keeps the previously viewed frame.
pub open spec fn keeps(previous: Option<SnapshotView>, phase: Phase, position_ns: Option<u64>) -> bool {
    frozen_spec(
        position_ns is Some,
        state_of(phase),
        match previous {
            Some(p) => Some(p.state),
            None => None,
        },
    )
}

/// The previously viewed frame.
pub open spec fn previous_viewing(previous: Option<SnapshotView>) -> Option<Viewing> {
    match previous {
        Some(p) => p.viewing,
        None => None,
    }
}

/// The position of the frame a projection views.
pub open spec fn viewed_ns(previous: Option<SnapshotView>, phase: Phase, position_ns: Option<u64>) -> Option<u64> {
    if keeps(previous, phase, position_ns) && previous_viewing(previous) is Some {
        Some(previous_viewing(previous)->0.position_ns)
    } else {
        position_ns
    }
}

/// The axis bounds of a projection.
pub open spec fn bounds_of(
    previous: Option<SnapshotView>,
    start_ns: u64,
    end_ns: u64,
    enabled: bool,
    lookups: Lookups,
) -> (MediaMs, MediaMs) {
    axis_bounds_spec(
        ms_of(oldest_ns(start_ns, end_ns, enabled)),
        selection_span(lookups.oldest.program),
        selection_span(lookups.live.program),
        match previous {
            Some(p) => Some(p.axis.end),
            None => None,
        },
        ms_of(end_ns),
    )
}

/// The revision of a snapshot: one for the first, else the previous revision, advanced
/// when anything else differs from the previous snapshot.
pub open spec fn revision_of(previous: Option<SnapshotView>, shown: SnapshotView) -> u64 {
    match previous {
        Some(p) => if (SnapshotView { revision: p.revision, ..shown }) == p {
            p.revision
        } else {
            (p.revision + 1) as u64
        },
        None => 1,
    }
}

/// What the last snapshot shows at a position: the last program that holds it (an index
/// into its programs), the broadcast time by the first clock span that holds it, and
/// whether the position is retained.
#[derive(Clone, Copy, Debug, PartialEq, Eq, Structural)]
pub struct Preview {
    pub position: MediaMs,
    pub program: Option<usize>,
    pub utc: Option<UtcMs>,
    pub available: bool,
}

/// The index of the last program from `0..n` that holds `position`.
pub open spec fn last_program(programs: Seq<ProgramSpanView>, n: int, position: MediaMs) -> Option<int>
    decreases n,
{
    if n <= 0 {
        None
    } else if programs[n - 1].start.0 <= position.0 < programs[n - 1].end.0 {
        Some(n - 1)
    } else {
        last_program(programs, n - 1, position)
    }
}

/// The broadcast time at `position` by the first clock span of `from..` that holds it.
pub open spec fn clock_time(clocks: Seq<(Span, Clock)>, from: int, position: MediaMs) -> Option<UtcMs>
    decreases clocks.len() - from,
{
    if from < 0 || from >= clocks.len() {
        None
    } else if clocks[from].0.holds(position) {
        let c = clocks[from].1;
        Some(UtcMs(sat_add(c.utc.0 as int, position.0 - c.media.0) as i64))
    } else {
        clock_time(clocks, from + 1, position)
    }
}

/// A presentation session and the snapshot it last published.
pub struct Presenter {
    session: String,
    previous: Option<Snapshot>,
}

/// What a projection shows, from the history `h` and the previous snapshot.
pub open spec fn projected(
    h: HistoryView,
    previous: Option<SnapshotView>,
    start_ns: u64,
    end_ns: u64,
    enabled: bool,
    reading: Reading,
    lookups: Lookups,
    snapshot: Snapshot,
) -> bool {
    let (left, right) = bounds_of(previous, start_ns, end_ns, enabled, lookups);
    let state = state_of(reading.phase);
    let live_ns = if end_ns >= NS_PER_MS {
        (end_ns - NS_PER_MS) as u64
    } else {
        0
    };
    &&& snapshot.live == live_spec(end_ns, lookups.live)
    &&& snapshot.available@ == if enabled {
        clipped(h.coverage, Span { start: ms_of(start_ns), end: ms_of(end_ns) })
    } else {
        Seq::<Span>::empty()
    }
    &&& snapshot.axis == axis_spec(
        clock_at(h, ms_of(oldest_ns(start_ns, end_ns, enabled))),
        clock_at(h, ms_of(live_ns)),
        left,
        right,
    )
    &&& snapshot.state == state
    &&& snapshot.viewing == viewing_spec(
        base_view(
            previous_viewing(previous),
            keeps(previous, reading.phase, reading.position_ns),
            reading.position_ns,
            lookups.viewing,
        ),
        state,
        start_ns,
        end_ns,
        lookups.viewing,
        enabled,
        snapshot.available@,
        left,
        right,
    )
    &&& span_views(snapshot.programs@) == sort_by_start(
        drawn_epochs(h.epochs, h.epochs.len() as int, Span { start: left, end: right }),
    )
    &&& increasing(snapshot.boundaries@)
    &&& forall|x: i64| #[trigger] has_point(snapshot.boundaries@, x) <==> is_boundary(
        span_views(snapshot.programs@),
        left,
        right,
        x,
    )
    &&& snapshot.clocks@ == clock_spans_spec(h.epochs, h.epochs.len() as int, left, right)
    &&& snapshot.seek_target == match reading.target_ns {
        Some(t) => Some(ms_of(t)),
        None => None,
    }
    &&& snapshot.revision == revision_of(previous, snapshot@)
}

impl Presenter {
    pub closed spec fn session_spec(self) -> Seq<char> {
        self.session@
    }

    pub closed spec fn previous_spec(self) -> Option<SnapshotView> {
        match self.previous {
            Some(s) => Some(s@),
            None => None,
        }
    }

    /// A new session, named `session`, that has published nothing.
    pub fn new(session: String) -> (presenter: Presenter)
        ensures
            presenter.session_spec() == session@,
            presenter.previous_spec() is None,
    {
        Presenter { session, previous: None }
    }

    /// Whether `session` names this presentation.
    pub fn owns(&self, session: &str) -> (owns: bool)
        ensures
            owns == (self.session_spec() == session@),
    {
        is_word(self.session.as_str(), session)
    }

    /// The snapshot last published.
    pub fn previous(&self) -> (previous: Option<&Snapshot>)
        ensures
            match previous {
                Some(s) => self.previous_spec() == Some(s@),
                None => self.previous_spec() is None,
            },
    {
        match &self.previous {
            Some(s) => Some(s),
            None => None,
        }
    }

    /// What the published snapshot shows at `position`, for this session only.
    pub fn preview(&self, session: &str, position: MediaMs) -> (preview: Option<Preview>)
        ensures
            match preview {
                None => self.session_spec() != session@ || self.previous_spec() is None,
                Some(p) => {
                    &&& self.session_spec() == session@
                    &&& self.previous_spec() matches Some(s)
                    &&& p == (Preview {
                        position,
                        program: match last_program(s.programs, s.programs.len() as int, position) {
                            Some(i) => Some(i as usize),
                            None => None,
                        },
                        utc: clock_time(s.clocks, 0, position),
                        available: exists|i: int|
                            0 <= i < s.available.len() && #[trigger] s.available[i].holds(position),
                    })
                },
            },
    {
        if !self.owns(session) {
            return None;
        }
        let snapshot = match &self.previous {
            Some(s) => s,
            None => {
                return None;
            },
        };
        assert(span_views(snapshot.programs@).len() == snapshot.programs@.len());
        let program = last_program_index(&snapshot.programs, position);
        let utc = clock_time_at(&snapshot.clocks, position);
        let available = holds_any(&snapshot.available, position);
        proof {
            let v = snapshot@;
            assert(self.previous_spec() == Some(v));
            assert(v.programs == span_views(snapshot.programs@));
            assert(v.clocks == snapshot.clocks@);
            assert(v.available == snapshot.available@);
        }
        Some(Preview { position, program, utc, available })
    }

    /// The position whose catalog lookup a projection needs for its viewed frame: the
    /// previously viewed frame while it is kept, else the output position.
    pub fn viewed_position(&self, phase: Phase, position_ns: Option<u64>) -> (position: Option<u64>)
        ensures
            position == viewed_ns(self.previous_spec(), phase, position_ns),
    {
        let state = playback_state(phase);
        let (previous_view, previous_state) = match &self.previous {
            Some(p) => (p.viewing, Some(p.state)),
            None => (None, None),
        };
        let keep = frozen(position_ns.is_some(), state, previous_state);
        match previous_view {
            Some(v) => if keep {
                Some(v.position_ns)
            } else {
                position_ns
            },
            None => position_ns,
        }
    }

    /// Project the timeline: the receive window `start_ns..end_ns` (sought within when
    /// `enabled`), the program history, the playhead and the catalog at the shown
    /// positions. The viewed frame is recorded as presented, and the snapshot is kept to
    /// count revisions and to keep a frame while the view is frozen.
    #[verifier::rlimit(90)]
    #[verifier::spinoff_prover]
    pub fn project(
        &mut self,
        history: &mut History,
        start_ns: u64,
        end_ns: u64,
        enabled: bool,
        reading: Reading,
        lookups: Lookups,
    ) -> (snapshot: Snapshot)
        requires
            old(history).wf(),
            selection_span(lookups.oldest.program) matches Some(span) ==> i64::MIN + MAX_MEDIA_MS
                <= span.start.0 && span.start.0 + MIN_AXIS_MS <= i64::MAX,
            old(self).previous_spec() matches Some(p) ==> p.revision < u64::MAX,
        ensures
            projected(old(history)@, old(self).previous_spec(), start_ns, end_ns, enabled, reading, lookups, snapshot),
            final(self).session_spec() == old(self).session_spec(),
            final(self).previous_spec() == Some(snapshot@),
            final(history).wf(),
            final(history)@ == match snapshot.viewing {
                Some(v) => HistoryView { presented_position_ns: Some(v.position_ns), ..old(history)@ },
                None => old(history)@,
            },
    {
        let start = MediaMs::from_ns(start_ns);
        let edge = MediaMs::from_ns(end_ns);
        let live_position_ns = end_ns.saturating_sub(NS_PER_MS);
        let live_position = MediaMs::from_ns(live_position_ns);
        let live = Live {
            position: edge,
            utc: match lookups.live.utc {
                Some(u) => Some(UtcMs(if u.0 == i64::MAX { u.0 } else { u.0 + 1 })),
                None => None,
            },
            program: lookups.live.program,
        };
        let available = history.retained(
            if enabled {
                Some(Span { start, end: edge })
            } else {
                None
            },
        );
        let oldest_position_ns = if enabled {
            start_ns
        } else {
            live_position_ns
        };
        let oldest = MediaMs::from_ns(oldest_position_ns);
        let oldest_span = match lookups.oldest.program {
            Some(selection) => selection.span,
            None => None,
        };
        let live_span = match lookups.live.program {
            Some(selection) => selection.span,
            None => None,
        };
        let (previous_view, previous_state, previous_revision, previous_end) = match &self.previous {
            Some(p) => (p.viewing, Some(p.state), Some(p.revision), Some(p.axis.end)),
            None => (None, None, None, None),
        };
        let (left, right) = axis_bounds(oldest, oldest_span, live_span, previous_end, edge);
        let axis = history.axis(left, right, oldest, live_position);
        let state = playback_state(reading.phase);
        let keep = frozen(reading.position_ns.is_some(), state, previous_state);
        let at = lookups.viewing;
        let base = if keep && previous_view.is_some() {
            previous_view
        } else {
            match reading.position_ns {
                Some(p) => Some(
                    Viewing {
                        position: MediaMs::from_ns(p),
                        position_ns: p,
                        utc: at.utc,
                        program: at.program,
                        pending: at.pending,
                        availability: Availability::Unavailable,
                        offscreen: false,
                    },
                ),
                None => None,
            }
        };
        let viewing = match base {
            None => None,
            Some(v) => {
                let w = if state != PlaybackState::Seeking && start_ns <= v.position_ns
                    && v.position_ns < end_ns {
                    let w0 = if !at.pending || v.program.is_none() {
                        Viewing { program: at.program, pending: at.pending, ..v }
                    } else {
                        v
                    };
                    Viewing { utc: at.utc, ..w0 }
                } else {
                    v
                };
                Some(
                    Viewing {
                        availability: availability(enabled, &available, w.position, start),
                        offscreen: w.position.0 < left.0 || w.position.0 > right.0,
                        ..w
                    },
                )
            },
        };
        let display = Span { start: left, end: right };
        let programs = history.program_spans(display);
        let points = boundaries(&programs, left, right);
        let clocks = history.clock_spans(left, right);
        let mut snapshot = Snapshot {
            revision: match previous_revision {
                Some(r) => r,
                None => 0,
            },
            axis,
            available,
            state,
            viewing,
            live,
            seek_target: match reading.target_ns {
                Some(t) => Some(MediaMs::from_ns(t)),
                None => None,
            },
            programs,
            boundaries: points,
            clocks,
        };
        let unchanged = match &self.previous {
            Some(p) => same_snapshot(p, &snapshot),
            None => false,
        };
        snapshot.revision = next_revision(previous_revision, unchanged);
        if let Some(v) = snapshot.viewing {
            history.set_presented(v.position_ns);
        }
        self.previous = Some(copy_snapshot(&snapshot));
        snapshot
    }
}

fn same_spans(a: &Vec<Span>, b: &Vec<Span>) -> (same: bool)
    ensures
        same == (a@ == b@),
{
    if a.len() != b.len() {
        return false;
    }
    let mut i: usize = 0;
    while i < a.len()
        invariant
            a@.len() == b@.len(),
            i <= a@.len(),
            forall|j: int| 0 <= j < i ==> a@[j] == b@[j],
        decreases a@.len() - i,
    {
        if a[i] != b[i] {
            return false;
        }
        i = i + 1;
    }
    assert(a@ =~= b@);
    true
}

fn same_points(a: &Vec<MediaMs>, b: &Vec<MediaMs>) -> (same: bool)
    ensures
        same == (a@ == b@),
{
    if a.len() != b.len() {
        return false;
    }
    let mut i: usize = 0;
    while i < a.len()
        invariant
            a@.len() == b@.len(),
            i <= a@.len(),
            forall|j: int| 0 <= j < i ==> a@[j] == b@[j],
        decreases a@.len() - i,
    {
        if a[i] != b[i] {
            return false;
        }
        i = i + 1;
    }
    assert(a@ =~= b@);
    true
}

fn same_clocks(a: &Vec<(Span, Clock)>, b: &Vec<(Span, Clock)>) -> (same: bool)
    ensures
        same == (a@ == b@),
{
    if a.len() != b.len() {
        return false;
    }
    let mut i: usize = 0;
    while i < a.len()
        invariant
            a@.len() == b@.len(),
            i <= a@.len(),
            forall|j: int| 0 <= j < i ==> a@[j] == b@[j],
        decreases a@.len() - i,
    {
        if a[i].0 != b[i].0 || a[i].1 != b[i].1 {
            return false;
        }
        i = i + 1;
    }
    assert(a@ =~= b@);
    true
}

fn same_programs(a: &Vec<ProgramSpan>, b: &Vec<ProgramSpan>) -> (same: bool)
    ensures
        same == (span_views(a@) == span_views(b@)),
{
    if a.len() != b.len() {
        assert(span_views(a@).len() != span_views(b@).len());
        return false;
    }
    let mut i: usize = 0;
    while i < a.len()
        invariant
            a@.len() == b@.len(),
            i <= a@.len(),
            forall|j: int| 0 <= j < i ==> span_views(a@)[j] == span_views(b@)[j],
        decreases a@.len() - i,
    {
        let x = &a[i];
        let y = &b[i];
        assert(span_views(a@)[i as int] == x@ && span_views(b@)[i as int] == y@);
        if x.id != y.id || x.start != y.start || x.end != y.end || !is_word(x.title.as_str(), y.title.as_str()) {
            return false;
        }
        i = i + 1;
    }
    assert(span_views(a@) =~= span_views(b@));
    true
}

fn same_viewing(a: Option<Viewing>, b: Option<Viewing>) -> (same: bool)
    ensures
        same == (a == b),
{
    match (a, b) {
        (Some(x), Some(y)) => x == y,
        (None, None) => true,
        _ => false,
    }
}

fn same_target(a: Option<MediaMs>, b: Option<MediaMs>) -> (same: bool)
    ensures
        same == (a == b),
{
    match (a, b) {
        (Some(x), Some(y)) => x == y,
        (None, None) => true,
        _ => false,
    }
}

fn last_program_index(programs: &Vec<ProgramSpan>, position: MediaMs) -> (index: Option<usize>)
    ensures
        index == match last_program(span_views(programs@), programs@.len() as int, position) {
            Some(i) => Some(i as usize),
            None => None::<usize>,
        },
{
    let ghost views = span_views(programs@);
    let mut n = programs.len();
    while n > 0
        invariant
            n <= programs@.len(),
            views == span_views(programs@),
            last_program(views, views.len() as int, position) == last_program(views, n as int, position),
        decreases n,
    {
        let candidate = &programs[n - 1];
        assert(views[n - 1] == candidate@);
        if candidate.start.0 <= position.0 && position.0 < candidate.end.0 {
            return Some(n - 1);
        }
        n = n - 1;
    }
    None
}

fn clock_time_at(clocks: &Vec<(Span, Clock)>, position: MediaMs) -> (utc: Option<UtcMs>)
    ensures
        utc == clock_time(clocks@, 0, position),
{
    let mut k: usize = 0;
    while k < clocks.len()
        invariant
            k <= clocks@.len(),
            clock_time(clocks@, 0, position) == clock_time(clocks@, k as int, position),
        decreases clocks@.len() - k,
    {
        let (span, clock) = clocks[k];
        if span.contains(position) {
            let wide: i128 = clock.utc.0 as i128 + (position.0 as i128 - clock.media.0 as i128);
            return Some(UtcMs(if wide > i64::MAX as i128 {
                i64::MAX
            } else if wide < i64::MIN as i128 {
                i64::MIN
            } else {
                wide as i64
            }));
        }
        k = k + 1;
    }
    None
}

fn holds_any(spans: &Vec<Span>, position: MediaMs) -> (held: bool)
    ensures
        held == exists|i: int| 0 <= i < spans@.len() && #[trigger] spans@[i].holds(position),
{
    let mut i: usize = 0;
    while i < spans.len()
        invariant
            i <= spans@.len(),
            forall|j: int| 0 <= j < i ==> !(#[trigger] spans@[j]).holds(position),
        decreases spans@.len() - i,
    {
        if spans[i].contains(position) {
            return true;
        }
        i = i + 1;
    }
    false
}

fn copy_vec<T: Copy>(v: &Vec<T>) -> (copy: Vec<T>)
    ensures
        copy@ == v@,
{
    let mut copy: Vec<T> = Vec::new();
    let mut i: usize = 0;
    while i < v.len()
        invariant
            i <= v@.len(),
            copy@ == v@.subrange(0, i as int),
        decreases v@.len() - i,
    {
        copy.push(v[i]);
        i = i + 1;
        assert(copy@ =~= v@.subrange(0, i as int));
    }
    assert(v@.subrange(0, v@.len() as int) =~= v@);
    copy
}

fn copy_programs(v: &Vec<ProgramSpan>) -> (copy: Vec<ProgramSpan>)
    ensures
        span_views(copy@) == span_views(v@),
{
    let mut copy: Vec<ProgramSpan> = Vec::new();
    let mut i: usize = 0;
    while i < v.len()
        invariant
            i <= v@.len(),
            span_views(copy@) == span_views(v@).subrange(0, i as int),
        decreases v@.len() - i,
    {
        let p = &v[i];
        let title = p.title.clone();
        let q = ProgramSpan { id: p.id, title, start: p.start, end: p.end };
        assert(q@ == p@);
        let ghost before = copy@;
        copy.push(q);
        assert(copy@ == before.push(q));
        assert(span_views(copy@) =~= span_views(before).push(q@));
        i = i + 1;
        assert(span_views(v@)[i - 1] == p@);
        assert(span_views(copy@) =~= span_views(v@).subrange(0, i as int));
    }
    assert(span_views(v@).subrange(0, v@.len() as int) =~= span_views(v@));
    copy
}

fn copy_snapshot(s: &Snapshot) -> (copy: Snapshot)
    ensures
        copy@ == s@,
{
    Snapshot {
        revision: s.revision,
        axis: s.axis,
        available: copy_vec(&s.available),
        state: s.state,
        viewing: s.viewing,
        live: s.live,
        seek_target: s.seek_target,
        programs: copy_programs(&s.programs),
        boundaries: copy_vec(&s.boundaries),
        clocks: copy_vec(&s.clocks),
    }
}

/// Whether two snapshots show the same.
fn same_snapshot(a: &Snapshot, b: &Snapshot) -> (same: bool)
    ensures
        same == (a@ == b@),
{
    a.revision == b.revision && a.axis == b.axis && a.state == b.state && a.live == b.live
        && same_viewing(a.viewing, b.viewing) && same_target(a.seek_target, b.seek_target)
        && same_spans(&a.available, &b.available) && same_programs(&a.programs, &b.programs)
        && same_points(&a.boundaries, &b.boundaries) && same_clocks(&a.clocks, &b.clocks)
}

/// A snapshot is ordered: its boundaries increase strictly, each lies strictly inside the
/// axis and is the start or end of a drawn program; its programs come in order of start,
/// none is empty and each overlaps the axis; its axis spans at least `MIN_AXIS_MS` and reaches the receive edge.
pub proof fn snapshot_is_ordered(
    h: HistoryView,
    previous: Option<SnapshotView>,
    start_ns: u64,
    end_ns: u64,
    enabled: bool,
    reading: Reading,
    lookups: Lookups,
    snapshot: Snapshot,
)
    requires
        projected(h, previous, start_ns, end_ns, enabled, reading, lookups, snapshot),
        selection_span(lookups.oldest.program) matches Some(span) ==> i64::MIN + MAX_MEDIA_MS
            <= span.start.0 && span.start.0 + MIN_AXIS_MS <= i64::MAX,
    ensures
        increasing(snapshot.boundaries@),
        forall|k: int|
            0 <= k < snapshot.boundaries@.len() ==> {
                let b = #[trigger] snapshot.boundaries@[k];
                &&& snapshot.axis.start.0 < b.0 < snapshot.axis.end.0
                &&& exists|i: int|
                    0 <= i < snapshot.programs@.len() && (span_views(snapshot.programs@)[i].start == b
                        || span_views(snapshot.programs@)[i].end == b)
            },
        by_start(span_views(snapshot.programs@)),
        forall|i: int|
            0 <= i < snapshot.programs@.len() ==> drawn_inside(
                #[trigger] span_views(snapshot.programs@)[i],
                Span { start: snapshot.axis.start, end: snapshot.axis.end },
            ),
        snapshot.axis.end.0 >= snapshot.axis.start.0 + MIN_AXIS_MS,
        snapshot.axis.end.0 >= ms_of(end_ns).0,
{
    let (left, right) = bounds_of(previous, start_ns, end_ns, enabled, lookups);
    let points = snapshot.boundaries@;
    let spans = span_views(snapshot.programs@);
    assert forall|k: int| 0 <= k < points.len() implies {
        let b = #[trigger] points[k];
        &&& snapshot.axis.start.0 < b.0 < snapshot.axis.end.0
        &&& exists|i: int| 0 <= i < snapshot.programs@.len() && (spans[i].start == b || spans[i].end == b)
    } by {
        assert(has_point(points, points[k].0));
        assert(is_boundary(spans, left, right, points[k].0));
        let i = choose|i: int|
            #![trigger spans[i]]
            0 <= i < spans.len() && (spans[i].start.0 == points[k].0 || spans[i].end.0 == points[k].0);
        assert(spans.len() == snapshot.programs@.len());
        if spans[i].start.0 == points[k].0 {
            assert(spans[i].start == points[k]);
        } else {
            assert(spans[i].end == points[k]);
        }
    }
    let h_epochs = h.epochs;
    let display = Span { start: left, end: right };
    programs_sorted_by_start(drawn_epochs(h_epochs, h_epochs.len() as int, display));
    lemma_drawn_epochs_inside(h_epochs, h_epochs.len() as int, display);
    lemma_sort_keeps_inside(drawn_epochs(h_epochs, h_epochs.len() as int, display), display);
}

/// Revisions count changes: the first snapshot of a presenter is revision one; a later one
/// keeps the previous revision when nothing else differs, and advances it by one otherwise.
pub proof fn revisions_count_changes(
    h: HistoryView,
    previous: Option<SnapshotView>,
    start_ns: u64,
    end_ns: u64,
    enabled: bool,
    reading: Reading,
    lookups: Lookups,
    snapshot: Snapshot,
)
    requires
        projected(h, previous, start_ns, end_ns, enabled, reading, lookups, snapshot),
        previous matches Some(p) ==> p.revision < u64::MAX,
    ensures
        match previous {
            None => snapshot.revision == 1,
            Some(p) => if (SnapshotView { revision: p.revision, ..snapshot@ }) == p {
                snapshot.revision == p.revision
            } else {
                snapshot.revision == p.revision + 1
            },
        },
{
}

/// While a seek is pending, the frame shown before it stays: its position, broadcast time
/// and program are kept, the seek target is shown beside it, and the history (`after`,
/// as `Presenter::project` leaves it) still records the kept frame as presented.
pub proof fn seeking_keeps_the_presented_frame(
    h: HistoryView,
    previous: Option<SnapshotView>,
    start_ns: u64,
    end_ns: u64,
    enabled: bool,
    reading: Reading,
    lookups: Lookups,
    snapshot: Snapshot,
    after: HistoryView,
)
    requires
        projected(h, previous, start_ns, end_ns, enabled, reading, lookups, snapshot),
        after == match snapshot.viewing {
            Some(v) => HistoryView { presented_position_ns: Some(v.position_ns), ..h },
            None => h,
        },
        previous_viewing(previous) is Some,
        reading.phase is Seeking,
    ensures
        after.presented_position_ns == Some(previous_viewing(previous)->0.position_ns),
        ({
            let v = previous_viewing(previous)->0;
            snapshot.viewing matches Some(w) && w.position == v.position && w.position_ns == v.position_ns
                && w.program == v.program && w.utc == v.utc
        }),
        snapshot.seek_target == match reading.target_ns {
            Some(t) => Some(ms_of(t)),
            None => None,
        },
{
}

} // verus!
