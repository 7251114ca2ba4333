//! Time-based transport for recordings and retained live streams.
//!
//! The controller decides; the caller owns the pipeline. Every operation reads
//! the pipeline's answers as plain values and hands back at most one
//! [`Command`]. The caller performs it and reports its [`Outcome`] through
//! [`Controller::complete`], which finishes the operation.
use vstd::prelude::*;

verus! {

/// Decode preroll that a seek leaves before its target.
pub const SEEK_PREROLL_NS: u64 = 3_000_000_000;
/// Extra distance from the oldest retained data after an expiry.
pub const RECOVERY_HEADROOM_NS: u64 = 2_000_000_000;
pub const MSECOND_NS: u64 = 1_000_000;
/// Interval between two position samples, in milliseconds.
pub const POSITION_SAMPLE_INTERVAL_MS: u64 = 200;
/// Time a seek may take before the controller reports a timeout, in milliseconds.
pub const SEEK_TIMEOUT_MS: u64 = 10_000;

#[derive(Clone, Copy, Debug, PartialEq, Eq, Structural)]
pub enum Notice {
    Expired,
    SettingsClamped,
    SettingsReturnedToLive,
}

#[derive(Clone, Copy, Debug, PartialEq, Eq, Structural)]
pub enum RetentionChange {
    ClampPosition,
    ReturnToLive,
}

#[derive(Clone, Copy, Debug, PartialEq, Eq, Structural)]
pub enum Resume {
    Playing,
    Paused,
}

#[derive(Clone, Copy, Debug, PartialEq, Eq, Structural)]
pub enum StartPosition {
    Beginning,
    LiveEdge,
}

#[derive(Clone, Copy, Debug, PartialEq, Eq, Structural)]
pub enum Startup {
    AwaitingLiveOutput,
    Complete,
}

#[derive(Clone, Copy, Debug, PartialEq, Eq, Structural)]
pub enum Phase {
    Playing,
    Paused,
    Seeking(Resume),
    Ended,
}

/// A nonempty TIME interval, in nanoseconds.
#[derive(Clone, Copy, Debug, PartialEq, Eq, Structural)]
pub struct Range {
    start: u64,
    end: u64,
}

/// Forward buffering does not constrain frames already queued by the decoder.
/// Only retained history is a user-visible playback window.
#[derive(Clone, Copy, Debug, PartialEq, Eq, Structural)]
pub enum LiveWindow {
    ForwardBuffer(Range),
    History(Range),
}

#[derive(Clone, Copy, Debug, PartialEq, Eq, Structural)]
pub struct Snapshot {
    pub position: Option<u64>,
    pub duration: Option<u64>,
    pub estimated: bool,
    pub range: Option<Range>,
}

#[derive(Clone, Copy, Debug, PartialEq, Eq, Structural)]
pub enum Error {
    Unavailable,
    InvalidPosition,
    Rejected,
    TimedOut,
    Observer,
    State,
}

/// A user position in milliseconds: the floor of a finite request (saturated to
/// the range of `i64`), or a request that is not a finite number.
#[derive(Clone, Copy, Debug, PartialEq, Eq, Structural)]
pub enum RequestedMs {
    Invalid,
    Millis(i64),
}

/// Recovery keeps preroll and eviction headroom, or the midpoint of a short window.
pub open spec fn recovery_spec(start: int, end: int) -> int {
    let margin = SEEK_PREROLL_NS + RECOVERY_HEADROOM_NS;
    let half = (end - start) / 2;
    start + if margin <= half {
        margin as int
    } else {
        half
    }
}

/// The last millisecond of the range, never before its start.
pub open spec fn live_spec(start: int, end: int) -> int {
    let last = if end >= MSECOND_NS {
        end - MSECOND_NS
    } else {
        0
    };
    if last >= start {
        last
    } else {
        start
    }
}

/// A validated position in whole milliseconds, clamped just inside the end.
pub open spec fn target_spec(start: int, end: int, milliseconds: int) -> int {
    let last = live_spec(start, end);
    let last_ms = last / MSECOND_NS as int;
    let ns = (if milliseconds <= last_ms {
        milliseconds
    } else {
        last_ms
    }) * MSECOND_NS;
    if ns < start {
        start
    } else if ns > last {
        last
    } else {
        ns
    }
}

impl Range {
    pub closed spec fn start_spec(self) -> int {
        self.start as int
    }

    pub closed spec fn end_spec(self) -> int {
        self.end as int
    }

    pub closed spec fn wf(self) -> bool {
        self.start < self.end
    }

    pub fn new(start: u64, end: u64) -> (range: Option<Self>)
        ensures
            range is Some <==> end > start,
            range matches Some(r) ==> r.start_spec() == start && r.end_spec() == end && r.wf(),
    {
        if end > start {
            Some(Range { start, end })
        } else {
            None
        }
    }

    pub fn start(self) -> (start: u64)
        ensures
            start == self.start_spec(),
    {
        self.start
    }

    pub fn end(self) -> (end: u64)
        ensures
            end == self.end_spec(),
    {
        self.end
    }

    pub fn recovery_target(self) -> (target: u64)
        requires
            self.wf(),
        ensures
            target == recovery_spec(self.start_spec(), self.end_spec()),
            self.start_spec() <= target < self.end_spec(),
    {
        let margin = SEEK_PREROLL_NS + RECOVERY_HEADROOM_NS;
        let half = (self.end - self.start) / 2;
        self.start + if margin <= half {
            margin
        } else {
            half
        }
    }

    pub fn live_target(self) -> (target: u64)
        requires
            self.wf(),
        ensures
            target == live_spec(self.start_spec(), self.end_spec()),
            self.start_spec() <= target < self.end_spec(),
    {
        let last = self.end.saturating_sub(MSECOND_NS);
        if last >= self.start {
            last
        } else {
            self.start
        }
    }

    /// A user position: rejected unless finite and nonnegative, else clamped inside EOS.
    pub fn target(self, milliseconds: RequestedMs) -> (target: Result<u64, Error>)
        requires
            self.wf(),
        ensures
            match milliseconds {
                RequestedMs::Millis(ms) => if ms >= 0 {
                    target == Ok::<u64, Error>(
                        target_spec(self.start_spec(), self.end_spec(), ms as int) as u64,
                    )
                } else {
                    target == Err::<u64, Error>(Error::InvalidPosition)
                },
                RequestedMs::Invalid => target == Err::<u64, Error>(Error::InvalidPosition),
            },
            target matches Ok(t) ==> self.start_spec() <= t < self.end_spec(),
    {
        let ms = match milliseconds {
            RequestedMs::Millis(ms) => {
                if ms < 0 {
                    return Err(Error::InvalidPosition);
                }
                ms as u64
            },
            RequestedMs::Invalid => {
                return Err(Error::InvalidPosition);
            },
        };
        let last = self.live_target();
        let last_ms = last / MSECOND_NS;
        let chosen = if ms <= last_ms {
            ms
        } else {
            last_ms
        };
        assert(chosen * MSECOND_NS <= last) by (nonlinear_arith)
            requires
                chosen <= last_ms,
                last_ms == last / 1_000_000u64,
                MSECOND_NS == 1_000_000u64,
        ;
        let ns = chosen * MSECOND_NS;
        Ok(
            if ns < self.start {
                self.start
            } else if ns > last {
                last
            } else {
                ns
            },
        )
    }
}

/// Sequence numbers that the output pad has observed (segment, first buffer, EOS).
#[derive(Clone, Copy, Debug, PartialEq, Eq, Structural)]
pub struct Output {
    pub segment: Option<u32>,
    pub buffered: Option<u32>,
    pub eos: Option<u32>,
}

#[derive(Clone, Copy, Debug, PartialEq, Eq, Structural)]
pub enum GstState {
    VoidPending,
    Null,
    Ready,
    Paused,
    Playing,
}

pub open spec fn at_least_paused(state: GstState) -> bool {
    state == GstState::Paused || state == GstState::Playing
}

/// The answer of a zero-timeout state query.
#[derive(Clone, Copy, Debug, PartialEq, Eq, Structural)]
pub struct PipelineState {
    pub ok: bool,
    pub current: GstState,
    pub pending: GstState,
}

/// The seeking query: whether it is seekable, its start and its end.
#[derive(Clone, Copy, Debug, PartialEq, Eq, Structural)]
pub struct Seeking {
    pub seekable: bool,
    pub start: Option<u64>,
    pub end: Option<u64>,
}

/// The answers of the position, duration and TIME seeking queries.
#[derive(Clone, Copy, Debug, PartialEq, Eq, Structural)]
pub struct Sample {
    pub position: Option<u64>,
    pub duration: Option<u64>,
    pub seeking: Option<Seeking>,
}

#[derive(Clone, Copy, Debug, PartialEq, Eq, Structural)]
pub struct Seek {
    pub sequence: u32,
    pub target: u64,
    pub resume: Resume,
    pub next: Option<u64>,
    pub deadline: u64,
}

#[derive(Clone, Copy, Debug, PartialEq, Eq, Structural)]
pub enum State {
    Playing,
    Paused,
    ExpiredPause,
    Seeking(Seek),
    Ended,
}

/// What the caller must do on the pipeline.
#[derive(Clone, Copy, Debug, PartialEq, Eq, Structural)]
pub enum Action {
    /// Send a flushing accurate seek to `target`, then set the pipeline to `resume`.
    Seek { target: u64, resume: Resume },
    /// Set the pipeline state.
    SetState(Resume),
}

/// What the operation does once its action succeeded.
#[derive(Clone, Copy, Debug, PartialEq, Eq, Structural)]
pub struct Followup {
    pub notice: Option<Notice>,
    pub clear_change: bool,
    pub complete_startup: bool,
    pub sample: bool,
    pub tolerate_rejection: bool,
    pub pause: Option<Resume>,
    pub queue_live: Option<u64>,
}

#[derive(Clone, Copy, Debug, PartialEq, Eq, Structural)]
pub struct Command {
    action: Action,
    followup: Followup,
}

impl Command {
    pub closed spec fn followup_spec(self) -> Followup {
        self.followup
    }

    pub closed spec fn action_spec(self) -> Action {
        self.action
    }

    /// What the caller must do before reporting the outcome.
    pub fn action(&self) -> (action: Action)
        ensures
            action == self.action_spec(),
    {
        self.action
    }
}

/// How the caller's action went: the seek's sequence number when the pipeline
/// accepted it, and whether the state change that followed succeeded.
#[derive(Clone, Copy, Debug, PartialEq, Eq, Structural)]
pub struct Outcome {
    pub sequence: Option<u32>,
    pub state_changed: bool,
}

/// A range that a fresh seeking query validated, consumed by one transport operation.
pub struct Ready {
    range: Range,
}

impl Ready {
    pub closed spec fn range_spec(self) -> Range {
        self.range
    }
}

pub struct ControllerView {
    pub state: State,
    pub startup: Startup,
    pub snapshot: Snapshot,
    pub notice: Option<Notice>,
    pub change: Option<RetentionChange>,
    pub next_sample: u64,
}

pub struct Controller {
    state: State,
    startup: Startup,
    snapshot: Snapshot,
    notice: Option<Notice>,
    retention_change: Option<RetentionChange>,
    next_sample: u64,
}

pub open spec fn phase_of(state: State) -> Phase {
    match state {
        State::Playing => Phase::Playing,
        State::Paused | State::ExpiredPause => Phase::Paused,
        State::Seeking(seek) => Phase::Seeking(seek.resume),
        State::Ended => Phase::Ended,
    }
}

pub open spec fn resume_state(resume: Resume) -> State {
    match resume {
        Resume::Playing => State::Playing,
        Resume::Paused => State::Paused,
    }
}

/// The position a seek is heading for: its queued target, else its own.
pub open spec fn seek_target_of(state: State) -> Option<u64> {
    match state {
        State::Seeking(seek) => Some(
            match seek.next {
                Some(next) => next,
                None => seek.target,
            },
        ),
        _ => None,
    }
}

/// The seekable range of a sample: its end, else the duration, after its start.
pub closed spec fn sampled_range(sample: Sample) -> Option<Range> {
    match sample.seeking {
        Some(seeking) => if seeking.seekable && seeking.start is Some {
            let start = seeking.start->0;
            let end = match seeking.end {
                Some(end) => Some(end),
                None => sample.duration,
            };
            match end {
                Some(end) => if end > start {
                    Some(Range { start, end })
                } else {
                    None
                },
                None => None,
            }
        } else {
            None
        },
        None => None,
    }
}

pub closed spec fn sampled(snapshot: Snapshot, sample: Sample) -> Snapshot {
    Snapshot {
        position: sample.position,
        duration: sample.duration,
        estimated: snapshot.estimated,
        range: sampled_range(sample),
    }
}

pub open spec fn wf_range_option(range: Option<Range>) -> bool {
    range matches Some(r) ==> r.wf()
}

impl View for Controller {
    type V = ControllerView;

    closed spec fn view(&self) -> ControllerView {
        ControllerView {
            state: self.state,
            startup: self.startup,
            snapshot: self.snapshot,
            notice: self.notice,
            change: self.retention_change,
            next_sample: self.next_sample,
        }
    }
}

fn sample_range(sample: Sample) -> (range: Option<Range>)
    ensures
        range == sampled_range(sample),
        wf_range_option(range),
{
    match sample.seeking {
        Some(seeking) => {
            if seeking.seekable {
                match seeking.start {
                    Some(start) => {
                        let end = match seeking.end {
                            Some(end) => Some(end),
                            None => sample.duration,
                        };
                        match end {
                            Some(end) => if end > start {
                                Some(Range { start, end })
                            } else {
                                None
                            },
                            None => None,
                        }
                    },
                    None => None,
                }
            } else {
                None
            }
        },
        None => None,
    }
}

fn followup() -> (f: Followup)
    ensures
        f == (Followup {
            notice: None,
            clear_change: false,
            complete_startup: false,
            sample: false,
            tolerate_rejection: false,
            pause: None,
            queue_live: None,
        }),
{
    Followup {
        notice: None,
        clear_change: false,
        complete_startup: false,
        sample: false,
        tolerate_rejection: false,
        pause: None,
        queue_live: None,
    }
}

impl Controller {
    pub closed spec fn wf(&self) -> bool {
        wf_range_option(self.snapshot.range)
    }

    pub fn new(start: StartPosition, now: u64) -> (controller: Self)
        ensures
            controller.wf(),
            controller@.state == State::Playing,
            controller@.startup == match start {
                StartPosition::Beginning => Startup::Complete,
                StartPosition::LiveEdge => Startup::AwaitingLiveOutput,
            },
            controller@.snapshot == (Snapshot {
                position: None,
                duration: None,
                estimated: false,
                range: None,
            }),
            controller@.notice is None,
            controller@.change is None,
            controller@.next_sample == now,
    {
        Controller {
            state: State::Playing,
            startup: match start {
                StartPosition::Beginning => Startup::Complete,
                StartPosition::LiveEdge => Startup::AwaitingLiveOutput,
            },
            snapshot: Snapshot { position: None, duration: None, estimated: false, range: None },
            notice: None,
            retention_change: None,
            next_sample: now,
        }
    }

    pub fn phase(&self) -> (phase: Phase)
        ensures
            phase == phase_of(self@.state),
    {
        match self.state {
            State::Playing => Phase::Playing,
            State::Paused | State::ExpiredPause => Phase::Paused,
            State::Seeking(seek) => Phase::Seeking(seek.resume),
            State::Ended => Phase::Ended,
        }
    }

    pub fn take_notice(&mut self) -> (notice: Option<Notice>)
        ensures
            notice == old(self)@.notice,
            final(self)@ == (ControllerView { notice: None, ..old(self)@ }),
            old(self).wf() ==> final(self).wf(),
    {
        let notice = self.notice;
        self.notice = None;
        notice
    }

    pub fn set_estimated(&mut self, estimated: bool)
        ensures
            final(self)@ == (ControllerView {
                snapshot: Snapshot { estimated, ..old(self)@.snapshot },
                ..old(self)@
            }),
            old(self).wf() ==> final(self).wf(),
    {
        self.snapshot.estimated = estimated;
    }

    pub fn seek_target(&self) -> (target: Option<u64>)
        ensures
            target == seek_target_of(self@.state),
    {
        match self.state {
            State::Seeking(seek) => Some(
                match seek.next {
                    Some(next) => next,
                    None => seek.target,
                },
            ),
            _ => None,
        }
    }

    pub fn snapshot(&self) -> (snapshot: Snapshot)
        ensures
            snapshot == self@.snapshot,
            self.wf() ==> wf_range_option(snapshot.range),
    {
        self.snapshot
    }

    /// Record one answer of the position, duration and seeking queries.
    pub fn sample(&mut self, sample: Sample, now: u64)
        ensures
            final(self).wf(),
            final(self)@ == (ControllerView {
                snapshot: sampled(old(self)@.snapshot, sample),
                next_sample: now.saturating_add(POSITION_SAMPLE_INTERVAL_MS),
                ..old(self)@
            }),
    {
        self.next_sample = now.saturating_add(POSITION_SAMPLE_INTERVAL_MS);
        self.snapshot = Snapshot {
            position: sample.position,
            duration: sample.duration,
            estimated: self.snapshot.estimated,
            range: sample_range(sample),
        };
    }

    /// A new retention policy: returning to live absorbs a pending clamp.
    pub fn retention_changed(&mut self, change: RetentionChange)
        ensures
            final(self)@.startup == Startup::Complete,
            final(self)@.state == old(self)@.state,
            final(self)@.notice == old(self)@.notice,
            final(self)@.next_sample == old(self)@.next_sample,
            (old(self)@.change == Some(RetentionChange::ReturnToLive) || change
                == RetentionChange::ReturnToLive) ==> final(self)@.change == Some(
                RetentionChange::ReturnToLive,
            ) && final(self)@.snapshot == (Snapshot {
                range: None,
                duration: None,
                ..old(self)@.snapshot
            }),
            !(old(self)@.change == Some(RetentionChange::ReturnToLive) || change
                == RetentionChange::ReturnToLive) ==> final(self)@.change == Some(
                RetentionChange::ClampPosition,
            ) && final(self)@.snapshot == old(self)@.snapshot,
            old(self).wf() ==> final(self).wf(),
    {
        self.startup = Startup::Complete;
        let return_to_live = match (self.retention_change, change) {
            (Some(RetentionChange::ReturnToLive), _) => true,
            (_, RetentionChange::ReturnToLive) => true,
            _ => false,
        };
        if return_to_live {
            self.snapshot.range = None;
            self.snapshot.duration = None;
            self.retention_change = Some(RetentionChange::ReturnToLive);
        } else {
            self.retention_change = Some(RetentionChange::ClampPosition);
        }
    }

    /// Only EOS belonging to the current output segment may finish a recording.
    pub fn ended(&mut self, sequence: u32, output: Output) -> (ended: bool)
        ensures
            ended == (output.segment == Some(sequence) && match old(self)@.state {
                State::Seeking(seek) => seek.sequence == sequence && seek.next is None,
                _ => true,
            }),
            ended ==> final(self)@ == (ControllerView { state: State::Ended, ..old(self)@ }),
            !ended ==> final(self)@ == old(self)@,
            old(self).wf() ==> final(self).wf(),
    {
        if output.segment != Some(sequence) {
            return false;
        }
        match self.state {
            State::Seeking(seek) => {
                if seek.sequence != sequence || seek.next.is_some() {
                    return false;
                }
            },
            _ => {},
        }
        self.state = State::Ended;
        true
    }

    /// Validate a seeking query for one transport operation.
    pub fn prepare(&mut self, pipeline: PipelineState, sample: Sample, now: u64) -> (ready:
        Result<Ready, Error>)
        ensures
            !at_least_paused(pipeline.current) ==> ready == Err::<Ready, Error>(Error::Unavailable)
                && final(self)@ == old(self)@,
            at_least_paused(pipeline.current) ==> final(self)@ == (ControllerView {
                snapshot: sampled(old(self)@.snapshot, sample),
                next_sample: now.saturating_add(POSITION_SAMPLE_INTERVAL_MS),
                ..old(self)@
            }) && match sampled_range(sample) {
                Some(range) => ready matches Ok(r) && r.range_spec() == range,
                None => ready == Err::<Ready, Error>(Error::Unavailable),
            },
            ready matches Ok(r) ==> r.range_spec().wf(),
            old(self).wf() ==> final(self).wf(),
    {
        if !(pipeline.current == GstState::Paused || pipeline.current == GstState::Playing) {
            return Err(Error::Unavailable);
        }
        self.sample(sample, now);
        match self.snapshot.range {
            Some(range) => Ok(Ready { range }),
            None => Err(Error::Unavailable),
        }
    }

    /// Pause or resume. Resuming an expired pause recovers inside the window.
    pub fn pause(&mut self, resume: Resume, sample: Sample, now: u64) -> (command: Result<
        Option<Command>,
        Error,
    >)
        ensures
            old(self).wf() ==> final(self).wf(),
            old(self)@.state == State::Ended ==> command == Err::<Option<Command>, Error>(
                Error::Unavailable,
            ) && final(self)@ == old(self)@,
            old(self)@.state == State::ExpiredPause && resume == Resume::Paused ==> command == Ok::<
                Option<Command>,
                Error,
            >(None) && final(self)@ == (ControllerView {
                startup: Startup::Complete,
                ..old(self)@
            }),
            old(self)@.state == State::ExpiredPause && resume == Resume::Playing ==> final(self)@
                == (ControllerView {
                snapshot: sampled(old(self)@.snapshot, sample),
                next_sample: now.saturating_add(POSITION_SAMPLE_INTERVAL_MS),
                ..old(self)@
            }) && match sampled_range(sample) {
                None => command == Err::<Option<Command>, Error>(Error::Unavailable),
                Some(range) => command matches Ok(Some(c)) && c.action_spec() == (Action::Seek {
                    target: recovery_spec(range.start_spec(), range.end_spec()) as u64,
                    resume: Resume::Playing,
                }) && c.followup_spec().notice == Some(Notice::Expired)
                    && c.followup_spec().complete_startup,
            },
            old(self)@.state != State::Ended && old(self)@.state != State::ExpiredPause ==> final(self)@ == old(self)@ && (command matches Ok(Some(c)) && c.action_spec() == Action::SetState(resume)
                && c.followup_spec().pause == Some(resume) && c.followup_spec().complete_startup),
    {
        match self.state {
            State::Ended => Err(Error::Unavailable),
            State::ExpiredPause => {
                if resume == Resume::Playing {
                    self.sample(sample, now);
                    match self.snapshot.range {
                        None => Err(Error::Unavailable),
                        Some(range) => {
                            let target = range.recovery_target();
                            let mut f = followup();
                            f.notice = Some(Notice::Expired);
                            f.complete_startup = true;
                            Ok(Some(Command { action: Action::Seek { target, resume }, followup: f }))
                        },
                    }
                } else {
                    self.startup = Startup::Complete;
                    Ok(None)
                }
            },
            _ => {
                let mut f = followup();
                f.pause = Some(resume);
                f.complete_startup = true;
                Ok(Some(Command { action: Action::SetState(resume), followup: f }))
            },
        }
    }

    /// Seek to the live edge of a validated range, or queue it behind an active seek.
    pub fn return_to_live(&mut self, ready: Ready) -> (command: Command)
        requires
            ready.range_spec().wf(),
        ensures
            final(self)@ == old(self)@,
            ({
                let target = live_spec(ready.range_spec().start_spec(), ready.range_spec().end_spec());
                match old(self)@.state {
                    State::Seeking(_) => command.action_spec() == Action::SetState(Resume::Playing)
                        && command.followup_spec().queue_live == Some(target as u64)
                        && command.followup_spec().complete_startup,
                    _ => command.action_spec() == (Action::Seek {
                        target: target as u64,
                        resume: Resume::Playing,
                    }) && command.followup_spec().complete_startup
                        && !command.followup_spec().tolerate_rejection
                        && command.followup_spec().notice is None,
                }
            }),
    {
        let target = ready.range.live_target();
        let mut f = followup();
        f.complete_startup = true;
        match self.state {
            State::Seeking(_) => {
                f.queue_live = Some(target);
                Command { action: Action::SetState(Resume::Playing), followup: f }
            },
            _ => Command { action: Action::Seek { target, resume: Resume::Playing }, followup: f },
        }
    }

    fn apply(&mut self, range: Range, milliseconds: RequestedMs, notice: Option<Notice>) -> (command:
        Result<Option<Command>, Error>)
        requires
            range.wf(),
        ensures
            match range.target_result(milliseconds) {
                Err(error) => command == Err::<Option<Command>, Error>(error) && final(self)@ == old(self)@,
                Ok(target) => match old(self)@.state {
                    State::Seeking(seek) => command == Ok::<Option<Command>, Error>(None)
                        && final(self)@ == (ControllerView {
                        state: State::Seeking(Seek { next: Some(target), ..seek }),
                        startup: Startup::Complete,
                        notice: if notice is Some {
                            notice
                        } else {
                            old(self)@.notice
                        },
                        ..old(self)@
                    }),
                    _ => final(self)@ == old(self)@ && (command matches Ok(Some(c)) && c.action_spec() == (
                    Action::Seek {
                        target,
                        resume: match old(self)@.state {
                            State::Paused | State::ExpiredPause => Resume::Paused,
                            _ => Resume::Playing,
                        },
                    }) && c.followup_spec().complete_startup && c.followup_spec().notice == notice
                        && !c.followup_spec().tolerate_rejection),
                },
            },
            old(self).wf() ==> final(self).wf(),
    {
        let target = range.target(milliseconds)?;
        let resume = match self.state {
            State::Seeking(seek) => {
                self.state = State::Seeking(Seek { next: Some(target), ..seek });
                self.startup = Startup::Complete;
                if notice.is_some() {
                    self.notice = notice;
                }
                return Ok(None);
            },
            State::Playing | State::Ended => Resume::Playing,
            State::Paused | State::ExpiredPause => Resume::Paused,
        };
        let mut f = followup();
        f.complete_startup = true;
        f.notice = notice;
        Ok(Some(Command { action: Action::Seek { target, resume }, followup: f }))
    }

    /// A user seek inside a validated range; during a seek only the latest request is kept.
    pub fn seek(&mut self, ready: Ready, milliseconds: RequestedMs) -> (command: Result<
        Option<Command>,
        Error,
    >)
        requires
            ready.range_spec().wf(),
        ensures
            match ready.range_spec().target_result(milliseconds) {
                Err(error) => command == Err::<Option<Command>, Error>(error) && final(self)@ == old(self)@,
                Ok(target) => match old(self)@.state {
                    State::Seeking(seek) => command == Ok::<Option<Command>, Error>(None)
                        && final(self)@ == (ControllerView {
                        state: State::Seeking(Seek { next: Some(target), ..seek }),
                        startup: Startup::Complete,
                        ..old(self)@
                    }),
                    _ => final(self)@ == old(self)@ && (command matches Ok(Some(c)) && c.action_spec() == (
                    Action::Seek {
                        target,
                        resume: match old(self)@.state {
                            State::Paused | State::ExpiredPause => Resume::Paused,
                            _ => Resume::Playing,
                        },
                    }) && c.followup_spec().complete_startup && c.followup_spec().notice is None
                        && !c.followup_spec().tolerate_rejection),
                },
            },
            old(self).wf() ==> final(self).wf(),
    {
        self.apply(ready.range, milliseconds, None)
    }

    /// A live timeline seek: positions before the window recover inside it, and a
    /// corrected or expired request reports expiry.
    pub fn seek_live(&mut self, ready: Ready, milliseconds: RequestedMs, corrected: bool) -> (command:
        Result<Option<Command>, Error>)
        requires
            ready.range_spec().wf(),
        ensures
            ({
                let range = ready.range_spec();
                let expired = milliseconds matches RequestedMs::Millis(ms) && ms
                    < range.start_spec() / MSECOND_NS as int;
                let request = if expired {
                    RequestedMs::Millis(
                        (recovery_spec(range.start_spec(), range.end_spec()) / MSECOND_NS as int) as i64,
                    )
                } else {
                    milliseconds
                };
                let notice = if corrected || expired {
                    Some(Notice::Expired)
                } else {
                    None
                };
                match range.target_result(request) {
                    Err(error) => command == Err::<Option<Command>, Error>(error) && final(self)@
                        == old(self)@,
                    Ok(target) => match old(self)@.state {
                        State::Seeking(seek) => command == Ok::<Option<Command>, Error>(None)
                            && final(self)@ == (ControllerView {
                            state: State::Seeking(Seek { next: Some(target), ..seek }),
                            startup: Startup::Complete,
                            notice: if notice is Some {
                                notice
                            } else {
                                old(self)@.notice
                            },
                            ..old(self)@
                        }),
                        _ => final(self)@ == old(self)@ && (command matches Ok(Some(c)) && c.action_spec()
                            == (Action::Seek {
                            target,
                            resume: match old(self)@.state {
                                State::Paused | State::ExpiredPause => Resume::Paused,
                                _ => Resume::Playing,
                            },
                        }) && c.followup_spec().complete_startup && c.followup_spec().notice
                            == notice),
                    },
                }
            }),
            old(self).wf() ==> final(self).wf(),
    {
        let range = ready.range;
        let start_ms = range.start / MSECOND_NS;
        let expired = match milliseconds {
            RequestedMs::Millis(ms) => ms < 0 || (ms as u64) < start_ms,
            RequestedMs::Invalid => false,
        };
        let request = if expired {
            let recovery = range.recovery_target() / MSECOND_NS;
            assert(recovery <= i64::MAX);
            RequestedMs::Millis(recovery as i64)
        } else {
            milliseconds
        };
        let notice = if corrected || expired {
            Some(Notice::Expired)
        } else {
            None
        };
        self.apply(range, request, notice)
    }
}


/// A command result compared with an expected action and followup.
pub open spec fn command_is(
    result: Result<Option<Command>, Error>,
    expected: Result<Option<(Action, Followup)>, Error>,
) -> bool {
    match expected {
        Ok(Some((action, followup))) => result matches Ok(Some(c)) && c.action_spec() == action
            && c.followup_spec() == followup,
        Ok(None) => result == Ok::<Option<Command>, Error>(None),
        Err(error) => result == Err::<Option<Command>, Error>(error),
    }
}

pub open spec fn no_followup() -> Followup {
    Followup {
        notice: None,
        clear_change: false,
        complete_startup: false,
        sample: false,
        tolerate_rejection: false,
        pause: None,
        queue_live: None,
    }
}

pub open spec fn window_range(window: LiveWindow) -> Range {
    match window {
        LiveWindow::ForwardBuffer(range) => range,
        LiveWindow::History(range) => range,
    }
}

pub open spec fn window_history(window: LiveWindow) -> Option<Range> {
    match window {
        LiveWindow::ForwardBuffer(_) => None,
        LiveWindow::History(range) => Some(range),
    }
}

/// The view after publishing the window: only retained history is a playback range.
pub open spec fn windowed(v: ControllerView, window: LiveWindow) -> ControllerView {
    let history = window_history(window);
    ControllerView {
        snapshot: Snapshot {
            range: history,
            duration: match history {
                Some(r) => Some(r.end_spec() as u64),
                None => None,
            },
            ..v.snapshot
        },
        ..v
    }
}

pub open spec fn resume_of(phase: Phase) -> Resume {
    match phase {
        Phase::Paused | Phase::Seeking(Resume::Paused) => Resume::Paused,
        _ => Resume::Playing,
    }
}

pub open spec fn align_applies(
    v: ControllerView,
    pipeline: PipelineState,
    output: Output,
    rendered: bool,
    position: Option<u64>,
) -> bool {
    &&& v.startup == Startup::AwaitingLiveOutput
    &&& v.state == State::Playing
    &&& pipeline.ok && pipeline.current == GstState::Playing && pipeline.pending
        == GstState::VoidPending
    &&& output.buffered is Some && output.eos is None
    &&& rendered
    &&& position is Some
}

/// Where expiry recovery goes, given the state and the window's recovery target.
pub open spec fn expiry_seek(state: State, recovery: u64) -> (u64, Resume) {
    match state {
        State::Paused | State::ExpiredPause => (recovery, Resume::Paused),
        State::Playing | State::Ended => (recovery, Resume::Playing),
        State::Seeking(seek) => {
            let heading = match seek.next {
                Some(next) => next,
                None => seek.target,
            };
            (
                if heading >= recovery {
                    heading
                } else {
                    recovery
                },
                seek.resume,
            )
        },
    }
}

/// Expiry handling once a window is published and no retention change is pending.
pub open spec fn expiry_spec(v: ControllerView, window: LiveWindow, expired: bool) -> (
    ControllerView,
    Result<Option<(Action, Followup)>, Error>,
) {
    let range = window_range(window);
    let history = window_history(window);
    let behind = history is Some && (v.snapshot.position matches Some(p) && p < range.start_spec());
    let paused = v.state == State::Paused || v.state == State::ExpiredPause;
    if paused && (expired || behind) {
        (ControllerView { state: State::ExpiredPause, ..v }, Ok(None))
    } else if expired || (behind && !(v.state is Seeking)) {
        let (target, resume) = expiry_seek(
            v.state,
            recovery_spec(range.start_spec(), range.end_spec()) as u64,
        );
        (
            v,
            Ok(
                Some(
                    (
                        Action::Seek { target, resume },
                        Followup {
                            notice: if history is Some {
                                Some(Notice::Expired)
                            } else {
                                None
                            },
                            ..no_followup()
                        },
                    ),
                ),
            ),
        )
    } else {
        (v, Ok(None))
    }
}

/// Expiry never moves a seek in flight backwards: when retained data expires while
/// seeking, the recovery seek goes to the later of where the seek was heading (its queued
/// target, else its target) and the window's recovery point, and resumes as the seek
/// would have.
pub proof fn expiry_keeps_the_seek_heading(v: ControllerView, window: LiveWindow)
    requires
        v.state is Seeking,
    ensures
        ({
            let seek = v.state->Seeking_0;
            let heading = match seek.next {
                Some(next) => next,
                None => seek.target,
            };
            let range = window_range(window);
            let recovery = recovery_spec(range.start_spec(), range.end_spec()) as u64;
            match expiry_spec(v, window, true).1 {
                Ok(Some((Action::Seek { target, resume }, _))) => target >= heading && target >= recovery && (
                target == heading || target == recovery) && resume == seek.resume,
                _ => false,
            }
        }),
{
}

/// The whole decision of [`Controller::retained`].
pub open spec fn retained_spec(
    v0: ControllerView,
    window: LiveWindow,
    expired: bool,
    pipeline: PipelineState,
    sample: Sample,
    output: Output,
    rendered: bool,
    now: u64,
) -> (ControllerView, Result<Option<(Action, Followup)>, Error>) {
    let range = window_range(window);
    let v1 = windowed(v0, window);
    match v0.change {
        Some(change) => if !at_least_paused(pipeline.current) {
            (v1, Ok(None))
        } else {
            let v2 = windowed(
                ControllerView {
                    snapshot: sampled(v1.snapshot, sample),
                    next_sample: now.saturating_add(POSITION_SAMPLE_INTERVAL_MS),
                    ..v1
                },
                window,
            );
            let position = match seek_target_of(v2.state) {
                Some(target) => Some(target),
                None => v2.snapshot.position,
            };
            let correction = match change {
                RetentionChange::ReturnToLive => Some(
                    (live_spec(range.start_spec(), range.end_spec()) as u64, Resume::Playing),
                ),
                RetentionChange::ClampPosition => if expired || (position matches Some(p) && p
                    < range.start_spec()) {
                    Some(
                        (
                            recovery_spec(range.start_spec(), range.end_spec()) as u64,
                            resume_of(phase_of(v2.state)),
                        ),
                    )
                } else {
                    None
                },
            };
            match correction {
                Some((target, resume)) => (
                    v2,
                    Ok(
                        Some(
                            (
                                Action::Seek { target, resume },
                                Followup {
                                    notice: Some(
                                        match change {
                                            RetentionChange::ClampPosition => Notice::SettingsClamped,
                                            RetentionChange::ReturnToLive =>
                                            Notice::SettingsReturnedToLive,
                                        },
                                    ),
                                    clear_change: true,
                                    ..no_followup()
                                },
                            ),
                        ),
                    ),
                ),
                None => (ControllerView { change: None, ..v2 }, Ok(None)),
            }
        },
        None => if align_applies(v1, pipeline, output, rendered, sample.position) {
            let v3 = ControllerView { startup: Startup::Complete, ..v1 };
            let target = live_spec(range.start_spec(), range.end_spec()) as u64;
            if target > sample.position->0 {
                (
                    v3,
                    Ok(
                        Some(
                            (
                                Action::Seek { target, resume: Resume::Playing },
                                Followup {
                                    complete_startup: true,
                                    tolerate_rejection: true,
                                    ..no_followup()
                                },
                            ),
                        ),
                    ),
                )
            } else {
                expiry_spec(v3, window, expired)
            }
        } else {
            expiry_spec(v1, window, expired)
        },
    }
}

/// The whole decision of [`Controller::poll`].
pub open spec fn poll_spec(
    v0: ControllerView,
    now: u64,
    pipeline: PipelineState,
    output: Output,
    sample: Sample,
) -> (ControllerView, Result<Option<(Action, Followup)>, Error>) {
    let sampled_view = |v: ControllerView|
        if now >= v.next_sample {
            ControllerView {
                snapshot: sampled(v.snapshot, sample),
                next_sample: now.saturating_add(POSITION_SAMPLE_INTERVAL_MS),
                ..v
            }
        } else {
            v
        };
    match v0.state {
        State::Seeking(seek) => {
            let ready = output.buffered == Some(seek.sequence);
            let eos = output.eos == Some(seek.sequence);
            if eos || (ready && pipeline.ok && pipeline.pending == GstState::VoidPending) {
                let state = if eos && seek.next is None {
                    State::Ended
                } else {
                    resume_state(seek.resume)
                };
                match seek.next {
                    Some(next) => (
                        ControllerView { state, ..v0 },
                        Ok(
                            Some(
                                (
                                    Action::Seek { target: next, resume: seek.resume },
                                    Followup { sample: true, ..no_followup() },
                                ),
                            ),
                        ),
                    ),
                    None => (sampled_view(ControllerView { state, next_sample: now, ..v0 }), Ok(None)),
                }
            } else if now >= seek.deadline {
                (v0, Err(Error::TimedOut))
            } else {
                (sampled_view(v0), Ok(None))
            }
        },
        _ => (sampled_view(v0), Ok(None)),
    }
}

/// What [`Controller::complete`] makes of an outcome.
pub open spec fn complete_spec(
    v0: ControllerView,
    action: Action,
    followup: Followup,
    outcome: Outcome,
    sample: Sample,
    now: u64,
) -> (ControllerView, Result<bool, Error>) {
    match action {
        Action::Seek { target, resume } => match outcome.sequence {
            None => if followup.tolerate_rejection {
                (v0, Ok(true))
            } else {
                (v0, Err(Error::Rejected))
            },
            Some(sequence) => {
                let seeking = ControllerView {
                    state: State::Seeking(
                        Seek {
                            sequence,
                            target,
                            resume,
                            next: None,
                            deadline: now.saturating_add(SEEK_TIMEOUT_MS),
                        },
                    ),
                    ..v0
                };
                if !outcome.state_changed {
                    (seeking, Err(Error::State))
                } else {
                    let v1 = ControllerView {
                        notice: if followup.notice is Some {
                            followup.notice
                        } else {
                            seeking.notice
                        },
                        change: if followup.clear_change {
                            None
                        } else {
                            seeking.change
                        },
                        startup: if followup.complete_startup {
                            Startup::Complete
                        } else {
                            seeking.startup
                        },
                        ..seeking
                    };
                    if followup.sample {
                        (
                            ControllerView {
                                snapshot: sampled(v1.snapshot, sample),
                                next_sample: now.saturating_add(POSITION_SAMPLE_INTERVAL_MS),
                                ..v1
                            },
                            Ok(false),
                        )
                    } else {
                        (v1, Ok(false))
                    }
                }
            },
        },
        Action::SetState(_) => if !outcome.state_changed {
            (v0, Err(Error::State))
        } else {
            let state = match (followup.pause, followup.queue_live, v0.state) {
                (Some(r), _, State::Seeking(seek)) => State::Seeking(Seek { resume: r, ..seek }),
                (Some(r), _, State::Playing) => resume_state(r),
                (Some(r), _, State::Paused) => resume_state(r),
                (None, Some(t), State::Seeking(seek)) => State::Seeking(
                    Seek { next: Some(t), resume: Resume::Playing, ..seek },
                ),
                _ => v0.state,
            };
            (
                ControllerView {
                    state,
                    startup: if followup.complete_startup {
                        Startup::Complete
                    } else {
                        v0.startup
                    },
                    ..v0
                },
                Ok(false),
            )
        },
    }
}

impl Controller {
    fn publish(&mut self, window: LiveWindow)
        ensures
            final(self)@ == windowed(old(self)@, window),
            old(self).wf() && window_range(window).wf() ==> final(self).wf(),
    {
        let history = match window {
            LiveWindow::ForwardBuffer(_) => None,
            LiveWindow::History(range) => Some(range),
        };
        self.snapshot.range = history;
        self.snapshot.duration = match history {
            Some(range) => Some(range.end),
            None => None,
        };
    }

    fn expiry(&mut self, window: LiveWindow, expired: bool) -> (command: Result<
        Option<Command>,
        Error,
    >)
        requires
            window_range(window).wf(),
        ensures
            final(self)@ == expiry_spec(old(self)@, window, expired).0,
            command_is(command, expiry_spec(old(self)@, window, expired).1),
            old(self).wf() ==> final(self).wf(),
    {
        let (range, history) = match window {
            LiveWindow::ForwardBuffer(range) => (range, false),
            LiveWindow::History(range) => (range, true),
        };
        let behind = history && match self.snapshot.position {
            Some(position) => position < range.start,
            None => false,
        };
        let paused = match self.state {
            State::Paused | State::ExpiredPause => true,
            _ => false,
        };
        if paused && (expired || behind) {
            // Keep the paused frame; resuming chooses a safe interior point.
            self.state = State::ExpiredPause;
            return Ok(None);
        }
        let seeking = match self.state {
            State::Seeking(_) => true,
            _ => false,
        };
        if expired || (behind && !seeking) {
            let recovery = range.recovery_target();
            let (target, resume) = match self.state {
                State::Paused | State::ExpiredPause => (recovery, Resume::Paused),
                State::Playing | State::Ended => (recovery, Resume::Playing),
                State::Seeking(seek) => {
                    let heading = match seek.next {
                        Some(next) => next,
                        None => seek.target,
                    };
                    (
                        if heading >= recovery {
                            heading
                        } else {
                            recovery
                        },
                        seek.resume,
                    )
                },
            };
            let mut f = followup();
            if history {
                f.notice = Some(Notice::Expired);
            }
            return Ok(Some(Command { action: Action::Seek { target, resume }, followup: f }));
        }
        Ok(None)
    }

    /// Publish the receive window; apply a pending retention change, align a new
    /// live session once with the receive edge, and recover from expiry.
    pub fn retained(
        &mut self,
        window: LiveWindow,
        expired: bool,
        pipeline: PipelineState,
        sample: Sample,
        output: Output,
        rendered: bool,
        now: u64,
    ) -> (command: Result<Option<Command>, Error>)
        requires
            window_range(window).wf(),
        ensures
            final(self)@ == retained_spec(
                old(self)@,
                window,
                expired,
                pipeline,
                sample,
                output,
                rendered,
                now,
            ).0,
            command_is(
                command,
                retained_spec(old(self)@, window, expired, pipeline, sample, output, rendered, now).1,
            ),
            old(self).wf() ==> final(self).wf(),
    {
        let range = match window {
            LiveWindow::ForwardBuffer(range) => range,
            LiveWindow::History(range) => range,
        };
        self.publish(window);
        if let Some(change) = self.retention_change {
            if !(pipeline.current == GstState::Paused || pipeline.current == GstState::Playing) {
                return Ok(None);
            }
            self.sample(sample, now);
            self.publish(window);
            let position = match self.seek_target() {
                Some(target) => Some(target),
                None => self.snapshot.position,
            };
            let correction = match change {
                RetentionChange::ReturnToLive => Some((range.live_target(), Resume::Playing)),
                RetentionChange::ClampPosition => {
                    let behind = match position {
                        Some(p) => p < range.start,
                        None => false,
                    };
                    if expired || behind {
                        let resume = match self.phase() {
                            Phase::Paused | Phase::Seeking(Resume::Paused) => Resume::Paused,
                            _ => Resume::Playing,
                        };
                        Some((range.recovery_target(), resume))
                    } else {
                        None
                    }
                },
            };
            match correction {
                Some((target, resume)) => {
                    let mut f = followup();
                    f.notice = Some(
                        match change {
                            RetentionChange::ClampPosition => Notice::SettingsClamped,
                            RetentionChange::ReturnToLive => Notice::SettingsReturnedToLive,
                        },
                    );
                    f.clear_change = true;
                    return Ok(Some(Command { action: Action::Seek { target, resume }, followup: f }));
                },
                None => {
                    self.retention_change = None;
                    return Ok(None);
                },
            }
        }
        // A new live session aligns once with the receive edge after its first
        // rendered output; user transport or a rejected seek ends the attempt.
        let awaiting = match self.startup {
            Startup::AwaitingLiveOutput => true,
            Startup::Complete => false,
        };
        let playing = match self.state {
            State::Playing => true,
            _ => false,
        };
        if awaiting && playing && pipeline.ok && pipeline.current == GstState::Playing
            && pipeline.pending == GstState::VoidPending && output.buffered.is_some()
            && output.eos.is_none() && rendered {
            if let Some(position) = sample.position {
                self.startup = Startup::Complete;
                let target = range.live_target();
                if target > position {
                    let mut f = followup();
                    f.complete_startup = true;
                    f.tolerate_rejection = true;
                    return Ok(
                        Some(
                            Command {
                                action: Action::Seek { target, resume: Resume::Playing },
                                followup: f,
                            },
                        ),
                    );
                }
            }
        }
        self.expiry(window, expired)
    }

    /// Finish or time out the active seek, and sample the position when due.
    pub fn poll(&mut self, now: u64, pipeline: PipelineState, output: Output, sample: Sample) -> (command:
        Result<Option<Command>, Error>)
        ensures
            final(self)@ == poll_spec(old(self)@, now, pipeline, output, sample).0,
            command_is(command, poll_spec(old(self)@, now, pipeline, output, sample).1),
            old(self).wf() ==> final(self).wf(),
    {
        if let State::Seeking(seek) = self.state {
            let ready = output.buffered == Some(seek.sequence);
            let eos = output.eos == Some(seek.sequence);
            if eos || (ready && pipeline.ok && pipeline.pending == GstState::VoidPending) {
                self.state = if eos && seek.next.is_none() {
                    State::Ended
                } else {
                    match seek.resume {
                        Resume::Playing => State::Playing,
                        Resume::Paused => State::Paused,
                    }
                };
                if let Some(next) = seek.next {
                    let mut f = followup();
                    f.sample = true;
                    return Ok(
                        Some(
                            Command {
                                action: Action::Seek { target: next, resume: seek.resume },
                                followup: f,
                            },
                        ),
                    );
                }
                self.next_sample = now;
            } else if now >= seek.deadline {
                return Err(Error::TimedOut);
            }
        }
        if now >= self.next_sample {
            self.sample(sample, now);
        }
        Ok(None)
    }

    /// Finish an operation once the caller performed its command. Returns whether
    /// the operation should be evaluated again (a tolerated rejection).
    pub fn complete(&mut self, command: Command, outcome: Outcome, sample: Sample, now: u64) -> (again:
        Result<bool, Error>)
        ensures
            final(self)@ == complete_spec(
                old(self)@,
                command.action_spec(),
                command.followup_spec(),
                outcome,
                sample,
                now,
            ).0,
            again == complete_spec(
                old(self)@,
                command.action_spec(),
                command.followup_spec(),
                outcome,
                sample,
                now,
            ).1,
            old(self).wf() ==> final(self).wf(),
    {
        let followup = command.followup;
        match command.action {
            Action::Seek { target, resume } => match outcome.sequence {
                None => {
                    if followup.tolerate_rejection {
                        Ok(true)
                    } else {
                        Err(Error::Rejected)
                    }
                },
                Some(sequence) => {
                    self.state = State::Seeking(
                        Seek {
                            sequence,
                            target,
                            resume,
                            next: None,
                            deadline: now.saturating_add(SEEK_TIMEOUT_MS),
                        },
                    );
                    if !outcome.state_changed {
                        return Err(Error::State);
                    }
                    if followup.notice.is_some() {
                        self.notice = followup.notice;
                    }
                    if followup.clear_change {
                        self.retention_change = None;
                    }
                    if followup.complete_startup {
                        self.startup = Startup::Complete;
                    }
                    if followup.sample {
                        self.sample(sample, now);
                    }
                    Ok(false)
                },
            },
            Action::SetState(_) => {
                if !outcome.state_changed {
                    return Err(Error::State);
                }
                self.state = match (followup.pause, followup.queue_live, self.state) {
                    (Some(r), _, State::Seeking(seek)) => State::Seeking(Seek { resume: r, ..seek }),
                    (Some(r), _, State::Playing) | (Some(r), _, State::Paused) => match r {
                        Resume::Playing => State::Playing,
                        Resume::Paused => State::Paused,
                    },
                    (None, Some(t), State::Seeking(seek)) => State::Seeking(
                        Seek { next: Some(t), resume: Resume::Playing, ..seek },
                    ),
                    (_, _, state) => state,
                };
                if followup.complete_startup {
                    self.startup = Startup::Complete;
                }
                Ok(false)
            },
        }
    }
}

impl Range {
    pub open spec fn target_result(self, milliseconds: RequestedMs) -> Result<u64, Error> {
        match milliseconds {
            RequestedMs::Millis(ms) => if ms >= 0 {
                Ok(target_spec(self.start_spec(), self.end_spec(), ms as int) as u64)
            } else {
                Err(Error::InvalidPosition)
            },
            RequestedMs::Invalid => Err(Error::InvalidPosition),
        }
    }
}

} // verus!
