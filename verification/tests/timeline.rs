use nagametv::timeline::{
    Action, Controller, Error, GstState, LiveWindow, Notice, Outcome, Output, Phase, PipelineState,
    Range, RequestedMs, Resume, Sample, Seeking, StartPosition, RECOVERY_HEADROOM_NS,
    SEEK_PREROLL_NS,
};

const SECOND: u64 = 1_000_000_000;
const MSECOND: u64 = 1_000_000;

fn requested(value: f64) -> RequestedMs {
    if value.is_finite() {
        RequestedMs::Millis(value.floor() as i64)
    } else {
        RequestedMs::Invalid
    }
}

fn paused() -> PipelineState {
    PipelineState { ok: true, current: GstState::Paused, pending: GstState::VoidPending }
}

fn sample(position: Option<u64>, start: u64, end: u64) -> Sample {
    Sample {
        position,
        duration: Some(end),
        seeking: Some(Seeking { seekable: true, start: Some(start), end: Some(end) }),
    }
}

fn no_output() -> Output {
    Output { segment: None, buffered: None, eos: None }
}

fn accepted(sequence: u32) -> Outcome {
    Outcome { sequence: Some(sequence), state_changed: true }
}

fn rejected() -> Outcome {
    Outcome { sequence: None, state_changed: false }
}

fn paused_controller(position: u64, start: u64, end: u64) -> Controller {
    let mut controller = Controller::new(StartPosition::Beginning, 0);
    let at = sample(Some(position), start, end);
    let command = controller.pause(Resume::Paused, at, 0).unwrap().unwrap();
    assert_eq!(command.action(), Action::SetState(Resume::Paused));
    assert_eq!(
        controller.complete(command, Outcome { sequence: None, state_changed: true }, at, 0),
        Ok(false)
    );
    controller.sample(at, 0);
    assert_eq!(controller.phase(), Phase::Paused);
    controller
}

#[test]
fn rejected_live_seek_keeps_the_paused_frame_and_does_not_report_recovery() {
    let paused_at = SECOND;
    let (start, end) = (10 * SECOND, 20 * SECOND);
    let mut controller = paused_controller(paused_at, 0, end);
    // Retained history moved past the paused frame: the pause is kept as expired.
    let window = LiveWindow::History(Range::new(start, end).unwrap());
    let at = sample(Some(paused_at), start, end);
    assert_eq!(
        controller.retained(window, false, paused(), at, no_output(), false, 0),
        Ok(None)
    );
    assert_eq!(controller.phase(), Phase::Paused);
    let ready = controller.prepare(paused(), at, 0).unwrap();
    let command = controller
        .seek_live(ready, requested((paused_at / MSECOND) as f64), true)
        .unwrap()
        .unwrap();
    // The native seek is rejected after the capability check.
    assert_eq!(controller.complete(command, rejected(), at, 0), Err(Error::Rejected));
    assert_eq!(controller.phase(), Phase::Paused);
    assert_eq!(controller.snapshot().position, Some(paused_at));
    assert!(controller.seek_target().is_none());
    assert!(controller.take_notice().is_none());
    let ready = controller.prepare(paused(), at, 0).unwrap();
    let command = controller.return_to_live(ready);
    assert_eq!(controller.complete(command, rejected(), at, 0), Err(Error::Rejected));
    assert_eq!(controller.phase(), Phase::Paused);
    assert_eq!(controller.snapshot().position, Some(paused_at));
    assert!(controller.seek_target().is_none());
}

#[test]
fn return_to_live_replaces_pending_rewind_and_resumes_after_the_active_seek() {
    let latest_edge = 20 * SECOND;
    let mut controller = paused_controller(10 * SECOND, 0, latest_edge);
    let at = sample(Some(10 * SECOND), 0, latest_edge);
    let ready = controller.prepare(paused(), at, 0).unwrap();
    let command = controller.seek(ready, RequestedMs::Millis(5_000)).unwrap().unwrap();
    assert_eq!(command.action(), Action::Seek { target: 5 * SECOND, resume: Resume::Paused });
    let sequence = 7;
    assert_eq!(controller.complete(command, accepted(sequence), at, 0), Ok(false));
    // A rewind requested during the active seek waits behind it.
    let ready = controller.prepare(paused(), at, 0).unwrap();
    assert!(controller.seek(ready, RequestedMs::Millis(2_000)).unwrap().is_none());
    assert_eq!(controller.seek_target(), Some(2 * SECOND));
    let ready = controller.prepare(paused(), at, 0).unwrap();
    let command = controller.return_to_live(ready);
    assert_eq!(command.action(), Action::SetState(Resume::Playing));
    assert_eq!(
        controller.complete(command, Outcome { sequence: None, state_changed: true }, at, 0),
        Ok(false)
    );
    assert_eq!(controller.phase(), Phase::Seeking(Resume::Playing));
    assert_eq!(controller.seek_target(), Some(latest_edge - MSECOND));
    assert!(controller.take_notice().is_none());
    // The active seek finishes first, then the queued live edge is sought.
    let done = Output { segment: Some(sequence), buffered: Some(sequence), eos: None };
    let next = controller.poll(1, paused(), done, at).unwrap().unwrap();
    assert_eq!(
        next.action(),
        Action::Seek { target: latest_edge - MSECOND, resume: Resume::Playing }
    );
}

#[test]
fn forward_buffer_eviction_does_not_expire_queued_video() {
    let mut controller = Controller::new(StartPosition::Beginning, 0);
    controller.sample(sample(Some(0), 0, SECOND), 0);
    const BUFFER_SECONDS: u64 = 2;
    const EVICTIONS: u64 = 60;
    for start in 1..=EVICTIONS {
        let window = LiveWindow::ForwardBuffer(
            Range::new(start * SECOND, (start + BUFFER_SECONDS) * SECOND).unwrap(),
        );
        let at = sample(Some(0), start * SECOND, (start + BUFFER_SECONDS) * SECOND);
        assert_eq!(
            controller.retained(window, false, paused(), at, no_output(), false, 0),
            Ok(None)
        );
        assert_eq!(controller.phase(), Phase::Playing);
        assert!(controller.snapshot().range.is_none());
        assert!(controller.take_notice().is_none());
    }
}

#[test]
fn recovery_leaves_preroll_and_eviction_headroom_or_uses_short_window_midpoint() {
    let start = 30 * SECOND;
    let long = Range::new(start, start + 60 * SECOND).unwrap();
    assert_eq!(long.recovery_target(), start + SEEK_PREROLL_NS + RECOVERY_HEADROOM_NS);
    let short = Range::new(start, start + RECOVERY_HEADROOM_NS).unwrap();
    assert_eq!(short.recovery_target(), start + RECOVERY_HEADROOM_NS / 2);
}

#[test]
fn positions_are_validated_before_conversion_and_clamped_inside_eos() {
    let range = Range::new(0, 60 * SECOND).unwrap();
    for value in [f64::NAN, f64::INFINITY, -1.0] {
        assert_eq!(range.target(requested(value)), Err(Error::InvalidPosition));
    }
    assert_eq!(range.target(requested(f64::MAX)), Ok(59_999 * MSECOND));
    assert_eq!(range.target(requested(12_500.0)), Ok(12_500 * MSECOND));
}

#[test]
fn an_empty_range_is_not_a_range() {
    assert!(Range::new(5, 5).is_none());
    assert!(Range::new(6, 5).is_none());
    let range = Range::new(5 * SECOND, 5 * SECOND + 1).unwrap();
    assert_eq!(range.live_target(), 5 * SECOND);
    assert_eq!(range.target(RequestedMs::Millis(0)), Ok(5 * SECOND));
}

#[test]
fn resuming_an_expired_pause_recovers_inside_the_window_and_reports_expiry() {
    let (start, end) = (10 * SECOND, 70 * SECOND);
    let mut controller = paused_controller(SECOND, 0, end);
    let window = LiveWindow::History(Range::new(start, end).unwrap());
    let at = sample(Some(SECOND), start, end);
    assert_eq!(
        controller.retained(window, true, paused(), at, no_output(), false, 0),
        Ok(None)
    );
    let command = controller.pause(Resume::Playing, at, 0).unwrap().unwrap();
    let target = start + SEEK_PREROLL_NS + RECOVERY_HEADROOM_NS;
    assert_eq!(command.action(), Action::Seek { target, resume: Resume::Playing });
    assert_eq!(controller.complete(command, accepted(3), at, 0), Ok(false));
    assert_eq!(controller.take_notice(), Some(Notice::Expired));
    assert_eq!(controller.phase(), Phase::Seeking(Resume::Playing));
}

#[test]
fn end_of_stream_finishes_only_the_current_segment() {
    let mut controller = Controller::new(StartPosition::Beginning, 0);
    assert!(!controller.ended(4, Output { segment: Some(3), buffered: None, eos: None }));
    assert_eq!(controller.phase(), Phase::Playing);
    assert!(controller.ended(4, Output { segment: Some(4), buffered: None, eos: None }));
    assert_eq!(controller.phase(), Phase::Ended);
    let at = sample(None, 0, SECOND);
    assert_eq!(controller.pause(Resume::Paused, at, 0), Err(Error::Unavailable));
}

const RECEIVE_EDGE: u64 = 10 * SECOND;
const USER_POSITION: u64 = SECOND;

fn playing() -> PipelineState {
    PipelineState { ok: true, current: GstState::Playing, pending: GstState::VoidPending }
}

fn decoded(sequence: u32) -> Output {
    Output { segment: Some(sequence), buffered: Some(sequence), eos: None }
}

fn history_window() -> LiveWindow {
    LiveWindow::History(Range::new(0, RECEIVE_EDGE).unwrap())
}

fn at_user_position() -> Sample {
    sample(Some(USER_POSITION), 0, RECEIVE_EDGE)
}

#[test]
fn initial_alignment_waits_for_rendering_after_decoded_preroll() {
    let mut controller = Controller::new(StartPosition::LiveEdge, 0);
    let at = at_user_position();
    // Decoded preroll without a rendered frame does not align yet.
    assert_eq!(controller.retained(history_window(), false, playing(), at, decoded(1), false, 0), Ok(None));
    let command = controller.retained(history_window(), false, playing(), at, decoded(1), true, 0).unwrap().unwrap();
    assert_eq!(command.action(), Action::Seek { target: RECEIVE_EDGE - MSECOND, resume: Resume::Playing });
}

#[test]
fn live_start_waits_for_output_and_aligns_only_once_per_source() {
    let mut controller = Controller::new(StartPosition::LiveEdge, 0);
    let at = at_user_position();
    assert_eq!(controller.retained(history_window(), false, playing(), at, no_output(), true, 0), Ok(None));
    assert_eq!(controller.retained(history_window(), false, paused(), at, decoded(1), true, 0), Ok(None));
    let command = controller.retained(history_window(), false, playing(), at, decoded(1), true, 0).unwrap().unwrap();
    assert_eq!(controller.complete(command, accepted(2), at, 0), Ok(false));
    let done = controller.poll(1, playing(), decoded(2), at).unwrap();
    assert!(done.is_none());
    assert_eq!(controller.phase(), Phase::Playing);
    // Ordinary viewing behind the edge is never pulled to live again.
    assert_eq!(controller.retained(history_window(), false, playing(), at, decoded(2), true, 2), Ok(None));
}

#[test]
fn manual_pause_or_seek_before_initial_alignment_keeps_user_position() {
    let mut controller = Controller::new(StartPosition::LiveEdge, 0);
    let at = at_user_position();
    let command = controller.pause(Resume::Paused, at, 0).unwrap().unwrap();
    assert_eq!(controller.complete(command, Outcome { sequence: None, state_changed: true }, at, 0), Ok(false));
    let command = controller.pause(Resume::Playing, at, 0).unwrap().unwrap();
    assert_eq!(controller.complete(command, Outcome { sequence: None, state_changed: true }, at, 0), Ok(false));
    assert_eq!(controller.phase(), Phase::Playing);
    assert_eq!(controller.retained(history_window(), false, playing(), at, decoded(1), true, 0), Ok(None));
}

#[test]
fn beginning_playback_is_not_advanced_to_the_receive_edge() {
    let mut controller = Controller::new(StartPosition::Beginning, 0);
    let at = at_user_position();
    assert_eq!(controller.retained(history_window(), false, playing(), at, decoded(1), true, 0), Ok(None));
    assert_eq!(controller.phase(), Phase::Playing);
}

#[test]
fn rejected_initial_seek_keeps_playback_and_is_not_retried() {
    let mut controller = Controller::new(StartPosition::LiveEdge, 0);
    let at = at_user_position();
    let command = controller.retained(history_window(), false, playing(), at, decoded(1), true, 0).unwrap().unwrap();
    // The rejection is tolerated: playback goes on, and evaluating again does not retry.
    assert_eq!(controller.complete(command, rejected(), at, 0), Ok(true));
    assert_eq!(controller.phase(), Phase::Playing);
    assert_eq!(controller.retained(history_window(), false, playing(), at, decoded(1), true, 1), Ok(None));
}
