use nagametv::live::{
    History, LiveSeek, MediaMs, Observation, Program, Reading as ClockReading, RecordId, Span, UtcMs, MAX_EPOCHS,
    MAX_PROGRAMS, MAX_PROGRAM_BYTES,
};
use nagametv::presenter::{Lookup, Lookups, Presenter, Reading, Selection, Snapshot};
use nagametv::projection::{Availability, ClockMode};
use nagametv::timeline::{Phase, RequestedMs, Resume};

const SECOND_MS: i64 = 1_000;
const MINUTE_MS: i64 = 60 * SECOND_MS;
const SHOW_MS: i64 = 30 * MINUTE_MS;
const BROADCAST_START_MS: i64 = 1_800_000_000_000;
const EPOCH: u64 = 1;

fn ns(ms: i64) -> u64 {
    ms as u64 * 1_000_000
}

fn program(id: u16, start: i64) -> Program {
    Program {
        event_id: id,
        service_id: 1,
        network_id: 1,
        transport_stream_id: 1,
        start_at: Some(BROADCAST_START_MS + start),
        duration: Some(SHOW_MS as u64),
        name: format!("番組{id}"),
        description: String::new(),
        extended: String::new(),
        genre_count: 0,
        audio_bytes: 0,
    }
}

fn observe(history: &mut History, epoch: u64, position: i64, utc: i64, event: Option<Program>) {
    let observation = Observation {
        id: position as u64,
        station: String::new(),
        provider: String::new(),
        current: event.into_iter().collect(),
        next: Vec::new(),
    };
    history.observe(
        epoch,
        ns(position),
        ns(position + SECOND_MS),
        Some(&observation),
        Some(ClockReading { utc_ms: Some(utc), range_start_ns: ns(position) }),
    );
}

fn three_programs() -> History {
    let mut history = History::new();
    for id in 1..=3 {
        let start = i64::from(id - 1) * SHOW_MS;
        observe(&mut history, EPOCH, start, BROADCAST_START_MS + start, Some(program(id, start)));
    }
    history.advance_end(ns(75 * MINUTE_MS));
    history
}

/// What the program catalog of `shows` answers at a position.
fn catalog(shows: u16, position: i64) -> Lookup {
    let program = (1..=shows).find_map(|id| {
        let start = i64::from(id - 1) * SHOW_MS;
        (start <= position && position < start + SHOW_MS).then_some(Selection {
            id: RecordId { epoch: 0, network_id: 1, transport_stream_id: 1, service_id: 1, event_id: id },
            span: Some(Span { start: MediaMs(start), end: MediaMs(start + SHOW_MS) }),
        })
    });
    Lookup { program, pending: false, utc: Some(UtcMs(BROADCAST_START_MS + position)) }
}

fn event_of(lookup: Option<Selection>) -> Option<u16> {
    lookup.map(|selection| selection.id.event_id)
}

fn project_at(
    presenter: &mut Presenter,
    history: &mut History,
    shows: u16,
    start: i64,
    end: i64,
    enabled: bool,
    phase: Phase,
    position: i64,
    target: Option<i64>,
) -> Snapshot {
    let viewed = presenter.viewed_position(phase, Some(ns(position))).unwrap();
    let oldest = if enabled { start } else { end - 1 };
    let lookups = Lookups {
        live: catalog(shows, end - 1),
        oldest: catalog(shows, oldest),
        viewing: catalog(shows, viewed as i64 / 1_000_000),
    };
    let reading = Reading { phase, position_ns: Some(ns(position)), target_ns: target.map(ns) };
    presenter.project(history, ns(start), ns(end), enabled, reading, lookups)
}

fn project(presenter: &mut Presenter, history: &mut History, start: i64, end: i64, phase: Phase, position: i64) -> Snapshot {
    project_at(presenter, history, 3, start, end, true, phase, position, None)
}

#[test]
fn three_program_axis_and_broadcast_progress_do_not_follow_the_playhead() {
    let mut history = three_programs();
    let mut presenter = Presenter::new("1".into());
    let old = project(&mut presenter, &mut history, 10 * MINUTE_MS, 75 * MINUTE_MS, Phase::Playing, 20 * MINUTE_MS);
    assert_eq!((old.axis.start.0, old.axis.end.0), (0, 90 * MINUTE_MS));
    assert_eq!(old.programs.len(), 3);
    assert_eq!(old.programs[0].title, "番組1");
    assert_eq!(old.boundaries, [MediaMs(SHOW_MS), MediaMs(2 * SHOW_MS)]);
    assert_eq!((old.available[0].start.0, old.available[0].end.0), (10 * MINUTE_MS, 75 * MINUTE_MS));
    assert_eq!(event_of(old.viewing.unwrap().program), Some(1));
    assert_eq!(event_of(old.live.program), Some(3));
    let live = old.live.program.unwrap().span.unwrap();
    let progress = (old.live.position.0 - live.start.0) as f64 / (live.end.0 - live.start.0) as f64;
    assert!((progress - 0.5).abs() < 0.001);
    let new = project(&mut presenter, &mut history, 10 * MINUTE_MS, 75 * MINUTE_MS, Phase::Playing, 40 * MINUTE_MS);
    assert_eq!(new.axis, old.axis);
    assert_eq!(new.live, old.live);
    assert_eq!(event_of(new.viewing.unwrap().program), Some(2));
}

#[test]
fn partial_expiry_keeps_axis_and_full_eviction_keeps_only_the_paused_description() {
    let mut history = three_programs();
    let mut presenter = Presenter::new("1".into());
    let paused = project(&mut presenter, &mut history, 10 * MINUTE_MS, 75 * MINUTE_MS, Phase::Paused, 20 * MINUTE_MS);
    history.expire(ns(25 * MINUTE_MS), 0);
    let expired = project(&mut presenter, &mut history, 25 * MINUTE_MS, 75 * MINUTE_MS, Phase::Paused, 20 * MINUTE_MS);
    assert_eq!(expired.axis, paused.axis);
    assert_eq!(expired.viewing.unwrap().availability, Availability::Expired);
    assert_eq!(expired.viewing.unwrap().program, paused.viewing.unwrap().program);
    history.expire(ns(35 * MINUTE_MS), 0);
    let outside = project(&mut presenter, &mut history, 35 * MINUTE_MS, 75 * MINUTE_MS, Phase::Paused, 20 * MINUTE_MS);
    assert_eq!(outside.axis.start.0, SHOW_MS);
    let view = outside.viewing.unwrap();
    assert!(view.offscreen);
    assert_eq!(view.position.0, 20 * MINUTE_MS);
    assert_eq!(event_of(view.program), Some(1));
    assert_eq!(outside.programs.len(), 2);
}

#[test]
fn seek_target_does_not_replace_presented_frame_until_output_is_confirmed() {
    let mut history = three_programs();
    let mut presenter = Presenter::new("1".into());
    let before = project(&mut presenter, &mut history, 10 * MINUTE_MS, 75 * MINUTE_MS, Phase::Paused, 20 * MINUTE_MS);
    let target = 65 * MINUTE_MS;
    let seeking = project_at(
        &mut presenter,
        &mut history,
        3,
        10 * MINUTE_MS,
        75 * MINUTE_MS,
        true,
        Phase::Seeking(Resume::Paused),
        target,
        Some(target),
    );
    assert_eq!(seeking.viewing, before.viewing);
    assert_eq!(seeking.axis, before.axis);
    assert_eq!(seeking.seek_target, Some(MediaMs(target)));
    let completed = project(&mut presenter, &mut history, 10 * MINUTE_MS, 75 * MINUTE_MS, Phase::Paused, target);
    assert_eq!(event_of(completed.viewing.unwrap().program), Some(3));
    assert!(completed.seek_target.is_none());
}

#[test]
fn missing_clock_disabled_history_and_clock_acquisition_are_explicit() {
    let mut history = History::new();
    history.observe(EPOCH, 0, ns(MINUTE_MS), None, None);
    let mut presenter = Presenter::new("1".into());
    let elapsed = project_at(&mut presenter, &mut history, 0, 0, MINUTE_MS, true, Phase::Playing, 0, None);
    assert_eq!(elapsed.axis.clock, ClockMode::Elapsed);
    assert!(!elapsed.available.is_empty());
    observe(&mut history, EPOCH, MINUTE_MS, BROADCAST_START_MS + MINUTE_MS, Some(program(1, 0)));
    let disabled = project_at(&mut presenter, &mut history, 1, 0, MINUTE_MS, false, Phase::Paused, 0, None);
    assert_eq!(disabled.axis.clock, ClockMode::Broadcast);
    assert_eq!(disabled.axis.end.0, SHOW_MS);
    assert!(disabled.available.is_empty());
    assert_eq!(disabled.viewing.unwrap().availability, Availability::Disabled);
}

/// What the catalog answers while one event `id` with `span` is on air at every position.
fn on_air(id: u16, span: Span, position: i64) -> Lookup {
    let program = (span.start.0 <= position && position < span.end.0).then_some(Selection {
        id: RecordId { epoch: 0, network_id: 1, transport_stream_id: 1, service_id: 1, event_id: id },
        span: Some(span),
    });
    Lookup { program, pending: false, utc: Some(UtcMs(BROADCAST_START_MS + position)) }
}

fn project_with(presenter: &mut Presenter, history: &mut History, end: i64, span: Span) -> Snapshot {
    let lookups = Lookups { live: on_air(1, span, end - 1), oldest: on_air(1, span, 0), viewing: on_air(1, span, 0) };
    let reading = Reading { phase: Phase::Playing, position_ns: Some(0), target_ns: None };
    presenter.project(history, 0, ns(end), true, reading, lookups)
}

#[test]
fn missing_si_preserves_known_schedule_but_does_not_extend_an_ended_show() {
    let mut history = History::new();
    observe(&mut history, EPOCH, 0, BROADCAST_START_MS, Some(program(1, 0)));
    let mut presenter = Presenter::new("1".into());
    let initial = project_at(&mut presenter, &mut history, 1, 0, SECOND_MS, true, Phase::Playing, 0, None);
    let halfway = SHOW_MS / 2;
    observe(&mut history, EPOCH, halfway, BROADCAST_START_MS + halfway, None);
    let missing = project_at(&mut presenter, &mut history, 1, 0, halfway, true, Phase::Playing, halfway, None);
    assert_eq!(missing.axis, initial.axis);
    assert_eq!(event_of(missing.live.program), Some(1));
    let after = SHOW_MS + SECOND_MS;
    history.advance_end(ns(after));
    let ended = project_at(&mut presenter, &mut history, 1, 0, after, true, Phase::Playing, halfway, None);
    assert!(ended.live.program.is_none());
    assert_eq!(ended.axis.start.0, 0);
    assert_eq!(ended.axis.end.0, after);
    assert!(ended.axis.end.0 >= initial.axis.end.0);
    assert!(!ended.available.is_empty());
}

#[test]
fn schedule_changes_update_existing_event_and_preserve_media_coordinates() {
    let mut history = History::new();
    observe(&mut history, EPOCH, 0, BROADCAST_START_MS, Some(program(1, 0)));
    let mut extended = program(1, 0);
    extended.duration = Some((SHOW_MS + 10 * MINUTE_MS) as u64);
    observe(&mut history, EPOCH, MINUTE_MS, BROADCAST_START_MS + MINUTE_MS, Some(extended));
    let mut presenter = Presenter::new("1".into());
    let longer = Span { start: MediaMs(0), end: MediaMs(40 * MINUTE_MS) };
    let snapshot = project_with(&mut presenter, &mut history, MINUTE_MS, longer);
    assert_eq!(snapshot.programs.len(), 1);
    assert_eq!(snapshot.axis.end.0, 40 * MINUTE_MS);
    let shifted = program(1, -MINUTE_MS);
    observe(&mut history, EPOCH, 2 * MINUTE_MS, BROADCAST_START_MS + 2 * MINUTE_MS, Some(shifted));
    let earlier = Span { start: MediaMs(-MINUTE_MS), end: MediaMs(SHOW_MS - MINUTE_MS) };
    let changed = project_with(&mut presenter, &mut history, 2 * MINUTE_MS, earlier);
    assert_eq!(changed.programs.len(), 1);
    assert_eq!(changed.axis.start.0, -MINUTE_MS);
}

#[test]
fn expired_drag_uses_recovery_headroom_and_stale_session_preview_is_rejected() {
    let mut history = three_programs();
    let start = 35 * MINUTE_MS;
    let target = history.seek_target(ns(start), ns(75 * MINUTE_MS), RequestedMs::Millis(20 * MINUTE_MS));
    let expected_headroom = 5 * SECOND_MS;
    assert_eq!(target, Ok(LiveSeek::Adjusted(start + expected_headroom)));
    assert!(history.seek_target(0, ns(SHOW_MS), RequestedMs::Invalid).is_err());
    let mut old = Presenter::new("1".into());
    let snapshot = project(&mut old, &mut history, 0, 75 * MINUTE_MS, Phase::Playing, 0);
    assert!(old.owns("1"));
    assert!(old.preview("1", MediaMs(0)).is_some());
    let new = Presenter::new("2".into());
    assert!(!new.owns("1"));
    assert!(new.preview("1", MediaMs(0)).is_none());
    assert_eq!(snapshot.available.len(), 1);
}

#[test]
fn catalog_limits_do_not_reduce_available_ts_and_revisions_change_only_with_content() {
    let mut history = History::new();
    for id in 1..=(MAX_PROGRAMS + 1) as u16 {
        let position = i64::from(id - 1) * SECOND_MS;
        observe(&mut history, EPOCH, position, BROADCAST_START_MS + position, Some(program(id, position)));
    }
    assert_eq!(history.epochs()[0].records.len(), MAX_PROGRAMS);
    let mut huge = program(u16::MAX, SHOW_MS);
    huge.description = "x".repeat(MAX_PROGRAM_BYTES + 1);
    observe(&mut history, EPOCH, SHOW_MS, BROADCAST_START_MS + SHOW_MS, Some(huge));
    assert!(history.epochs()[0].records.is_empty());
    let mut presenter = Presenter::new("1".into());
    let first = project_at(&mut presenter, &mut history, 0, 0, SHOW_MS, true, Phase::Playing, 0, None);
    assert_eq!(first.available[0].start.0, 0);
    assert_eq!(first.available[0].end.0, SHOW_MS);
    let same = project_at(&mut presenter, &mut history, 0, 0, SHOW_MS, true, Phase::Playing, 0, None);
    assert_eq!(same.revision, first.revision);
    let advanced = project_at(&mut presenter, &mut history, 0, 0, SHOW_MS, true, Phase::Playing, SECOND_MS, None);
    assert!(advanced.revision > same.revision);
}

#[test]
fn clock_catalog_limit_keeps_older_bytes_seekable_as_unknown_programs() {
    let mut history = History::new();
    for epoch in 0..=(MAX_EPOCHS as u64) {
        let position = epoch as i64 * SECOND_MS;
        observe(&mut history, epoch, position, BROADCAST_START_MS + position, Some(program(1, 0)));
    }
    assert_eq!(history.epochs().len(), MAX_EPOCHS);
    assert!(history.epoch_index(MediaMs(0)).is_none());
    assert!(history.epoch_clock(MediaMs(0)).is_none());
    let target = history.seek_target(0, ns(MAX_EPOCHS as i64 * SECOND_MS), RequestedMs::Millis(0));
    assert_eq!(target, Ok(LiveSeek::Unchanged));
}

#[test]
fn broadcast_program_changes_while_the_viewer_stays_in_a_past_program() {
    let mut history = three_programs();
    let mut presenter = Presenter::new("1".into());
    let before = project(&mut presenter, &mut history, 10 * MINUTE_MS, 50 * MINUTE_MS, Phase::Playing, 20 * MINUTE_MS);
    let after = project(&mut presenter, &mut history, 10 * MINUTE_MS, 75 * MINUTE_MS, Phase::Playing, 20 * MINUTE_MS);
    assert_eq!(before.viewing, after.viewing);
    assert_eq!(event_of(before.live.program), Some(2));
    assert_eq!(event_of(after.live.program), Some(3));
    assert_eq!(before.axis.end.0, 2 * SHOW_MS);
    assert_eq!(after.axis.end.0, 3 * SHOW_MS);
}

#[test]
fn old_broadcast_clock_is_not_reused_after_pcr_epoch_change() {
    let mut history = History::new();
    let observation = Observation {
        id: 1,
        station: String::new(),
        provider: String::new(),
        current: vec![program(1, 0)],
        next: Vec::new(),
    };
    let reading = ClockReading { utc_ms: Some(BROADCAST_START_MS), range_start_ns: 0 };
    history.observe(EPOCH, 0, ns(SECOND_MS), Some(&observation), Some(reading));
    // The catalog has no broadcast time for the new PCR epoch: the old one is not carried.
    history.observe(EPOCH + 1, ns(SECOND_MS), ns(2 * SECOND_MS), Some(&observation), None);
    assert!(history.epoch_clock(MediaMs(SECOND_MS)).is_none());
    assert!(history.epochs().last().unwrap().clock.is_none());
    observe(&mut history, EPOCH + 1, 2 * SECOND_MS, BROADCAST_START_MS + SHOW_MS, Some(program(2, SHOW_MS)));
    let clock = history.epoch_clock(MediaMs(2 * SECOND_MS)).unwrap();
    assert_eq!(clock.utc(MediaMs(2 * SECOND_MS)), UtcMs(BROADCAST_START_MS + SHOW_MS));
}
