use nagametv::live::{Clock, History, MediaMs, Observation, Program, Reading as ClockReading, RecordId, Span, UtcMs};
use nagametv::presenter::{Lookup, Lookups, Presenter, Reading, Selection};
use nagametv::projection::{Availability, ClockMode, PlaybackState};
use nagametv::timeline::{Phase, Resume};

const SECOND_NS: u64 = 1_000_000_000;
const NOW_UTC_MS: i64 = 1_700_000_000_000;

fn program(event_id: u16, start_at: i64, duration: u64, name: &str) -> Program {
    Program {
        network_id: 4,
        transport_stream_id: 16625,
        service_id: 101,
        event_id,
        start_at: Some(start_at),
        duration: Some(duration),
        name: name.into(),
        description: String::new(),
        extended: String::new(),
        genre_count: 0,
        audio_bytes: 0,
    }
}

fn history() -> History {
    let mut history = History::new();
    let observation = Observation {
        id: 1,
        station: "Station".into(),
        provider: "Provider".into(),
        current: vec![program(1, NOW_UTC_MS - 30_000, 60_000, "First")],
        next: vec![program(2, NOW_UTC_MS + 30_000, 60_000, "Second")],
    };
    history.observe(0, 0, SECOND_NS, None, None);
    history.observe(
        0,
        60 * SECOND_NS,
        61 * SECOND_NS,
        Some(&observation),
        Some(ClockReading { utc_ms: Some(NOW_UTC_MS), range_start_ns: 0 }),
    );
    history
}

fn selection(event_id: u16, start: i64, end: i64) -> Option<Selection> {
    Some(Selection {
        id: RecordId { epoch: 0, network_id: 4, transport_stream_id: 16625, service_id: 101, event_id },
        span: Some(Span { start: MediaMs(start), end: MediaMs(end) }),
    })
}

fn lookups(viewing_utc: Option<UtcMs>) -> Lookups {
    let first = selection(1, 30_000, 90_000);
    Lookups {
        live: Lookup { program: first, pending: false, utc: Some(UtcMs(NOW_UTC_MS + 999)) },
        oldest: Lookup { program: None, pending: false, utc: None },
        viewing: Lookup { program: first, pending: false, utc: viewing_utc },
    }
}

fn reading(phase: Phase, position_ns: Option<u64>) -> Reading {
    Reading { phase, position_ns, target_ns: None }
}

#[test]
fn projection_draws_the_axis_programs_and_viewed_frame() {
    let mut history = history();
    let mut presenter = Presenter::new("7".into());
    assert!(presenter.owns("7"));
    assert!(!presenter.owns("8"));
    let position = 61 * SECOND_NS - 1;
    let snapshot = presenter.project(
        &mut history,
        0,
        61 * SECOND_NS,
        true,
        reading(Phase::Playing, Some(position)),
        lookups(Some(UtcMs(NOW_UTC_MS + 999))),
    );
    assert_eq!(snapshot.revision, 1);
    assert_eq!(snapshot.state, PlaybackState::Playing);
    // From the oldest received position to the end of the live program.
    assert_eq!((snapshot.axis.start, snapshot.axis.end), (MediaMs(0), MediaMs(90_000)));
    assert_eq!(snapshot.axis.clock, ClockMode::Broadcast);
    assert_eq!(snapshot.axis.end_utc, Some(UtcMs(NOW_UTC_MS + 30_000)));
    assert_eq!(snapshot.live.position, MediaMs(61_000));
    assert_eq!(snapshot.live.utc, Some(UtcMs(NOW_UTC_MS + 1_000)));
    assert_eq!(snapshot.available, vec![Span { start: MediaMs(0), end: MediaMs(61_000) }]);
    let viewing = snapshot.viewing.unwrap();
    assert_eq!(viewing.position, MediaMs(60_999));
    assert_eq!(viewing.availability, Availability::Available);
    assert!(!viewing.offscreen);
    assert_eq!(viewing.program, selection(1, 30_000, 90_000));
    let titles: Vec<&str> = snapshot.programs.iter().map(|p| p.title.as_str()).collect();
    // The following program starts where the axis ends.
    assert_eq!(titles, ["First"]);
    assert_eq!(snapshot.boundaries, vec![MediaMs(30_000)]);
    assert_eq!(snapshot.clocks.len(), 1);
    assert_eq!(snapshot.clocks[0].1, Clock { media: MediaMs(60_000), utc: UtcMs(NOW_UTC_MS) });
    // The same view again is the same revision.
    let again = presenter.project(
        &mut history,
        0,
        61 * SECOND_NS,
        true,
        reading(Phase::Playing, Some(position)),
        lookups(Some(UtcMs(NOW_UTC_MS + 999))),
    );
    assert_eq!(again.revision, 1);
    let preview = presenter.preview("7", MediaMs(45_000)).unwrap();
    assert_eq!(preview.program, Some(0));
    assert_eq!(preview.utc, Some(UtcMs(NOW_UTC_MS - 15_000)));
    assert!(preview.available);
    assert!(presenter.preview("8", MediaMs(45_000)).is_none());
    assert!(presenter.preview("7", MediaMs(95_000)).unwrap().program.is_none());
}

#[test]
fn a_paused_view_keeps_its_frame_until_the_position_changes_state() {
    let mut history = history();
    let mut presenter = Presenter::new("1".into());
    let paused = reading(Phase::Paused, Some(30 * SECOND_NS));
    let first = presenter.project(&mut history, 0, 61 * SECOND_NS, true, paused, lookups(None));
    assert_eq!(first.viewing.unwrap().position, MediaMs(30_000));
    assert_eq!(presenter.viewed_position(Phase::Paused, Some(40 * SECOND_NS)), Some(30 * SECOND_NS));
    let later = reading(Phase::Paused, Some(40 * SECOND_NS));
    let second = presenter.project(&mut history, 0, 61 * SECOND_NS, true, later, lookups(None));
    assert_eq!(second.viewing.unwrap().position, MediaMs(30_000));
    assert_eq!(second.revision, 1);
    // A seek target changes what is shown, and so the revision.
    let seeking = Reading { phase: Phase::Seeking(Resume::Paused), position_ns: None, target_ns: Some(5 * SECOND_NS) };
    let third = presenter.project(&mut history, 0, 61 * SECOND_NS, true, seeking, lookups(None));
    assert_eq!(third.viewing.unwrap().position, MediaMs(30_000));
    assert_eq!(third.seek_target, Some(MediaMs(5_000)));
    assert_eq!(third.revision, 2);
    assert_eq!(presenter.viewed_position(Phase::Playing, Some(50 * SECOND_NS)), Some(50 * SECOND_NS));
    // Without retention the frame is outside any retained time.
    let fourth = presenter.project(
        &mut history,
        0,
        61 * SECOND_NS,
        false,
        reading(Phase::Playing, Some(50 * SECOND_NS)),
        lookups(None),
    );
    assert_eq!(fourth.viewing.unwrap().availability, Availability::Disabled);
    assert!(fourth.available.is_empty());
}
