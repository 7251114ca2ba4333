use nagametv::live::{
    live_seek, Clock, History, LiveSeek, MediaMs, Observation, Program, Reading, Span, UtcMs,
};
use nagametv::projection::boundaries;
use nagametv::timeline::{Error, RequestedMs};

const SECOND_NS: u64 = 1_000_000_000;
const BROADCAST_UTC_MS: i64 = 1_700_000_000_000;

fn span(start: i64, end: i64) -> Span {
    Span { start: MediaMs(start), end: MediaMs(end) }
}

fn program(event_id: u16, start_at: i64, duration: u64, name: &str) -> Program {
    Program {
        network_id: 4,
        transport_stream_id: 16625,
        service_id: 101,
        event_id,
        start_at: Some(start_at),
        duration: Some(duration),
        name: name.into(),
        description: String::new(),
        extended: String::new(),
        genre_count: 0,
        audio_bytes: 0,
    }
}

fn observation(id: u64, current: Program, next: Program) -> Observation {
    Observation {
        id,
        station: "Station".into(),
        provider: "Provider".into(),
        current: vec![current],
        next: vec![next],
    }
}

#[test]
fn reconnect_gaps_and_clock_jumps_do_not_create_seekable_missing_time() {
    let mut history = History::new();
    history.observe(0, 0, 10 * SECOND_NS, None, None);
    history.observe(0, 5 * SECOND_NS, 10 * SECOND_NS, None, None);
    // A reconnection: a new PCR epoch after a gap.
    history.observe(1, 20 * SECOND_NS, 30 * SECOND_NS, None, None);
    let retained = history.retained(Some(span(0, 30_000)));
    assert_eq!(retained, vec![span(0, 10_000), span(20_000, 30_000)]);
    assert!(history.retained(None).is_empty());
    let seek = |ms| history.seek_target(0, 30 * SECOND_NS, RequestedMs::Millis(ms));
    assert_eq!(seek(5_000), Ok(LiveSeek::Unchanged));
    // Inside the gap: the next span, after preroll and headroom.
    assert_eq!(seek(15_000), Ok(LiveSeek::Adjusted(25_000)));
    // Past the end: the last received millisecond.
    assert_eq!(seek(40_000), Ok(LiveSeek::Adjusted(29_999)));
    assert_eq!(
        history.seek_target(0, 30 * SECOND_NS, RequestedMs::Invalid),
        Err(Error::InvalidPosition)
    );
    assert_eq!(history.epochs().len(), 2);
}

#[test]
fn live_seeks_land_on_retained_time() {
    let spans = vec![span(10_000, 20_000), span(40_000, 41_000)];
    assert_eq!(live_seek(&spans, MediaMs(15_000)), Ok(LiveSeek::Unchanged));
    assert_eq!(live_seek(&spans, MediaMs(0)), Ok(LiveSeek::Adjusted(15_000)));
    // A short span recovers at its midpoint.
    assert_eq!(live_seek(&spans, MediaMs(30_000)), Ok(LiveSeek::Adjusted(40_500)));
    assert_eq!(live_seek(&spans, MediaMs(50_000)), Ok(LiveSeek::Adjusted(40_999)));
    assert_eq!(live_seek(&Vec::new(), MediaMs(0)), Err(Error::Unavailable));
}

#[test]
fn a_broadcast_clock_maps_both_ways() {
    let clock = Clock { media: MediaMs(5_000), utc: UtcMs(BROADCAST_UTC_MS) };
    assert_eq!(clock.utc(MediaMs(6_500)), UtcMs(BROADCAST_UTC_MS + 1_500));
    assert_eq!(clock.media(BROADCAST_UTC_MS - 5_000), MediaMs(0));
    assert_eq!(clock.media(i64::MIN), MediaMs(i64::MIN + 5_000));
    assert_eq!(MediaMs::from_ns(1_999_999), MediaMs(1));
    assert!(span(0, 10).contains(MediaMs(0)));
    assert!(!span(0, 10).contains(MediaMs(10)));
    assert!(span(0, 10).intersects(span(9, 20)));
    assert!(!span(0, 10).intersects(span(10, 20)));
}

#[test]
fn program_spans_come_from_the_broadcast_clock_and_not_the_presented_frame() {
    let mut history = History::new();
    // At stream time 60 s the broadcast clock reads BROADCAST_UTC_MS.
    let now = BROADCAST_UTC_MS;
    let first = program(1, now - 30_000, 60_000, "First");
    let second = program(2, now + 30_000, 60_000, "Second");
    let reading = Reading { utc_ms: Some(now), range_start_ns: 0 };
    history.observe(0, 60 * SECOND_NS, 61 * SECOND_NS, Some(&observation(1, first, second)), Some(reading));
    assert_eq!(history.epochs().len(), 1);
    assert_eq!(
        history.epoch_clock(MediaMs(60_000)),
        Some(Clock { media: MediaMs(60_000), utc: UtcMs(now) })
    );
    let third = program(3, now + 90_000, 60_000, "Third");
    let second = program(2, now + 30_000, 60_000, "Second");
    let later = Reading { utc_ms: Some(now + 60_000), range_start_ns: 0 };
    history.observe(0, 120 * SECOND_NS, 121 * SECOND_NS, Some(&observation(2, second, third)), Some(later));
    let display = span(0, 300_000);
    let programs = history.program_spans(display);
    let titles: Vec<&str> = programs.iter().map(|p| p.title.as_str()).collect();
    assert_eq!(titles, ["First", "Second", "Third"]);
    assert_eq!((programs[0].start, programs[0].end), (MediaMs(30_000), MediaMs(90_000)));
    assert_eq!((programs[1].start, programs[1].end), (MediaMs(90_000), MediaMs(150_000)));
    assert_eq!((programs[2].start, programs[2].end), (MediaMs(150_000), MediaMs(210_000)));
    // Adjoining programs share one boundary inside the axis.
    let points = boundaries(&programs, MediaMs(0), MediaMs(300_000));
    assert_eq!(points, vec![MediaMs(30_000), MediaMs(90_000), MediaMs(150_000), MediaMs(210_000)]);
    // Presenting an older frame changes nothing of the schedule.
    history.set_presented(10 * SECOND_NS);
    assert_eq!(history.program_spans(display).len(), 3);
}
