use nagametv::comments::{comment_source, query_start, ClockSpan, MappedSpan, Source};
use nagametv::input::{Coverage, Window};

const MS: u64 = 1_000_000;

fn window(start_ms: u64, end_ms: u64, coverage: Coverage) -> Window {
    Window { start: start_ms * MS, end: end_ms * MS, coverage, seekable: true }
}

fn mapped(key: u32, channel: Option<u16>, start_ms: u64, end_ms: u64) -> MappedSpan<u32> {
    MappedSpan { key, channel, start_ns: start_ms * MS, end_ns: end_ms * MS + 999_999, utc_start_ms: 1_700_000_000_000 + start_ms as i64 }
}

fn recording(source: Option<Source<u32, &str>>) -> (bool, Vec<ClockSpan<u32>>) {
    match source {
        Some(Source::Recording { known, spans }) => (known, spans),
        _ => panic!("a recording source was expected"),
    }
}

#[test]
fn a_recording_is_known_once_gapless_spans_cover_its_complete_duration() {
    let spans = vec![mapped(1, Some(7), 0, 60_000), mapped(2, Some(7), 59_000, 120_000)];
    let (known, out) = recording(comment_source(Some(window(0, 120_000, Coverage::Complete)), false, &spans, None, "off"));
    assert!(known);
    assert_eq!(out.len(), 2);
    assert_eq!((out[0].media_start_ms, out[0].media_end_ms), (0, 60_000));
    assert_eq!((out[1].key, out[1].channel, out[1].media_start_ms), (2, 7, 59_000));
    assert_eq!(out[1].utc_start_ms, 1_700_000_059_000);
    // The same spans over an estimated duration are still being discovered.
    let (known, _) = recording(comment_source(Some(window(0, 120_000, Coverage::Estimated)), false, &spans, None, "off"));
    assert!(!known);
}

#[test]
fn gaps_short_spans_and_unknown_channels_leave_a_recording_undiscovered() {
    let full = window(0, 120_000, Coverage::Complete);
    let gap = vec![mapped(1, Some(7), 0, 50_000), mapped(2, Some(7), 60_000, 120_000)];
    let (known, out) = recording(comment_source(Some(full), false, &gap, None, "off"));
    assert!(!known);
    assert_eq!(out.len(), 2);
    let short = vec![mapped(1, Some(7), 0, 100_000)];
    assert!(!recording(comment_source(Some(full), false, &short, None, "off")).0);
    let unknown = vec![mapped(1, Some(7), 0, 60_000), mapped(2, None, 60_000, 120_000)];
    let (known, out) = recording(comment_source(Some(full), false, &unknown, None, "off"));
    assert!(!known);
    assert_eq!(out.len(), 1);
    assert_eq!(out[0].key, 1);
}

#[test]
fn a_live_source_starts_at_its_earliest_retained_time_and_knows_its_edge() {
    let live = window(30_000, 90_000, Coverage::Partial);
    let spans = vec![mapped(3, Some(9), 20_000, 90_000)];
    match comment_source(Some(live), true, &spans, Some(86_000 * MS), "stream") {
        Some(Source::Live { earliest_media_ms, spans, reception, at_edge }) => {
            assert_eq!(earliest_media_ms, 30_000);
            assert_eq!(spans.len(), 1);
            assert_eq!(reception, "stream");
            assert!(at_edge);
        }
        _ => panic!("a live source was expected"),
    }
    match comment_source(Some(live), true, &spans, Some(80_000 * MS), "stream") {
        Some(Source::Live { at_edge, .. }) => assert!(!at_edge),
        _ => panic!("a live source was expected"),
    }
    assert!(comment_source::<u32, &str>(None, true, &spans, None, "stream").is_none());
}

#[test]
fn live_catalog_queries_look_back_by_the_comment_lifetime() {
    let live = window(30_000, 90_000, Coverage::Partial);
    assert_eq!(query_start(live, true, 10_000 * MS), 20_000 * MS);
    assert_eq!(query_start(live, true, 40_000 * MS), 0);
    assert_eq!(query_start(live, false, 10_000 * MS), 30_000 * MS);
}
