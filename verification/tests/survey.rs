use nagametv::index::{Index, NANOSECONDS_PER_SECOND, PCR_HZ};
use nagametv::survey::{
    probe_continues, probe_request, probe_start, tail_offset, Meter, Step, Survey, MAX_SEARCH_PREROLL_NS, PROBE_BYTES,
};

const BYTES_PER_SECOND: u64 = 1_000_000;
/// One PCR every tenth of a second, for a minute.
const PCRS: u64 = 600;

fn offset_of(k: u64) -> u64 {
    k * BYTES_PER_SECOND / 10
}

/// What a probe from `offset` indexes: the PCRs within a probe's bytes.
fn probe(offset: u64) -> Index {
    let mut index = Index::new();
    for k in 0..PCRS {
        let at = offset_of(k);
        if at >= offset && at < offset + PROBE_BYTES {
            index.pcr_packet(at, k * PCR_HZ / 10, false, 1, 0);
        }
    }
    index
}

fn survey() -> Survey {
    let size = offset_of(PCRS);
    let head = probe(0);
    let tail = probe(tail_offset(size, 0));
    Survey::discover(&head, &tail, false).unwrap()
}

#[test]
fn endpoints_and_far_seek_use_bounded_reads_and_cancel_between_blocks() {
    let survey = survey();
    assert_eq!(survey.start_ns(), 0);
    // The tail's last PCR is at 59.9 s and presents one more step.
    assert_eq!(survey.end_ns(), 60 * NANOSECONDS_PER_SECOND);
    const TARGET: u64 = 45 * NANOSECONDS_PER_SECOND;
    let desired = TARGET - 3 * NANOSECONDS_PER_SECOND;
    let mut search = survey.search(TARGET);
    let mut probes = 0;
    let anchor = loop {
        match search.next() {
            Step::Found(anchor) => break anchor,
            Step::Unindexed => panic!("unindexed"),
            Step::Probe(offset) => {
                probes += 1;
                let sample = probe(offset);
                match search.sampled(&survey, Some(&sample)) {
                    Some(Step::Found(anchor)) => break anchor,
                    Some(step) => panic!("unexpected {step:?}"),
                    None => {}
                }
            }
        }
    };
    assert_eq!(probes, 1);
    assert!(anchor.time_ns <= desired);
    assert!(desired - anchor.time_ns <= MAX_SEARCH_PREROLL_NS);
    // A probe that finds nothing ends the search.
    let mut search = survey.search(TARGET);
    assert!(matches!(search.next(), Step::Probe(_)));
    assert_eq!(search.sampled(&survey, None), Some(Step::Unindexed));
    // A target before the first anchor starts at it.
    assert!(matches!(survey.search(NANOSECONDS_PER_SECOND).next(), Step::Found(a) if a.offset == 0));
}

#[test]
fn a_clock_reset_is_no_survey_and_disagrees_with_it() {
    let survey = survey();
    let mut reset = Index::new();
    reset.pcr_packet(0, 0, false, 1, 0);
    reset.pcr_packet(100_000, PCR_HZ / 10, true, 1, 0);
    assert!(!survey.agrees_with(&reset));
    assert!(survey.agrees_with(&probe(0)));
    assert!(survey.agrees_with(&Index::new()));
    assert!(Survey::discover(&reset, &probe(tail_offset(offset_of(PCRS), 0)), false).is_none());
    assert!(Survey::discover(&Index::new(), &probe(0), false).is_none());
    // Endpoints that do not advance in the file are no survey.
    let mut start = Index::new();
    start.pcr_packet(0, 0, false, 1, 0);
    assert!(Survey::discover(&probe(0), &start, false).is_none());
}

#[test]
fn the_tail_probe_starts_a_probe_before_the_end() {
    assert_eq!(tail_offset(10 * PROBE_BYTES, 4), 9 * PROBE_BYTES);
    assert_eq!(tail_offset(PROBE_BYTES / 2, 4), 4);
    assert_eq!(tail_offset(PROBE_BYTES, 188), 188);
}

#[test]
fn probes_start_on_a_packet_and_read_at_most_their_size() {
    assert_eq!(probe_start(1000, 4, 192), 4 + 5 * 192);
    assert_eq!(probe_start(2, 4, 192), 4);
    assert_eq!(probe_start(188 * 3, 0, 188), 188 * 3);
    let block = 188 * 1000;
    let mut read = 0;
    let mut calls = 0;
    while probe_continues(read, false) {
        read += probe_request(read, block);
        calls += 1;
    }
    assert_eq!(read, PROBE_BYTES);
    assert_eq!(calls, (PROBE_BYTES + block - 1) / block);
    assert!(!probe_continues(0, true));
}

#[test]
fn meter_counts_every_read() {
    let mut meter = Meter::new();
    assert_eq!(meter.bytes, 0);
    meter.count(188);
    meter.count(0);
    meter.count(4096);
    assert_eq!(meter.bytes, 4284);
}
