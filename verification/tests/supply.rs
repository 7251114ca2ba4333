use nagametv::speed::Rate;
use nagametv::supply::{interval_ns, Supply, MIN_OBSERVATION_NS};

const SECOND_NS: f64 = 1_000_000_000.0;

/// A reader's progress: the seek generation and how often it waited for data.
#[derive(Clone, Copy, Debug, PartialEq)]
struct Progress {
    generation: u64,
    waits: u64,
}

impl Progress {
    fn idle() -> Self {
        Progress { generation: 0, waits: 0 }
    }
    fn at(generation: u64, waits: u64) -> Self {
        Progress { generation, waits }
    }
    fn waited_since(self, previous: Progress) -> Option<bool> {
        (self.generation == previous.generation).then_some(self.waits > previous.waits)
    }
}

fn position(seconds: f64) -> u64 {
    (seconds * SECOND_NS) as u64
}

fn limited(supply: &mut Supply<Progress>, rate: Rate, position_ns: u64, reader: Progress, now_ns: u64) -> bool {
    let waited = match supply.previous_reader() {
        Some(previous) => reader.waited_since(previous),
        None => Some(false),
    };
    supply.limited(rate, position_ns, reader, waited, now_ns)
}

#[test]
fn source_waits_only_limit_speed_after_queued_video_is_consumed() {
    for tenths in [11, 12, 15, 20] {
        let rate = Rate::checked(tenths).unwrap();
        let mut supply = Supply::new();
        let start = 1_000 * SECOND_NS as u64;
        let interval = interval_ns(rate);
        let seconds = interval as f64 / SECOND_NS;
        let multiplier = f64::from(tenths) / 10.0;
        assert!(!limited(&mut supply, rate, position(0.), Progress::idle(), start));
        let queued_end = seconds * multiplier;
        assert!(
            !limited(&mut supply, rate, position(queued_end), Progress::at(0, 1), start + interval),
            "{tenths}: decoder read-ahead alone must not end fast playback"
        );
        assert!(
            limited(&mut supply, rate, position(queued_end + seconds), Progress::at(0, 2), start + interval * 2),
            "{tenths}: output has slowed to incoming data speed"
        );
    }
}

#[test]
fn slow_decoder_without_receive_wait_does_not_claim_catch_up() {
    let mut supply = Supply::new();
    let start = 5 * SECOND_NS as u64;
    let fast = Rate::checked(20).unwrap();
    assert!(!limited(&mut supply, fast, position(0.), Progress::idle(), start));
    assert!(!limited(&mut supply, fast, position(0.), Progress::idle(), start + MIN_OBSERVATION_NS));
}

#[test]
fn seeks_pause_and_rate_changes_discard_previous_measurements() {
    let fast = Rate::checked(20).unwrap();
    let changed = Rate::checked(15).unwrap();
    let start = 5 * SECOND_NS as u64;
    let initial = Progress::at(0, 1);
    let waiting = Progress::at(0, 2);
    let after_seek = Progress::at(1, 1);
    let mut supply = Supply::new();
    assert!(!limited(&mut supply, fast, position(0.), initial, start));
    assert!(!limited(&mut supply, fast, position(0.), after_seek, start + MIN_OBSERVATION_NS));
    supply.reset();
    assert!(!limited(&mut supply, fast, position(0.), initial, start));
    supply.reset(); // Pause and resume must not count paused wall time.
    assert!(!limited(&mut supply, fast, position(0.), waiting, start + MIN_OBSERVATION_NS));
    assert!(!limited(&mut supply, changed, position(0.), Progress::at(0, 3), start + MIN_OBSERVATION_NS * 2));
}

#[test]
fn short_delivery_gaps_and_slow_playback_do_not_trigger() {
    let start = 5 * SECOND_NS as u64;
    for tenths in [5, 10, 11, 20] {
        let mut supply = Supply::new();
        let rate = Rate::checked(tenths).unwrap();
        assert!(!limited(&mut supply, rate, position(0.), Progress::idle(), start));
        assert!(!limited(&mut supply, rate, position(0.), Progress::at(0, 1), start + MIN_OBSERVATION_NS / 2));
    }
}

#[test]
fn observation_intervals_follow_the_expected_gain() {
    assert_eq!(interval_ns(Rate::checked(11).unwrap()), 2_000_000_000);
    assert_eq!(interval_ns(Rate::checked(12).unwrap()), 1_000_000_000);
    assert_eq!(interval_ns(Rate::checked(15).unwrap()), 500_000_000);
    assert_eq!(interval_ns(Rate::checked(20).unwrap()), 500_000_000);
}
