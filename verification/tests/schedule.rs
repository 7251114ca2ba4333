use nagametv::schedule::{program_boundaries_ms, Guide, Mark, Scheduled};

const SECOND_NS: u64 = 1_000_000_000;
const MINUTE_MS: i64 = 60_000;
const T0: i64 = 1_700_000_000_000;
const CHANGE_MS: i64 = 30_000;
const TOLERANCE_MS: i64 = 1_000;

fn event(id: u16, start: i64, duration: u64) -> Scheduled {
    Scheduled { network_id: 4, transport_stream_id: 16625, service_id: 1, event_id: id, start_at: Some(start), duration: Some(duration) }
}

/// Sixty-one anchors a second apart. The first thirty carry the guide read before the
/// change, the rest the guide read after it, whose clock reading is 200 ms off.
fn marks() -> Vec<Mark> {
    let before = Guide {
        snapshot: 1,
        clock: Some((0, T0)),
        events: vec![event(1, T0 - 10 * MINUTE_MS, (10 * MINUTE_MS + CHANGE_MS) as u64), event(2, T0 + CHANGE_MS, 30 * MINUTE_MS as u64)],
    };
    let after = Guide {
        snapshot: 2,
        clock: Some((30 * SECOND_NS, T0 + CHANGE_MS + 200)),
        events: vec![event(2, T0 + CHANGE_MS, 30 * MINUTE_MS as u64), event(3, T0 + CHANGE_MS + 30 * MINUTE_MS, 30 * MINUTE_MS as u64)],
    };
    (0..=60u64)
        .map(|second| Mark {
            epoch: 0,
            time_ns: second * SECOND_NS,
            guide: Some(if second < 30 { before.clone() } else { after.clone() }),
        })
        .collect()
}

#[test]
fn retained_si_provides_one_shared_program_boundary_and_discards_expired_markers() {
    let marks = marks();
    let end = Some(61 * SECOND_NS);
    let boundaries = program_boundaries_ms(true, &marks, end);
    // The end of the first program and the start of the second are one boundary, placed
    // by the newest guide.
    assert_eq!(boundaries, vec![29_800]);
    assert_eq!(boundaries.iter().filter(|ms| (**ms - CHANGE_MS).abs() <= TOLERANCE_MS).count(), 1);
    // Once the anchors before the change expire, the epoch starts after it.
    let retained: Vec<Mark> = marks.iter().filter(|mark| mark.time_ns >= 31 * SECOND_NS).cloned().collect();
    assert!(program_boundaries_ms(true, &retained, end).iter().all(|ms| *ms > CHANGE_MS + TOLERANCE_MS));
    // Guides without a clock reading give nothing.
    let unclocked: Vec<Mark> = marks
        .iter()
        .map(|mark| Mark { guide: mark.guide.clone().map(|guide| Guide { clock: None, ..guide }), ..mark.clone() })
        .collect();
    assert!(program_boundaries_ms(true, &unclocked, end).is_empty());
}

#[test]
fn boundaries_need_a_collected_schedule_and_an_index_end() {
    let marks = marks();
    assert!(program_boundaries_ms(false, &marks, Some(61 * SECOND_NS)).is_empty());
    assert!(program_boundaries_ms(true, &marks, None).is_empty());
    assert!(program_boundaries_ms(true, &Vec::new(), Some(61 * SECOND_NS)).is_empty());
}

#[test]
fn boundaries_come_out_sorted_once_each_and_zero_length_events_give_none() {
    let guide = Guide {
        snapshot: 7,
        clock: Some((100 * SECOND_NS, T0)),
        events: vec![
            event(5, T0 + 20_000, 10_000),
            event(6, T0 - 50_000, 20_000),
            event(7, T0 + 5_000, 0),
            // A second schedule of event 5 in the same guide is not read.
            event(5, T0 + 40_000, 1_000),
        ],
    };
    let marks: Vec<Mark> = (0..=200u64)
        .step_by(50)
        .map(|second| Mark { epoch: 3, time_ns: second * SECOND_NS, guide: Some(guide.clone()) })
        .collect();
    let boundaries = program_boundaries_ms(true, &marks, Some(200 * SECOND_NS));
    assert_eq!(boundaries, vec![50_000, 70_000, 120_000, 130_000]);
    // A later epoch's anchors split the range: the earlier epoch ends at its last anchor.
    let mut split = marks.clone();
    split.push(Mark { epoch: 4, time_ns: 210 * SECOND_NS, guide: None });
    assert_eq!(program_boundaries_ms(true, &split, Some(300 * SECOND_NS)), vec![50_000, 70_000, 120_000, 130_000]);
    split[3].epoch = 4;
    split[4].epoch = 4;
    // Epoch 3 now ends at its anchor at 100 s, and epoch 4 spans no boundary.
    assert_eq!(program_boundaries_ms(true, &split, Some(300 * SECOND_NS)), vec![50_000, 70_000]);
}
