use nagametv::index::{
    packetize, ticks_to_ns, Index, PacketClock, NANOSECONDS_PER_SECOND, PCR_HZ, PCR_WRAP,
    TS_PACKET_SIZE,
};
use nagametv::packet_tail::PacketTail;

const BYTES_PER_SECOND: u64 = 2_000_000;

fn rate(index: &Index) -> Option<f64> {
    index
        .rate_sample()
        .map(|(bytes, span)| bytes as f64 * NANOSECONDS_PER_SECOND as f64 / span as f64)
}

#[test]
fn rate_uses_recent_bytes_and_waits_for_a_new_clock_epoch() {
    let mut index = Index::new();
    assert_eq!(rate(&index), None);
    let history_seconds = 60;
    for s in 0..=history_seconds {
        // Old, higher-rate data must not affect the recent 30-second estimate.
        let offset = if s == 0 {
            0
        } else {
            s * BYTES_PER_SECOND + BYTES_PER_SECOND * history_seconds
        };
        index.pcr_packet(offset, s * PCR_HZ, false, 0, 0);
    }
    assert_eq!(index.entries().len(), 61);
    assert_eq!(rate(&index), Some(BYTES_PER_SECOND as f64));
    let s = history_seconds + 1;
    let anchor = index.pcr_packet(s * BYTES_PER_SECOND * 2, s * PCR_HZ, true, 0, 0);
    assert_eq!(anchor.epoch, 1);
    assert_eq!(rate(&index), None);
    let s = history_seconds + 2;
    index.pcr_packet(
        (history_seconds + 1) * BYTES_PER_SECOND * 2 + BYTES_PER_SECOND,
        s * PCR_HZ,
        false,
        0,
        0,
    );
    assert_eq!(rate(&index), Some(BYTES_PER_SECOND as f64));
    index.clear_entries();
    assert_eq!(rate(&index), None);
}

#[test]
fn ticks_convert_at_ninety_kilohertz_and_saturate() {
    assert_eq!(ticks_to_ns(0), 0);
    assert_eq!(ticks_to_ns(PCR_HZ), NANOSECONDS_PER_SECOND);
    assert_eq!(ticks_to_ns(9), 100_000);
    assert_eq!(ticks_to_ns(1), 11_111);
    assert_eq!(ticks_to_ns(u64::MAX), u64::MAX);
}

#[test]
fn packetized_sections_carry_the_pointer_field_and_stuffing() {
    let section = vec![0xabu8; 200];
    let packets = packetize(0x0100, &section);
    assert_eq!(packets.len(), 2 * TS_PACKET_SIZE);
    assert_eq!(&packets[..5], &[0x47, 0x41, 0x00, 0x10, 0x00]);
    assert!(packets[5..TS_PACKET_SIZE].iter().all(|b| *b == 0xab));
    let second = &packets[TS_PACKET_SIZE..];
    assert_eq!(&second[..4], &[0x47, 0x01, 0x00, 0x11]);
    // 201 payload bytes: 184 in the first packet, 17 in the second.
    assert!(second[4..21].iter().all(|b| *b == 0xab));
    assert!(second[21..].iter().all(|b| *b == 0xff));
    assert_eq!(packetize(0, &[]).len(), TS_PACKET_SIZE);
}

#[test]
fn clock_steps_and_jumps_form_epochs() {
    let mut index = Index::new();
    let first = index.pcr_packet(0, PCR_WRAP - PCR_HZ, false, 7, 10);
    assert_eq!((first.time_ns, first.epoch, first.tables), (0, 0, 7));
    // Across the 33-bit wrap the clock keeps counting forward.
    let wrapped = index.pcr_packet(188, 0, false, 7, 10);
    assert_eq!((wrapped.time_ns, wrapped.epoch), (NANOSECONDS_PER_SECOND, 0));
    // A jump beyond ten seconds starts a new epoch one step later.
    let jumped = index.pcr_packet(376, 20 * PCR_HZ, false, 7, 10);
    assert_eq!((jumped.time_ns, jumped.epoch), (2 * NANOSECONDS_PER_SECOND, 1));
    assert_eq!(index.entries().len(), 3);
    // A close anchor on the same tables is not recorded.
    let close = index.pcr_packet(564, 20 * PCR_HZ + 9, false, 7, 10);
    assert_eq!(close.epoch, 1);
    assert_eq!(index.entries().len(), 3);
    // New tables are always recorded.
    index.pcr_packet(752, 20 * PCR_HZ + 18, false, 8, 10);
    assert_eq!(index.entries().len(), 4);
    index.expire(376);
    assert_eq!(index.entries().len(), 2);
    assert_eq!(index.entries()[0].offset, 376);
}

#[test]
fn presentation_end_follows_the_last_frame() {
    let mut index = Index::new();
    assert_eq!(index.end_ns(), None);
    index.pcr_packet(0, PCR_HZ, false, 0, 0);
    // One PCR step of 3600 ticks after time zero.
    assert_eq!(index.end_ns(), Some(40_000_000));
    index.pts_packet(0x100, PCR_HZ + 2 * PCR_HZ);
    index.pts_packet(0x100, PCR_HZ + 2 * PCR_HZ + 3003);
    // The frame step is the PTS distance, 3003 ticks.
    assert_eq!(index.end_ns(), Some(ticks_to_ns(2 * PCR_HZ + 6006)));
}

#[test]
fn aligned_input_is_borrowed_and_a_split_packet_is_assembled_once() {
    let data = [0x47u8; TS_PACKET_SIZE * 3];
    let mut tail = PacketTail::new();
    let pushed = tail.push(&data);
    assert!(pushed.assembled.is_none());
    assert_eq!((pushed.aligned_start, pushed.aligned_end), (0, data.len()));
    let pushed = tail.push(&data[..1]);
    assert!(pushed.assembled.is_none());
    assert_eq!(pushed.aligned_start, pushed.aligned_end);
    assert_eq!(tail.len(), 1);
    let rest = &data[1..];
    let pushed = tail.push(rest);
    assert_eq!(pushed.assembled.as_deref(), Some(&data[..TS_PACKET_SIZE]));
    assert_eq!(pushed.aligned_start, TS_PACKET_SIZE - 1);
    assert_eq!(&rest[pushed.aligned_start..pushed.aligned_end], &data[TS_PACKET_SIZE..]);
    assert_eq!(tail.len(), 0);
}

#[test]
fn arbitrary_boundaries_preserve_complete_packets() {
    let data: Vec<u8> = (0..5000u32).map(|i| (i * 7 % 251) as u8).collect();
    for step in [1usize, 13, 187, 188, 189, 700, 2048] {
        let mut tail = PacketTail::new();
        let mut output = Vec::new();
        let mut position = 0;
        while position < data.len() {
            let end = (position + step).min(data.len());
            let chunk = &data[position..end];
            let pushed = tail.push(chunk);
            if let Some(packet) = pushed.assembled {
                assert_eq!(packet.len(), TS_PACKET_SIZE);
                output.extend_from_slice(&packet);
            }
            let aligned = &chunk[pushed.aligned_start..pushed.aligned_end];
            assert_eq!(aligned.len() % TS_PACKET_SIZE, 0);
            output.extend_from_slice(aligned);
            assert!(tail.len() < TS_PACKET_SIZE);
            position = end;
        }
        let complete = data.len() / TS_PACKET_SIZE * TS_PACKET_SIZE;
        assert_eq!(output, &data[..complete]);
        assert_eq!(tail.len(), data.len() - complete);
    }
}

#[test]
fn packets_drive_the_clock_only_on_the_pcr_stream_with_tables() {
    let mut index = Index::new();
    let pcr = |pid: u16, value: u64| PacketClock { pid, start: false, pts: None, pcr: Some(value), discontinuity: false };
    // No PCR stream known yet, or no bootstrap tables: no anchor, no clock.
    assert_eq!(index.packet(0, pcr(0x100, PCR_HZ), None, Some(1), 10), None);
    assert_eq!(index.packet(0, pcr(0x100, PCR_HZ), Some(0x100), None, 10), None);
    assert_eq!(index.end_ns(), None);
    // Another PID carries no clock.
    assert_eq!(index.packet(0, pcr(0x101, PCR_HZ), Some(0x100), Some(1), 10), None);
    let anchor = index.packet(188, pcr(0x100, PCR_HZ), Some(0x100), Some(1), 10).unwrap();
    assert_eq!((anchor.offset, anchor.time_ns, anchor.tables, anchor.charge), (188, 0, 1, 10));
    // A starting PES header with a PTS extends the presentation end.
    let pes = PacketClock { pid: 0x100, start: true, pts: Some(PCR_HZ + PCR_HZ), pcr: None, discontinuity: false };
    assert_eq!(index.packet(376, pes, Some(0x100), Some(1), 10), None);
    assert_eq!(index.end_ns(), Some(ticks_to_ns(PCR_HZ + 3600)));
    // A discontinuity starts a new epoch.
    let jump = PacketClock { discontinuity: true, ..pcr(0x100, PCR_HZ + 1) };
    assert_eq!(index.packet(564, jump, Some(0x100), Some(1), 10).unwrap().epoch, 1);
    assert_eq!(index.entries().len(), 2);
}
