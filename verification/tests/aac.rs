use nagametv::aac::{frame_action, incomplete_adts, FrameAction, ADTS_HEADER_BYTES, LENGTH_HIGH_MASK};

const SMALL_FRAME_BYTES: usize = 32;
const LARGE_FRAME_BYTES: usize = 160;
const SAMPLES_PER_FRAME: u64 = 1024;

fn adts(length: usize, mpeg2: bool, crc: bool, fill: u8) -> Vec<u8> {
    let mut bytes = vec![fill; length];
    bytes[..ADTS_HEADER_BYTES].copy_from_slice(&[
        0xff,
        0xf0 | u8::from(mpeg2) << 3 | u8::from(!crc),
        0x4c,
        0x80 | ((length >> 11) as u8 & LENGTH_HIGH_MASK),
        (length >> 3) as u8,
        ((length as u8 & 7) << 5) | 0x1f,
        0xfc,
    ]);
    bytes
}

fn header_length(bytes: &[u8]) -> usize {
    (usize::from(bytes[3] & LENGTH_HIGH_MASK) << 11) | (usize::from(bytes[4]) << 3) | usize::from(bytes[5] >> 5)
}

/// A parser that consults the guard before each frame: a deferred frame waits for more
/// input, anything else is cut at its header's length once complete.
struct GuardedParser {
    pending: Vec<u8>,
    frames: Vec<Vec<u8>>,
}

impl GuardedParser {
    fn new() -> Self {
        Self { pending: Vec::new(), frames: Vec::new() }
    }

    fn push(&mut self, bytes: &[u8]) {
        self.pending.extend_from_slice(bytes);
        while self.pending.len() >= ADTS_HEADER_BYTES {
            match frame_action(true, false, &self.pending) {
                FrameAction::Defer(length) => {
                    assert!(length as usize > self.pending.len());
                    return;
                }
                FrameAction::Parse => {
                    let length = header_length(&self.pending);
                    assert!(length <= self.pending.len(), "guard let an incomplete frame through");
                    let frame: Vec<u8> = self.pending.drain(..length).collect();
                    self.frames.push(frame);
                }
                FrameAction::Pass => panic!("ADTS while streaming is guarded"),
            }
        }
    }

    /// End of stream: the guard lets everything through while draining, and a frame that
    /// never completed is dropped rather than waited for.
    fn finish(&mut self) {
        while !self.pending.is_empty() {
            match frame_action(true, true, &self.pending) {
                FrameAction::Pass => {
                    let complete = self.pending.len() >= ADTS_HEADER_BYTES && header_length(&self.pending) <= self.pending.len();
                    if complete {
                        let length = header_length(&self.pending);
                        let frame: Vec<u8> = self.pending.drain(..length).collect();
                        self.frames.push(frame);
                    } else {
                        self.pending.clear();
                    }
                }
                _ => panic!("the guard defers nothing while draining"),
            }
        }
    }
}

#[test]
fn playbin_selects_guard_and_decodes_continuous_audio() {
    // A broadcast-like variable bitrate stream: larger frames regularly cross the
    // boundaries of the buffers that carry them.
    let mut stream = Vec::new();
    let mut expected = Vec::new();
    for index in 0..240usize {
        let length = if index % 5 == 3 { LARGE_FRAME_BYTES } else { SMALL_FRAME_BYTES };
        let frame = adts(length, true, index % 2 == 0, index as u8);
        stream.extend_from_slice(&frame);
        expected.push(frame);
    }
    let mut parser = GuardedParser::new();
    let mut position = 0;
    let sizes = [61usize, 97, 13, 184, 7, 150];
    let mut turn = 0;
    while position < stream.len() {
        let end = (position + sizes[turn % sizes.len()]).min(stream.len());
        parser.push(&stream[position..end]);
        position = end;
        turn += 1;
    }
    assert!(parser.frames.len() > 100, "too few frames: {}", parser.frames.len());
    assert_eq!(parser.frames, expected);
    // Every frame carries the same number of samples, so presentation times follow
    // without a gap when no frame is lost.
    let timestamps: Vec<u64> = (0..parser.frames.len() as u64).map(|n| n * SAMPLES_PER_FRAME).collect();
    assert!(timestamps.windows(2).all(|pair| pair[1] - pair[0] == SAMPLES_PER_FRAME));
}

#[test]
fn fragmented_larger_adts_frames_preserve_every_byte() {
    for mpeg2 in [false, true] {
        for crc in [false, true] {
            let small = adts(SMALL_FRAME_BYTES, mpeg2, crc, 0x5a);
            let large = adts(LARGE_FRAME_BYTES, mpeg2, crc, 0x5a);
            for split in 1..large.len() {
                let mut parser = GuardedParser::new();
                parser.push(&[small.as_slice(), &small].concat());
                parser.push(&large[..split]);
                parser.push(&[&large[split..], &small, &small].concat());
                assert_eq!(parser.frames.len(), 5, "small frames remained buffered");
                assert_eq!(parser.frames, [&small, &small, &large, &small, &small].map(Clone::clone));
            }
        }
    }
}

#[test]
fn incomplete_frames_report_their_length_and_invalid_headers_pass() {
    let large = adts(LARGE_FRAME_BYTES, true, false, 0x5a);
    assert_eq!(incomplete_adts(&large[..10]), Some(LARGE_FRAME_BYTES as u32));
    assert_eq!(incomplete_adts(&large), None);
    assert_eq!(incomplete_adts(&large[..6]), None);
    let mut junk = large.clone();
    junk[0] = 0;
    assert_eq!(incomplete_adts(&junk[..10]), None);
    let mut reserved = large.clone();
    reserved[2] = (13 << 2) | 0x40;
    assert_eq!(incomplete_adts(&reserved[..10]), None);
    // With a CRC the header is nine bytes: an eight-byte frame is not a frame.
    let short = adts(8, true, true, 0);
    assert_eq!(incomplete_adts(&short[..7]), None);
    let unprotected = adts(8, true, false, 0);
    assert_eq!(incomplete_adts(&unprotected[..7]), Some(8));
    assert_eq!(frame_action(false, false, &large[..10]), FrameAction::Pass);
    assert_eq!(frame_action(true, true, &large[..10]), FrameAction::Pass);
    assert_eq!(frame_action(true, false, &large), FrameAction::Parse);
}

#[test]
fn truncated_final_frame_is_drained_without_waiting_forever() {
    let mut parser = GuardedParser::new();
    let small = adts(SMALL_FRAME_BYTES, true, false, 0);
    let large = adts(LARGE_FRAME_BYTES, true, false, 0);
    parser.push(&[small.as_slice(), &small].concat());
    parser.push(&large[..large.len() / 2]);
    parser.finish();
    assert_eq!(parser.frames, [&small, &small].map(Clone::clone));
    assert!(parser.pending.is_empty());
}
