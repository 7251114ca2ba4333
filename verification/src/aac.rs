//! A guard for fragmented ADTS: an incomplete frame is deferred until its remaining bytes
//! arrive, instead of being skipped.
use vstd::prelude::*;

verus! {

/// The fixed ADTS header.
pub const ADTS_HEADER_BYTES: usize = 7;
/// The CRC that follows the header when protection is on.
pub const ADTS_CRC_BYTES: usize = 2;
/// Sync lookahead of the parser once a large frame has passed.
pub const SYNC_LOOKAHEAD_BYTES: u32 = 10;
pub const SYNC_AND_LAYER_MASK: u8 = 0xf6;
pub const SYNC_AND_LAYER: u8 = 0xf0;
pub const FREQUENCY_INDEX_MASK: u8 = 0x3c;
pub const RESERVED_FREQUENCY_INDEX: u8 = 13;
pub const LENGTH_HIGH_MASK: u8 = 0x03;

/// The 13-bit `aac_frame_length` of an ADTS header.
pub open spec fn frame_length(h: Seq<u8>) -> int {
    ((h[3] & LENGTH_HIGH_MASK) as int) * 2048 + (h[4] as int) * 8 + ((h[5] >> 5u8) as int)
}

/// The length of an ADTS frame that `bytes` start but do not hold completely: a valid
/// sync word and sampling frequency, and a frame length at least its header's that
/// exceeds the bytes at hand.
pub open spec fn incomplete_spec(bytes: Seq<u8>) -> Option<u32> {
    if bytes.len() < ADTS_HEADER_BYTES {
        None
    } else if bytes[0] != 0xff || bytes[1] & SYNC_AND_LAYER_MASK != SYNC_AND_LAYER || (bytes[2]
        & FREQUENCY_INDEX_MASK) >> 2u8 >= RESERVED_FREQUENCY_INDEX {
        None
    } else {
        let length = frame_length(bytes);
        let header = ADTS_HEADER_BYTES + if bytes[1] & 1 == 0 {
            ADTS_CRC_BYTES
        } else {
            0
        };
        if length >= header && length > bytes.len() {
            Some(length as u32)
        } else {
            None
        }
    }
}

pub fn incomplete_adts(bytes: &[u8]) -> (length: Option<u32>)
    ensures
        length == incomplete_spec(bytes@),
{
    if bytes.len() < ADTS_HEADER_BYTES {
        return None;
    }
    if bytes[0] != 0xff || bytes[1] & SYNC_AND_LAYER_MASK != SYNC_AND_LAYER || (bytes[2]
        & FREQUENCY_INDEX_MASK) >> 2u8 >= RESERVED_FREQUENCY_INDEX {
        return None;
    }
    let b3 = bytes[3];
    let masked = b3 & LENGTH_HIGH_MASK;
    assert(masked <= 3) by (bit_vector)
        requires
            masked == b3 & 3u8,
    ;
    let high = masked as usize;
    let middle = bytes[4] as usize;
    let low = (bytes[5] >> 5u8) as usize;
    let length = high * 2048 + middle * 8 + low;
    assert(length == frame_length(bytes@));
    let header = ADTS_HEADER_BYTES + if bytes[1] & 1 == 0 {
        ADTS_CRC_BYTES
    } else {
        0
    };
    if length >= header && length > bytes.len() {
        Some(length as u32)
    } else {
        None
    }
}

/// What the guard does with a frame.
#[derive(Clone, Copy, Debug, PartialEq, Eq, Structural)]
pub enum FrameAction {
    /// Wait for at least this many bytes before parsing again.
    Defer(u32),
    /// Restore the sync lookahead and let the parser handle the frame.
    Parse,
    /// Let the parser handle the frame unchanged.
    Pass,
}

/// The guard acts only on ADTS while not draining.
pub fn frame_action(adts: bool, draining: bool, bytes: &[u8]) -> (action: FrameAction)
    ensures
        action == if adts && !draining {
            match incomplete_spec(bytes@) {
                Some(length) => FrameAction::Defer(length),
                None => FrameAction::Parse,
            }
        } else {
            FrameAction::Pass
        },
{
    if adts && !draining {
        match incomplete_adts(bytes) {
            Some(length) => FrameAction::Defer(length),
            None => FrameAction::Parse,
        }
    } else {
        FrameAction::Pass
    }
}

} // verus!
