//! What a video frame's interlacing is, and whether the chosen deinterlacer is at work.
use vstd::prelude::*;
use crate::settings::Mode;

verus! {

/// How a negotiated video stream lays out fields.
#[derive(Clone, Copy, Debug, PartialEq, Eq, Structural)]
pub enum InterlaceMode {
    Progressive,
    Interleaved,
    Mixed,
    Fields,
    Alternate,
    /// A layout this library does not know.
    Other,
}

/// Whether a frame is a complete progressive picture.
#[derive(Clone, Copy, Debug, PartialEq, Eq, Structural)]
pub enum Scan {
    Unknown,
    Progressive,
    Interlaced,
}

impl Default for Scan {
    fn default() -> (scan: Scan)
        ensures
            scan == Scan::Unknown,
    {
        Scan::Unknown
    }
}

impl Scan {
    /// The scan of a frame of a stream with `mode`. A mixed stream's frame is interlaced
    /// when it is flagged interlaced or one field only (`interlaced_or_one_field`); an
    /// unknown layout is never declared progressive.
    pub fn from_frame(mode: InterlaceMode, interlaced_or_one_field: bool) -> (scan: Scan)
        ensures
            scan == match mode {
                InterlaceMode::Progressive => Scan::Progressive,
                InterlaceMode::Interleaved | InterlaceMode::Fields | InterlaceMode::Alternate => Scan::Interlaced,
                InterlaceMode::Mixed => if interlaced_or_one_field {
                    Scan::Interlaced
                } else {
                    Scan::Progressive
                },
                InterlaceMode::Other => Scan::Unknown,
            },
    {
        match mode {
            InterlaceMode::Progressive => Scan::Progressive,
            InterlaceMode::Interleaved => Scan::Interlaced,
            InterlaceMode::Fields => Scan::Interlaced,
            InterlaceMode::Alternate => Scan::Interlaced,
            InterlaceMode::Mixed => if interlaced_or_one_field {
                Scan::Interlaced
            } else {
                Scan::Progressive
            },
            InterlaceMode::Other => Scan::Unknown,
        }
    }
}

/// Whether the deinterlacer changes frames.
#[derive(Clone, Copy, Debug, PartialEq, Eq, Structural)]
pub enum DeinterlaceStatus {
    Disabled,
    Unknown,
    Passthrough,
    Active,
}

impl DeinterlaceStatus {
    /// The deinterlacer's state for `mode`, the scans before and after it, the layout it
    /// outputs and, for hardware filters, whether the native filter passes frames through.
    /// A software filter is active when interlaced input leaves it progressive; a
    /// hardware filter reports its native state, not whether filtering is needed.
    pub fn new(
        mode: Mode,
        input_scan: Scan,
        output_scan: Scan,
        output_interlace: Option<InterlaceMode>,
        passthrough: Option<bool>,
    ) -> (status: DeinterlaceStatus)
        ensures
            status == if mode == Mode::Off {
                DeinterlaceStatus::Disabled
            } else if input_scan == Scan::Unknown || output_scan == Scan::Unknown {
                DeinterlaceStatus::Unknown
            } else if mode == Mode::Yadif || mode == Mode::Linear {
                if input_scan == Scan::Interlaced && output_interlace == Some(InterlaceMode::Progressive) {
                    DeinterlaceStatus::Active
                } else {
                    DeinterlaceStatus::Passthrough
                }
            } else {
                match passthrough {
                    Some(false) => DeinterlaceStatus::Active,
                    Some(true) => DeinterlaceStatus::Passthrough,
                    None => DeinterlaceStatus::Unknown,
                }
            },
    {
        if mode == Mode::Off {
            return DeinterlaceStatus::Disabled;
        }
        if input_scan == Scan::Unknown || output_scan == Scan::Unknown {
            return DeinterlaceStatus::Unknown;
        }
        match mode {
            Mode::Off => DeinterlaceStatus::Disabled,
            Mode::Yadif | Mode::Linear => {
                let progressive = match output_interlace {
                    Some(InterlaceMode::Progressive) => true,
                    _ => false,
                };
                if input_scan == Scan::Interlaced && progressive {
                    DeinterlaceStatus::Active
                } else {
                    DeinterlaceStatus::Passthrough
                }
            },
            Mode::NvidiaGl | Mode::VaApi => match passthrough {
                Some(false) => DeinterlaceStatus::Active,
                Some(true) => DeinterlaceStatus::Passthrough,
                None => DeinterlaceStatus::Unknown,
            },
        }
    }
}

} // verus!
