//! Validated startup settings: deinterlacing, the playback clock, the audio output and
//! the software decoder budget.
use vstd::prelude::*;
use crate::text::{normalize, normalized, spells, is_word};

verus! {

/// Deinterlacing.
#[derive(Clone, Copy, Debug, PartialEq, Eq, Structural)]
pub enum Mode {
    Yadif,
    Linear,
    Off,
    /// NVDEC GL textures and the single-rate OpenGL filter.
    NvidiaGl,
    /// VA surfaces with field-rate hardware deinterlacing.
    VaApi,
}

impl Default for Mode {
    fn default() -> (mode: Mode)
        ensures
            mode == Mode::Yadif,
    {
        Mode::Yadif
    }
}

/// A setting value that names no option; it holds the value as given.
#[derive(Debug)]
pub struct Invalid(pub String);

/// The deinterlace mode a setting value names: trimmed and without ASCII case, a name or
/// an alias.
pub open spec fn mode_named(value: Seq<char>) -> Option<Mode> {
    let n = normalized(value);
    if n == "yadif"@ || n == "quality"@ {
        Some(Mode::Yadif)
    } else if n == "linear"@ || n == "balanced"@ {
        Some(Mode::Linear)
    } else if n == "off"@ || n == "disabled"@ {
        Some(Mode::Off)
    } else if n == "gl"@ {
        Some(Mode::NvidiaGl)
    } else if n == "va"@ {
        Some(Mode::VaApi)
    } else {
        None
    }
}

/// The label of each mode.
pub open spec fn mode_label(mode: Mode) -> Seq<char> {
    match mode {
        Mode::Yadif => "YADIF (auto / all fields)"@,
        Mode::Linear => "Linear (auto / all fields)"@,
        Mode::Off => "Off"@,
        Mode::NvidiaGl => "NVDEC + OpenGL vfir (single rate)"@,
        Mode::VaApi => "VA-API adaptive (all fields / NV12)"@,
    }
}

impl Mode {
    pub fn parse(value: &str) -> (mode: Result<Mode, Invalid>)
        ensures
            match mode {
                Ok(m) => mode_named(value@) == Some(m),
                Err(Invalid(v)) => mode_named(value@) is None && v@ == value@,
            },
    {
        let n = normalize(value);
        if spells(&n, "yadif") || spells(&n, "quality") {
            Ok(Mode::Yadif)
        } else if spells(&n, "linear") || spells(&n, "balanced") {
            Ok(Mode::Linear)
        } else if spells(&n, "off") || spells(&n, "disabled") {
            Ok(Mode::Off)
        } else if spells(&n, "gl") {
            Ok(Mode::NvidiaGl)
        } else if spells(&n, "va") {
            Ok(Mode::VaApi)
        } else {
            Err(Invalid(value.to_owned()))
        }
    }

    pub fn label(self) -> (label: &'static str)
        ensures
            label@ == mode_label(self),
    {
        match self {
            Mode::Yadif => "YADIF (auto / all fields)",
            Mode::Linear => "Linear (auto / all fields)",
            Mode::Off => "Off",
            Mode::NvidiaGl => "NVDEC + OpenGL vfir (single rate)",
            Mode::VaApi => "VA-API adaptive (all fields / NV12)",
        }
    }
}

/// The playback clock.
#[derive(Clone, Copy, Debug, PartialEq, Eq, Structural)]
pub enum ClockPolicy {
    Automatic,
    System,
}

impl ClockPolicy {
    /// Unset is automatic; otherwise exactly `auto` or `system`.
    pub fn parse(value: Option<&str>) -> (policy: Result<ClockPolicy, Invalid>)
        ensures
            match value {
                None => policy matches Ok(ClockPolicy::Automatic),
                Some(v) => match policy {
                    Ok(ClockPolicy::Automatic) => v@ == "auto"@,
                    Ok(ClockPolicy::System) => v@ == "system"@,
                    Err(Invalid(s)) => v@ != "auto"@ && v@ != "system"@ && s@ == v@,
                },
            },
    {
        match value {
            None => Ok(ClockPolicy::Automatic),
            Some(v) => if is_word(v, "auto") {
                Ok(ClockPolicy::Automatic)
            } else if is_word(v, "system") {
                Ok(ClockPolicy::System)
            } else {
                Err(Invalid(v.to_owned()))
            },
        }
    }
}

/// The audio output.
#[derive(Clone, Copy, Debug, PartialEq, Eq, Structural)]
pub enum AudioOutput {
    Automatic,
    Pulse,
    TestDiscard,
}

impl AudioOutput {
    /// Unset follows whether a Pulse server is configured; otherwise exactly `pulsesink`
    /// or `fakesink`.
    pub fn parse(value: Option<&str>, pulse_server_present: bool) -> (output: Result<AudioOutput, Invalid>)
        ensures
            match value {
                None => output == (if pulse_server_present {
                    Ok::<AudioOutput, Invalid>(AudioOutput::Pulse)
                } else {
                    Ok::<AudioOutput, Invalid>(AudioOutput::Automatic)
                }),
                Some(v) => match output {
                    Ok(AudioOutput::Pulse) => v@ == "pulsesink"@,
                    Ok(AudioOutput::TestDiscard) => v@ == "fakesink"@,
                    Ok(AudioOutput::Automatic) => false,
                    Err(Invalid(s)) => v@ != "pulsesink"@ && v@ != "fakesink"@ && s@ == v@,
                },
            },
    {
        match value {
            None => if pulse_server_present {
                Ok(AudioOutput::Pulse)
            } else {
                Ok(AudioOutput::Automatic)
            },
            Some(v) => if is_word(v, "pulsesink") {
                Ok(AudioOutput::Pulse)
            } else if is_word(v, "fakesink") {
                Ok(AudioOutput::TestDiscard)
            } else {
                Err(Invalid(v.to_owned()))
            },
        }
    }
}

/// Software video decoders use at most this many threads.
pub const SOFTWARE_THREADS: usize = 6;
/// HEVC software decoding uses at most this many threads.
pub const HEVC_THREADS: usize = 10;
/// Consecutive decoder errors tolerated before a decoder fails.
pub const MAX_CONSECUTIVE_ERRORS: i32 = 64;

/// The decoder budget of one player.
pub struct DecoderPolicy {
    parallelism: usize,
}

impl DecoderPolicy {
    pub closed spec fn parallelism_spec(self) -> usize {
        self.parallelism
    }

    pub fn new(parallelism: usize) -> (policy: DecoderPolicy)
        ensures
            policy.parallelism_spec() == parallelism,
    {
        DecoderPolicy { parallelism }
    }

    /// The threads of a software video decoder: the available parallelism, at least one
    /// and at most the budget (larger for HEVC).
    pub fn threads(&self, factory: &str) -> (threads: i32)
        ensures
            ({
                let limit = if factory@ == "avdec_h265"@ {
                    HEVC_THREADS
                } else {
                    SOFTWARE_THREADS
                };
                threads == if self.parallelism_spec() < 1 {
                    1
                } else if self.parallelism_spec() > limit {
                    limit as int
                } else {
                    self.parallelism_spec() as int
                }
            }),
    {
        let limit = if is_word(factory, "avdec_h265") {
            HEVC_THREADS
        } else {
            SOFTWARE_THREADS
        };
        let threads = if self.parallelism < 1 {
            1
        } else if self.parallelism > limit {
            limit
        } else {
            self.parallelism
        };
        threads as i32
    }
}

/// The error limit a decoder gets: its own when it is already within the tolerance, else
/// the tolerance.
pub fn error_limit(current: i32) -> (limit: i32)
    ensures
        limit == if 0 <= current <= MAX_CONSECUTIVE_ERRORS {
            current
        } else {
            MAX_CONSECUTIVE_ERRORS
        },
{
    if 0 <= current && current <= MAX_CONSECUTIVE_ERRORS {
        current
    } else {
        MAX_CONSECUTIVE_ERRORS
    }
}

} // verus!
