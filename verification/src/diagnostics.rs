//! Stable user guidance for a playback failure, and fixed-size warning accounting.
use vstd::prelude::*;
use crate::text::{has_prefix, is_word};

verus! {

/// Guidance for the user, independent of native diagnostic text.
#[derive(Clone, Copy, Debug, PartialEq, Eq, Structural)]
pub enum Hint {
    ServiceUnavailable,
    MissingChannel,
    AccessDenied,
    Timeout,
    Server,
    Rejected,
    Network,
    Ended,
    Generic,
    Recording,
}

pub open spec fn hint_text(hint: Hint) -> Seq<char> {
    match hint {
        Hint::ServiceUnavailable => "The stream is temporarily unavailable. The server or tuners may be busy or unavailable. Wait a moment and try again, or check the server."@,
        Hint::MissingChannel => "This channel was not found on Mirakurun. Refresh the channel list and choose a channel again."@,
        Hint::AccessDenied => "Mirakurun denied access to the stream. Check the server's access settings."@,
        Hint::Timeout => "The server did not respond in time. Check the connection and try again."@,
        Hint::Server => "Mirakurun could not start the stream. Check the server and try again."@,
        Hint::Rejected => "Mirakurun rejected the stream request. Check the connection settings and channel."@,
        Hint::Network => "Could not receive the stream from Mirakurun. Check the server and network connection, then try again."@,
        Hint::Ended => "The live stream ended unexpectedly. Try again to reconnect."@,
        Hint::Generic => "Could not play this channel. Try again or choose another channel. See the error details if the problem continues."@,
        Hint::Recording => "Could not play this TS file. Check that it is readable and contains supported video and audio."@,
    }
}

impl Hint {
    /// The guidance text, for translation.
    pub fn source(self) -> (text: &'static str)
        ensures
            text@ == hint_text(self),
    {
        match self {
            Hint::ServiceUnavailable => "The stream is temporarily unavailable. The server or tuners may be busy or unavailable. Wait a moment and try again, or check the server.",
            Hint::MissingChannel => "This channel was not found on Mirakurun. Refresh the channel list and choose a channel again.",
            Hint::AccessDenied => "Mirakurun denied access to the stream. Check the server's access settings.",
            Hint::Timeout => "The server did not respond in time. Check the connection and try again.",
            Hint::Server => "Mirakurun could not start the stream. Check the server and try again.",
            Hint::Rejected => "Mirakurun rejected the stream request. Check the connection settings and channel.",
            Hint::Network => "Could not receive the stream from Mirakurun. Check the server and network connection, then try again.",
            Hint::Ended => "The live stream ended unexpectedly. Try again to reconnect.",
            Hint::Generic => "Could not play this channel. Try again or choose another channel. See the error details if the problem continues.",
            Hint::Recording => "Could not play this TS file. Check that it is readable and contains supported video and audio.",
        }
    }
}

/// What a playback failure was, as far as guidance depends on it.
#[derive(Debug)]
pub enum Failure {
    /// A recording could not be played.
    Recording,
    /// Cleanup after `primary` failed too; the primary reason decides.
    Cleanup(Box<Failure>),
    /// The live stream ended.
    EndOfStream,
    /// The stream failed, with the HTTP status the source reported, and whether a network
    /// source reported a resource error.
    Stream { http_status: Option<u32>, network_resource: bool },
    Other,
}

/// The guidance for a failure.
pub open spec fn hint_for(failure: Failure) -> Hint
    decreases failure,
{
    match failure {
        Failure::Recording => Hint::Recording,
        Failure::Cleanup(primary) => hint_for(*primary),
        Failure::EndOfStream => Hint::Ended,
        Failure::Stream { http_status, network_resource } => match http_status {
            Some(503) => Hint::ServiceUnavailable,
            Some(404) => Hint::MissingChannel,
            Some(401) | Some(403) => Hint::AccessDenied,
            Some(408) | Some(504) => Hint::Timeout,
            Some(code) if 500 <= code <= 599 => Hint::Server,
            Some(code) if 400 <= code <= 499 => Hint::Rejected,
            _ => if network_resource {
                Hint::Network
            } else {
                Hint::Generic
            },
        },
        Failure::Other => Hint::Generic,
    }
}

impl Failure {
    pub fn hint(&self) -> (hint: Hint)
        ensures
            hint == hint_for(*self),
        decreases self,
    {
        match self {
            Failure::Recording => Hint::Recording,
            Failure::Cleanup(primary) => primary.hint(),
            Failure::EndOfStream => Hint::Ended,
            Failure::Stream { http_status, network_resource } => match http_status {
                Some(503) => Hint::ServiceUnavailable,
                Some(404) => Hint::MissingChannel,
                Some(401) | Some(403) => Hint::AccessDenied,
                Some(408) | Some(504) => Hint::Timeout,
                Some(code) if 500 <= *code && *code <= 599 => Hint::Server,
                Some(code) if 400 <= *code && *code <= 499 => Hint::Rejected,
                _ => if *network_resource {
                    Hint::Network
                } else {
                    Hint::Generic
                },
            },
            Failure::Other => Hint::Generic,
        }
    }
}

/// What a bus warning is, as far as accounting depends on it.
#[derive(Clone, Copy, Debug, PartialEq, Eq, Structural)]
pub enum Kind {
    Other,
    /// A continuity mismatch on a PID, when a valid one was given.
    ContinuityMismatch(Option<u16>),
}

/// A warning's kind from its details: a continuity mismatch keeps a valid 13-bit PID.
pub open spec fn kind_of(warning_type: Option<Seq<char>>, pid: Option<u32>) -> Kind {
    if warning_type == Some("continuity-mismatch"@) {
        Kind::ContinuityMismatch(
            match pid {
                Some(p) if p <= 0x1fff => Some(p as u16),
                _ => None,
            },
        )
    } else {
        Kind::Other
    }
}

impl Kind {
    /// The kind of a warning with the given `warning-type` text and typed `pid` detail.
    pub fn from_details(warning_type: Option<&str>, pid: Option<u32>) -> (kind: Kind)
        ensures
            kind == kind_of(
                match warning_type {
                    Some(t) => Some(t@),
                    None => None,
                },
                pid,
            ),
    {
        let mismatch = match warning_type {
            Some(t) => is_word(t, "continuity-mismatch"),
            None => false,
        };
        if !mismatch {
            return Kind::Other;
        }
        Kind::ContinuityMismatch(
            match pid {
                Some(p) => if p <= 0x1fff {
                    Some(p as u16)
                } else {
                    None
                },
                None => None,
            },
        )
    }
}

/// Warning counts over a player's lifetime.
#[derive(Clone, Copy, Debug, PartialEq, Eq, Structural)]
pub struct Counts {
    pub total: u64,
    pub continuity: u64,
    pub last_continuity_pid: Option<u16>,
}

impl Default for Counts {
    fn default() -> (counts: Counts)
        ensures
            counts == (Counts { total: 0, continuity: 0, last_continuity_pid: None }),
    {
        Counts { total: 0, continuity: 0, last_continuity_pid: None }
    }
}

impl Counts {
    /// Count a warning: every warning, and continuity mismatches with their PID (a
    /// missing PID clears the last one). Counts saturate.
    pub fn observe(&mut self, kind: Kind)
        ensures
            final(self).total == if old(self).total == u64::MAX {
                u64::MAX
            } else {
                (old(self).total + 1) as u64
            },
            match kind {
                Kind::ContinuityMismatch(pid) => final(self).continuity == (if old(self).continuity
                    == u64::MAX {
                    u64::MAX
                } else {
                    (old(self).continuity + 1) as u64
                }) && final(self).last_continuity_pid == pid,
                Kind::Other => final(self).continuity == old(self).continuity
                    && final(self).last_continuity_pid == old(self).last_continuity_pid,
            },
    {
        self.total = self.total.saturating_add(1);
        if let Kind::ContinuityMismatch(pid) = kind {
            self.continuity = self.continuity.saturating_add(1);
            self.last_continuity_pid = pid;
        }
    }
}

/// The element name of the native HTTP source.
pub open spec fn http_source_name() -> Seq<char> {
    "souphttpsrc"@
}

/// Whether a stream error is a refused seek of the HTTP source, which a live resume can
/// recover from; any other error fails playback.
pub fn live_resume_rejected(seek_error: bool, source: Option<&str>) -> (rejected: bool)
    ensures
        rejected == (seek_error && (source matches Some(name) && name@ == http_source_name())),
{
    seek_error && match source {
        Some(name) => is_word(name, "souphttpsrc"),
        None => false,
    }
}

/// Whether the source of a stream error is the network source.
pub fn network_source(source: Option<&str>) -> (network: bool)
    ensures
        network == (source matches Some(name) && name@ == http_source_name()),
{
    match source {
        Some(name) => is_word(name, "souphttpsrc"),
        None => false,
    }
}

pub open spec fn begins_with(value: Seq<char>, prefix: Seq<char>) -> bool {
    prefix.len() <= value.len() && value.subrange(0, prefix.len() as int) == prefix
}

/// A missing decoder fails playback when it is for video or audio; subtitle and data
/// decoders are optional. The failure names the decoder, else its caps.
pub fn missing_decoder(message: &str, kind: &str, caps_name: &str, name: Option<String>, caps: String) -> (missing: Option<String>)
    ensures
        missing is Some <==> (message@ == "missing-plugin"@ && kind@ == "decoder"@ && (begins_with(caps_name@, "video/"@)
            || begins_with(caps_name@, "audio/"@))),
        missing matches Some(text) ==> text@ == match name {
            Some(n) => n@,
            None => caps@,
        },
{
    proof {
        reveal_strlit("missing-plugin");
        reveal_strlit("decoder");
        reveal_strlit("video/");
        reveal_strlit("audio/");
    }
    if !is_word(message, "missing-plugin") || !is_word(kind, "decoder") {
        return None;
    }
    if !(has_prefix(caps_name, "video/") || has_prefix(caps_name, "audio/")) {
        return None;
    }
    match name {
        Some(n) => Some(n),
        None => Some(caps),
    }
}

} // verus!
