//! One owner for native playback and its subtitle generation: which controls the
//! current source offers, and how a stream's subtitles start.
use vstd::prelude::*;
use crate::recording::BroadcastService;
use crate::speed::{Availability, Snapshot};
use crate::timeline::Error;

verus! {

/// What the session plays.
#[derive(Clone, Copy, Debug, PartialEq, Eq, Structural)]
pub enum Source {
    Idle,
    /// A media file, with or without the broadcast it was recorded from.
    Media { broadcast: bool },
    /// A transport stream recording.
    Recording,
    /// A live stream.
    Live,
}

/// How subtitles started with a stream.
#[derive(Debug)]
pub enum SubtitleStart {
    Disabled,
    Parsing,
    /// The parser could not start, with its message.
    Failed(String),
}

/// Which subtitle parser a stream starts: none, the live service's, or the recording
/// service's. A media file never starts a transport stream parser.
#[derive(Clone, Copy, Debug, PartialEq, Eq, Structural)]
pub enum SubtitleInput {
    Disabled,
    Live(Option<BroadcastService>),
    Recording(u16),
}

/// The parser of a live stream, when subtitles are enabled.
pub fn live_subtitles(enabled: bool, broadcast: Option<BroadcastService>) -> (input: SubtitleInput)
    ensures
        input == if enabled {
            SubtitleInput::Live(broadcast)
        } else {
            SubtitleInput::Disabled
        },
{
    if enabled {
        SubtitleInput::Live(broadcast)
    } else {
        SubtitleInput::Disabled
    }
}

/// The parser of a recording of `service`, when subtitles are enabled.
pub fn recording_subtitles(enabled: bool, service: u16) -> (input: SubtitleInput)
    ensures
        input == if enabled {
            SubtitleInput::Recording(service)
        } else {
            SubtitleInput::Disabled
        },
{
    if enabled {
        SubtitleInput::Recording(service)
    } else {
        SubtitleInput::Disabled
    }
}

/// How subtitles started: disabled without a parser, parsing once it started, else
/// failed with its message.
pub fn subtitle_start(started: Option<Result<(), String>>) -> (start: SubtitleStart)
    ensures
        match started {
            None => start is Disabled,
            Some(Ok(())) => start is Parsing,
            Some(Err(message)) => start matches SubtitleStart::Failed(m) && m == message,
        },
{
    match started {
        None => SubtitleStart::Disabled,
        Some(Ok(())) => SubtitleStart::Parsing,
        Some(Err(message)) => SubtitleStart::Failed(message),
    }
}

/// The service a live stream is played with: none for an unknown service.
pub fn live_service(broadcast: Option<BroadcastService>) -> (service: Option<u16>)
    ensures
        service == match broadcast {
            Some(b) => if b.service_id != 0 {
                Some(b.service_id)
            } else {
                None
            },
            None => None,
        },
{
    match broadcast {
        Some(b) => if b.service_id != 0 {
            Some(b.service_id)
        } else {
            None
        },
        None => None,
    }
}

/// Transport (seek, pause, rate) needs native playback and a playing source.
pub fn transport_available(playback: bool, source: Source) -> (result: Result<(), Error>)
    ensures
        result is Ok <==> playback && source != Source::Idle,
        result matches Err(e) ==> e == Error::Unavailable,
{
    if playback && source != Source::Idle {
        Ok(())
    } else {
        Err(Error::Unavailable)
    }
}

/// A source has an identity when its stream is indexed here, or when a media file
/// names its broadcast.
pub fn has_identity(source: Source) -> (has: bool)
    ensures
        has == match source {
            Source::Recording | Source::Live => true,
            Source::Media { broadcast } => broadcast,
            Source::Idle => false,
        },
{
    match source {
        Source::Recording | Source::Live => true,
        Source::Media { broadcast } => broadcast,
        Source::Idle => false,
    }
}

/// Only a live stream has a timeline, timeshift settings and a live edge.
pub fn live_controls(source: Source) -> (live: bool)
    ensures
        live == (source == Source::Live),
{
    source == Source::Live
}

/// A timeline seek needs native playback, a live stream, and the timeline's own session.
pub fn timeline_seek_available(playback: bool, source: Source, owns: bool) -> (result: Result<(), Error>)
    ensures
        result is Ok <==> playback && source == Source::Live && owns,
        result matches Err(e) ==> e == Error::Unavailable,
{
    if playback && source == Source::Live && owns {
        Ok(())
    } else {
        Err(Error::Unavailable)
    }
}

/// Returning to live needs native playback, a live stream and retained history.
pub fn return_available(playback: bool, source: Source, history: bool) -> (result: Result<(), Error>)
    ensures
        result is Ok <==> playback && source == Source::Live && history,
        result matches Err(e) ==> e == Error::Unavailable,
{
    if playback && source == Source::Live && history {
        Ok(())
    } else {
        Err(Error::Unavailable)
    }
}

/// The rate controls shown: the default while idle; else the controller's, unavailable
/// without a tempo element.
pub fn speed(source: Source, controller: Snapshot, tempo: bool) -> (snapshot: Snapshot)
    ensures
        source == Source::Idle ==> snapshot.applied.spec_tenths() == 10 && snapshot.requested.spec_tenths() == 10
            && snapshot.availability == Availability::Inactive && !snapshot.at_live_edge,
        source != Source::Idle ==> snapshot == if tempo {
            controller
        } else {
            Snapshot { availability: Availability::MissingTempo, ..controller }
        },
{
    if source == Source::Idle {
        return Snapshot::default();
    }
    if tempo {
        controller
    } else {
        Snapshot { availability: Availability::MissingTempo, ..controller }
    }
}

} // verus!
