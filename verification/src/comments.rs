//! What a comment service is told about the stream: which stretches of stream time map
//! to which broadcast clock and channel, and whether a recording is covered whole.
use vstd::prelude::*;
use crate::input::{at_live_edge, Coverage, Window};

verus! {

pub const NS_PER_MS: u64 = 1000000;

/// A stretch of stream time on one broadcast clock, as the program catalog maps it: the
/// clock's key, the comment channel of its service where one is known, its stream range
/// in nanoseconds and the broadcast time, in Unix milliseconds, at its start.
#[derive(Clone, Copy, Debug)]
pub struct MappedSpan<K> {
    pub key: K,
    pub channel: Option<u16>,
    pub start_ns: u64,
    pub end_ns: u64,
    pub utc_start_ms: i64,
}

/// A stretch of stream time a comment service can be asked about.
#[derive(Clone, Copy, Debug)]
pub struct ClockSpan<K> {
    pub key: K,
    pub channel: u16,
    pub media_start_ms: i64,
    pub media_end_ms: i64,
    pub utc_start_ms: i64,
}

/// What the comment service is told of the current stream.
pub enum Source<K, R> {
    /// A recording; `known` once its spans cover the whole recording.
    Recording { known: bool, spans: Vec<ClockSpan<K>> },
    /// A live stream from its earliest retained millisecond, with how comments are received
    /// and whether playback is at the live edge.
    Live { earliest_media_ms: i64, spans: Vec<ClockSpan<K>>, reception: R, at_edge: bool },
}

pub open spec fn ms_of(ns: u64) -> i64 {
    (ns / NS_PER_MS) as i64
}

/// A mapped span with a known channel, in milliseconds.
pub open spec fn clock_span<K>(span: MappedSpan<K>, channel: u16) -> ClockSpan<K> {
    ClockSpan {
        key: span.key,
        channel,
        media_start_ms: ms_of(span.start_ns),
        media_end_ms: ms_of(span.end_ns),
        utc_start_ms: span.utc_start_ms,
    }
}

/// The mapped spans whose channel is known, in order.
pub open spec fn with_channels<K>(mapped: Seq<MappedSpan<K>>) -> Seq<ClockSpan<K>>
    decreases mapped.len(),
{
    if mapped.len() == 0 {
        Seq::empty()
    } else {
        let rest = with_channels(mapped.drop_last());
        match mapped.last().channel {
            Some(channel) => rest.push(clock_span(mapped.last(), channel)),
            None => rest,
        }
    }
}

/// How far spans taken in order reach from `from` without a gap: each must start at or
/// before the reach so far; `None` once one leaves a gap.
pub open spec fn reach<K>(mapped: Seq<MappedSpan<K>>, from: u64) -> Option<u64>
    decreases mapped.len(),
{
    if mapped.len() == 0 {
        Some(from)
    } else {
        match reach(mapped.drop_last(), from) {
            Some(through) => if mapped.last().start_ns <= through {
                Some(if through >= mapped.last().end_ns { through } else { mapped.last().end_ns })
            } else {
                None
            },
            None => None,
        }
    }
}

/// A recording is known whole when every span has a channel, the spans reach from the
/// window's start past its end without a gap, and the window's duration is complete.
pub open spec fn covered<K>(mapped: Seq<MappedSpan<K>>, window: Window) -> bool {
    &&& forall|i: int| 0 <= i < mapped.len() ==> (#[trigger] mapped[i]).channel is Some
    &&& reach(mapped, window.start) matches Some(through) && through >= window.end
    &&& window.coverage == Coverage::Complete
}

/// Where the catalog is asked for spans from: a live stream looks back by the longest time
/// a comment stays on screen, so comments that are still showing keep their clock.
pub fn query_start(window: Window, live: bool, lifetime_ns: u64) -> (start: u64)
    ensures
        start == if live {
            if window.start >= lifetime_ns { (window.start - lifetime_ns) as u64 } else { 0 }
        } else {
            window.start
        },
{
    if live {
        window.start.saturating_sub(lifetime_ns)
    } else {
        window.start
    }
}

/// The comment source of the stream in `window`, from the spans the catalog mapped in it.
/// Nothing without a window.
pub fn comment_source<K: Copy, R>(
    window: Option<Window>,
    live: bool,
    mapped: &Vec<MappedSpan<K>>,
    position: Option<u64>,
    reception: R,
) -> (source: Option<Source<K, R>>)
    ensures
        window is None ==> source is None,
        window matches Some(w) ==> source matches Some(s) && if live {
            s matches Source::Live { earliest_media_ms, spans, reception: r, at_edge }
            && earliest_media_ms == ms_of(w.start)
            && spans@ == with_channels(mapped@)
            && r == reception
            && at_edge == match position {
                Some(p) => (if w.end >= p { w.end - p } else { 0 }) <= crate::input::LIVE_EDGE_TOLERANCE_NS,
                None => true,
            }
        } else {
            s matches Source::Recording { known, spans }
            && spans@ == with_channels(mapped@)
            && known == covered(mapped@, w)
        },
{
    let w = match window {
        Some(w) => w,
        None => return None,
    };
    let mut spans: Vec<ClockSpan<K>> = Vec::new();
    let mut all = true;
    let mut gapless = true;
    let mut through = w.start;
    let mut i: usize = 0;
    while i < mapped.len()
        invariant
            i <= mapped.len(),
            spans@ == with_channels(mapped@.take(i as int)),
            all <==> forall|j: int| 0 <= j < i ==> (#[trigger] mapped@[j]).channel is Some,
            gapless <==> reach(mapped@.take(i as int), w.start) is Some,
            gapless ==> reach(mapped@.take(i as int), w.start) == Some(through),
        decreases mapped.len() - i,
    {
        let span = mapped[i];
        proof {
            assert(mapped@.take(i as int + 1).drop_last() =~= mapped@.take(i as int));
            assert(mapped@.take(i as int + 1).last() == span);
        }
        match span.channel {
            Some(channel) => {
                spans.push(ClockSpan {
                    key: span.key,
                    channel,
                    media_start_ms: (span.start_ns / NS_PER_MS) as i64,
                    media_end_ms: (span.end_ns / NS_PER_MS) as i64,
                    utc_start_ms: span.utc_start_ms,
                });
            },
            None => {
                all = false;
            },
        }
        if gapless {
            if span.start_ns <= through {
                if through < span.end_ns {
                    through = span.end_ns;
                }
            } else {
                gapless = false;
            }
        }
        i = i + 1;
    }
    proof {
        assert(mapped@.take(mapped@.len() as int) =~= mapped@);
    }
    if live {
        let at_edge = at_live_edge(w.end, position);
        Some(Source::Live { earliest_media_ms: (w.start / NS_PER_MS) as i64, spans, reception, at_edge })
    } else {
        let known = all && gapless && through >= w.end && w.coverage == Coverage::Complete;
        Some(Source::Recording { known, spans })
    }
}

} // verus!
