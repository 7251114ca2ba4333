//! Bounded endpoint discovery and interpolation search for slow or random-access files.
//! Endpoints are provisional; observed playback ranges supply exact metadata.
//!
//! The caller reads: each probe indexes at most `PROBE_BYTES` from an offset this module
//! chooses, and hands back the index it built.
use vstd::prelude::*;
use crate::index::{
    end_option, ticks_ns, ticks_to_ns, wrap_distance, Anchor, Index, PCR_WRAP,
};
use crate::input::SEEK_PREROLL_NS;

verus! {

/// What one probe reads.
pub const PROBE_BYTES: u64 = 2097152;
/// A search probes at most this often.
pub const MAX_SEARCH_PROBES: u64 = 12;
/// A search ends once it is within this much before the wanted time.
pub const MAX_SEARCH_PREROLL_NS: u64 = 8_000_000_000;
/// Endpoints farther apart than a day do not describe one continuous clock.
pub const MAX_CONTINUOUS_SPAN_NS: u64 = 86_400_000_000_000;

/// `anchor` on the clock of `origin` (see `Anchor::relative_to`), when both PCRs are
/// 33-bit values and the time fits.
pub open spec fn relative_spec(anchor: Anchor, origin: Anchor) -> Option<Anchor> {
    if anchor.pcr < PCR_WRAP && origin.pcr < PCR_WRAP && origin.time_ns + ticks_ns(
        wrap_distance(origin.pcr, anchor.pcr),
    ) <= u64::MAX {
        Some(
            Anchor {
                time_ns: (origin.time_ns + ticks_ns(wrap_distance(origin.pcr, anchor.pcr))) as u64,
                epoch: origin.epoch,
                ..anchor
            },
        )
    } else {
        None
    }
}

fn relative(anchor: &Anchor, origin: &Anchor) -> (relative: Option<Anchor>)
    ensures
        relative == relative_spec(*anchor, *origin),
{
    if anchor.pcr >= PCR_WRAP || origin.pcr >= PCR_WRAP {
        return None;
    }
    let distance = (anchor.pcr + PCR_WRAP - origin.pcr) % PCR_WRAP;
    let ns = ticks_to_ns(distance);
    if origin.time_ns > u64::MAX - ns {
        return None;
    }
    Some(anchor.relative_to(origin))
}

/// Where the tail probe starts: a probe's length before the end, never before the first
/// packet.
pub open spec fn tail_offset_spec(size: u64, first_offset: u64) -> u64 {
    let back = if size >= PROBE_BYTES {
        (size - PROBE_BYTES) as u64
    } else {
        0
    };
    if back >= first_offset {
        back
    } else {
        first_offset
    }
}

pub fn tail_offset(size: u64, first_offset: u64) -> (offset: u64)
    ensures
        offset == tail_offset_spec(size, first_offset),
{
    let back = size.saturating_sub(PROBE_BYTES);
    if back >= first_offset {
        back
    } else {
        first_offset
    }
}

/// Where a probe at `offset` starts reading: on the packet boundary at or before it,
/// counted in strides from the first packet at `first`.
pub fn probe_start(offset: u64, first: u64, stride: u64) -> (start: u64)
    requires
        stride > 0,
    ensures
        start == first + (if offset >= first { offset - first } else { 0 }) / (stride as int) * stride,
        offset >= first ==> first <= start <= offset,
{
    let back = offset.saturating_sub(first);
    let strides = back / stride;
    assert(strides * stride <= back) by (nonlinear_arith)
        requires
            strides == back / stride,
            stride > 0,
    ;
    first + strides * stride
}

/// Whether a probe reads on: below its size, and not cancelled.
pub fn probe_continues(read: u64, cancelled: bool) -> (more: bool)
    ensures
        more == (read < PROBE_BYTES && !cancelled),
{
    read < PROBE_BYTES && !cancelled
}

/// How much the next probe read asks for: the rest of the probe, at most one block.
pub fn probe_request(read: u64, block: u64) -> (len: u64)
    requires
        read < PROBE_BYTES,
    ensures
        len == if PROBE_BYTES - read < block { PROBE_BYTES - read } else { block as int },
        len <= PROBE_BYTES - read,
{
    let left = PROBE_BYTES - read;
    if left < block {
        left
    } else {
        block
    }
}

/// The total of a run of reads.
pub open spec fn total(reads: Seq<int>) -> int
    decreases reads.len(),
{
    if reads.len() == 0 {
        0
    } else {
        total(reads.drop_last()) + reads.last()
    }
}

/// A probe never reads more than its size: while each read returns at most what was asked
/// (`probe_request` of what was read so far), all reads together stay within
/// `PROBE_BYTES`, so a survey's two probes read at most twice that.
pub proof fn probe_reads_stay_within_size(reads: Seq<int>)
    requires
        forall|i: int|
            0 <= i < reads.len() ==> 0 <= #[trigger] reads[i] && total(reads.take(i)) < PROBE_BYTES && reads[i]
                <= PROBE_BYTES - total(reads.take(i)),
    ensures
        total(reads) <= PROBE_BYTES,
    decreases reads.len(),
{
    if reads.len() > 0 {
        let rest = reads.drop_last();
        assert forall|i: int|
            0 <= i < rest.len() implies 0 <= #[trigger] rest[i] && total(rest.take(i)) < PROBE_BYTES && rest[i]
                <= PROBE_BYTES - total(rest.take(i)) by {
            assert(rest.take(i) =~= reads.take(i));
            assert(rest[i] == reads[i]);
        }
        probe_reads_stay_within_size(rest);
        let last = reads.len() - 1;
        assert(reads.take(last) =~= rest);
        assert(reads[last] <= PROBE_BYTES - total(rest));
    }
}

/// The survey of a file from its head and tail probes: the first anchor of the head, the
/// last of the tail on the head's clock, and where the tail's presentation ends. None
/// when a probe found no anchor, saw a clock reset, or the endpoints do not describe one
/// forward clock within a day.
pub open spec fn discover_spec(head: Seq<Anchor>, tail: Seq<Anchor>, tail_end: Option<u64>) -> Option<(Anchor, Anchor, u64)> {
    if head.len() == 0 || tail.len() == 0 {
        None
    } else {
        let first = head[0];
        let raw_last = tail.last();
        if head.last().epoch != first.epoch || tail[0].epoch != raw_last.epoch {
            None
        } else {
            match relative_spec(raw_last, first) {
                None => None,
                Some(last) => {
                    let presented = match tail_end {
                        Some(end) => end,
                        None => raw_last.time_ns,
                    };
                    let extra = if presented >= raw_last.time_ns {
                        presented - raw_last.time_ns
                    } else {
                        0
                    };
                    let end_ns = last.time_ns + extra;
                    if end_ns > u64::MAX || last.offset <= first.offset || end_ns <= first.time_ns
                        || end_ns > MAX_CONTINUOUS_SPAN_NS {
                        None
                    } else {
                        Some((first, last, end_ns as u64))
                    }
                },
            }
        }
    }
}

/// The two endpoints of a file with one continuous clock.
pub struct Survey {
    first: Anchor,
    last: Anchor,
    end_ns: u64,
    programs: bool,
}

impl Survey {
    pub closed spec fn first_spec(self) -> Anchor {
        self.first
    }

    pub closed spec fn last_spec(self) -> Anchor {
        self.last
    }

    pub closed spec fn programs_spec(self) -> bool {
        self.programs
    }

    pub closed spec fn end_spec(self) -> u64 {
        self.end_ns
    }

    /// Where the survey's clock ends: the end of the tail's presentation.
    pub fn end_ns(&self) -> (end: u64)
        ensures
            end == self.end_spec(),
    {
        self.end_ns
    }

    /// Survey a file from the indexes of its head and tail probes; `programs` says
    /// whether they collected program metadata.
    pub fn discover(head: &Index, tail: &Index, programs: bool) -> (survey: Option<Survey>)
        requires
            tail.wf(),
        ensures
            match (survey, discover_spec(head@.entries, tail@.entries, end_option(tail@))) {
                (Some(s), Some((first, last, end_ns))) => s.first_spec() == first && s.last_spec() == last
                    && s.end_spec() == end_ns && s.programs_spec() == programs,
                (None, None) => true,
                _ => false,
            },
    {
        let head_entries = head.entries();
        let tail_entries = tail.entries();
        if head_entries.len() == 0 || tail_entries.len() == 0 {
            return None;
        }
        let first = head_entries[0];
        let raw_last = tail_entries[tail_entries.len() - 1];
        if head_entries[head_entries.len() - 1].epoch != first.epoch || tail_entries[0].epoch
            != raw_last.epoch {
            return None;
        }
        let last = match relative(&raw_last, &first) {
            Some(last) => last,
            None => {
                return None;
            },
        };
        let presented = match tail.end_ns() {
            Some(end) => end,
            None => raw_last.time_ns,
        };
        let extra = presented.saturating_sub(raw_last.time_ns);
        let end_ns = match last.time_ns.checked_add(extra) {
            Some(end) => end,
            None => {
                return None;
            },
        };
        if last.offset <= first.offset || end_ns <= first.time_ns || end_ns > MAX_CONTINUOUS_SPAN_NS {
            return None;
        }
        Some(Survey { first, last, end_ns, programs })
    }

    pub fn start_ns(&self) -> (start: u64)
        ensures
            start == self.first_spec().time_ns,
    {
        self.first.time_ns
    }

    pub fn programs(&self) -> (programs: bool)
        ensures
            programs == self.programs_spec(),
    {
        self.programs
    }

    /// Whether an index read from the start agrees with the survey: its last anchor is on
    /// the survey's clock and within its end.
    pub fn agrees_with(&self, index: &Index) -> (agrees: bool)
        ensures
            agrees == (index@.entries.len() == 0 || (index@.entries.last().epoch
                == self.first_spec().epoch && index@.entries.last().time_ns <= self.end_spec())),
    {
        let entries = index.entries();
        if entries.len() == 0 {
            return true;
        }
        let last = entries[entries.len() - 1];
        last.epoch == self.first.epoch && last.time_ns <= self.end_ns
    }

    /// Start a search for `target`: a start early enough for the seek preroll.
    pub fn search(&self, target: u64) -> (search: Search)
        ensures
            search.low_spec() == self.first_spec(),
            search.high_spec() == self.last_spec(),
            search.desired_spec() == if target >= SEEK_PREROLL_NS {
                target - SEEK_PREROLL_NS
            } else {
                0
            },
            search.probes_spec() == 0,
    {
        Search {
            low: self.first,
            high: self.last,
            desired: target.saturating_sub(SEEK_PREROLL_NS),
            probes: 0,
        }
    }
}

/// What a search asks for next.
#[derive(Clone, Copy, Debug, PartialEq, Eq, Structural)]
pub enum Step {
    /// Start playback here.
    Found(Anchor),
    /// Probe the file from this offset and report the index through `sampled`.
    Probe(u64),
    /// The endpoints cannot place the target: index the file exactly.
    Unindexed,
}

/// An interpolation search between a low anchor at or before the wanted time and a high
/// anchor after it.
pub struct Search {
    low: Anchor,
    high: Anchor,
    desired: u64,
    probes: u64,
}

/// Where to probe between `low` and `high` for `desired`: interpolated by time, then
/// half a probe earlier to include tables and a preceding PCR, never before `low`.
pub open spec fn probe_offset(low: Anchor, high: Anchor, desired: u64) -> u64 {
    let span = high.time_ns - low.time_ns;
    let behind = if desired >= low.time_ns {
        desired - low.time_ns
    } else {
        0
    };
    let fraction = if behind <= span {
        behind
    } else {
        span
    };
    let estimate = low.offset + (high.offset - low.offset) * fraction / span;
    let early = if estimate >= PROBE_BYTES / 2 {
        estimate - PROBE_BYTES / 2
    } else {
        0
    };
    (if early >= low.offset {
        early
    } else {
        low.offset as int
    }) as u64
}

/// The bounds after a probe's anchors, on the survey's clock: an anchor within the
/// survey's end raises the low bound when it is at or before the wanted time and not
/// earlier in the file, and lowers the high bound when it is after it and earlier in the
/// file. Also whether a bound moved in the file.
pub open spec fn absorb(
    low: Anchor,
    high: Anchor,
    advanced: bool,
    entries: Seq<Anchor>,
    first: Anchor,
    end_ns: u64,
    desired: u64,
) -> (Anchor, Anchor, bool)
    decreases entries.len(),
{
    if entries.len() == 0 {
        (low, high, advanced)
    } else {
        let (l, h, a) = absorb(low, high, advanced, entries.drop_last(), first, end_ns, desired);
        match relative_spec(entries.last(), first) {
            None => (l, h, a),
            Some(anchor) => if anchor.time_ns > end_ns {
                (l, h, a)
            } else if anchor.time_ns <= desired && anchor.offset >= l.offset {
                (anchor, h, a || anchor.offset > l.offset)
            } else if anchor.time_ns > desired && anchor.offset < h.offset {
                (l, anchor, true)
            } else {
                (l, h, a)
            },
        }
    }
}

/// A search starts playback at or before the wanted time: once a low bound lies at or
/// before it, no probe's anchors move it past.
pub proof fn located_start_precedes_target(
    low: Anchor,
    high: Anchor,
    advanced: bool,
    entries: Seq<Anchor>,
    first: Anchor,
    end_ns: u64,
    desired: u64,
)
    requires
        low.time_ns <= desired,
    ensures
        absorb(low, high, advanced, entries, first, end_ns, desired).0.time_ns <= desired,
    decreases entries.len(),
{
    if entries.len() > 0 {
        located_start_precedes_target(low, high, advanced, entries.drop_last(), first, end_ns, desired);
    }
}

impl Search {
    pub closed spec fn low_spec(self) -> Anchor {
        self.low
    }

    pub closed spec fn high_spec(self) -> Anchor {
        self.high
    }

    pub closed spec fn desired_spec(self) -> u64 {
        self.desired
    }

    pub closed spec fn probes_spec(self) -> u64 {
        self.probes
    }

    /// The next step: found when the wanted time is at or before the first anchor;
    /// unindexed after the last probe or once the bounds meet; else a probe.
    pub fn next(&self) -> (step: Step)
        ensures
            step == if self.probes_spec() == 0 && self.desired_spec() <= self.low_spec().time_ns {
                Step::Found(self.low_spec())
            } else if self.probes_spec() >= MAX_SEARCH_PROBES || self.high_spec().time_ns
                <= self.low_spec().time_ns || self.high_spec().offset <= self.low_spec().offset {
                Step::Unindexed
            } else {
                Step::Probe(probe_offset(self.low_spec(), self.high_spec(), self.desired_spec()))
            },
    {
        if self.probes == 0 && self.desired <= self.low.time_ns {
            return Step::Found(self.low);
        }
        if self.probes >= MAX_SEARCH_PROBES || self.high.time_ns <= self.low.time_ns
            || self.high.offset <= self.low.offset {
            return Step::Unindexed;
        }
        let span = self.high.time_ns - self.low.time_ns;
        let behind = self.desired.saturating_sub(self.low.time_ns);
        let fraction = if behind <= span {
            behind
        } else {
            span
        };
        let width = self.high.offset - self.low.offset;
        assert(width as u128 * fraction as u128 <= 0xffff_ffff_ffff_ffffu128 * 0xffff_ffff_ffff_ffffu128) by (nonlinear_arith)
            requires
                width <= 0xffff_ffff_ffff_ffffu64,
                fraction <= 0xffff_ffff_ffff_ffffu64,
        ;
        let scaled: u128 = width as u128 * fraction as u128;
        assert(scaled <= width as u128 * span as u128) by (nonlinear_arith)
            requires
                scaled == width as u128 * fraction as u128,
                fraction <= span,
        ;
        assert(scaled / (span as u128) <= width as u128) by (nonlinear_arith)
            requires
                scaled <= width as u128 * span as u128,
                span > 0,
        ;
        let estimate = self.low.offset + (scaled / (span as u128)) as u64;
        let early = estimate.saturating_sub(PROBE_BYTES / 2);
        Step::Probe(
            if early >= self.low.offset {
                early
            } else {
                self.low.offset
            },
        )
    }

    /// A probe came back: with no anchor the search ends unindexed; else its anchors move
    /// the bounds. Found once the low bound is close enough before the wanted time;
    /// unindexed when no bound moved; else the search goes on.
    pub fn sampled(&mut self, survey: &Survey, sample: Option<&Index>) -> (step: Option<Step>)
        ensures
            final(self).desired_spec() == old(self).desired_spec(),
            match sample {
                None => step == Some(Step::Unindexed) && *final(self) == *old(self),
                Some(index) => {
                    let (low, high, advanced) = absorb(
                        old(self).low_spec(),
                        old(self).high_spec(),
                        false,
                        index@.entries,
                        survey.first_spec(),
                        survey.end_spec(),
                        old(self).desired_spec(),
                    );
                    &&& final(self).low_spec() == low
                    &&& final(self).high_spec() == high
                    &&& final(self).probes_spec() == if old(self).probes_spec() < u64::MAX {
                        old(self).probes_spec() + 1
                    } else {
                        old(self).probes_spec() as int
                    }
                    &&& step == if (if old(self).desired_spec() >= low.time_ns {
                        old(self).desired_spec() - low.time_ns
                    } else {
                        0
                    }) <= MAX_SEARCH_PREROLL_NS {
                        Some(Step::Found(low))
                    } else if !advanced {
                        Some(Step::Unindexed)
                    } else {
                        None::<Step>
                    }
                },
            },
            old(self).low_spec().time_ns <= old(self).desired_spec() ==> (step matches Some(Step::Found(a))
                ==> a.time_ns <= old(self).desired_spec() && old(self).desired_spec() - a.time_ns
                <= MAX_SEARCH_PREROLL_NS),
    {
        let index = match sample {
            None => {
                return Some(Step::Unindexed);
            },
            Some(index) => index,
        };
        let entries = index.entries();
        let ghost all = entries@;
        let mut low = self.low;
        let mut high = self.high;
        let mut advanced = false;
        let mut i: usize = 0;
        while i < entries.len()
            invariant
                i <= all.len(),
                all == entries@,
                (low, high, advanced) == absorb(self.low, self.high, false, all.subrange(0, i as int), survey.first, survey.end_ns, self.desired),
            decreases all.len() - i,
        {
            let raw = entries[i];
            proof {
                let prefix = all.subrange(0, i + 1);
                assert(prefix.drop_last() =~= all.subrange(0, i as int));
                assert(prefix.last() == raw);
            }
            match relative(&raw, &survey.first) {
                None => {},
                Some(anchor) => {
                    if anchor.time_ns > survey.end_ns {
                    } else if anchor.time_ns <= self.desired && anchor.offset >= low.offset {
                        advanced = advanced || anchor.offset > low.offset;
                        low = anchor;
                    } else if anchor.time_ns > self.desired && anchor.offset < high.offset {
                        advanced = true;
                        high = anchor;
                    }
                },
            }
            i = i + 1;
        }
        assert(all.subrange(0, all.len() as int) =~= all);
        proof {
            if self.low.time_ns <= self.desired {
                located_start_precedes_target(self.low, self.high, false, all, survey.first, survey.end_ns, self.desired);
            }
        }
        self.low = low;
        self.high = high;
        self.probes = self.probes.saturating_add(1);
        if self.desired.saturating_sub(low.time_ns) <= MAX_SEARCH_PREROLL_NS {
            return Some(Step::Found(low));
        }
        if !advanced {
            return Some(Step::Unindexed);
        }
        None
    }
}

/// The bytes that reads from a file have delivered so far.
pub struct Meter {
    pub bytes: u64,
}

impl Meter {
    /// A meter that has counted nothing.
    pub fn new() -> (meter: Meter)
        ensures
            meter.bytes == 0,
    {
        Meter { bytes: 0 }
    }

    /// Counts a read that delivered `count` bytes.
    pub fn count(&mut self, count: usize)
        requires
            old(self).bytes + count <= u64::MAX,
        ensures
            final(self).bytes == old(self).bytes + count,
    {
        self.bytes = self.bytes + count as u64;
    }
}

} // verus!
