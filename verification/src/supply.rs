//! Detect fast playback limited by incoming data, even when other streams' timestamps
//! keep the receive index ahead of the playable output.
use vstd::prelude::*;
use crate::speed::Rate;

verus! {

/// The shortest observation of the output's progress.
pub const MIN_OBSERVATION_NS: u64 = 500_000_000;
/// At the slowest fast rate, observe long enough to tell the expected gain from frame
/// quantization: the observation yields at least this much gain.
pub const MIN_EXPECTED_GAIN_NS: u64 = 200_000_000;

/// One measurement: when, the output position, the rate, and the reader's progress.
#[derive(Clone, Copy)]
pub struct Sample<P> {
    pub at_ns: u64,
    pub position_ns: u64,
    pub rate: Rate,
    pub reader: P,
}

/// How long a fast rate is observed: the minimum observation, or long enough for the
/// expected gain, `200 ms / (rate - 1)`.
pub open spec fn interval_spec(tenths: int) -> int {
    let gain = MIN_EXPECTED_GAIN_NS * 10 / (tenths - 10);
    if gain > MIN_OBSERVATION_NS {
        gain
    } else {
        MIN_OBSERVATION_NS as int
    }
}

pub fn interval_ns(rate: Rate) -> (interval: u64)
    requires
        rate.spec_tenths() > 10,
    ensures
        interval == interval_spec(rate.spec_tenths()),
{
    let tenths = rate.tenths();
    let excess = (tenths - 10) as u64;
    let gain = MIN_EXPECTED_GAIN_NS * 10 / excess;
    if gain > MIN_OBSERVATION_NS {
        gain
    } else {
        MIN_OBSERVATION_NS
    }
}

/// A measurement after `previous` at `now_ns`: the sample kept, and whether playback is
/// limited by incoming data. A rate that is not faster than normal forgets the
/// measurement. A first sample, a seek or pause of the reader (`waited` unknown), a rate
/// change or a position that went back starts over. Before the interval has passed the
/// earlier sample stays. After it, playback is limited when the reader waited for data
/// and the output advanced less than half of the gain the rate promises:
/// `advanced < elapsed * (1 + rate) / 2`.
pub open spec fn limited_spec<P>(
    previous: Option<Sample<P>>,
    rate: Rate,
    position_ns: u64,
    reader: P,
    waited: Option<bool>,
    now_ns: u64,
) -> (Option<Sample<P>>, bool) {
    let current = Sample { at_ns: now_ns, position_ns, rate, reader };
    if rate.spec_tenths() <= 10 {
        (None, false)
    } else {
        match previous {
            None => (Some(current), false),
            Some(p) => if waited is None || p.rate != rate || position_ns < p.position_ns {
                (Some(current), false)
            } else {
                let elapsed: int = if now_ns >= p.at_ns {
                    now_ns - p.at_ns
                } else {
                    0
                };
                if elapsed < interval_spec(rate.spec_tenths()) {
                    (previous, false)
                } else {
                    let advanced = position_ns - p.position_ns;
                    (
                        Some(current),
                        waited == Some(true) && advanced * 20 < elapsed * (10 + rate.spec_tenths()),
                    )
                }
            },
        }
    }
}

/// The measurements of one playback at a fast rate.
pub struct Supply<P> {
    sample: Option<Sample<P>>,
}

impl<P: Copy> Supply<P> {
    pub closed spec fn sample_spec(self) -> Option<Sample<P>> {
        self.sample
    }

    pub fn new() -> (supply: Self)
        ensures
            supply.sample_spec() is None,
    {
        Supply { sample: None }
    }

    /// Forget the measurement: after a seek, a pause or a rate change.
    pub fn reset(&mut self)
        ensures
            final(self).sample_spec() is None,
    {
        self.sample = None;
    }

    /// The reader's progress at the kept measurement, to tell whether it waited since.
    pub fn previous_reader(&self) -> (reader: Option<P>)
        ensures
            reader == match self.sample_spec() {
                Some(s) => Some(s.reader),
                None => None,
            },
    {
        match self.sample {
            Some(s) => Some(s.reader),
            None => None,
        }
    }

    /// Whether fast playback at `rate` is limited by incoming data, measured at output
    /// position `position_ns` and time `now_ns`, with the reader's progress and whether
    /// the reader waited for data since the kept measurement (`None` across a seek).
    pub fn limited(&mut self, rate: Rate, position_ns: u64, reader: P, waited: Option<bool>, now_ns: u64) -> (limited: bool)
        ensures
            (final(self).sample_spec(), limited) == limited_spec(
                old(self).sample_spec(),
                rate,
                position_ns,
                reader,
                waited,
                now_ns,
            ),
    {
        if !rate.faster() {
            self.reset();
            return false;
        }
        let current = Sample { at_ns: now_ns, position_ns, rate, reader };
        let previous = match self.sample {
            None => {
                self.sample = Some(current);
                return false;
            },
            Some(p) => p,
        };
        if waited.is_none() || previous.rate != rate || position_ns < previous.position_ns {
            self.sample = Some(current);
            return false;
        }
        let elapsed = now_ns.saturating_sub(previous.at_ns);
        if elapsed < interval_ns(rate) {
            return false;
        }
        let advanced = position_ns - previous.position_ns;
        let factor: u128 = 10 + rate.tenths() as u128;
        assert(elapsed as u128 * factor <= 18446744073709551615u128 * 265) by (nonlinear_arith)
            requires
                factor <= 265,
        ;
        let gain: u128 = elapsed as u128 * factor;
        let limited = match waited {
            Some(true) => (advanced as u128) * 20 < gain,
            _ => false,
        };
        self.sample = Some(current);
        limited
    }
}

} // verus!
