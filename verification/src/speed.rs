//! Validated playback rates and one snapshot for UI/desktop notifications.
use vstd::prelude::*;

verus! {

/// A playback rate in tenths of normal speed.
#[derive(Clone, Copy, Debug, PartialEq, Eq, Structural)]
pub struct Rate(u8);

/// Slowest accepted rate, in tenths.
pub const MIN_TENTHS: i32 = 5;
/// Fastest accepted rate, in tenths.
pub const MAX_TENTHS: i32 = 20;
/// Normal speed, in tenths.
pub const NORMAL_TENTHS: u8 = 10;

impl Rate {
    /// The value of a rate, in tenths.
    pub closed spec fn spec_tenths(self) -> int {
        self.0 as int
    }

    /// Every rate lies within the accepted range.
    pub closed spec fn valid(self) -> bool {
        MIN_TENTHS <= self.0 <= MAX_TENTHS
    }

    pub fn normal() -> (rate: Self)
        ensures
            rate.spec_tenths() == NORMAL_TENTHS,
            rate.valid(),
    {
        Rate(NORMAL_TENTHS)
    }

    pub fn checked(tenths: i32) -> (rate: Option<Self>)
        ensures
            rate is Some <==> MIN_TENTHS <= tenths <= MAX_TENTHS,
            rate matches Some(r) ==> r.spec_tenths() == tenths && r.valid(),
    {
        if MIN_TENTHS <= tenths && tenths <= MAX_TENTHS {
            Some(Rate(tenths as u8))
        } else {
            None
        }
    }

    pub fn tenths(self) -> (tenths: i32)
        ensures
            tenths == self.spec_tenths(),
            0 <= tenths <= 255,
    {
        self.0 as i32
    }

    pub fn faster(self) -> (faster: bool)
        ensures
            faster <==> self.spec_tenths() > NORMAL_TENTHS,
    {
        self.0 > NORMAL_TENTHS
    }
}

/// Why a rate can or cannot be applied.
#[derive(Clone, Copy, Debug, PartialEq, Eq, Structural)]
pub enum Availability {
    Inactive,
    Preparing,
    Ended,
    MissingTempo,
    LiveOnly,
    Variable,
}

/// The applied and requested rates, their availability and whether playback is at the
/// live edge.
#[derive(Clone, Copy, Debug, PartialEq, Eq, Structural)]
pub struct Snapshot {
    pub applied: Rate,
    pub requested: Rate,
    pub availability: Availability,
    pub at_live_edge: bool,
}

impl Default for Snapshot {
    fn default() -> (snapshot: Snapshot)
        ensures
            snapshot.applied.spec_tenths() == NORMAL_TENTHS,
            snapshot.requested.spec_tenths() == NORMAL_TENTHS,
            snapshot.availability == Availability::Inactive,
            !snapshot.at_live_edge,
    {
        Snapshot {
            applied: Rate::normal(),
            requested: Rate::normal(),
            availability: Availability::Inactive,
            at_live_edge: false,
        }
    }
}

} // verus!
