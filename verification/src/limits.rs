//! Validated retention budgets for the live stream buffer.
use vstd::prelude::*;

verus! {

pub const MIN_CAPACITY_MIB: u32 = 16;
pub const MAX_CAPACITY_MIB: u32 = 65536;
pub const MIN_RETENTION_MINUTES: u32 = 1;
pub const MAX_RETENTION_MINUTES: u32 = 180;
pub const MIB_BYTES: u64 = 1048576;
pub const SECONDS_PER_MINUTE: u64 = 60;
pub const NANOSECONDS_PER_SECOND: u64 = 1000000000;
pub const DEFAULT_MEMORY_MIB: u32 = 256;
pub const DEFAULT_FILESYSTEM_MIB: u32 = 2048;
pub const DEFAULT_MINUTES: u32 = 30;
/// Without retention, the buffer still holds a little ahead of playback.
pub const FORWARD_BUFFER_BYTES: u64 = 2097152;
pub const FORWARD_BUFFER_NS: u64 = 2000000000;

/// Where the received stream is retained for seeking back.
#[derive(Clone, Copy, Debug, PartialEq, Eq, Structural)]
pub enum Retention {
    Off,
    Memory,
    Filesystem,
}

impl Default for Retention {
    fn default() -> (retention: Retention)
        ensures
            retention == Retention::Off,
    {
        Retention::Off
    }
}

/// Budgets as they are saved: not yet validated.
#[derive(Clone, Copy, Debug, PartialEq, Eq, Structural)]
pub struct SavedLimits {
    pub memory_mib: u32,
    pub filesystem_mib: u32,
    pub minutes: u32,
}

impl Default for SavedLimits {
    fn default() -> (saved: SavedLimits)
        ensures
            saved == (SavedLimits {
                memory_mib: DEFAULT_MEMORY_MIB,
                filesystem_mib: DEFAULT_FILESYSTEM_MIB,
                minutes: DEFAULT_MINUTES,
            }),
    {
        SavedLimits {
            memory_mib: DEFAULT_MEMORY_MIB,
            filesystem_mib: DEFAULT_FILESYSTEM_MIB,
            minutes: DEFAULT_MINUTES,
        }
    }
}

/// Budgets within their ranges.
pub open spec fn in_range(saved: SavedLimits) -> bool {
    &&& MIN_CAPACITY_MIB <= saved.memory_mib <= MAX_CAPACITY_MIB
    &&& MIN_CAPACITY_MIB <= saved.filesystem_mib <= MAX_CAPACITY_MIB
    &&& MIN_RETENTION_MINUTES <= saved.minutes <= MAX_RETENTION_MINUTES
}

/// Saved budgets out of their ranges.
#[derive(Clone, Copy, Debug, PartialEq, Eq, Structural)]
pub struct OutOfRange;

/// Retention budgets: memory and filesystem capacity in MiB, and minutes of history.
#[derive(Clone, Copy, Debug, PartialEq, Eq, Structural)]
pub struct Limits(SavedLimits);

impl Limits {
    pub closed spec fn saved_spec(self) -> SavedLimits {
        self.0
    }

    /// Limits are always within their ranges.
    #[verifier::type_invariant]
    pub closed spec fn wf(self) -> bool {
        in_range(self.0)
    }

    pub fn try_from_saved(value: SavedLimits) -> (limits: Result<Limits, OutOfRange>)
        ensures
            limits matches Ok(l) ==> l.saved_spec() == value && l.wf(),
            limits is Ok <==> in_range(value),
    {
        if !(MIN_CAPACITY_MIB <= value.memory_mib && value.memory_mib <= MAX_CAPACITY_MIB)
            || !(MIN_CAPACITY_MIB <= value.filesystem_mib && value.filesystem_mib
            <= MAX_CAPACITY_MIB) || !(MIN_RETENTION_MINUTES <= value.minutes && value.minutes
            <= MAX_RETENTION_MINUTES) {
            return Err(OutOfRange);
        }
        Ok(Limits(value))
    }

    pub fn new(memory_mib: u32, filesystem_mib: u32, minutes: u32) -> (limits: Option<Limits>)
        ensures
            limits is Some <==> in_range(SavedLimits { memory_mib, filesystem_mib, minutes }),
            limits matches Some(l) ==> l.saved_spec() == (SavedLimits {
                memory_mib,
                filesystem_mib,
                minutes,
            }) && l.wf(),
    {
        match Limits::try_from_saved(SavedLimits { memory_mib, filesystem_mib, minutes }) {
            Ok(limits) => Some(limits),
            Err(_) => None,
        }
    }

    pub fn memory_mib(self) -> (mib: u32)
        ensures
            mib == self.saved_spec().memory_mib,
    {
        self.0.memory_mib
    }

    pub fn filesystem_mib(self) -> (mib: u32)
        ensures
            mib == self.saved_spec().filesystem_mib,
    {
        self.0.filesystem_mib
    }

    pub fn minutes(self) -> (minutes: u32)
        ensures
            minutes == self.saved_spec().minutes,
    {
        self.0.minutes
    }

    /// The budgets to save.
    pub fn saved(self) -> (saved: SavedLimits)
        ensures
            saved == self.saved_spec(),
    {
        self.0
    }
}

impl Default for Limits {
    fn default() -> (limits: Limits)
        ensures
            limits.saved_spec() == (SavedLimits {
                memory_mib: DEFAULT_MEMORY_MIB,
                filesystem_mib: DEFAULT_FILESYSTEM_MIB,
                minutes: DEFAULT_MINUTES,
            }),
            limits.wf(),
    {
        Limits(SavedLimits::default())
    }
}

/// Which storage retains the stream, within which budgets.
#[derive(Clone, Copy, Debug, PartialEq, Eq, Structural)]
pub struct Policy {
    storage: Retention,
    limits: Limits,
}

/// The byte and time budget of a retention setting.
pub open spec fn budget_spec(storage: Retention, limits: SavedLimits) -> (u64, u64) {
    match storage {
        Retention::Off => (FORWARD_BUFFER_BYTES, FORWARD_BUFFER_NS),
        Retention::Memory => (
            (limits.memory_mib * MIB_BYTES) as u64,
            (limits.minutes * SECONDS_PER_MINUTE * NANOSECONDS_PER_SECOND) as u64,
        ),
        Retention::Filesystem => (
            (limits.filesystem_mib * MIB_BYTES) as u64,
            (limits.minutes * SECONDS_PER_MINUTE * NANOSECONDS_PER_SECOND) as u64,
        ),
    }
}

impl Policy {
    pub closed spec fn storage_spec(self) -> Retention {
        self.storage
    }

    pub closed spec fn limits_spec(self) -> Limits {
        self.limits
    }

    pub fn new(storage: Retention, limits: Limits) -> (policy: Policy)
        ensures
            policy.storage_spec() == storage,
            policy.limits_spec() == limits,
    {
        Policy { storage, limits }
    }

    pub fn storage(self) -> (storage: Retention)
        ensures
            storage == self.storage_spec(),
    {
        self.storage
    }

    pub fn limits(self) -> (limits: Limits)
        ensures
            limits == self.limits_spec(),
    {
        self.limits
    }

    /// The bytes and nanoseconds of stream retained.
    pub fn budget(self) -> (budget: (u64, u64))
        ensures
            budget == budget_spec(self.storage_spec(), self.limits_spec().saved_spec()),
    {
        proof {
            use_type_invariant(self.limits);
        }
        match self.storage {
            Retention::Off => (FORWARD_BUFFER_BYTES, FORWARD_BUFFER_NS),
            Retention::Memory => (
                self.limits.memory_mib() as u64 * MIB_BYTES,
                self.limits.minutes() as u64 * SECONDS_PER_MINUTE * NANOSECONDS_PER_SECOND,
            ),
            Retention::Filesystem => (
                self.limits.filesystem_mib() as u64 * MIB_BYTES,
                self.limits.minutes() as u64 * SECONDS_PER_MINUTE * NANOSECONDS_PER_SECOND,
            ),
        }
    }
}

impl From<Retention> for Policy {
    fn from(storage: Retention) -> (policy: Policy) {
        Policy { storage, limits: Limits::default() }
    }
}

impl vstd::std_specs::convert::FromSpecImpl<Retention> for Policy {
    open spec fn obeys_from_spec() -> bool {
        true
    }

    closed spec fn from_spec(storage: Retention) -> Policy {
        Policy { storage, limits: Limits(SavedLimits {
            memory_mib: DEFAULT_MEMORY_MIB,
            filesystem_mib: DEFAULT_FILESYSTEM_MIB,
            minutes: DEFAULT_MINUTES,
        }) }
    }
}

impl Default for Policy {
    fn default() -> (policy: Policy)
        ensures
            policy.storage_spec() == Retention::Off,
            policy.limits_spec().saved_spec() == (SavedLimits {
                memory_mib: DEFAULT_MEMORY_MIB,
                filesystem_mib: DEFAULT_FILESYSTEM_MIB,
                minutes: DEFAULT_MINUTES,
            }),
    {
        Policy { storage: Retention::Off, limits: Limits::default() }
    }
}

/// Valid limits round-trip through their saved form, and only in-range saved budgets
/// make limits.
pub proof fn limits_round_trip(limits: Limits, saved: SavedLimits)
    ensures
        in_range(saved) ==> exists|l: Limits| l.saved_spec() == saved && l.wf(),
{
    if in_range(saved) {
        let l = Limits(saved);
        assert(l.saved_spec() == saved && l.wf());
    }
}

} // verus!
