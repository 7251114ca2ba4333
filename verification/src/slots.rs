//! Disk retention places each stream segment in a slot of one anonymous file. A slot is
//! reused only after its segment was released; distinct segments never share a slot.
use vstd::prelude::*;

verus! {

/// Bytes of one segment, and of one slot.
pub const SEGMENT_BYTES: usize = 1048576;

/// Why a slot access was refused.
#[derive(Clone, Copy, Debug, PartialEq, Eq, Structural)]
pub enum SlotError {
    /// The range does not fit in one segment.
    RangeOverflow,
    /// The segment holds no slot.
    NotRetained,
}

/// A range of `count` bytes from `within` fits in one segment.
pub fn check_range(within: usize, count: usize) -> (result: Result<(), SlotError>)
    ensures
        result is Ok <==> within + count <= SEGMENT_BYTES,
        result matches Err(e) ==> e == SlotError::RangeOverflow,
{
    match within.checked_add(count) {
        Some(end) => if end > SEGMENT_BYTES {
            Err(SlotError::RangeOverflow)
        } else {
            Ok(())
        },
        None => Err(SlotError::RangeOverflow),
    }
}

pub struct SlotsView {
    pub assigned: Map<u64, u64>,
    pub vacant: Seq<u64>,
    pub extent: u64,
}

/// The slot map of the retention file: the slot of each retained segment by its stream
/// offset, the released slots, and the file's extent.
pub struct Slots {
    assigned: std::collections::HashMap<u64, u64>,
    vacant: Vec<u64>,
    extent: u64,
}

impl View for Slots {
    type V = SlotsView;

    closed spec fn view(&self) -> SlotsView {
        SlotsView { assigned: self.assigned@, vacant: self.vacant@, extent: self.extent }
    }
}

/// A slot is a segment-aligned place inside the file.
pub open spec fn slot_in(slot: u64, extent: u64) -> bool {
    slot % (SEGMENT_BYTES as u64) == 0 && slot < extent
}

/// Assigned slots are distinct, vacant slots are distinct and unassigned, and all lie
/// inside the file.
pub open spec fn slots_wf(v: SlotsView) -> bool {
    &&& v.extent % (SEGMENT_BYTES as u64) == 0
    &&& v.extent <= 0x8000_0000_0000_0000u64
    &&& forall|s: u64| #[trigger] v.assigned.contains_key(s) ==> slot_in(v.assigned[s], v.extent)
    &&& forall|i: int| 0 <= i < v.vacant.len() ==> slot_in(#[trigger] v.vacant[i], v.extent)
    &&& forall|a: u64, b: u64|
        #[trigger] v.assigned.contains_key(a) && #[trigger] v.assigned.contains_key(b) && a != b
            ==> v.assigned[a] != v.assigned[b]
    &&& forall|i: int, j: int|
        0 <= i < j < v.vacant.len() ==> #[trigger] v.vacant[i] != #[trigger] v.vacant[j]
    &&& forall|s: u64, i: int|
        #[trigger] v.assigned.contains_key(s) && 0 <= i < v.vacant.len() ==> v.assigned[s]
            != #[trigger] v.vacant[i]
}

/// The smallest of a nonempty run of slots.
pub open spec fn is_least(vacant: Seq<u64>, i: int) -> bool {
    0 <= i < vacant.len() && forall|j: int| 0 <= j < vacant.len() ==> vacant[i] <= #[trigger] vacant[j]
}

impl Slots {
    pub closed spec fn wf(self) -> bool {
        slots_wf(self@)
    }

    pub fn new() -> (slots: Slots)
        ensures
            slots.wf(),
            slots@.assigned == Map::<u64, u64>::empty(),
            slots@.vacant == Seq::<u64>::empty(),
            slots@.extent == 0,
    {
        Slots { assigned: std::collections::HashMap::new(), vacant: Vec::new(), extent: 0 }
    }

    /// The slot of the segment at `start`.
    pub fn slot(&self, start: u64) -> (slot: Result<u64, SlotError>)
        ensures
            match slot {
                Ok(s) => self@.assigned.contains_key(start) && s == self@.assigned[start],
                Err(e) => !self@.assigned.contains_key(start) && e == SlotError::NotRetained,
            },
    {
        broadcast use vstd::std_specs::hash::group_hash_axioms;

        match self.assigned.get(&start) {
            Some(slot) => Ok(*slot),
            None => Err(SlotError::NotRetained),
        }
    }

    fn least_vacant(&self) -> (i: usize)
        requires
            self@.vacant.len() > 0,
        ensures
            is_least(self@.vacant, i as int),
    {
        let mut best: usize = 0;
        let mut k: usize = 1;
        while k < self.vacant.len()
            invariant
                0 <= best < k <= self.vacant@.len(),
                forall|j: int| 0 <= j < k ==> self.vacant@[best as int] <= #[trigger] self.vacant@[j],
            decreases self.vacant@.len() - k,
        {
            if self.vacant[k] < self.vacant[best] {
                best = k;
            }
            k = k + 1;
        }
        best
    }

    /// The file offset to write `count` bytes at `within` of the segment at `start`:
    /// the segment keeps its slot; a new segment takes the lowest released slot, else
    /// grows the file by one slot.
    pub fn write_target(&mut self, start: u64, within: usize, count: usize) -> (target: Result<u64, SlotError>)
        requires
            old(self).wf(),
            old(self)@.extent + SEGMENT_BYTES <= 0x8000_0000_0000_0000u64,
        ensures
            final(self).wf(),
            match target {
                Err(e) => e == SlotError::RangeOverflow && within + count > SEGMENT_BYTES
                    && final(self)@ == old(self)@,
                Ok(offset) => within + count <= SEGMENT_BYTES && final(self)@.assigned.contains_key(start)
                    && offset == final(self)@.assigned[start] + within && (if old(self)@.assigned.contains_key(start) {
                    final(self)@ == old(self)@
                } else if old(self)@.vacant.len() > 0 {
                    exists|i: int|
                        is_least(old(self)@.vacant, i) && final(self)@.assigned == old(self)@.assigned.insert(
                            start,
                            old(self)@.vacant[i],
                        ) && final(self)@.vacant == old(self)@.vacant.remove(i) && final(self)@.extent
                            == old(self)@.extent
                } else {
                    final(self)@.assigned == old(self)@.assigned.insert(start, old(self)@.extent)
                        && final(self)@.vacant == old(self)@.vacant && final(self)@.extent == old(
                        self,
                    )@.extent + SEGMENT_BYTES
                }),
            },
    {
        broadcast use vstd::std_specs::hash::group_hash_axioms;

        check_range(within, count)?;
        let slot = match self.assigned.get(&start) {
            Some(slot) => *slot,
            None => {
                let ghost before = self@;
                let slot = if self.vacant.len() > 0 {
                    let i = self.least_vacant();
                    let slot = self.vacant.remove(i);
                    assert(slot == before.vacant[i as int]);
                    proof {
                        assert forall|a: int, b: int| 0 <= a < b < self.vacant@.len() implies #[trigger] self.vacant@[a] != #[trigger] self.vacant@[b] by {
                            let oa = if a < i { a } else { a + 1 };
                            let ob = if b < i { b } else { b + 1 };
                            assert(self.vacant@[a] == before.vacant[oa]);
                            assert(self.vacant@[b] == before.vacant[ob]);
                        }
                    }
                    slot
                } else {
                    let slot = self.extent;
                    self.extent = self.extent + SEGMENT_BYTES as u64;
                    slot
                };
                self.assigned.insert(start, slot);
                proof {
                    let v = self@;
                    assert forall|s: u64| #[trigger] v.assigned.contains_key(s) implies slot_in(v.assigned[s], v.extent) by {
                        if s != start {
                            assert(before.assigned.contains_key(s));
                        }
                    }
                    assert forall|k: int| 0 <= k < v.vacant.len() implies slot_in(#[trigger] v.vacant[k], v.extent) by {
                        if before.vacant.len() > 0 {
                            let i = choose|i: int| is_least(before.vacant, i) && v.vacant == before.vacant.remove(i);
                            let o = if k < i { k } else { k + 1 };
                            assert(v.vacant[k] == before.vacant[o]);
                        }
                    }
                    assert forall|a: u64, b: u64| #[trigger] v.assigned.contains_key(a) && #[trigger] v.assigned.contains_key(b) && a != b implies v.assigned[a] != v.assigned[b] by {
                        if a == start {
                            assert(before.assigned.contains_key(b));
                            if before.vacant.len() > 0 {
                                let i = choose|i: int| is_least(before.vacant, i) && v.vacant == before.vacant.remove(i);
                                assert(before.assigned[b] != before.vacant[i]);
                            } else {
                                assert(slot_in(before.assigned[b], before.extent));
                            }
                        } else if b == start {
                            assert(before.assigned.contains_key(a));
                            if before.vacant.len() > 0 {
                                let i = choose|i: int| is_least(before.vacant, i) && v.vacant == before.vacant.remove(i);
                                assert(before.assigned[a] != before.vacant[i]);
                            } else {
                                assert(slot_in(before.assigned[a], before.extent));
                            }
                        } else {
                            assert(before.assigned.contains_key(a) && before.assigned.contains_key(b));
                        }
                    }
                    assert forall|s: u64, k: int| #[trigger] v.assigned.contains_key(s) && 0 <= k < v.vacant.len() implies v.assigned[s] != #[trigger] v.vacant[k] by {
                        if before.vacant.len() > 0 {
                            let i = choose|i: int| is_least(before.vacant, i) && v.vacant == before.vacant.remove(i);
                            let o = if k < i { k } else { k + 1 };
                            assert(v.vacant[k] == before.vacant[o]);
                            if s == start {
                                assert(o != i);
                            } else {
                                assert(before.assigned.contains_key(s));
                            }
                        } else {
                            assert(v.vacant.len() == 0);
                        }
                    }
                }
                slot
            },
        };
        assert(self@.assigned.contains_key(start) && self@.assigned[start] == slot);
        assert(slot_in(slot, self@.extent));
        Ok(slot + within as u64)
    }

    /// The file offset to read `count` bytes at `within` of the segment at `start`.
    pub fn read_target(&self, start: u64, within: usize, count: usize) -> (target: Result<u64, SlotError>)
        requires
            self.wf(),
        ensures
            match target {
                Ok(offset) => within + count <= SEGMENT_BYTES && self@.assigned.contains_key(start)
                    && offset == self@.assigned[start] + within,
                Err(SlotError::RangeOverflow) => within + count > SEGMENT_BYTES,
                Err(SlotError::NotRetained) => within + count <= SEGMENT_BYTES
                    && !self@.assigned.contains_key(start),
            },
    {
        check_range(within, count)?;
        let slot = self.slot(start)?;
        assert(slot_in(slot, self@.extent));
        Ok(slot + within as u64)
    }

    /// The segment at `start` was released on disk: its slot becomes vacant.
    pub fn vacate(&mut self, start: u64) -> (slot: Result<u64, SlotError>)
        requires
            old(self).wf(),
        ensures
            final(self).wf(),
            match slot {
                Ok(s) => old(self)@.assigned.contains_key(start) && s == old(self)@.assigned[start]
                    && final(self)@.assigned == old(self)@.assigned.remove(start)
                    && final(self)@.vacant == old(self)@.vacant.push(s) && final(self)@.extent == old(
                    self,
                )@.extent,
                Err(e) => e == SlotError::NotRetained && !old(self)@.assigned.contains_key(start)
                    && final(self)@ == old(self)@,
            },
    {
        broadcast use vstd::std_specs::hash::group_hash_axioms;

        let slot = self.slot(start)?;
        let ghost before = self@;
        self.assigned.remove(&start);
        self.vacant.push(slot);
        proof {
            let v = self@;
            assert forall|s: u64| #[trigger] v.assigned.contains_key(s) implies slot_in(v.assigned[s], v.extent) by {
                assert(before.assigned.contains_key(s));
            }
            assert forall|k: int| 0 <= k < v.vacant.len() implies slot_in(#[trigger] v.vacant[k], v.extent) by {
                if k < before.vacant.len() {
                    assert(v.vacant[k] == before.vacant[k]);
                }
            }
            assert forall|a: u64, b: u64| #[trigger] v.assigned.contains_key(a) && #[trigger] v.assigned.contains_key(b) && a != b implies v.assigned[a] != v.assigned[b] by {
                assert(before.assigned.contains_key(a) && before.assigned.contains_key(b));
            }
            assert forall|a: int, b: int| 0 <= a < b < v.vacant.len() implies #[trigger] v.vacant[a] != #[trigger] v.vacant[b] by {
                if b == before.vacant.len() {
                    assert(v.vacant[a] == before.vacant[a]);
                    assert(before.assigned.contains_key(start));
                } else {
                    assert(v.vacant[a] == before.vacant[a] && v.vacant[b] == before.vacant[b]);
                }
            }
            assert forall|s: u64, k: int| #[trigger] v.assigned.contains_key(s) && 0 <= k < v.vacant.len() implies v.assigned[s] != #[trigger] v.vacant[k] by {
                assert(before.assigned.contains_key(s));
                if k == before.vacant.len() {
                    assert(s != start);
                } else {
                    assert(v.vacant[k] == before.vacant[k]);
                }
            }
        }
        Ok(slot)
    }
}

/// Distinct retained segments never share a slot, and no retained segment's slot is
/// among the vacant ones: bytes of one segment cannot overwrite another's.
pub proof fn segments_never_share_a_slot(slots: SlotsView, a: u64, b: u64, i: int)
    requires
        slots_wf(slots),
    ensures
        slots.assigned.contains_key(a) && slots.assigned.contains_key(b) && a != b
            ==> slots.assigned[a] != slots.assigned[b],
        slots.assigned.contains_key(a) && 0 <= i < slots.vacant.len() ==> slots.assigned[a]
            != slots.vacant[i],
{
}

} // verus!
