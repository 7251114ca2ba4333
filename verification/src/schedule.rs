//! Program boundaries that the broadcast schedule marks on the stream's clock.
//!
//! Each clock anchor of the index may carry the program guide that was current when it was
//! recorded: a reading of the broadcast clock against the stream clock, and the current
//! and next events. Event starts and ends inside the anchor's clock epoch become marks, in
//! stream milliseconds.
use vstd::prelude::*;

verus! {

/// Nanoseconds in a millisecond.
pub const NS_PER_MS: i128 = 1000000;

/// One scheduled event of a guide: its identity and its schedule in broadcast milliseconds.
#[derive(Clone, Copy, Debug, PartialEq, Eq, Structural)]
pub struct Scheduled {
    pub network_id: u16,
    pub transport_stream_id: u16,
    pub service_id: u16,
    pub event_id: u16,
    pub start_at: Option<i64>,
    pub duration: Option<u64>,
}

/// The program guide an anchor carries. Anchors that share one guide carry the same
/// `snapshot`; `clock` pairs a stream time, in nanoseconds, with the broadcast time, in
/// Unix milliseconds, read at it; `events` are the current events, then the next ones.
#[derive(Clone, Debug)]
pub struct Guide {
    pub snapshot: u64,
    pub clock: Option<(u64, i64)>,
    pub events: Vec<Scheduled>,
}

/// A clock anchor of the index, with the guide it carries.
#[derive(Clone, Debug)]
pub struct Mark {
    pub epoch: u64,
    pub time_ns: u64,
    pub guide: Option<Guide>,
}

/// The identity of an event within one epoch.
pub type EventKey = (u64, u16, u16, u16, u16);

/// A boundary found so far: its epoch, its broadcast time and its stream millisecond.
pub type Point = (u64, i128, i64);

pub open spec fn has_epoch(marks: Seq<Mark>, epoch: u64) -> bool {
    exists|i: int| 0 <= i < marks.len() && (#[trigger] marks[i]).epoch == epoch
}

/// The time of the first anchor of an epoch.
pub open spec fn first_time(marks: Seq<Mark>, epoch: u64) -> u64
    decreases marks.len(),
{
    if marks.len() == 0 {
        0
    } else if has_epoch(marks.drop_last(), epoch) {
        first_time(marks.drop_last(), epoch)
    } else if marks.last().epoch == epoch {
        marks.last().time_ns
    } else {
        0
    }
}

/// The time of the last anchor of an epoch.
pub open spec fn last_time(marks: Seq<Mark>, epoch: u64) -> u64
    decreases marks.len(),
{
    if marks.len() == 0 {
        0
    } else if marks.last().epoch == epoch {
        marks.last().time_ns
    } else {
        last_time(marks.drop_last(), epoch)
    }
}

/// The highest epoch of the anchors.
pub open spec fn top_epoch(marks: Seq<Mark>) -> u64
    decreases marks.len(),
{
    if marks.len() == 0 {
        0
    } else {
        let rest = top_epoch(marks.drop_last());
        if marks.last().epoch > rest { marks.last().epoch } else { rest }
    }
}

/// The stream time an epoch spans: from its first anchor to its last one, and for the
/// highest epoch to the end of the index.
pub open spec fn epoch_range(marks: Seq<Mark>, end: u64, epoch: u64) -> (u64, u64) {
    (first_time(marks, epoch), if epoch == top_epoch(marks) { end } else { last_time(marks, epoch) })
}

pub open spec fn event_key(epoch: u64, event: Scheduled) -> EventKey {
    (epoch, event.network_id, event.transport_stream_id, event.service_id, event.event_id)
}

/// A broadcast time on the stream clock, in nanoseconds.
pub open spec fn mapped_ns(clock: (u64, i64), utc: int) -> int {
    clock.0 + (utc - clock.1) * 1000000
}

pub open spec fn has_point(found: Seq<Point>, epoch: u64, utc: i128) -> bool {
    exists|i: int| 0 <= i < found.len() && (#[trigger] found[i]).0 == epoch && found[i].1 == utc
}

/// A broadcast time that falls strictly inside its epoch becomes a boundary, unless one is
/// already known for that epoch and time.
pub open spec fn add_point(found: Seq<Point>, epoch: u64, utc: i128, clock: (u64, i64), range: (u64, u64)) -> Seq<Point> {
    let mapped = mapped_ns(clock, utc as int);
    if range.0 < mapped < range.1 && !has_point(found, epoch, utc) {
        found.push((epoch, utc, (mapped / 1000000) as i64))
    } else {
        found
    }
}

/// The events of one guide, in order: an event with a schedule and a length, not yet seen
/// in its epoch, gives its start and its end.
pub open spec fn scan_events(
    seen: Seq<EventKey>,
    found: Seq<Point>,
    epoch: u64,
    clock: (u64, i64),
    range: (u64, u64),
    events: Seq<Scheduled>,
) -> (Seq<EventKey>, Seq<Point>)
    decreases events.len(),
{
    if events.len() == 0 {
        (seen, found)
    } else {
        let (seen, found) = scan_events(seen, found, epoch, clock, range, events.drop_last());
        let event = events.last();
        match (event.start_at, event.duration) {
            (Some(start), Some(duration)) => if duration == 0 || seen.contains(event_key(epoch, event)) {
                (seen, found)
            } else {
                let found = add_point(found, epoch, start as i128, clock, range);
                (seen.push(event_key(epoch, event)), add_point(found, epoch, (start + duration) as i128, clock, range))
            },
            _ => (seen, found),
        }
    }
}

/// The scan from the newest anchor back to the one at `from`: a guide is read once per run
/// of anchors that share it in one epoch, and only with a clock reading.
pub open spec fn scan_marks(marks: Seq<Mark>, end: u64, from: int) -> (Option<(u64, u64)>, Seq<EventKey>, Seq<Point>)
    decreases marks.len() - from,
{
    if from < 0 || from >= marks.len() {
        (None, Seq::empty(), Seq::empty())
    } else {
        let (previous, seen, found) = scan_marks(marks, end, from + 1);
        let mark = marks[from];
        match mark.guide {
            None => (previous, seen, found),
            Some(guide) => if previous == Some((mark.epoch, guide.snapshot)) {
                (previous, seen, found)
            } else {
                match guide.clock {
                    None => (Some((mark.epoch, guide.snapshot)), seen, found),
                    Some(clock) => {
                        let (seen, found) = scan_events(
                            seen,
                            found,
                            mark.epoch,
                            clock,
                            epoch_range(marks, end, mark.epoch),
                            guide.events@,
                        );
                        (Some((mark.epoch, guide.snapshot)), seen, found)
                    },
                }
            },
        }
    }
}

pub open spec fn increasing(values: Seq<i64>) -> bool {
    forall|i: int, j: int| 0 <= i < j < values.len() ==> values[i] < values[j]
}

/// Whether a stream millisecond is the millisecond of some boundary found.
pub open spec fn is_boundary(found: Seq<Point>, ms: i64) -> bool {
    exists|i: int| 0 <= i < found.len() && (#[trigger] found[i]).2 == ms
}

/// Puts `value` into an increasing run, once.
fn insert_sorted(values: &mut Vec<i64>, value: i64)
    requires
        increasing(old(values)@),
    ensures
        increasing(final(values)@),
        forall|x: i64| final(values)@.contains(x) <==> (old(values)@.contains(x) || x == value),
{
    let mut k: usize = 0;
    while k < values.len() && values[k] < value
        invariant
            k <= values.len(),
            forall|i: int| 0 <= i < k ==> values@[i] < value,
        decreases values.len() - k,
    {
        k = k + 1;
    }
    if k < values.len() && values[k] == value {
        return;
    }
    let ghost before = values@;
    values.insert(k, value);
    proof {
        before.insert_ensures(k as int, value);
        let after = values@;
        assert forall|i: int, j: int| 0 <= i < j < after.len() implies after[i] < after[j] by {
            if j < k {
            } else if j == k {
            } else if i < k {
                assert(after[j] == before[j - 1]);
                assert(before[j - 1] >= value);
            } else if i == k {
                assert(after[j] == before[j - 1]);
                assert(before[k as int] > value);
                assert(before[k as int] <= before[j - 1]);
            } else {
                assert(after[i] == before[i - 1]);
                assert(after[j] == before[j - 1]);
            }
        }
        assert forall|x: i64| after.contains(x) <==> (before.contains(x) || x == value) by {
            if after.contains(x) {
                let i = choose|i: int| 0 <= i < after.len() && after[i] == x;
                if i < k {
                    assert(before[i] == x);
                } else if i > k {
                    assert(before[i - 1] == x);
                }
            }
            if before.contains(x) {
                let i = choose|i: int| 0 <= i < before.len() && before[i] == x;
                if i < k {
                    assert(after[i] == x);
                } else {
                    assert(after[i + 1] == x);
                }
            }
            if x == value {
                assert(after[k as int] == x);
            }
        }
    }
}

/// Whether a boundary is already known for an epoch and broadcast time.
fn find_point(found: &Vec<Point>, epoch: u64, utc: i128) -> (known: bool)
    ensures
        known == has_point(found@, epoch, utc),
{
    let mut i: usize = 0;
    while i < found.len()
        invariant
            i <= found.len(),
            forall|j: int| 0 <= j < i ==> !((#[trigger] found@[j]).0 == epoch && found@[j].1 == utc),
        decreases found.len() - i,
    {
        if found[i].0 == epoch && found[i].1 == utc {
            return true;
        }
        i = i + 1;
    }
    false
}

/// Whether an event was already seen.
fn find_key(seen: &Vec<EventKey>, key: EventKey) -> (known: bool)
    ensures
        known == seen@.contains(key),
{
    let mut i: usize = 0;
    while i < seen.len()
        invariant
            i <= seen.len(),
            forall|j: int| 0 <= j < i ==> seen@[j] != key,
        decreases seen.len() - i,
    {
        let k = seen[i];
        if k.0 == key.0 && k.1 == key.1 && k.2 == key.2 && k.3 == key.3 && k.4 == key.4 {
            assert(seen@[i as int] == key);
            return true;
        }
        i = i + 1;
    }
    false
}

/// Records the boundary at `utc`, as `add_point` says.
fn push_point(found: &mut Vec<Point>, epoch: u64, utc: i128, clock: (u64, i64), range: (u64, u64))
    requires
        -0x1_0000_0000_0000_0000_0000 <= utc <= 0x1_0000_0000_0000_0000_0000,
    ensures
        final(found)@ == add_point(old(found)@, epoch, utc, clock, range),
{
    let mapped: i128 = clock.0 as i128 + (utc - clock.1 as i128) * NS_PER_MS;
    if (range.0 as i128) < mapped && mapped < (range.1 as i128) && !find_point(found, epoch, utc) {
        let ms: i128 = mapped / NS_PER_MS;
        assert(0 <= ms <= u64::MAX / 1000000);
        found.push((epoch, utc, ms as i64));
    }
}

/// The epochs of the anchors with their first and last times, and the highest epoch.
fn epoch_table(marks: &Vec<Mark>) -> (table: (Vec<(u64, u64, u64)>, u64))
    ensures
        forall|i: int| 0 <= i < table.0.len() ==> {
            let (epoch, first, last) = #[trigger] table.0@[i];
            &&& has_epoch(marks@, epoch)
            &&& first == first_time(marks@, epoch)
            &&& last == last_time(marks@, epoch)
        },
        forall|epoch: u64| has_epoch(marks@, epoch) ==> exists|i: int| 0 <= i < table.0.len() && (#[trigger] table.0@[i]).0 == epoch,
        table.1 == top_epoch(marks@),
{
    let mut table: Vec<(u64, u64, u64)> = Vec::new();
    let mut top: u64 = 0;
    let mut i: usize = 0;
    while i < marks.len()
        invariant
            i <= marks.len(),
            forall|k: int| 0 <= k < table.len() ==> {
                let (epoch, first, last) = #[trigger] table@[k];
                &&& has_epoch(marks@.take(i as int), epoch)
                &&& first == first_time(marks@.take(i as int), epoch)
                &&& last == last_time(marks@.take(i as int), epoch)
            },
            forall|epoch: u64| has_epoch(marks@.take(i as int), epoch) ==> exists|k: int| 0 <= k < table.len() && (#[trigger] table@[k]).0 == epoch,
            forall|a: int, b: int| 0 <= a < b < table.len() ==> (#[trigger] table@[a]).0 != (#[trigger] table@[b]).0,
            top == top_epoch(marks@.take(i as int)),
        decreases marks.len() - i,
    {
        let epoch = marks[i].epoch;
        let time = marks[i].time_ns;
        let ghost prefix = marks@.take(i as int);
        let ghost next = marks@.take(i as int + 1);
        proof {
            assert(next.drop_last() =~= prefix);
            assert(next.last() == marks@[i as int]);
            assert forall|e: u64| has_epoch(prefix, e) implies has_epoch(next, e) by {
                let k = choose|k: int| 0 <= k < prefix.len() && prefix[k].epoch == e;
                assert(next[k] == prefix[k]);
            }
            assert(has_epoch(next, epoch)) by {
                assert(next[i as int].epoch == epoch);
            }
            assert forall|e: u64| has_epoch(next, e) && e != epoch implies has_epoch(prefix, e) by {
                let k = choose|k: int| 0 <= k < next.len() && next[k].epoch == e;
                assert(k < i);
                assert(prefix[k] == next[k]);
            }
        }
        let mut k: usize = 0;
        let mut at: Option<usize> = None;
        while k < table.len()
            invariant
                k <= table.len(),
                at matches Some(j) ==> j < table.len() && table@[j as int].0 == epoch,
                at is None ==> forall|j: int| 0 <= j < k ==> (#[trigger] table@[j]).0 != epoch,
            decreases table.len() - k,
        {
            if at.is_none() && table[k].0 == epoch {
                at = Some(k);
            }
            k = k + 1;
        }
        let ghost old_table = table@;
        match at {
            Some(j) => {
                let first = table[j].1;
                table.set(j, (epoch, first, time));
                proof {
                    assert forall|k: int| 0 <= k < table.len() implies {
                        let (e, f, l) = #[trigger] table@[k];
                        &&& has_epoch(next, e)
                        &&& f == first_time(next, e)
                        &&& l == last_time(next, e)
                    } by {
                        let (e, f, l) = old_table[k];
                        assert(has_epoch(prefix, e));
                        if k != j {
                            assert(e != epoch);
                        }
                    }
                    assert forall|e: u64| has_epoch(next, e) implies exists|k: int| 0 <= k < table.len() && (#[trigger] table@[k]).0 == e by {
                        if e == epoch {
                            assert(table@[j as int].0 == e);
                        } else {
                            let k = choose|k: int| 0 <= k < old_table.len() && (#[trigger] old_table[k]).0 == e;
                            assert(table@[k].0 == e);
                        }
                    }
                }
            },
            None => {
                proof {
                    if has_epoch(prefix, epoch) {
                        let k = choose|k: int| 0 <= k < table.len() && (#[trigger] table@[k]).0 == epoch;
                        assert(false);
                    }
                }
                table.push((epoch, time, time));
                proof {
                    assert forall|k: int| 0 <= k < table.len() implies {
                        let (e, f, l) = #[trigger] table@[k];
                        &&& has_epoch(next, e)
                        &&& f == first_time(next, e)
                        &&& l == last_time(next, e)
                    } by {
                        if k < old_table.len() {
                            let (e, f, l) = old_table[k];
                            assert(has_epoch(prefix, e));
                            assert(e != epoch);
                        }
                    }
                    assert forall|e: u64| has_epoch(next, e) implies exists|k: int| 0 <= k < table.len() && (#[trigger] table@[k]).0 == e by {
                        if e == epoch {
                            assert(table@[old_table.len() as int].0 == e);
                        } else {
                            let k = choose|k: int| 0 <= k < old_table.len() && (#[trigger] old_table[k]).0 == e;
                            assert(table@[k].0 == e);
                        }
                    }
                }
            },
        }
        if epoch > top {
            top = epoch;
        }
        i = i + 1;
    }
    proof {
        assert(marks@.take(marks@.len() as int) =~= marks@);
    }
    (table, top)
}

/// The first and last times recorded for an epoch that the table holds.
fn lookup(table: &Vec<(u64, u64, u64)>, epoch: u64) -> (times: (u64, u64))
    requires
        exists|i: int| 0 <= i < table.len() && (#[trigger] table@[i]).0 == epoch,
    ensures
        exists|i: int| 0 <= i < table.len() && (#[trigger] table@[i]).0 == epoch && times == (table@[i].1, table@[i].2),
{
    let mut i: usize = 0;
    while i < table.len()
        invariant
            i <= table.len(),
            forall|j: int| 0 <= j < i ==> (#[trigger] table@[j]).0 != epoch,
            exists|j: int| 0 <= j < table.len() && (#[trigger] table@[j]).0 == epoch,
        decreases table.len() - i,
    {
        if table[i].0 == epoch {
            return (table[i].1, table[i].2);
        }
        i = i + 1;
    }
    proof {
        let j = choose|j: int| 0 <= j < table.len() && (#[trigger] table@[j]).0 == epoch;
        assert(table@[j].0 != epoch);
    }
    (0, 0)
}

/// The start and end marks of one guide's events.
fn scan_guide(
    seen: &mut Vec<EventKey>,
    found: &mut Vec<Point>,
    epoch: u64,
    clock: (u64, i64),
    range: (u64, u64),
    events: &Vec<Scheduled>,
)
    ensures
        (final(seen)@, final(found)@) == scan_events(old(seen)@, old(found)@, epoch, clock, range, events@),
{
    let mut j: usize = 0;
    while j < events.len()
        invariant
            j <= events.len(),
            (seen@, found@) == scan_events(old(seen)@, old(found)@, epoch, clock, range, events@.take(j as int)),
        decreases events.len() - j,
    {
        let event = events[j];
        proof {
            assert(events@.take(j as int + 1).drop_last() =~= events@.take(j as int));
            assert(events@.take(j as int + 1).last() == event);
        }
        match (event.start_at, event.duration) {
            (Some(start), Some(duration)) => {
                let key: EventKey = (epoch, event.network_id, event.transport_stream_id, event.service_id, event.event_id);
                if duration != 0 && !find_key(seen, key) {
                    push_point(found, epoch, start as i128, clock, range);
                    push_point(found, epoch, start as i128 + duration as i128, clock, range);
                    seen.push(key);
                }
            },
            _ => {},
        }
        j = j + 1;
    }
    proof {
        assert(events@.take(events@.len() as int) =~= events@);
    }
}

/// The stream milliseconds, in increasing order and each once, at which a program of the
/// guides starts or ends inside its anchor's epoch. The newest guide decides where a
/// broadcast time of an epoch falls and which schedule of an event counts. Nothing while
/// the schedule is not collected or the index has no end.
pub fn program_boundaries_ms(collecting: bool, marks: &Vec<Mark>, end: Option<u64>) -> (boundaries: Vec<i64>)
    ensures
        increasing(boundaries@),
        forall|ms: i64| boundaries@.contains(ms) <==> match end {
            Some(end) => collecting && is_boundary(scan_marks(marks@, end, 0).2, ms),
            None => false,
        },
{
    let end = match end {
        Some(end) if collecting => end,
        _ => return Vec::new(),
    };
    let (table, top) = epoch_table(marks);
    let mut previous: Option<(u64, u64)> = None;
    let mut seen: Vec<EventKey> = Vec::new();
    let mut found: Vec<Point> = Vec::new();
    let mut k: usize = marks.len();
    while k > 0
        invariant
            k <= marks.len(),
            (previous, seen@, found@) == scan_marks(marks@, end, k as int),
            forall|i: int| 0 <= i < table.len() ==> {
                let (epoch, first, last) = #[trigger] table@[i];
                &&& has_epoch(marks@, epoch)
                &&& first == first_time(marks@, epoch)
                &&& last == last_time(marks@, epoch)
            },
            forall|epoch: u64| has_epoch(marks@, epoch) ==> exists|i: int| 0 <= i < table.len() && (#[trigger] table@[i]).0 == epoch,
            top == top_epoch(marks@),
        decreases k,
    {
        k = k - 1;
        let mark = &marks[k];
        if let Some(guide) = &mark.guide {
            let repeated = match previous {
                Some((epoch, snapshot)) => epoch == mark.epoch && snapshot == guide.snapshot,
                None => false,
            };
            if !repeated {
                previous = Some((mark.epoch, guide.snapshot));
                if let Some(clock) = guide.clock {
                    proof {
                        assert(has_epoch(marks@, mark.epoch)) by {
                            assert(marks@[k as int].epoch == mark.epoch);
                        }
                    }
                    let (first, last) = lookup(&table, mark.epoch);
                    let range = (first, if mark.epoch == top { end } else { last });
                    scan_guide(&mut seen, &mut found, mark.epoch, clock, range, &guide.events);
                }
            }
        }
    }
    let mut boundaries: Vec<i64> = Vec::new();
    let mut i: usize = 0;
    while i < found.len()
        invariant
            i <= found.len(),
            increasing(boundaries@),
            forall|ms: i64| boundaries@.contains(ms) <==> exists|j: int| 0 <= j < i && (#[trigger] found@[j]).2 == ms,
        decreases found.len() - i,
    {
        insert_sorted(&mut boundaries, found[i].2);
        proof {
            assert forall|ms: i64| boundaries@.contains(ms) <==> exists|j: int| 0 <= j < i + 1 && (#[trigger] found@[j]).2 == ms by {
                if ms == found@[i as int].2 {
                    assert(found@[i as int].2 == ms);
                }
            }
        }
        i = i + 1;
    }
    boundaries
}

} // verus!
