//! The sparse index of a transport stream: program clock reference (PCR) time, the
//! anchors where playback can start, and the table packets that bootstrap a start.
use vstd::prelude::*;

verus! {

/// PCR ticks per second.
pub const PCR_HZ: u64 = 90000;
/// The PCR is a 33-bit counter.
pub const PCR_WRAP: u64 = 8589934592;
/// A PCR jump of more than ten seconds starts a new clock epoch.
pub const DISCONTINUITY_TICKS: u64 = 900000;
/// Anchors are recorded at most every quarter second.
pub const INDEX_INTERVAL_TICKS: u64 = 22500;
/// The assumed PCR step before two PCRs were seen: one frame at 25 fps.
pub const INITIAL_PCR_STEP: u64 = 3600;
pub const MAX_FILE_ENTRIES: usize = 65536;
pub const MAX_METADATA_BYTES: usize = 16777216;
pub const NANOSECONDS_PER_SECOND: u64 = 1000000000;
pub const TS_PACKET_SIZE: usize = 188;
pub const TS_HEADER_BYTES: usize = 4;
/// Payload bytes in a packet without an adaptation field.
pub const TS_PAYLOAD_BYTES: usize = 184;
pub const SYNC_BYTE: u8 = 0x47;
pub const STUFFING_BYTE: u8 = 0xff;
pub const PAYLOAD_START_FLAG: u8 = 0x40;
pub const PAYLOAD_ONLY: u8 = 0x10;
pub const PID_HIGH_MASK: u8 = 0x1f;

/// Nanoseconds of a PCR tick count, rounded down and saturated at `u64::MAX`.
pub open spec fn ticks_ns(ticks: int) -> int {
    let ns = ticks * 1000000000 / 90000;
    if ns > u64::MAX {
        u64::MAX as int
    } else {
        ns
    }
}

/// More ticks never map to fewer nanoseconds.
pub proof fn lemma_ticks_ns_monotonic(a: int, b: int)
    requires
        0 <= a <= b,
    ensures
        ticks_ns(a) <= ticks_ns(b),
{
    assert(a * 1000000000 <= b * 1000000000) by (nonlinear_arith)
        requires
            0 <= a <= b,
    ;
    vstd::arithmetic::div_mod::lemma_div_is_ordered(a * 1000000000, b * 1000000000, 90000);
}

pub fn ticks_to_ns(ticks: u64) -> (ns: u64)
    ensures
        ns == ticks_ns(ticks as int),
{
    assert(ticks * 1000000000 <= 18446744073709551615u128 * 1000000000) by (nonlinear_arith);
    let wide: u128 = ticks as u128 * 1000000000u128;
    let ns: u128 = wide / 90000u128;
    if ns > 18446744073709551615u128 {
        u64::MAX
    } else {
        ns as u64
    }
}

/// The payload that carries a PSI section: a zero pointer field, then the section.
pub open spec fn section_payload(section: Seq<u8>) -> Seq<u8> {
    seq![0u8] + section
}

/// How many packets carry a payload of `len` bytes.
pub open spec fn packet_count(len: int) -> int {
    (len + 183) / 184
}

/// Byte `j` of packet `k` in the packetization of `payload` on `pid`.
pub open spec fn packet_byte(pid: u16, payload: Seq<u8>, k: int, j: int) -> u8 {
    if j == 0 {
        SYNC_BYTE
    } else if j == 1 {
        (((pid >> 8u16) as u8) & PID_HIGH_MASK) | (if k == 0 {
            PAYLOAD_START_FLAG
        } else {
            0u8
        })
    } else if j == 2 {
        pid as u8
    } else if j == 3 {
        PAYLOAD_ONLY | ((k % 16) as u8)
    } else if k * 184 + j - 4 < payload.len() {
        payload[k * 184 + j - 4]
    } else {
        STUFFING_BYTE
    }
}

/// `out` is the packetization of `payload` on `pid`: one packet per 184 payload bytes,
/// with the continuity counter counting from zero and the last packet stuffed.
pub open spec fn packetized(pid: u16, payload: Seq<u8>, out: Seq<u8>) -> bool {
    &&& out.len() == packet_count(payload.len() as int) * 188
    &&& forall|k: int, j: int|
        #![trigger packet_byte(pid, payload, k, j)]
        0 <= k < packet_count(payload.len() as int) && 0 <= j < 188 ==> out[k * 188 + j]
            == packet_byte(pid, payload, k, j)
}

proof fn lemma_packet_slot(k2: int, j2: int, k: int)
    requires
        0 <= k2 < k,
        0 <= j2 < 188,
    ensures
        0 <= k2 * 188 + j2 < k * 188,
{
    assert(0 <= k2 * 188 + j2 < k * 188) by (nonlinear_arith)
        requires
            0 <= k2 < k,
            0 <= j2 < 188,
    ;
}

/// Carry one PSI section in transport packets on `pid`.
pub fn packetize(pid: u16, section: &[u8]) -> (packets: Vec<u8>)
    requires
        section@.len() < 0x100_0000,
    ensures
        packetized(pid, section_payload(section@), packets@),
{
    let mut data: Vec<u8> = Vec::new();
    data.push(0u8);
    let mut i: usize = 0;
    while i < section.len()
        invariant
            i <= section@.len(),
            data@ == seq![0u8] + section@.subrange(0, i as int),
        decreases section@.len() - i,
    {
        data.push(section[i]);
        i = i + 1;
        assert(data@ =~= seq![0u8] + section@.subrange(0, i as int));
    }
    assert(section@.subrange(0, section@.len() as int) =~= section@);
    let ghost payload = section_payload(section@);
    assert(data@ == payload);
    let count: usize = (data.len() + 183) / 184;
    let mut output: Vec<u8> = Vec::new();
    let mut k: usize = 0;
    assert(count <= 100000);
    while k < count
        invariant
            k <= count,
            count == packet_count(payload.len() as int),
            count <= 100000,
            data@ == payload,
            output@.len() == k * 188,
            forall|k2: int, j2: int|
                #![trigger packet_byte(pid, payload, k2, j2)]
                0 <= k2 < k && 0 <= j2 < 188 ==> output@[k2 * 188 + j2] == packet_byte(
                    pid,
                    payload,
                    k2,
                    j2,
                ),
        decreases count - k,
    {
        assert(k * 188 + 188 <= count * 188) by (nonlinear_arith)
            requires
                k < count,
        ;
        let mut j: usize = 0;
        while j < 188
            invariant
                k < count,
                count <= 100000,
                k * 188 + 188 <= count * 188,
                j <= 188,
                data@ == payload,
                output@.len() == k * 188 + j,
                forall|k2: int, j2: int|
                    #![trigger packet_byte(pid, payload, k2, j2)]
                    0 <= k2 < k && 0 <= j2 < 188 ==> output@[k2 * 188 + j2] == packet_byte(
                        pid,
                        payload,
                        k2,
                        j2,
                    ),
                forall|j2: int|
                    #![trigger packet_byte(pid, payload, k as int, j2)]
                    0 <= j2 < j ==> output@[k * 188 + j2] == packet_byte(pid, payload, k as int, j2),
            decreases 188 - j,
        {
            let byte: u8 = if j == 0 {
                SYNC_BYTE
            } else if j == 1 {
                (((pid >> 8u16) as u8) & PID_HIGH_MASK) | (if k == 0 {
                    PAYLOAD_START_FLAG
                } else {
                    0u8
                })
            } else if j == 2 {
                pid as u8
            } else if j == 3 {
                PAYLOAD_ONLY | ((k % 16) as u8)
            } else {
                assert(k * 184 + 184 <= 0x200_0000 * 184) by (nonlinear_arith)
                    requires
                        k < count,
                        count <= 100000,
                ;
                let p: usize = k * 184 + j - 4;
                if p < data.len() {
                    data[p]
                } else {
                    STUFFING_BYTE
                }
            };
            assert(byte == packet_byte(pid, payload, k as int, j as int));
            let ghost before = output@;
            output.push(byte);
            assert forall|k2: int, j2: int|
                #![trigger packet_byte(pid, payload, k2, j2)]
                0 <= k2 < k && 0 <= j2 < 188 implies output@[k2 * 188 + j2] == packet_byte(
                    pid,
                    payload,
                    k2,
                    j2,
                ) by {
                lemma_packet_slot(k2, j2, k as int);
                assert(output@[k2 * 188 + j2] == before[k2 * 188 + j2]);
            }
            j = j + 1;
        }
        assert forall|k2: int, j2: int|
            #![trigger packet_byte(pid, payload, k2, j2)]
            0 <= k2 < k + 1 && 0 <= j2 < 188 implies output@[k2 * 188 + j2] == packet_byte(
                pid,
                payload,
                k2,
                j2,
            ) by {
            if k2 < k {
            } else {
                assert(k2 == k);
            }
        }
        assert(output@.len() == (k + 1) * 188) by (nonlinear_arith)
            requires
                output@.len() == k * 188 + 188,
        ;
        k = k + 1;
    }
    output
}

} // verus!

verus! {

/// The largest clock time, in ticks, that the index keeps: enough headroom that one
/// more step and one presentation interval cannot overflow.
pub const TICKS_LIMIT: u64 = 18446744073707751615;
/// Anchor statistics look back at most thirty seconds.
pub const RATE_WINDOW_NS: u64 = 30000000000;
pub const MIN_RATE_SPAN_NS: u64 = 1000000000;

/// PCR ticks from `from` forward to `to`, across the 33-bit wrap.
pub open spec fn wrap_distance(from: u64, to: u64) -> int {
    (to + PCR_WRAP - from) % (PCR_WRAP as int)
}

/// One place where playback can start.
#[derive(Clone, Copy, Debug, PartialEq, Eq, Structural)]
pub struct Anchor {
    /// Byte offset of the packet that carried the PCR.
    pub offset: u64,
    pub time_ns: u64,
    pub epoch: u64,
    /// Which generation of bootstrap tables starts playback here.
    pub tables: u64,
    pub pcr: u64,
    /// Bytes of metadata this anchor keeps alive.
    pub charge: usize,
}

impl Anchor {
    /// This anchor on the clock of `origin`: its time is `origin`'s plus the PCR distance
    /// between them, in `origin`'s epoch.
    pub fn relative_to(&self, origin: &Anchor) -> (anchor: Anchor)
        requires
            self.pcr < PCR_WRAP,
            origin.pcr < PCR_WRAP,
            origin.time_ns + ticks_ns(wrap_distance(origin.pcr, self.pcr)) <= u64::MAX,
        ensures
            anchor == (Anchor {
                time_ns: (origin.time_ns + ticks_ns(wrap_distance(origin.pcr, self.pcr))) as u64,
                epoch: origin.epoch,
                ..*self
            }),
    {
        let distance = (self.pcr + PCR_WRAP - origin.pcr) % PCR_WRAP;
        Anchor {
            time_ns: origin.time_ns + ticks_to_ns(distance),
            epoch: origin.epoch,
            ..*self
        }
    }
}

/// The metadata bytes a run of anchors keeps alive.
pub open spec fn charges(entries: Seq<Anchor>) -> int
    decreases entries.len(),
{
    if entries.len() == 0 {
        0
    } else {
        charges(entries.drop_last()) + entries.last().charge
    }
}

proof fn lemma_charges_front(entries: Seq<Anchor>)
    requires
        entries.len() > 0,
    ensures
        charges(entries) == entries[0].charge + charges(entries.drop_first()),
    decreases entries.len(),
{
    if entries.len() > 1 {
        lemma_charges_front(entries.drop_last());
        assert(entries.drop_last().drop_first() =~= entries.drop_first().drop_last());
    } else {
        assert(entries.drop_first() =~= Seq::<Anchor>::empty());
        assert(entries.drop_last() =~= Seq::<Anchor>::empty());
    }
}

proof fn lemma_charges_prefix(entries: Seq<Anchor>, n: int)
    requires
        0 <= n <= entries.len(),
    ensures
        0 <= charges(entries.subrange(0, n)) <= charges(entries),
    decreases entries.len() - n,
{
    if n < entries.len() {
        lemma_charges_prefix(entries, n + 1);
        assert(entries.subrange(0, n + 1).drop_last() =~= entries.subrange(0, n));
        assert(entries.subrange(0, n + 1).last() == entries[n]);
        lemma_charges_nonneg(entries.subrange(0, n));
    } else {
        assert(entries.subrange(0, n) =~= entries);
        lemma_charges_nonneg(entries);
    }
}

proof fn lemma_charges_nonneg(entries: Seq<Anchor>)
    ensures
        charges(entries) >= 0,
    decreases entries.len(),
{
    if entries.len() > 0 {
        lemma_charges_nonneg(entries.drop_last());
    }
}

/// Every other anchor, starting with the first.
pub open spec fn halved(entries: Seq<Anchor>) -> Seq<Anchor> {
    Seq::new(((entries.len() + 1) / 2) as nat, |i: int| entries[2 * i])
}

/// The clock time after a PCR: a jump of more than ten seconds, or a signalled
/// discontinuity, continues one step later in a new epoch; otherwise time advances by
/// the PCR distance, which becomes the new step when it is not zero.
pub open spec fn advance(clock: Option<(u64, u64)>, step: u64, pcr: u64, discontinuity: bool) -> (
    int,
    bool,
    u64,
) {
    match clock {
        None => (0, false, step),
        Some((previous, time)) => {
            let delta = wrap_distance(previous, pcr);
            if delta > DISCONTINUITY_TICKS || discontinuity {
                (time + step, true, step)
            } else {
                (time + delta, false, if delta != 0 {
                    delta as u64
                } else {
                    step
                })
            }
        },
    }
}

/// Whether a new anchor is recorded after `entries`: always in a new epoch or with new
/// tables, otherwise once per interval.
pub open spec fn records(entries: Seq<Anchor>, anchor: Anchor, interval: u64) -> bool {
    entries.len() == 0 || entries.last().epoch != anchor.epoch || entries.last().tables
        != anchor.tables || (if anchor.time_ns >= entries.last().time_ns {
        anchor.time_ns - entries.last().time_ns
    } else {
        0
    }) >= interval * 1000000000 / 90000
}

/// The index after a PTS on the PCR stream (see `Index::pts_packet`).
pub open spec fn pts_effect(v: IndexView, pid: u16, pts: u64) -> IndexView {
    match v.clock {
        Some((pcr, ticks)) if wrap_distance(pcr, pts) < DISCONTINUITY_TICKS => {
            let mapped = ticks + wrap_distance(pcr, pts);
            let step = if v.last_pts.contains_key(pid) && 0 < mapped - v.last_pts[pid] < PCR_HZ {
                mapped - v.last_pts[pid]
            } else {
                v.step as int
            };
            let end = ticks_ns(mapped + step);
            IndexView {
                last_pts: v.last_pts.insert(pid, mapped as u64),
                presentation_end: if end > v.presentation_end {
                    end as u64
                } else {
                    v.presentation_end
                },
                ..v
            }
        },
        _ => v,
    }
}

/// The index after a PCR, and the anchor at it (see `Index::pcr_packet`).
pub open spec fn pcr_effect(v: IndexView, offset: u64, pcr: u64, discontinuity: bool, tables: u64, charge: usize) -> (IndexView, Anchor) {
    let (ticks, jumped, step) = advance(v.clock, v.step, pcr, discontinuity);
    let epoch = if jumped {
        v.epoch + 1
    } else {
        v.epoch as int
    };
    let anchor = Anchor { offset, time_ns: ticks_ns(ticks) as u64, epoch: epoch as u64, tables, pcr, charge };
    let recorded = records(v.entries, anchor, v.interval);
    (
        IndexView {
            clock: Some((pcr, ticks as u64)),
            step,
            epoch: epoch as u64,
            entries: if recorded {
                v.entries.push(anchor)
            } else {
                v.entries
            },
            metadata_bytes: if recorded {
                (v.metadata_bytes + charge) as usize
            } else {
                v.metadata_bytes
            },
            ..v
        },
        anchor,
    )
}

/// What the clock reads of one transport packet: its PID, whether a payload unit starts
/// in it and the PTS of that unit's header, its PCR and its discontinuity flag.
#[derive(Clone, Copy, Debug, PartialEq, Eq, Structural)]
pub struct PacketClock {
    pub pid: u16,
    pub start: bool,
    pub pts: Option<u64>,
    pub pcr: Option<u64>,
    pub discontinuity: bool,
}

/// The state of an index.
pub struct IndexView {
    pub clock: Option<(u64, u64)>,
    pub step: u64,
    pub epoch: u64,
    pub interval: u64,
    pub presentation_end: u64,
    pub last_pts: Map<u16, u64>,
    pub entries: Seq<Anchor>,
    pub metadata_bytes: usize,
}

/// The PCR clock of one service and the anchors recorded on it.
pub struct Index {
    clock: Option<(u64, u64)>,
    step: u64,
    epoch: u64,
    interval: u64,
    last_pts: std::collections::HashMap<u16, u64>,
    presentation_end: u64,
    entries: std::collections::VecDeque<Anchor>,
    metadata_bytes: usize,
}

impl View for Index {
    type V = IndexView;

    closed spec fn view(&self) -> IndexView {
        IndexView {
            clock: self.clock,
            step: self.step,
            epoch: self.epoch,
            interval: self.interval,
            presentation_end: self.presentation_end,
            last_pts: self.last_pts@,
            entries: self.entries@,
            metadata_bytes: self.metadata_bytes,
        }
    }
}

/// The tick time of a clock, zero before the first PCR.
pub open spec fn clock_ticks(clock: Option<(u64, u64)>) -> int {
    match clock {
        Some((_, time)) => time as int,
        None => 0,
    }
}

impl Index {
    /// The step is a real PCR distance, the clock stays below its limit, the last PCR is
    /// a 33-bit value, and the metadata count is the anchors' charges.
    pub closed spec fn wf(self) -> bool {
        &&& 0 < self.step <= DISCONTINUITY_TICKS
        &&& clock_ticks(self.clock) <= TICKS_LIMIT
        &&& (self.clock matches Some((pcr, _)) ==> pcr < PCR_WRAP)
        &&& self.interval * 1000000000 <= u64::MAX
        &&& self.metadata_bytes == charges(self.entries@)
    }

    /// What well-formedness gives callers: a real step, and a clock below its limit.
    pub proof fn wf_bounds(&self)
        requires
            self.wf(),
        ensures
            0 < self@.step <= DISCONTINUITY_TICKS,
            clock_ticks(self@.clock) <= TICKS_LIMIT,
            self@.clock matches Some((pcr, _)) ==> pcr < PCR_WRAP,
    {
    }

    pub fn new() -> (index: Index)
        ensures
            index.wf(),
            index@.clock is None,
            index@.step == INITIAL_PCR_STEP,
            index@.epoch == 0,
            index@.interval == INDEX_INTERVAL_TICKS,
            index@.presentation_end == 0,
            index@.last_pts == Map::<u16, u64>::empty(),
            index@.entries == Seq::<Anchor>::empty(),
            index@.metadata_bytes == 0,
    {
        Index {
            clock: None,
            step: INITIAL_PCR_STEP,
            epoch: 0,
            interval: INDEX_INTERVAL_TICKS,
            last_pts: std::collections::HashMap::new(),
            presentation_end: 0,
            entries: std::collections::VecDeque::new(),
            metadata_bytes: 0,
        }
    }

    pub fn entries(&self) -> (entries: &std::collections::VecDeque<Anchor>)
        ensures
            entries@ == self@.entries,
    {
        &self.entries
    }

    pub fn clear_entries(&mut self)
        requires
            old(self).wf(),
        ensures
            final(self).wf(),
            final(self)@ == (IndexView { entries: Seq::empty(), metadata_bytes: 0, ..old(self)@ }),
    {
        self.entries.clear();
        self.metadata_bytes = 0;
    }

    fn discard_first(&mut self)
        requires
            old(self).wf(),
            old(self)@.entries.len() > 0,
        ensures
            final(self).wf(),
            final(self)@ == (IndexView {
                entries: old(self)@.entries.drop_first(),
                metadata_bytes: (old(self)@.metadata_bytes - old(self)@.entries[0].charge) as usize,
                ..old(self)@
            }),
    {
        proof {
            lemma_charges_front(self.entries@);
            lemma_charges_nonneg(self.entries@.drop_first());
        }
        let ghost entries = self.entries@;
        let anchor = self.entries.pop_front();
        match anchor {
            Some(anchor) => {
                self.metadata_bytes = self.metadata_bytes.saturating_sub(anchor.charge);
                assert(self.entries@ =~= entries.drop_first());
            },
            None => {},
        }
    }

    /// Forget anchors before `earliest`, and the oldest anchors while their metadata
    /// exceeds its budget.
    pub fn expire_time(&mut self, earliest: u64)
        requires
            old(self).wf(),
        ensures
            final(self).wf(),
            exists|n: int|
                0 <= n <= old(self)@.entries.len() && final(self)@.entries == old(
                    self,
                )@.entries.subrange(n, old(self)@.entries.len() as int) && (forall|i: int|
                    0 <= i < n ==> #[trigger] old(self)@.entries[i].time_ns < earliest
                        || charges(old(self)@.entries.subrange(i, old(self)@.entries.len() as int))
                        > MAX_METADATA_BYTES),
            final(self)@.entries.len() > 0 ==> final(self)@.entries[0].time_ns >= earliest,
            final(self)@.metadata_bytes <= MAX_METADATA_BYTES,
            final(self)@.metadata_bytes == charges(final(self)@.entries),
            final(self)@.clock == old(self)@.clock,
            final(self)@.epoch == old(self)@.epoch,
            final(self)@.step == old(self)@.step,
            final(self)@.interval == old(self)@.interval,
            final(self)@.presentation_end == old(self)@.presentation_end,
            final(self)@.last_pts == old(self)@.last_pts,
    {
        let ghost start = self.entries@;
        let ghost mut n: int = 0;
        while (self.entries.len() > 0 && self.entries[0].time_ns < earliest) || self.metadata_bytes
            > MAX_METADATA_BYTES
            invariant
                0 <= n <= start.len(),
                self.entries@ == start.subrange(n, start.len() as int),
                self.metadata_bytes == charges(self.entries@),
                self.clock == old(self).clock,
                self.epoch == old(self).epoch,
                self.step == old(self).step,
                self.interval == old(self).interval,
                self.presentation_end == old(self).presentation_end,
                self.last_pts@ == old(self).last_pts@,
                self.wf(),
                forall|i: int|
                    0 <= i < n ==> #[trigger] start[i].time_ns < earliest || charges(
                        start.subrange(i, start.len() as int),
                    ) > MAX_METADATA_BYTES,
            decreases self.entries@.len(),
        {
            proof {
                    if self.entries@.len() == 0 {
                    assert(charges(self.entries@) == 0);
                }
                assert(start[n] == self.entries@[0]);
            }
            self.discard_first();
            proof {
                assert(self.entries@ =~= start.subrange(n + 1, start.len() as int));
                n = n + 1;
            }
        }
        let ghost before = old(self)@.entries;
        assert(before == start);
        assert(0 <= n <= before.len() && self@.entries == before.subrange(n, before.len() as int) && (
        forall|i: int|
            0 <= i < n ==> #[trigger] before[i].time_ns < earliest || charges(
                before.subrange(i, before.len() as int),
            ) > MAX_METADATA_BYTES));
    }

    /// Forget anchors before byte `first_offset`.
    pub fn expire(&mut self, first_offset: u64)
        requires
            old(self).wf(),
        ensures
            final(self).wf(),
            exists|n: int|
                0 <= n <= old(self)@.entries.len() && final(self)@.entries == old(
                    self,
                )@.entries.subrange(n, old(self)@.entries.len() as int) && (forall|i: int|
                    0 <= i < n ==> #[trigger] old(self)@.entries[i].offset < first_offset),
            final(self)@.entries.len() > 0 ==> final(self)@.entries[0].offset >= first_offset,
            final(self)@.metadata_bytes == charges(final(self)@.entries),
            final(self)@.clock == old(self)@.clock,
            final(self)@.epoch == old(self)@.epoch,
            final(self)@.step == old(self)@.step,
            final(self)@.interval == old(self)@.interval,
            final(self)@.presentation_end == old(self)@.presentation_end,
            final(self)@.last_pts == old(self)@.last_pts,
    {
        let ghost start = self.entries@;
        let ghost mut n: int = 0;
        while self.entries.len() > 0 && self.entries[0].offset < first_offset
            invariant
                0 <= n <= start.len(),
                self.entries@ == start.subrange(n, start.len() as int),
                self.clock == old(self).clock,
                self.epoch == old(self).epoch,
                self.step == old(self).step,
                self.interval == old(self).interval,
                self.presentation_end == old(self).presentation_end,
                self.last_pts@ == old(self).last_pts@,
                self.wf(),
                forall|i: int| 0 <= i < n ==> #[trigger] start[i].offset < first_offset,
            decreases self.entries@.len(),
        {
            assert(start[n] == self.entries@[0]);
            self.discard_first();
            proof {
                assert(self.entries@ =~= start.subrange(n + 1, start.len() as int));
                n = n + 1;
            }
        }
        let ghost before = old(self)@.entries;
        assert(before == start);
        assert(0 <= n <= before.len() && self@.entries == before.subrange(n, before.len() as int) && (
        forall|i: int| 0 <= i < n ==> #[trigger] before[i].offset < first_offset));
    }

    /// Continue the clock from a recorded anchor.
    pub fn seed(&mut self, anchor: &Anchor)
        requires
            old(self).wf(),
            anchor.pcr < PCR_WRAP,
        ensures
            final(self).wf(),
            final(self)@ == (IndexView {
                clock: Some((anchor.pcr, (anchor.time_ns * 90000 / 1000000000) as u64)),
                epoch: anchor.epoch,
                ..old(self)@
            }),
    {
        assert(anchor.time_ns * 90000 <= 18446744073709551615u128 * 90000) by (nonlinear_arith);
        let ticks: u128 = (anchor.time_ns as u128) * 90000u128 / 1000000000u128;
        assert(ticks <= 1660206966633859) by (nonlinear_arith)
            requires
                ticks == (anchor.time_ns as u128) * 90000 / 1000000000,
                anchor.time_ns <= 18446744073709551615u64,
        ;
        self.clock = Some((anchor.pcr, ticks as u64));
        self.epoch = anchor.epoch;
    }

    /// A signalled break in the stream: a new clock epoch.
    pub fn discontinuity(&mut self)
        requires
            old(self).wf(),
            old(self)@.epoch < u64::MAX,
        ensures
            final(self).wf(),
            final(self)@ == (IndexView { epoch: (old(self)@.epoch + 1) as u64, ..old(self)@ }),
    {
        self.epoch = self.epoch + 1;
    }

    /// A PCR on the service's PCR stream: advance the clock and record an anchor when one
    /// is due. `tables` names the bootstrap tables a start here needs; `charge` is the
    /// metadata the anchor keeps alive.
    pub fn pcr_packet(&mut self, offset: u64, pcr: u64, discontinuity: bool, tables: u64, charge: usize) -> (anchor: Anchor)
        requires
            old(self).wf(),
            pcr < PCR_WRAP,
            clock_ticks(old(self)@.clock) + DISCONTINUITY_TICKS <= TICKS_LIMIT,
            old(self)@.epoch < u64::MAX,
            old(self)@.metadata_bytes + charge <= usize::MAX,
        ensures
            final(self).wf(),
            ({
                let (ticks, jumped, step) = advance(old(self)@.clock, old(self)@.step, pcr, discontinuity);
                let epoch = if jumped {
                    old(self)@.epoch + 1
                } else {
                    old(self)@.epoch as int
                };
                &&& anchor == Anchor {
                    offset,
                    time_ns: ticks_ns(ticks) as u64,
                    epoch: epoch as u64,
                    tables,
                    pcr,
                    charge,
                }
                &&& final(self)@.clock == Some((pcr, ticks as u64))
                &&& final(self)@.step == step
                &&& final(self)@.epoch == epoch
                &&& final(self)@.entries == if records(old(self)@.entries, anchor, old(self)@.interval) {
                    old(self)@.entries.push(anchor)
                } else {
                    old(self)@.entries
                }
                &&& final(self)@.interval == old(self)@.interval
                &&& final(self)@.presentation_end == old(self)@.presentation_end
                &&& final(self)@.last_pts == old(self)@.last_pts
            }),
            (final(self)@, anchor) == pcr_effect(old(self)@, offset, pcr, discontinuity, tables, charge),
    {
        let ticks = match self.clock {
            None => 0,
            Some((previous, time)) => {
                let delta = (pcr + PCR_WRAP - previous) % PCR_WRAP;
                if delta > DISCONTINUITY_TICKS || discontinuity {
                    self.epoch = self.epoch + 1;
                    time + self.step
                } else {
                    if delta != 0 {
                        self.step = delta;
                    }
                    time + delta
                }
            },
        };
        self.clock = Some((pcr, ticks));
        let anchor = Anchor { offset, time_ns: ticks_to_ns(ticks), epoch: self.epoch, tables, pcr, charge };
        let count = self.entries.len();
        let due = if count == 0 {
            true
        } else {
            let last = self.entries[count - 1];
            last.epoch != anchor.epoch || last.tables != anchor.tables
                || anchor.time_ns.saturating_sub(last.time_ns) >= self.interval
                * NANOSECONDS_PER_SECOND / PCR_HZ
        };
        if due {
            let ghost before = self.entries@;
            self.metadata_bytes = self.metadata_bytes + charge;
            self.entries.push_back(anchor);
            assert(self.entries@.drop_last() =~= before);
        }
        anchor
    }

    /// A PES header with a PTS on the PCR stream: extend the presentation end to one
    /// frame past it. The frame step is the PTS distance from the stream's previous
    /// PTS when that is positive and below a second, else the PCR step.
    pub fn pts_packet(&mut self, pid: u16, pts: u64)
        requires
            old(self).wf(),
            pts < PCR_WRAP,
        ensures
            final(self).wf(),
            ({
                match old(self)@.clock {
                    Some((pcr, ticks)) if wrap_distance(pcr, pts) < DISCONTINUITY_TICKS => {
                        let mapped = ticks + wrap_distance(pcr, pts);
                        let step = if old(self)@.last_pts.contains_key(pid) && 0 < mapped
                            - old(self)@.last_pts[pid] < PCR_HZ {
                            mapped - old(self)@.last_pts[pid]
                        } else {
                            old(self)@.step as int
                        };
                        let end = ticks_ns(mapped + step);
                        final(self)@ == (IndexView {
                            last_pts: old(self)@.last_pts.insert(pid, mapped as u64),
                            presentation_end: if end > old(self)@.presentation_end {
                                end as u64
                            } else {
                                old(self)@.presentation_end
                            },
                            ..old(self)@
                        })
                    },
                    _ => final(self)@ == old(self)@,
                }
            }),
            final(self)@ == pts_effect(old(self)@, pid, pts),
    {
        broadcast use vstd::std_specs::hash::group_hash_axioms;

        if let Some((pcr, ticks)) = self.clock {
            let distance = (pts + PCR_WRAP - pcr) % PCR_WRAP;
            if distance < DISCONTINUITY_TICKS {
                let mapped = ticks + distance;
                let step = match self.last_pts.insert(pid, mapped) {
                    Some(previous) => if previous < mapped && mapped - previous < PCR_HZ {
                        mapped - previous
                    } else {
                        self.step
                    },
                    None => self.step,
                };
                let end = ticks_to_ns(mapped + step);
                if end > self.presentation_end {
                    self.presentation_end = end;
                }
            }
        }
    }

    /// One packet of the service at `offset`, on the service's PCR stream `pcr_pid`: a
    /// starting PES header extends the presentation end; once bootstrap `tables` are
    /// known, a PCR advances the clock and yields its anchor. The PCR PID and the tables'
    /// generation are what `crate::tables::Tables` holds after the packet's sections.
    pub fn packet(&mut self, offset: u64, packet: PacketClock, pcr_pid: Option<u16>, tables: Option<u64>, charge: usize) -> (anchor: Option<Anchor>)
        requires
            old(self).wf(),
            packet.pts matches Some(pts) ==> pts < PCR_WRAP,
            packet.pcr matches Some(pcr) ==> pcr < PCR_WRAP,
            clock_ticks(old(self)@.clock) + DISCONTINUITY_TICKS <= TICKS_LIMIT,
            old(self)@.epoch < u64::MAX,
            old(self)@.metadata_bytes + charge <= usize::MAX,
        ensures
            final(self).wf(),
            ({
                let on_pcr = pcr_pid == Some(packet.pid);
                let timed = if on_pcr && packet.start && packet.pts is Some {
                    pts_effect(old(self)@, packet.pid, packet.pts->0)
                } else {
                    old(self)@
                };
                if on_pcr && tables is Some && packet.pcr is Some {
                    let (view, at) = pcr_effect(timed, offset, packet.pcr->0, packet.discontinuity, tables->0, charge);
                    anchor == Some(at) && final(self)@ == view
                } else {
                    anchor is None && final(self)@ == timed
                }
            }),
            in_clock_order(old(self)@) ==> in_clock_order(final(self)@) && (anchor matches Some(a) ==> a.epoch
                >= old(self)@.epoch && a.time_ns >= ticks_ns(clock_ticks(old(self)@.clock)) && a.time_ns <= end_value(
                final(self)@,
            )),
    {
        proof {
            if in_clock_order(self@) {
                let v = self@;
                anchors_stay_in_clock_order(v, offset, 0, false, 0, charge, packet.pid, match packet.pts { Some(p) => p, None => 0 });
                let timed = if pcr_pid == Some(packet.pid) && packet.start && packet.pts is Some {
                    pts_effect(v, packet.pid, packet.pts->0)
                } else {
                    v
                };
                assert(in_clock_order(timed));
                if let Some(pcr) = packet.pcr {
                    anchors_stay_in_clock_order(timed, offset, pcr, packet.discontinuity, match tables { Some(t) => t, None => 0 }, charge, 0, 0);
                }
            }
        }
        let on_pcr = match pcr_pid {
            Some(pid) => pid == packet.pid,
            None => false,
        };
        if on_pcr && packet.start {
            if let Some(pts) = packet.pts {
                self.pts_packet(packet.pid, pts);
            }
        }
        if !on_pcr {
            return None;
        }
        match (tables, packet.pcr) {
            (Some(tables), Some(pcr)) => Some(self.pcr_packet(offset, pcr, packet.discontinuity, tables, charge)),
            _ => None,
        }
    }

    /// Where the received stream ends: one step past the clock, or the end of the last
    /// presented frame if that is later.
    pub fn end_ns(&self) -> (end: Option<u64>)
        requires
            self.wf(),
        ensures
            end == match self@.clock {
                Some((_, ticks)) => Some(
                    if ticks_ns(ticks + self@.step) > self@.presentation_end {
                        ticks_ns(ticks + self@.step) as u64
                    } else {
                        self@.presentation_end
                    },
                ),
                None => None,
            },
    {
        match self.clock {
            Some((_, ticks)) => {
                let end = ticks_to_ns(ticks + self.step);
                Some(
                    if end > self.presentation_end {
                        end
                    } else {
                        self.presentation_end
                    },
                )
            },
            None => None,
        }
    }

    /// When a file index grows too large, keep every other anchor and record half as
    /// often from now on.
    pub fn compact_file(&mut self)
        requires
            old(self).wf(),
            old(self)@.interval <= 9000000000,
        ensures
            final(self).wf(),
            if old(self)@.entries.len() > MAX_FILE_ENTRIES || old(self)@.metadata_bytes
                > MAX_METADATA_BYTES {
                &&& final(self)@.entries == halved(old(self)@.entries)
                &&& final(self)@.metadata_bytes == charges(halved(old(self)@.entries))
                &&& final(self)@.interval == old(self)@.interval * 2
                &&& final(self)@.clock == old(self)@.clock
                &&& final(self)@.epoch == old(self)@.epoch
            } else {
                final(self)@ == old(self)@
            },
    {
        if self.entries.len() > MAX_FILE_ENTRIES || self.metadata_bytes > MAX_METADATA_BYTES {
            let ghost all = self.entries@;
            let mut kept: std::collections::VecDeque<Anchor> = std::collections::VecDeque::new();
            let mut bytes: usize = 0;
            let mut i: usize = 0;
            let len = self.entries.len();
            while i < len
                invariant
                    len == all.len(),
                    self.entries@ == all,
                    i <= len,
                    i % 2 == 0 || i == len,
                    kept@ == halved(all.subrange(0, i as int)),
                    bytes == charges(kept@),
                    charges(kept@) <= charges(all.subrange(0, i as int)),
                    charges(all) <= usize::MAX,
                    self.wf(),
                    self.interval == old(self).interval,
                    self.clock == old(self).clock,
                    self.epoch == old(self).epoch,
                decreases len - i,
            {
                proof {
                    lemma_charges_prefix(all, i + 1);
                    lemma_charges_prefix(all.subrange(0, i + 1), i as int);
                    assert(all.subrange(0, i + 1).subrange(0, i as int) =~= all.subrange(0, i as int));
                    assert(all.subrange(0, i + 1).drop_last() =~= all.subrange(0, i as int));
                    if i + 2 <= len {
                        lemma_charges_prefix(all, i + 2);
                        assert(all.subrange(0, i + 2).drop_last() =~= all.subrange(0, i + 1));
                    }
                }
                let anchor = self.entries[i];
                let ghost before = kept@;
                kept.push_back(anchor);
                bytes = bytes + anchor.charge;
                proof {
                    assert(kept@.drop_last() =~= before);
                    let next = if i + 2 <= len { i + 2 } else { len as int };
                    assert(kept@ =~= halved(all.subrange(0, next)));
                }
                i = if len - i >= 2 {
                    i + 2
                } else {
                    len
                };
            }
            assert(all.subrange(0, len as int) =~= all);
            self.entries = kept;
            self.metadata_bytes = bytes;
            self.interval = self.interval * 2;
        }
    }

    /// The bytes received over the recent clock time of the current epoch: from the
    /// first anchor of the last anchor's epoch within the rate window, when that spans
    /// at least a second. Divided, it is the stream's rate.
    pub fn rate_sample(&self) -> (sample: Option<(u64, u64)>)
        ensures
            match sample {
                Some((bytes, span)) => {
                    let entries = self@.entries;
                    let last = entries.last();
                    entries.len() > 0 && exists|f: int|
                        0 <= f < entries.len() && in_window(#[trigger] entries[f], last) && (
                        forall|g: int| 0 <= g < f ==> !in_window(#[trigger] entries[g], last))
                            && entries[f].time_ns <= last.time_ns && span == last.time_ns
                            - entries[f].time_ns && span >= MIN_RATE_SPAN_NS && bytes == (
                        if last.offset >= entries[f].offset {
                            last.offset - entries[f].offset
                        } else {
                            0
                        })
                },
                None => {
                    let entries = self@.entries;
                    let last = entries.last();
                    entries.len() == 0 || forall|f: int|
                        0 <= f < entries.len() && in_window(#[trigger] entries[f], last) && (
                        forall|g: int| 0 <= g < f ==> !in_window(#[trigger] entries[g], last))
                            ==> entries[f].time_ns > last.time_ns || last.time_ns
                            - entries[f].time_ns < MIN_RATE_SPAN_NS
                },
            },
    {
        let len = self.entries.len();
        if len == 0 {
            return None;
        }
        let last = self.entries[len - 1];
        let mut f: usize = 0;
        while f < len
            invariant
                len == self@.entries.len(),
                last == self@.entries.last(),
                f <= len,
                forall|g: int| 0 <= g < f ==> !in_window(#[trigger] self@.entries[g], last),
            decreases len - f,
        {
            let entry = self.entries[f];
            if entry.epoch == last.epoch && entry.time_ns >= last.time_ns.saturating_sub(
                RATE_WINDOW_NS,
            ) {
                assert(in_window(self@.entries[f as int], last));
                if entry.time_ns > last.time_ns {
                    return None;
                }
                let span = last.time_ns - entry.time_ns;
                if span < MIN_RATE_SPAN_NS {
                    return None;
                }
                return Some((last.offset.saturating_sub(entry.offset), span));
            }
            f = f + 1;
        }
        assert(in_window(self@.entries[len - 1], last));
        None
    }
}

/// Whether `entry` lies in the rate window that ends at `last`.
pub open spec fn in_window(entry: Anchor, last: Anchor) -> bool {
    entry.epoch == last.epoch && entry.time_ns >= (if last.time_ns >= RATE_WINDOW_NS {
        last.time_ns - RATE_WINDOW_NS
    } else {
        0
    })
}

} // verus!

verus! {

/// The index clock never runs backward: after any PCR, its tick time and the anchor
/// time derived from it are at least what they were; only a jump changes the epoch.
pub proof fn clock_never_runs_backward(
    clock: Option<(u64, u64)>,
    step: u64,
    pcr: u64,
    discontinuity: bool,
)
    ensures
        advance(clock, step, pcr, discontinuity).0 >= clock_ticks(clock),
        ticks_ns(advance(clock, step, pcr, discontinuity).0) >= ticks_ns(clock_ticks(clock)),
        advance(clock, step, pcr, discontinuity).1 ==> clock is Some,
{
    lemma_ticks_ns_monotonic(clock_ticks(clock), advance(clock, step, pcr, discontinuity).0);
}

} // verus!

verus! {

/// The end of the received stream when the clock is known: one step past it, or the end
/// of the last presented frame if later.
pub open spec fn end_value(v: IndexView) -> u64 {
    match v.clock {
        Some((_, ticks)) => if ticks_ns(ticks + v.step) > v.presentation_end {
            ticks_ns(ticks + v.step) as u64
        } else {
            v.presentation_end
        },
        None => 0,
    }
}

} // verus!

verus! {

/// The end of the received stream, once the clock is known.
pub open spec fn end_option(v: IndexView) -> Option<u64> {
    match v.clock {
        Some(_) => Some(end_value(v)),
        None => None,
    }
}

/// The anchors are in clock order: from front to back their epochs and times never
/// decrease, and none is past the clock's epoch and time.
pub open spec fn in_clock_order(v: IndexView) -> bool {
    &&& forall|i: int, j: int|
        0 <= i < j < v.entries.len() ==> (#[trigger] v.entries[i]).epoch <= (#[trigger] v.entries[j]).epoch
            && v.entries[i].time_ns <= v.entries[j].time_ns
    &&& forall|i: int|
        0 <= i < v.entries.len() ==> (#[trigger] v.entries[i]).epoch <= v.epoch && v.entries[i].time_ns
            <= ticks_ns(clock_ticks(v.clock))
}

/// Over any run of PCRs, PTSs and signalled discontinuities (no seed between them), the
/// anchors stay in clock order: each anchor a PCR gives is at or after the clock before
/// it, in the same or a later epoch, and no later than the end the index then reports.
pub proof fn anchors_stay_in_clock_order(v: IndexView, offset: u64, pcr: u64, discontinuity: bool, tables: u64, charge: usize, pid: u16, pts: u64)
    requires
        in_clock_order(v),
        v.epoch < u64::MAX,
        0 < v.step <= DISCONTINUITY_TICKS,
        clock_ticks(v.clock) + DISCONTINUITY_TICKS <= TICKS_LIMIT,
    ensures
        ({
            let (after, anchor) = pcr_effect(v, offset, pcr, discontinuity, tables, charge);
            &&& in_clock_order(after)
            &&& anchor.epoch >= v.epoch
            &&& anchor.time_ns >= ticks_ns(clock_ticks(v.clock))
            &&& anchor.time_ns <= end_value(after)
        }),
        in_clock_order(pts_effect(v, pid, pts)),
        in_clock_order(IndexView { epoch: (v.epoch + 1) as u64, ..v }),
{
    let (ticks, jumped, step) = advance(v.clock, v.step, pcr, discontinuity);
    clock_never_runs_backward(v.clock, v.step, pcr, discontinuity);
    let (after, anchor) = pcr_effect(v, offset, pcr, discontinuity, tables, charge);
    let old_ns = ticks_ns(clock_ticks(v.clock));
    assert(0 <= old_ns <= u64::MAX);
    assert(ticks_ns(ticks) <= u64::MAX);
    assert(anchor.time_ns == ticks_ns(ticks));
    assert(0 <= ticks <= TICKS_LIMIT);
    assert(clock_ticks(after.clock) == ticks);
    lemma_ticks_ns_monotonic(ticks, ticks + step);
    assert forall|i: int, j: int|
        0 <= i < j < after.entries.len() implies (#[trigger] after.entries[i]).epoch <= (#[trigger] after.entries[j]).epoch
            && after.entries[i].time_ns <= after.entries[j].time_ns by {
        if j == v.entries.len() {
            assert(after.entries[i] == v.entries[i]);
        }
    }
}

} // verus!
