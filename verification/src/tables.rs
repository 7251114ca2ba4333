//! The bootstrap tables of one service: the PAT and the service's PMT, carried in transport
//! packets, that let playback start at any anchor of the index.
//!
//! The caller parses packets and sections; this module decides what they change: which
//! service is followed, on which PID its PMT and its PCR arrive, and when the bootstrap
//! tables are replaced.
use vstd::prelude::*;
use crate::index::{packet_count, packet_byte, packetize, packetized, section_payload};

verus! {

/// The PID of the program association table.
pub const PAT_PID: u16 = 0;
/// Section numbers of one table run from zero to this.
pub const SECTION_SLOTS: usize = 256;
/// Sections at least this long are not carried.
pub const MAX_SECTION_BYTES: usize = 0x100_0000;

/// The packets that carry `section` on `pid`.
pub open spec fn packets_of(pid: u16, section: Seq<u8>) -> Seq<u8> {
    let payload = section_payload(section);
    Seq::new(
        (packet_count(payload.len() as int) * 188) as nat,
        |i: int| packet_byte(pid, payload, i / 188, i % 188),
    )
}

proof fn lemma_packetized_is(pid: u16, section: Seq<u8>, out: Seq<u8>)
    requires
        packetized(pid, section_payload(section), out),
    ensures
        out == packets_of(pid, section),
{
    let payload = section_payload(section);
    let count = packet_count(payload.len() as int);
    assert(count >= 0);
    assert forall|i: int| 0 <= i < out.len() implies out[i] == #[trigger] packets_of(pid, section)[i] by {
        let k = i / 188;
        let j = i % 188;
        vstd::arithmetic::div_mod::lemma_fundamental_div_mod(i, 188);
        assert(0 <= k < count) by (nonlinear_arith)
            requires
                k == i / 188,
                0 <= i < count * 188,
        ;
        assert(packet_byte(pid, payload, k, j) == out[k * 188 + j]);
    }
    assert(out =~= packets_of(pid, section));
}

/// The PAT packets of the sections numbered below `upto`, in section order.
pub open spec fn pat_stream(sections: Seq<Option<Seq<u8>>>, upto: int) -> Seq<u8>
    decreases upto,
{
    if upto <= 0 {
        Seq::empty()
    } else {
        pat_stream(sections, upto - 1) + match sections[upto - 1] {
            Some(data) => packets_of(PAT_PID, data),
            None => Seq::empty(),
        }
    }
}

/// What a PAT section that completes the table names: each service and the PID of its
/// PMT, by ascending service.
pub open spec fn by_service(programs: Seq<(u16, u16)>) -> bool {
    forall|i: int, j: int| 0 <= i < j < programs.len() ==> #[trigger] programs[i].0 < #[trigger] programs[j].0
}

/// The PMT PID that `programs` give `service`.
pub open spec fn pmt_pid_of(programs: Seq<(u16, u16)>, service: u16) -> Option<u16>
    decreases programs.len(),
{
    if programs.len() == 0 {
        None
    } else if programs[0].0 == service {
        Some(programs[0].1)
    } else {
        pmt_pid_of(programs.drop_first(), service)
    }
}

/// What a completed PAT names, as plain values.
pub open spec fn programs_view(programs: Option<Vec<(u16, u16)>>) -> Option<Seq<(u16, u16)>> {
    match programs {
        Some(p) => Some(p@),
        None => None,
    }
}

/// The state of the tables.
pub struct TablesView {
    pub service: u16,
    pub sections: Seq<Option<Seq<u8>>>,
    pub pmt_pid: Option<u16>,
    pub pcr_pid: Option<u16>,
    pub pat_packets: Seq<u8>,
    pub last_pmt: Seq<u8>,
    pub tables: Seq<u8>,
    pub generation: u64,
}

/// What a PAT section leaves: the section is kept under its number; when it completes the
/// table, an unset service becomes the first one named, the PMT PID follows the service
/// (a new PID forgets the PCR PID and the last PMT), and the PAT packets are rebuilt from
/// the sections up to `last`. None when the table names no service to follow.
pub open spec fn pat_effect(
    v: TablesView,
    number: u8,
    last: u8,
    data: Seq<u8>,
    programs: Option<Seq<(u16, u16)>>,
) -> Option<TablesView> {
    let kept = v.sections.update(number as int, Some(data));
    match programs {
        None => Some(TablesView { sections: kept, ..v }),
        Some(programs) => if v.service == 0 && programs.len() == 0 {
            None
        } else {
            let service = if v.service == 0 {
                programs[0].0
            } else {
                v.service
            };
            let pid = pmt_pid_of(programs, service);
            let moved = v.pmt_pid != pid;
            Some(
                TablesView {
                    service,
                    sections: kept,
                    pmt_pid: pid,
                    pcr_pid: if moved {
                        None
                    } else {
                        v.pcr_pid
                    },
                    last_pmt: if moved {
                        Seq::empty()
                    } else {
                        v.last_pmt
                    },
                    pat_packets: pat_stream(kept, last as int + 1),
                    ..v
                },
            )
        },
    }
}

/// What a PMT section on `pid` leaves: only one on the PMT PID that maps the followed
/// service counts; it sets the PCR PID, and when its bytes differ from the last PMT the
/// tables become the PAT packets followed by it, as a new generation.
pub open spec fn pmt_effect(v: TablesView, pid: u16, data: Seq<u8>, service: u16, pcr_pid: u16) -> TablesView {
    if pid == PAT_PID || v.pmt_pid != Some(pid) || service != v.service {
        v
    } else if v.last_pmt == data {
        TablesView { pcr_pid: Some(pcr_pid), ..v }
    } else {
        TablesView {
            pcr_pid: Some(pcr_pid),
            tables: v.pat_packets + packets_of(pid, data),
            last_pmt: data,
            generation: (v.generation + 1) as u64,
            ..v
        }
    }
}

/// A PMT repeated unchanged replaces nothing: the second copy leaves the tables, and their
/// generation, as the first left them.
pub proof fn repeated_pmt_keeps_tables(v: TablesView, pid: u16, data: Seq<u8>, service: u16, pcr_pid: u16)
    ensures
        pmt_effect(pmt_effect(v, pid, data, service, pcr_pid), pid, data, service, pcr_pid) == pmt_effect(
            v,
            pid,
            data,
            service,
            pcr_pid,
        ),
{
}

/// The PAT and PMT of one service, and the bootstrap tables built from them.
pub struct Tables {
    service: u16,
    sections: Vec<Option<Vec<u8>>>,
    pmt_pid: Option<u16>,
    pcr_pid: Option<u16>,
    pat_packets: Vec<u8>,
    last_pmt: Vec<u8>,
    tables: Vec<u8>,
    generation: u64,
}

/// The kept sections, as byte sequences.
pub open spec fn section_views(sections: Seq<Option<Vec<u8>>>) -> Seq<Option<Seq<u8>>> {
    Seq::new(
        sections.len(),
        |i: int|
            match sections[i] {
                Some(data) => Some(data@),
                None => None,
            },
    )
}

impl View for Tables {
    type V = TablesView;

    closed spec fn view(&self) -> TablesView {
        TablesView {
            service: self.service,
            sections: section_views(self.sections@),
            pmt_pid: self.pmt_pid,
            pcr_pid: self.pcr_pid,
            pat_packets: self.pat_packets@,
            last_pmt: self.last_pmt@,
            tables: self.tables@,
            generation: self.generation,
        }
    }
}

impl Tables {
    /// One slot per section number, each kept section short enough to carry.
    pub closed spec fn wf(self) -> bool {
        &&& self.sections@.len() == SECTION_SLOTS
        &&& forall|i: int|
            0 <= i < SECTION_SLOTS ==> (#[trigger] self.sections@[i] matches Some(data) ==> data@.len()
                < MAX_SECTION_BYTES)
    }

    /// Tables that follow `service`, or the first service the PAT names when it is zero.
    pub fn new(service: u16) -> (tables: Tables)
        ensures
            tables.wf(),
            tables@.service == service,
            tables@.sections == Seq::new(SECTION_SLOTS as nat, |i: int| None::<Seq<u8>>),
            tables@.pmt_pid is None,
            tables@.pcr_pid is None,
            tables@.pat_packets.len() == 0,
            tables@.last_pmt.len() == 0,
            tables@.tables.len() == 0,
            tables@.generation == 0,
    {
        let mut sections: Vec<Option<Vec<u8>>> = Vec::new();
        while sections.len() < SECTION_SLOTS
            invariant
                sections@.len() <= SECTION_SLOTS,
                forall|i: int| 0 <= i < sections@.len() ==> #[trigger] sections@[i] is None,
            decreases SECTION_SLOTS - sections@.len(),
        {
            sections.push(None);
        }
        let tables = Tables {
            service,
            sections,
            pmt_pid: None,
            pcr_pid: None,
            pat_packets: Vec::new(),
            last_pmt: Vec::new(),
            tables: Vec::new(),
            generation: 0,
        };
        assert(tables@.sections =~= Seq::new(SECTION_SLOTS as nat, |i: int| None::<Seq<u8>>));
        tables
    }

    pub fn service(&self) -> (service: u16)
        ensures
            service == self@.service,
    {
        self.service
    }

    pub fn pmt_pid(&self) -> (pid: Option<u16>)
        ensures
            pid == self@.pmt_pid,
    {
        self.pmt_pid
    }

    pub fn pcr_pid(&self) -> (pid: Option<u16>)
        ensures
            pid == self@.pcr_pid,
    {
        self.pcr_pid
    }

    /// The bootstrap tables, as packets.
    pub fn tables(&self) -> (tables: &Vec<u8>)
        ensures
            tables@ == self@.tables,
    {
        &self.tables
    }

    /// Which generation of tables an anchor starts from: none while there are none.
    pub fn bootstrap(&self) -> (generation: Option<u64>)
        ensures
            generation == (if self@.tables.len() == 0 {
                None
            } else {
                Some(self@.generation)
            }),
    {
        if self.tables.len() == 0 {
            None
        } else {
            Some(self.generation)
        }
    }

    fn rebuild_pat(&mut self, last: u8)
        requires
            old(self).wf(),
        ensures
            final(self).wf(),
            final(self)@ == (TablesView { pat_packets: pat_stream(old(self)@.sections, last as int + 1), ..old(self)@ }),
    {
        let mut packets: Vec<u8> = Vec::new();
        let mut number: usize = 0;
        let end: usize = last as usize + 1;
        while number < end
            invariant
                self.wf(),
                end == last as int + 1,
                end <= SECTION_SLOTS,
                number <= end,
                packets@ == pat_stream(self@.sections, number as int),
            decreases end - number,
        {
            let ghost before = packets@;
            match &self.sections[number] {
                Some(data) => {
                    proof {
                        assert(self.sections@[number as int] matches Some(d) && d@.len() < MAX_SECTION_BYTES);
                    }
                    let carried = packetize(PAT_PID, data.as_slice());
                    proof {
                        lemma_packetized_is(PAT_PID, data@, carried@);
                    }
                    let mut i: usize = 0;
                    while i < carried.len()
                        invariant
                            i <= carried@.len(),
                            packets@ == before + carried@.subrange(0, i as int),
                        decreases carried@.len() - i,
                    {
                        packets.push(carried[i]);
                        i = i + 1;
                        assert(packets@ =~= before + carried@.subrange(0, i as int));
                    }
                    assert(carried@.subrange(0, carried@.len() as int) =~= carried@);
                    assert(section_views(self.sections@)[number as int] == Some(data@));
                },
                None => {
                    assert(section_views(self.sections@)[number as int] is None);
                    assert(packets@ =~= before + Seq::<u8>::empty());
                },
            }
            number = number + 1;
        }
        self.pat_packets = packets;
    }

    /// One parsed PAT section: its number, the last section number of its table, its
    /// bytes, and, when it completes the table, the services it names with the PIDs of
    /// their PMTs. False, with the section kept, when the table names no service to follow.
    pub fn pat_section(&mut self, number: u8, last: u8, data: Vec<u8>, programs: Option<Vec<(u16, u16)>>) -> (followed: bool)
        requires
            old(self).wf(),
            data@.len() < MAX_SECTION_BYTES,
            programs matches Some(p) ==> by_service(p@),
        ensures
            final(self).wf(),
            followed == pat_effect(old(self)@, number, last, data@, programs_view(programs)) is Some,
            pat_effect(old(self)@, number, last, data@, programs_view(programs)) matches Some(after)
                ==> final(self)@ == after,
            !followed ==> final(self)@ == (TablesView {
                sections: old(self)@.sections.update(number as int, Some(data@)),
                ..old(self)@
            }),
    {
        let ghost data_view = data@;
        self.sections.set(number as usize, Some(data));
        proof {
            assert(section_views(self.sections@) =~= old(self)@.sections.update(number as int, Some(data_view)));
        }
        let programs = match programs {
            None => return true,
            Some(programs) => programs,
        };
        if self.service == 0 {
            if programs.len() == 0 {
                return false;
            }
            self.service = programs[0].0;
        }
        let pid = self.find_pid(&programs);
        if self.pmt_pid != pid {
            self.pmt_pid = pid;
            self.pcr_pid = None;
            self.last_pmt = Vec::new();
        }
        self.rebuild_pat(last);
        true
    }

    fn find_pid(&self, programs: &Vec<(u16, u16)>) -> (pid: Option<u16>)
        ensures
            pid == pmt_pid_of(programs@, self.service),
    {
        let mut i: usize = 0;
        assert(programs@.skip(0) =~= programs@);
        while i < programs.len()
            invariant
                i <= programs@.len(),
                pmt_pid_of(programs@, self.service) == pmt_pid_of(programs@.skip(i as int), self.service),
            decreases programs@.len() - i,
        {
            assert(programs@.skip(i as int).drop_first() =~= programs@.skip(i as int + 1));
            if programs[i].0 == self.service {
                return Some(programs[i].1);
            }
            i = i + 1;
        }
        None
    }

    /// One parsed PMT section that arrived on `pid`: its bytes, the service it maps and
    /// that service's PCR PID.
    pub fn pmt_section(&mut self, pid: u16, data: Vec<u8>, service: u16, pcr_pid: u16)
        requires
            old(self).wf(),
            data@.len() < MAX_SECTION_BYTES,
            old(self)@.generation < u64::MAX,
        ensures
            final(self).wf(),
            final(self)@ == pmt_effect(old(self)@, pid, data@, service, pcr_pid),
    {
        let on_pmt = match self.pmt_pid {
            Some(p) => p == pid,
            None => false,
        };
        if pid == PAT_PID || !on_pmt || service != self.service {
            return;
        }
        self.pcr_pid = Some(pcr_pid);
        if !same_bytes(&self.last_pmt, &data) {
            let carried = packetize(pid, data.as_slice());
            proof {
                lemma_packetized_is(pid, data@, carried@);
            }
            let mut tables: Vec<u8> = Vec::new();
            let mut i: usize = 0;
            while i < self.pat_packets.len()
                invariant
                    i <= self.pat_packets@.len(),
                    tables@ == self.pat_packets@.subrange(0, i as int),
                decreases self.pat_packets@.len() - i,
            {
                tables.push(self.pat_packets[i]);
                i = i + 1;
                assert(tables@ =~= self.pat_packets@.subrange(0, i as int));
            }
            assert(self.pat_packets@.subrange(0, self.pat_packets@.len() as int) =~= self.pat_packets@);
            let ghost head = tables@;
            let mut j: usize = 0;
            while j < carried.len()
                invariant
                    j <= carried@.len(),
                    tables@ == head + carried@.subrange(0, j as int),
                decreases carried@.len() - j,
            {
                tables.push(carried[j]);
                j = j + 1;
                assert(tables@ =~= head + carried@.subrange(0, j as int));
            }
            assert(carried@.subrange(0, carried@.len() as int) =~= carried@);
            self.tables = tables;
            self.last_pmt = data;
            self.generation = self.generation + 1;
        }
    }

    /// A discontinuity: the PCR PID, the last PMT and the tables are forgotten (a new,
    /// empty generation); the kept PAT sections and the PMT PID stay.
    pub fn discontinuity(&mut self)
        requires
            old(self).wf(),
            old(self)@.generation < u64::MAX,
        ensures
            final(self).wf(),
            final(self)@ == (TablesView {
                pcr_pid: None,
                last_pmt: Seq::empty(),
                tables: Seq::empty(),
                generation: (old(self)@.generation + 1) as u64,
                ..old(self)@
            }),
    {
        self.pcr_pid = None;
        self.last_pmt = Vec::new();
        self.tables = Vec::new();
        self.generation = self.generation + 1;
    }
}

/// Whether two byte strings are equal.
fn same_bytes(a: &Vec<u8>, b: &Vec<u8>) -> (same: bool)
    ensures
        same == (a@ == b@),
{
    if a.len() != b.len() {
        return false;
    }
    let mut i: usize = 0;
    while i < a.len()
        invariant
            a@.len() == b@.len(),
            i <= a@.len(),
            forall|k: int| 0 <= k < i ==> a@[k] == b@[k],
        decreases a@.len() - i,
    {
        if a[i] != b[i] {
            return false;
        }
        i = i + 1;
    }
    assert(a@ =~= b@);
    true
}

} // verus!
