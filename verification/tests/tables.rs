use nagametv::index::{Index, PacketClock, PCR_HZ};
use nagametv::tables::{Tables, PAT_PID};

fn pat(number: u8) -> Vec<u8> {
    vec![0x00, 0xb0, 0x11, 0x00, 0x01, 0xc1, number, 0x00]
}

fn pmt(version: u8) -> Vec<u8> {
    vec![0x02, 0xb0, 0x12, 0x04, 0x00, 0xc1 | (version << 1), 0x00, 0x00, 0xe1, 0x00]
}

#[test]
fn complete_pat_follows_the_service_and_its_pmt_builds_the_tables() {
    let mut tables = Tables::new(0x400);
    assert!(tables.pat_section(0, 0, pat(0), None));
    assert_eq!(tables.pmt_pid(), None);
    assert!(tables.pat_section(0, 0, pat(0), Some(vec![(0x300, 0x1f0), (0x400, 0x1f1)])));
    assert_eq!(tables.service(), 0x400);
    assert_eq!(tables.pmt_pid(), Some(0x1f1));
    assert_eq!(tables.bootstrap(), None);

    tables.pmt_section(0x1f0, pmt(0), 0x400, 0x100);
    assert_eq!(tables.pcr_pid(), None);
    tables.pmt_section(0x1f1, pmt(0), 0x300, 0x100);
    assert_eq!(tables.pcr_pid(), None);
    tables.pmt_section(0x1f1, pmt(0), 0x400, 0x100);
    assert_eq!(tables.pcr_pid(), Some(0x100));
    assert_eq!(tables.bootstrap(), Some(1));
    let built = tables.tables().clone();
    assert_eq!(built.len(), 2 * 188);
    assert_eq!(&built[0..4], &[0x47, 0x40, 0x00, 0x10]);
    assert_eq!(&built[188..192], &[0x47, 0x41, 0xf1, 0x10]);
    assert_eq!(built[5], pat(0)[0]);
    assert_eq!(built[188 + 5], pmt(0)[0]);
    assert_eq!(built[187], 0xff);
}

#[test]
fn repeated_pmt_keeps_the_generation_and_a_revision_replaces_it() {
    let mut tables = Tables::new(0x400);
    assert!(tables.pat_section(0, 0, pat(0), Some(vec![(0x400, 0x1f1)])));
    tables.pmt_section(0x1f1, pmt(0), 0x400, 0x100);
    tables.pmt_section(0x1f1, pmt(0), 0x400, 0x100);
    assert_eq!(tables.bootstrap(), Some(1));
    tables.pmt_section(0x1f1, pmt(1), 0x400, 0x101);
    assert_eq!(tables.bootstrap(), Some(2));
    assert_eq!(tables.pcr_pid(), Some(0x101));
}

#[test]
fn unset_service_takes_the_first_one_named_and_an_empty_table_stops() {
    let mut tables = Tables::new(0);
    assert!(!tables.pat_section(0, 0, pat(0), Some(Vec::new())));
    assert_eq!(tables.service(), 0);
    assert!(tables.pat_section(0, 0, pat(0), Some(vec![(0x300, 0x1f0), (0x400, 0x1f1)])));
    assert_eq!(tables.service(), 0x300);
    assert_eq!(tables.pmt_pid(), Some(0x1f0));
}

#[test]
fn multi_section_pat_is_carried_in_section_order_up_to_the_last() {
    let mut tables = Tables::new(0x400);
    assert!(tables.pat_section(1, 1, pat(1), None));
    assert!(tables.pat_section(2, 2, pat(2), None));
    assert!(tables.pat_section(0, 1, pat(0), Some(vec![(0x400, 0x1f1)])));
    tables.pmt_section(0x1f1, pmt(0), 0x400, 0x100);
    let built = tables.tables().clone();
    assert_eq!(built.len(), 3 * 188);
    assert_eq!(built[5 + 6], 0);
    assert_eq!(built[188 + 5 + 6], 1);
    assert_eq!(&built[376..380], &[0x47, 0x41, 0xf1, 0x10]);
}

#[test]
fn moving_pmt_forgets_the_pcr_and_discontinuity_forgets_the_tables() {
    let mut tables = Tables::new(0x400);
    assert!(tables.pat_section(0, 0, pat(0), Some(vec![(0x400, 0x1f1)])));
    tables.pmt_section(0x1f1, pmt(0), 0x400, 0x100);
    tables.discontinuity();
    assert_eq!(tables.bootstrap(), None);
    assert_eq!(tables.pcr_pid(), None);
    assert_eq!(tables.pmt_pid(), Some(0x1f1));
    tables.pmt_section(0x1f1, pmt(0), 0x400, 0x100);
    assert_eq!(tables.bootstrap(), Some(3));
    assert!(tables.pat_section(0, 0, pat(0), Some(vec![(0x400, 0x1f2)])));
    assert_eq!(tables.pmt_pid(), Some(0x1f2));
    assert_eq!(tables.pcr_pid(), None);
    tables.pmt_section(PAT_PID, pmt(0), 0x400, 0x100);
    assert_eq!(tables.pcr_pid(), None);
}

#[test]
fn index_anchors_only_once_tables_are_known_and_a_new_generation_starts_an_entry() {
    let clock = |pcr: u64| PacketClock { pid: 0x100, start: false, pts: None, pcr: Some(pcr), discontinuity: false };
    let mut tables = Tables::new(0x400);
    let mut index = Index::new();
    assert_eq!(index.packet(0, clock(0), tables.pcr_pid(), tables.bootstrap(), 0), None);
    assert!(tables.pat_section(0, 0, pat(0), Some(vec![(0x400, 0x1f1)])));
    tables.pmt_section(0x1f1, pmt(0), 0x400, 0x100);
    let first = index.packet(188, clock(PCR_HZ), tables.pcr_pid(), tables.bootstrap(), 0).unwrap();
    assert_eq!(first.tables, 1);
    index.packet(376, clock(PCR_HZ + 10), tables.pcr_pid(), tables.bootstrap(), 0);
    assert_eq!(index.entries().len(), 1);
    tables.pmt_section(0x1f1, pmt(1), 0x400, 0x100);
    let revised = index.packet(564, clock(PCR_HZ + 20), tables.pcr_pid(), tables.bootstrap(), 0).unwrap();
    assert_eq!(revised.tables, 2);
    assert_eq!(index.entries().len(), 2);
}
