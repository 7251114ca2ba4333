use nagametv::input::{output_of_read, Output};
use nagametv::index::{PCR_HZ, TS_PACKET_SIZE};
use nagametv::limits::{Limits, Policy, Retention, MIN_CAPACITY_MIB};
use nagametv::slots::SEGMENT_BYTES;
use nagametv::store::{needs_new_storage, ReadResult, Status, Store, READ_BYTES};
use nagametv::timeline::RetentionChange;

const LOOKBACK_NS: u64 = 5_000_000_000;

/// Append whole packets, then enforce the policy's budgets.
fn append(store: &mut Store, block: &[u8]) {
    assert!(Store::check_aligned(block.len()).is_ok());
    let (bytes, time) = store.policy().budget();
    let mut written = 0;
    while written < block.len() {
        let count = store.open_chunk(block.len() - written, bytes);
        assert!(count > 0);
        store.commit_chunk(&block[written..written + count]);
        written += count;
    }
    store.seal_chunk();
    assert!(store.trim(bytes, time, LOOKBACK_NS).is_empty());
}

fn block() -> Vec<u8> {
    [0u8; TS_PACKET_SIZE].repeat(READ_BYTES / TS_PACKET_SIZE)
}

fn memory(memory_mib: u32, minutes: u32) -> Policy {
    Policy::new(Retention::Memory, Limits::new(memory_mib, memory_mib, minutes).unwrap())
}

#[test]
fn configured_memory_budget_bounds_allocations_and_discards_the_old_cursor() {
    let mut store = Store::new(memory(MIN_CAPACITY_MIB, 1));
    let block = block();
    let capacity = u64::from(MIN_CAPACITY_MIB) * SEGMENT_BYTES as u64;
    const CAPACITY_CYCLES: u64 = 3;
    for _ in 0..(capacity * CAPACITY_CYCLES).div_ceil(block.len() as u64) {
        append(&mut store, &block);
        assert!(store.end() - store.start() <= capacity);
    }
    assert!(store.end() >= capacity * CAPACITY_CYCLES);
    assert!(matches!(store.read(0), ReadResult::Expired));
    assert!(matches!(store.read(store.start()), ReadResult::Data { .. }));
}

#[test]
fn reconnect_is_a_read_boundary_and_never_discards_old_data() {
    let mut store = Store::new(memory(MIN_CAPACITY_MIB, 1));
    let block = block();
    append(&mut store, &block);
    let boundary = store.end();
    store.reconnect();
    append(&mut store, &block);
    let packet = TS_PACKET_SIZE as u64;
    assert!(matches!(
        store.read(boundary - packet),
        ReadResult::Data { bytes, reconnected: false } if bytes.len() as u64 == packet
    ));
    assert!(matches!(store.read(boundary), ReadResult::Data { reconnected: true, .. }));
    assert!(matches!(store.read(0), ReadResult::Data { reconnected: false, .. }));
    assert_eq!(store.start(), 0);
}

#[test]
fn resizing_live_history_preserves_offsets_and_trims_both_budgets() {
    const SMALL_MIB: u32 = MIN_CAPACITY_MIB;
    const LARGE_MIB: u32 = SMALL_MIB * 2;
    const INITIAL_MINUTES: u32 = 3;
    const REDUCED_MINUTES: u32 = 1;
    let initial = memory(LARGE_MIB, INITIAL_MINUTES);
    let mut store = Store::new(initial);
    let block = block();
    let received_bytes = u64::from(SMALL_MIB + SMALL_MIB / 2) * SEGMENT_BYTES as u64;
    for _ in 0..received_bytes.div_ceil(block.len() as u64) {
        append(&mut store, &block);
    }
    let end = store.end();
    let (change, removed) = store.commit_policy(memory(SMALL_MIB, INITIAL_MINUTES), LOOKBACK_NS);
    assert_eq!(change, Some(RetentionChange::ClampPosition));
    assert!(removed.is_empty());
    assert_eq!(store.end(), end);
    assert!(matches!(store.read(0), ReadResult::Expired));
    let start = store.start();
    assert!(start > 0);
    assert!(end - start <= u64::from(SMALL_MIB) * SEGMENT_BYTES as u64);
    assert!(matches!(store.read(start), ReadResult::Data { .. }));
    let (change, _) = store.commit_policy(initial, LOOKBACK_NS);
    assert_eq!(change, None);
    assert_eq!(store.start(), start);
    assert_eq!(store.end(), end);
    // Four minutes of clock over few bytes, one PCR a tenth of a second apart, then a
    // shorter time budget.
    let mut pcr = 0;
    for _ in 0..2400 {
        let offset = store.end();
        append(&mut store, &[0u8; TS_PACKET_SIZE]);
        store.record_pcr(offset, pcr, false, 0, 0);
        pcr += PCR_HZ / 10;
    }
    let end = store.end();
    let first = store.index().entries()[0].time_ns;
    store.commit_policy(memory(LARGE_MIB, REDUCED_MINUTES), LOOKBACK_NS);
    assert_eq!(store.end(), end);
    let front = store.index().entries()[0].time_ns;
    assert!(front > first);
    assert!(store.index().end_ns().unwrap() - front <= 60_000_000_000);
}

#[test]
fn changing_storage_starts_over_at_the_current_end() {
    let mut store = Store::new(memory(MIN_CAPACITY_MIB, 1));
    append(&mut store, &block());
    let end = store.end();
    let (change, _) = store.commit_policy(
        Policy::new(Retention::Filesystem, Limits::new(MIN_CAPACITY_MIB, MIN_CAPACITY_MIB, 1).unwrap()),
        LOOKBACK_NS,
    );
    assert_eq!(change, Some(RetentionChange::ReturnToLive));
    assert_eq!(store.start(), end);
    assert_eq!(store.end(), end);
    assert!(matches!(store.read(0), ReadResult::Expired));
    assert!(needs_new_storage(Retention::Memory, Retention::Filesystem));
    assert!(needs_new_storage(Retention::Filesystem, Retention::Off));
    assert!(!needs_new_storage(Retention::Memory, Retention::Memory));
}

#[test]
fn memory_has_the_expiry_eof_and_failure_contract() {
    let mut store = Store::new(memory(MIN_CAPACITY_MIB, 1));
    assert!(matches!(store.read(0), ReadResult::Awaiting));
    let mut packet = [0u8; TS_PACKET_SIZE];
    packet[0] = 0x47;
    let block = packet.repeat(READ_BYTES / TS_PACKET_SIZE);
    let segments = MIN_CAPACITY_MIB as usize + 4;
    for _ in 0..(segments * SEGMENT_BYTES).div_ceil(block.len()) {
        append(&mut store, &block);
    }
    assert!(store.end() - store.start() <= u64::from(MIN_CAPACITY_MIB) * SEGMENT_BYTES as u64);
    assert!(matches!(store.read(0), ReadResult::Expired));
    assert!(matches!(store.read(store.start()), ReadResult::Data { bytes, .. } if bytes == block));
    assert!(matches!(store.read(store.end()), ReadResult::Awaiting));
    store.set_status(Status::Ended);
    assert!(matches!(store.read(store.end()), ReadResult::End));
    store.set_status(Status::Failed("disk full".into()));
    assert!(matches!(store.read(store.end()), ReadResult::Failed(message) if message == "disk full"));
    assert!(Store::check_aligned(TS_PACKET_SIZE + 1).is_err());
}

#[test]
fn reads_without_bytes_pass_to_the_pipeline_and_failures_keep_their_message() {
    assert!(matches!(output_of_read(&ReadResult::Awaiting), Some(Ok(Output::Awaiting))));
    assert!(matches!(output_of_read(&ReadResult::Expired), Some(Ok(Output::Expired))));
    assert!(matches!(output_of_read(&ReadResult::End), Some(Ok(Output::End))));
    assert!(matches!(output_of_read(&ReadResult::Failed("reset by peer".into())), Some(Err(message)) if message == "reset by peer"));
    assert!(output_of_read(&ReadResult::Data { bytes: vec![0x47; 188], reconnected: false }).is_none());
}
