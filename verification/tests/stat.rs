use std::io;
use std::sync::mpsc::SyncSender;

use raft_log::chunk_id::ChunkId;
use raft_log::metrics::FlushMetrics;
use raft_log::raft_log_state::RaftLogState;
use raft_log::stat::AccessStat;
use raft_log::stat::ChunkStat;
use raft_log::stat::Stat;
use raft_log::types::Types;

#[derive(Debug, Clone, PartialEq, Eq, Default)]
struct TestTypes;

impl Types for TestTypes {
    /// (term, index)
    type LogId = (u64, u64);
    /// (term, voted_for)
    type Vote = (u64, u64);
    type LogPayload = String;
    type UserData = String;
    type Callback = SyncSender<Result<(), io::Error>>;
}

fn chunk(start: u64, end: u64, records: u64) -> ChunkStat<RaftLogState<TestTypes>> {
    ChunkStat {
        chunk_id: ChunkId(start),
        records_count: records,
        global_start: start,
        global_end: end,
        size: end - start,
        log_state: RaftLogState::default(),
    }
}

fn sample() -> Stat<TestTypes> {
    Stat {
        closed_chunks: vec![chunk(0, 10, 1), chunk(10, 30, 2)],
        open_chunk: chunk(30, 35, 1),
        payload_cache_last_evictable: Some((1, 2)),
        payload_cache_item_count: 3,
        payload_cache_max_item: 100,
        payload_cache_size: 12,
        payload_cache_capacity: 1000,
        payload_cache_miss: 4,
        payload_cache_hit: 5,
        flush_metrics: FlushMetrics::default(),
    }
}

#[test]
fn test_stat_display() {
    let st = sample();
    let c0 = st.closed_chunks[0].display();
    let c1 = st.closed_chunks[1].display();
    let o = st.open_chunk.display();
    let tail = "payload_cache:{evictable: ..=(1, 2),item/max: 000_000_003 / 000_000_100,size/cap: 000_000_012 / 000_001_000,miss: 000_000_004,hit: 000_000_005}";

    let want = format!("Stat{{ closed_chunks: [{},{} ], open_chunk: {}, {}}}", c0, c1, o, tail);
    assert_eq!(want, st.display(false));

    let want = format!(
        "Stat{{\n closed_chunks: [\n  {},\n  {}\n ],\n open_chunk: {},\n {}\n}}",
        c0, c1, o, tail
    );
    assert_eq!(want, st.display(true));
}

#[test]
fn test_stat_display_no_closed_chunks() {
    let mut st = sample();
    st.closed_chunks.clear();
    st.payload_cache_last_evictable = None;
    let got = st.display(false);
    assert!(got.starts_with("Stat{ closed_chunks: [ ], open_chunk: ChunkStat("), "got: {got}");
    assert!(got.contains("evictable: ..=None,"), "got: {got}");
}

#[test]
fn test_access_stat_display() {
    let a = AccessStat { cache_hit: 4, cache_miss: 2 };
    assert_eq!("AccessStat{cache(hit/miss)=4/2}", a.display());
    assert_eq!("AccessStat{cache(hit/miss)=0/0}", AccessStat::default().display());
}
