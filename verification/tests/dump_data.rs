use std::io;
use std::sync::mpsc::SyncSender;

use raft_log::chunk_id::ChunkId;
use raft_log::chunk_id::Segment;
use raft_log::config::Config;
use raft_log::dump_data::DumpEntry;
use raft_log::dump_data::DumpRaftLog;
use raft_log::file_lock::locked_error_message;
use raft_log::file_lock::lock_path;
use raft_log::record::RaftLogAction;
use raft_log::record::RaftLogRecord;
use raft_log::state_machine::RaftLogStateMachine;
use raft_log::types::Types;

#[derive(Debug, Clone, PartialEq, Eq, Default)]
struct TestTypes;

impl Types for TestTypes {
    /// (term, index)
    type LogId = (u64, u64);
    /// (term, voted_for)
    type Vote = (u64, u64);
    type LogPayload = String;
    type UserData = String;
    type Callback = SyncSender<Result<(), io::Error>>;
}

#[test]
fn test_dump_entries_from_cache_and_store() {
    let mut config = Config::default();
    config.log_cache_max_items = Some(2);
    let mut sm = RaftLogStateMachine::<TestTypes>::new(&config);
    for i in 1..=4u64 {
        let rec = RaftLogRecord::<TestTypes>::Action(RaftLogAction::Append((1, i), format!("p{}", i)));
        sm.apply(&rec, ChunkId(0), Segment::new(i * 10, 10)).unwrap();
        sm.payload_cache.set_last_evictable(Some((1, i)));
    }

    let mut data = DumpRaftLog::new(&sm);
    assert_eq!(Some(&(1, 4)), data.state().last());
    assert_eq!(4, data.len());

    let mut got = vec![];
    let mut i = 0;
    while let Some(e) = data.entry(i) {
        got.push(e);
        i += 1;
    }
    assert_eq!(4, got.len());
    match &got[0] {
        DumpEntry::Stored(d) => {
            assert_eq!((1, 1), d.log_id);
            assert_eq!(Segment::new(10, 10), d.record_segment);
        }
        other => panic!("unexpected: {:?}", other),
    }
    assert_eq!(DumpEntry::Cached((1, 4), "p4".to_string()), got[3]);
    assert_eq!(DumpEntry::Cached((1, 3), "p3".to_string()), got[2]);
    assert_eq!(2, data.cache_hit());
    assert_eq!(2, data.cache_miss());
    assert_eq!(None, data.entry(4));
}

#[test]
fn test_lock_file_names() {
    assert_eq!("/tmp/x/LOCK", lock_path("/tmp/x"));
    assert_eq!(
        "Directory '/tmp/x' is already locked by another process, shutdown other process to continue; error:(busy)",
        locked_error_message("/tmp/x", "busy")
    );
}
