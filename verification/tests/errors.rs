use std::io;
use std::sync::mpsc::SyncSender;

use raft_log::errors::CheckpointLogMismatch;
use raft_log::errors::InvalidChunkFileName;
use raft_log::errors::LogIdIndexDisorder;
use raft_log::errors::LogIdNonConsecutive;
use raft_log::errors::LogIdReversal;
use raft_log::errors::LogIndexNotFound;
use raft_log::errors::RaftLogStateError;
use raft_log::errors::VoteReversal;
use raft_log::types::Types;

#[derive(Debug, Clone, PartialEq, Eq, Default)]
struct TestTypes;

impl Types for TestTypes {
    /// (term, index)
    type LogId = (u64, u64);
    /// (term, voted_for)
    type Vote = (u64, u64);
    type LogPayload = String;
    type UserData = String;
    type Callback = SyncSender<Result<(), io::Error>>;
}

#[test]
fn test_error_messages() {
    let e = VoteReversal::<TestTypes>::new((2, 1), (1, 1));
    assert_eq!("Vote cannot be reversed: current (2, 1), attempted (1, 1)", e.message());

    let e = LogIdReversal::<TestTypes>::new((2, 3), (2, 1), "commit");
    assert_eq!("Log id cannot be reversed when commit: current (2, 3), attempted (2, 1)", e.message());

    let e = LogIdNonConsecutive::<TestTypes>::new(None, (2, 5));
    assert_eq!("Log id is not consecutive when append: last None, attempted (2, 5)", e.message());

    let e = LogIdIndexDisorder::<TestTypes>::new((1, 7), (2, 7), "purge");
    assert_eq!(
        "Log id conflicts with the stored log id when purge: stored (1, 7), attempted (2, 7); log id order and log index order must agree",
        e.message()
    );

    let e = CheckpointLogMismatch::<TestTypes>::new((1, 2), (1, 4), Some((1, 1)), None);
    assert_eq!(
        "Checkpoint does not match the stored log: the log holds (1, 2)..=(1, 4), the checkpoint declares purged Some((1, 1)) and last None",
        e.message()
    );

    let e = LogIndexNotFound::new(42);
    assert_eq!("Log not found at index 42", e.message());
    let e = RaftLogStateError::<TestTypes>::LogIndexNotFound(e);
    assert_eq!("Log not found at index 42", e.message());

    let e = InvalidChunkFileName::new("r-abc.wal", "not a number");
    assert_eq!("Invalid WAL chunk file name: r-abc.wal: not a number", e.message());
}
