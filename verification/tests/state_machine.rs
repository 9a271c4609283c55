use std::io;
use std::sync::mpsc::SyncSender;

use raft_log::chunk_id::ChunkId;
use raft_log::chunk_id::Segment;
use raft_log::config::Config;
use raft_log::errors::RaftLogStateError;
use raft_log::raft_log_state::RaftLogState;
use raft_log::record::RaftLogAction;
use raft_log::record::RaftLogRecord;
use raft_log::state_machine::chunk_is_removable;
use raft_log::state_machine::RaftLogStateMachine;
use raft_log::types::Types;

#[derive(Debug, Clone, PartialEq, Eq, Default)]
struct TestTypes;

impl Types for TestTypes {
    /// (term, index)
    type LogId = (u64, u64);
    /// (term, voted_for)
    type Vote = (u64, u64);
    type LogPayload = String;
    type UserData = String;
    type Callback = SyncSender<Result<(), io::Error>>;
}

fn ss(x: &str) -> String {
    x.to_string()
}

fn action(a: RaftLogAction<TestTypes>) -> RaftLogRecord<TestTypes> {
    RaftLogRecord::<TestTypes>::Action(a)
}

#[test]
fn test_checkpoint_returns_current_log_state() -> Result<(), RaftLogStateError<TestTypes>> {
    let mut sm = RaftLogStateMachine::<TestTypes>::new(&Config::default());
    let segment = Segment::new(0, 0);

    sm.apply(&action(RaftLogAction::SaveVote((2, 1))), ChunkId(0), segment)?;
    sm.apply(&action(RaftLogAction::Append((3, 7), ss("payload"))), ChunkId(0), segment)?;
    sm.apply(&action(RaftLogAction::Commit((3, 7))), ChunkId(0), segment)?;

    assert_eq!(
        RaftLogState {
            vote: Some((2, 1)),
            last: Some((3, 7)),
            committed: Some((3, 7)),
            purged: None,
            user_data: None,
        },
        sm.checkpoint()
    );

    Ok(())
}

/// Replaying a WAL that holds a purge record conflicting with the log id
/// stored at that index must fail, so a corrupt log is reported when the log
/// is opened instead of rebuilt into an inconsistent state.
#[test]
fn test_apply_rejects_purge_conflicting_with_stored_log() -> Result<(), RaftLogStateError<TestTypes>> {
    let mut sm = RaftLogStateMachine::<TestTypes>::new(&Config::default());
    let segment = Segment::new(0, 0);

    sm.apply(&action(RaftLogAction::Append((1, 7), ss("a"))), ChunkId(0), segment)?;

    let record = action(RaftLogAction::PurgeUpto((2, 7)));
    let err = sm.apply(&record, ChunkId(0), segment).unwrap_err();
    let want = "Log id conflicts with the stored log id when purge: stored (1, 7), attempted (2, 7); log id order and log index order must agree";
    assert_eq!(want, err.message());

    Ok(())
}

/// A state machine holding entries (1,1)..=(1,5), each in its own segment of
/// chunk 100.
fn sample() -> RaftLogStateMachine<TestTypes> {
    let mut sm = RaftLogStateMachine::<TestTypes>::new(&Config::default());
    for i in 1..=5u64 {
        sm.apply(
            &action(RaftLogAction::Append((1, i), format!("p{}", i))),
            ChunkId(100),
            Segment::new(100 + i * 10, 10),
        )
        .unwrap();
    }
    sm
}

#[test]
fn test_read_range() {
    let sm = sample();
    let got = sm.read_range(2, 4).iter().map(|d| (d.log_id, d.record_segment.offset)).collect::<Vec<_>>();
    assert_eq!(vec![((1, 2), 120), ((1, 3), 130)], got);
    assert!(sm.read_range(3, 3).is_empty());
    assert_eq!(5, sm.read_range(0, 100).len());
    assert!(sm.read_range(6, 100).is_empty());
}

#[test]
fn test_truncate_record_picks_kept_log_id() {
    let mut sm = sample();
    assert_eq!(
        Ok(action(RaftLogAction::TruncateAfter(Some((1, 2))))),
        sm.truncate_record(3)
    );
    // at the index right after the purged id (none: index 0), the purged id is kept
    assert_eq!(Ok(action(RaftLogAction::TruncateAfter(None))), sm.truncate_record(0));
    let err = sm.truncate_record(9).unwrap_err();
    assert_eq!("Log not found at index 8", err.message());

    sm.apply(&action(RaftLogAction::PurgeUpto((1, 2))), ChunkId(100), Segment::new(200, 10)).unwrap();
    assert_eq!(
        Ok(action(RaftLogAction::TruncateAfter(Some((1, 2))))),
        sm.truncate_record(3)
    );
    // below the purge point there is nothing to keep
    let err = sm.truncate_record(0).unwrap_err();
    assert_eq!("Log not found at index 0", err.message());
    let err = sm.truncate_record(2).unwrap_err();
    assert_eq!("Log not found at index 1", err.message());

    // applying the truncation leaves only the entries below the index
    let rec = sm.truncate_record(4).unwrap();
    sm.apply(&rec, ChunkId(100), Segment::new(210, 10)).unwrap();
    let left = sm.read_range(0, 100).iter().map(|d| d.log_id).collect::<Vec<_>>();
    assert_eq!(vec![(1, 3)], left);
    assert_eq!(Some(&(1, 3)), sm.log_state.last());
}

#[test]
fn test_purge_record_skips_purged_entries() {
    let mut sm = sample();
    assert_eq!(Some(action(RaftLogAction::PurgeUpto((1, 2)))), sm.purge_record(&(1, 2)));
    sm.apply(&action(RaftLogAction::PurgeUpto((1, 2))), ChunkId(100), Segment::new(200, 10)).unwrap();
    assert_eq!(None, sm.purge_record(&(1, 1)));
    assert_eq!(None, sm.purge_record(&(1, 2)));
    assert_eq!(Some(action(RaftLogAction::PurgeUpto((1, 3)))), sm.purge_record(&(1, 3)));
}

#[test]
fn test_user_data_record_and_stored_log_ids() {
    let sm = sample();
    let rec = sm.user_data_record(Some(ss("meta")));
    let mut want = sm.checkpoint();
    want.user_data = Some(ss("meta"));
    assert_eq!(RaftLogRecord::<TestTypes>::Checkpoint(want), rec);

    assert_eq!(Ok((1, 4)), sm.get_log_id(4));
    assert!(sm.get_log_id(6).is_err());
}

#[test]
fn test_chunk_is_removable() {
    let mut cp = RaftLogState::<TestTypes>::default();
    assert!(chunk_is_removable(&cp, &(1, 1)));
    cp.last = Some((1, 1));
    assert!(chunk_is_removable(&cp, &(1, 1)));
    assert!(chunk_is_removable(&cp, &(1, 2)));
    cp.last = Some((1, 3));
    assert!(!chunk_is_removable(&cp, &(1, 2)));
}

#[test]
fn test_append_payload_and_check_checkpoint() {
    assert_eq!(
        Some(ss("x")),
        RaftLogStateMachine::<TestTypes>::append_payload(action(RaftLogAction::Append((1, 1), ss("x"))))
    );
    assert_eq!(None, RaftLogStateMachine::<TestTypes>::append_payload(action(RaftLogAction::Commit((1, 1)))));

    // the log holds (1,1)..=(1,5) but nothing is purged: it should start at 0
    let mut sm = sample();
    let err = sm.check_checkpoint(&sm.checkpoint()).unwrap_err();
    assert_eq!(
        "Checkpoint does not match the stored log: the log holds (1, 1)..=(1, 5), the checkpoint declares purged None and last Some((1, 5))",
        err.message()
    );

    sm.apply(&action(RaftLogAction::PurgeUpto((1, 1))), ChunkId(100), Segment::new(200, 10)).unwrap();
    let mut good = sm.checkpoint();
    good.vote = Some((5, 5));
    assert!(sm.check_checkpoint(&good).is_ok());
    let mut bad = sm.checkpoint();
    bad.last = Some((1, 4));
    let err = sm.check_checkpoint(&bad).unwrap_err();
    assert_eq!(
        "Checkpoint does not match the stored log: the log holds (1, 2)..=(1, 5), the checkpoint declares purged Some((1, 1)) and last Some((1, 4))",
        err.message()
    );

    // an empty log accepts any state
    let empty = RaftLogStateMachine::<TestTypes>::new(&Config::default());
    assert!(empty.check_checkpoint(&bad).is_ok());
}

#[test]
fn test_fits_refuses_what_would_overflow() {
    let sm = sample();
    assert!(sm.fits(&action(RaftLogAction::Append((1, 6), ss("x")))));
    assert!(sm.fits(&action(RaftLogAction::SaveVote((1, 1)))));
    assert!(!sm.fits(&action(RaftLogAction::PurgeUpto((1, u64::MAX)))));
    assert!(!sm.fits(&action(RaftLogAction::TruncateAfter(Some((1, u64::MAX))))));
    assert!(sm.fits(&action(RaftLogAction::TruncateAfter(None))));

    let mut last_at_max = RaftLogStateMachine::<TestTypes>::new(&Config::default());
    last_at_max
        .apply(&action(RaftLogAction::Append((1, u64::MAX), ss("p"))), ChunkId(0), Segment::new(0, 10))
        .unwrap();
    assert!(!last_at_max.fits(&action(RaftLogAction::Append((2, 0), ss("q")))));
    // a log id not after the last one needs no successor index
    assert!(last_at_max.fits(&action(RaftLogAction::Append((1, 3), ss("q")))));
}

#[test]
fn test_purged_has_successor() {
    let mut state = RaftLogState::<TestTypes>::default();
    assert!(state.purged_has_successor());
    state.purged = Some((1, 5));
    assert!(state.purged_has_successor());
    state.purged = Some((1, u64::MAX));
    assert!(!state.purged_has_successor());
}
