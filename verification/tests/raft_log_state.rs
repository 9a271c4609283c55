use std::io;
use std::sync::mpsc::SyncSender;

use raft_log::raft_log_state::RaftLogState;
use raft_log::record::RaftLogAction;
use raft_log::record::RaftLogRecord;
use raft_log::types::DataDisplay;
use raft_log::types::DataValue;
use raft_log::types::Types;

#[derive(Debug, Clone, PartialEq, Eq, Default)]
struct TestTypes;

impl Types for TestTypes {
    /// (term, index)
    type LogId = (u64, u64);
    /// (term, voted_for)
    type Vote = (u64, u64);
    type LogPayload = String;
    type UserData = String;
    type Callback = SyncSender<Result<(), io::Error>>;
}

/// Type config to test Display implementation
#[derive(Debug, Clone, PartialEq, Eq, Default)]
struct TestDisplayTypes;

impl Types for TestDisplayTypes {
    type LogId = u64;
    type Vote = u64;
    type LogPayload = String;
    type UserData = String;
    type Callback = SyncSender<Result<(), io::Error>>;
}

fn ss(x: &str) -> String {
    x.to_string()
}

#[test]
fn test_raft_log_state_codec() {
    let state = RaftLogState::<TestTypes> {
        vote: Some((1, 2)),
        last: Some((2, 3)),
        committed: Some((4, 5)),
        purged: Some((6, 7)),
        user_data: Some(ss("hello")),
    };

    let b = vec![
        1, // version
        1, // Some
        0, 0, 0, 0, 0, 0, 0, 1, // vote.term
        0, 0, 0, 0, 0, 0, 0, 2, // vote.voted_for
        1, // Some
        0, 0, 0, 0, 0, 0, 0, 2, // last.term
        0, 0, 0, 0, 0, 0, 0, 3, // last.index
        1, // Some
        0, 0, 0, 0, 0, 0, 0, 4, // committed.term
        0, 0, 0, 0, 0, 0, 0, 5, // committed.index
        1, // Some
        0, 0, 0, 0, 0, 0, 0, 6, // purged.term
        0, 0, 0, 0, 0, 0, 0, 7, // purged.index
        1, // Some
        0, 0, 0, 5, // user_data.len
        104, 101, 108, 108, 111, // user_data
    ];

    let mut got = Vec::new();
    state.encode_data(&mut got);
    assert_eq!(b, got);

    let (decoded, end) = RaftLogState::<TestTypes>::decode_data(&b, 0).unwrap();
    assert_eq!(state, decoded);
    assert_eq!(b.len(), end);
}

#[test]
fn test_raft_log_state_display() {
    let state = RaftLogState::<TestDisplayTypes> {
        vote: Some(1),
        last: Some(2),
        committed: Some(4),
        purged: Some(6),
        user_data: Some("hello".to_string()),
    };

    let mut got = String::new();
    state.write_data_display(&mut got);
    let want = "RaftLogState(vote: 1, last: 2, committed: 4, purged: 6, user_data: hello)";

    assert_eq!(want, got);
}

#[test]
fn test_raft_log_state_debug_and_unsupported_version() {
    let state = RaftLogState::<TestTypes> {
        vote: None,
        last: Some((2, 7)),
        committed: Some((1, 2)),
        purged: Some((1, 1)),
        user_data: None,
    };
    let mut got = String::new();
    state.write_data_debug(&mut got);
    assert_eq!(
        "RaftLogState { vote: None, last: Some((2, 7)), committed: Some((1, 2)), purged: Some((1, 1)), user_data: None }",
        got
    );

    let err = RaftLogState::<TestTypes>::decode_data(&[2, 0, 0, 0, 0, 0], 0).unwrap_err();
    assert_eq!("Unsupported RaftLogState version: 2", err.message);
}

fn action(a: RaftLogAction<TestTypes>) -> RaftLogRecord<TestTypes> {
    RaftLogRecord::<TestTypes>::Action(a)
}

#[test]
fn test_state_rejects_reversals_and_gaps() {
    let mut state = RaftLogState::<TestTypes>::default();
    state.apply(&action(RaftLogAction::SaveVote((2, 1)))).unwrap();
    state.apply(&action(RaftLogAction::Append((1, 1), ss("a")))).unwrap();
    state.apply(&action(RaftLogAction::Commit((1, 1)))).unwrap();

    let err = state.apply(&action(RaftLogAction::SaveVote((1, 5)))).unwrap_err();
    assert_eq!("Vote cannot be reversed: current (2, 1), attempted (1, 5)", err.message());

    let err = state.apply(&action(RaftLogAction::Append((1, 1), ss("b")))).unwrap_err();
    assert_eq!("Log id cannot be reversed when append: current (1, 1), attempted (1, 1)", err.message());

    let err = state.apply(&action(RaftLogAction::Append((1, 3), ss("b")))).unwrap_err();
    assert_eq!(
        "Log id is not consecutive when append: last Some((1, 1)), attempted (1, 3)",
        err.message()
    );

    let err = state.apply(&action(RaftLogAction::Commit((0, 9)))).unwrap_err();
    assert_eq!("Log id cannot be reversed when commit: current (1, 1), attempted (0, 9)", err.message());

    // a rejected record leaves the state as it was
    assert_eq!(Some(&(2, 1)), state.vote());
    assert_eq!(Some(&(1, 1)), state.last());
    assert_eq!(Some(&(1, 1)), state.committed());
    assert_eq!(None, state.purged());
}

#[test]
fn test_state_truncate_and_purge() {
    let mut state = RaftLogState::<TestTypes>::default();
    state.apply(&action(RaftLogAction::Append((1, 1), ss("a")))).unwrap();
    state.apply(&action(RaftLogAction::Append((1, 2), ss("b")))).unwrap();
    state.apply(&action(RaftLogAction::Append((1, 3), ss("c")))).unwrap();

    // truncating above `last` keeps it
    state.apply(&action(RaftLogAction::TruncateAfter(Some((1, 5))))).unwrap();
    assert_eq!(Some(&(1, 3)), state.last());

    state.apply(&action(RaftLogAction::TruncateAfter(Some((1, 1))))).unwrap();
    assert_eq!(Some(&(1, 1)), state.last());

    // purging beyond `last` moves `last` too
    state.apply(&action(RaftLogAction::PurgeUpto((2, 5)))).unwrap();
    assert_eq!(Some(&(2, 5)), state.purged());
    assert_eq!(Some(&(2, 5)), state.last());

    // purging below `purged` keeps it
    state.apply(&action(RaftLogAction::PurgeUpto((1, 1)))).unwrap();
    assert_eq!(Some(&(2, 5)), state.purged());

    state.set_last(None);
    assert_eq!(None, state.last());

    // a checkpoint replaces the state
    let cp = RaftLogState::<TestTypes> {
        vote: Some((9, 9)),
        last: None,
        committed: None,
        purged: None,
        user_data: Some(ss("u")),
    };
    state.apply(&RaftLogRecord::<TestTypes>::Checkpoint(cp.clone())).unwrap();
    assert_eq!(cp, state);
}
