use std::fmt;
use std::io;
use std::sync::mpsc::SyncSender;

use display_more::DisplaySliceExt;
use raft_log::raft_log_state::RaftLogState;
use raft_log::record::RaftLogAction;
use raft_log::record::RaftLogRecord;
use raft_log::types::DataDisplay;
use raft_log::types::DataValue;
use raft_log::types::Types;

#[derive(Debug, Clone, PartialEq, Eq, Default)]
struct TestTypes;

impl Types for TestTypes {
    /// (term, index)
    type LogId = (u64, u64);
    /// (term, voted_for)
    type Vote = (u64, u64);
    type LogPayload = String;
    type UserData = String;
    type Callback = SyncSender<Result<(), io::Error>>;
}

/// Type config to test Display implementation
#[derive(Debug, Clone, PartialEq, Eq, Default)]
struct TestDisplayTypes;

impl Types for TestDisplayTypes {
    type LogId = u64;
    type Vote = u64;
    type LogPayload = String;
    type UserData = String;
    type Callback = SyncSender<Result<(), io::Error>>;
}

fn ss(x: &str) -> String {
    x.to_string()
}

/// Encodes `v` and compares with `encoded_bytes`, decodes `encoded_bytes`
/// back to `v`, and checks that changing any byte makes decoding fail.
fn check_codec<D: DataValue + PartialEq + fmt::Debug>(encoded_bytes: &[u8], v: &D) {
    let mut b = Vec::new();
    v.encode_data(&mut b);
    assert_eq!(b, encoded_bytes, "output data");

    let (decoded, end) = D::decode_data(encoded_bytes, 0).expect("decode");
    assert_eq!(v, &decoded);
    assert_eq!(end, encoded_bytes.len());

    for i in 0..encoded_bytes.len() {
        let mut corrupted = encoded_bytes.to_vec();
        corrupted[i] = corrupted[i].wrapping_add(1);
        let res = D::decode_data(&corrupted, 0);
        assert!(res.is_err(), "change {}-th byte", i);
    }
}

#[test]
fn test_record_codec_vote() {
    let rec = RaftLogRecord::<TestTypes>::Action(RaftLogAction::SaveVote((1, 2)));

    let b = vec![
        0, 0, 0, 0, // typ
        0, 0, 0, 0, 0, 0, 0, 1, // vote.term
        0, 0, 0, 0, 0, 0, 0, 2, // vote.voted_for
        0, 0, 0, 0, 246, 160, 238, 226, // checksum
    ];

    check_codec(&b, &rec)
}

#[test]
fn test_record_codec_append() {
    let rec = RaftLogRecord::<TestTypes>::Action(RaftLogAction::Append((1, 2), ss("hello")));

    let b = vec![
        0, 0, 0, 1, // typ
        0, 0, 0, 0, 0, 0, 0, 1, // log_id.term
        0, 0, 0, 0, 0, 0, 0, 2, // log_id.index
        0, 0, 0, 5, // payload.len
        104, 101, 108, 108, 111, // payload
        0, 0, 0, 0, 167, 17, 197, 69, // checksum
    ];

    check_codec(&b, &rec)
}

#[test]
fn test_record_codec_commit() {
    let rec = RaftLogRecord::<TestTypes>::Action(RaftLogAction::Commit((1, 2)));

    let b = vec![
        0, 0, 0, 2, // typ
        0, 0, 0, 0, 0, 0, 0, 1, // commit.term
        0, 0, 0, 0, 0, 0, 0, 2, // commit.voted_for
        0, 0, 0, 0, 34, 156, 126, 37, // checksum
    ];

    check_codec(&b, &rec)
}

#[test]
fn test_record_codec_truncate_after() {
    let rec = RaftLogRecord::<TestTypes>::Action(RaftLogAction::TruncateAfter(Some((1, 2))));

    let b = vec![
        0, 0, 0, 3, // typ
        1, // Some
        0, 0, 0, 0, 0, 0, 0, 1, // log_id.term
        0, 0, 0, 0, 0, 0, 0, 2, // log_id.index.
        0, 0, 0, 0, 213, 81, 166, 197, // checksum
    ];

    check_codec(&b, &rec)
}

#[test]
fn test_record_codec_purge_upto() {
    let rec = RaftLogRecord::<TestTypes>::Action(RaftLogAction::PurgeUpto((1, 2)));

    let b = vec![
        0, 0, 0, 4, // typ
        0, 0, 0, 0, 0, 0, 0, 1, // log_id.term
        0, 0, 0, 0, 0, 0, 0, 2, // log_id.index
        0, 0, 0, 0, 133, 168, 201, 45, // checksum
    ];

    check_codec(&b, &rec)
}

#[test]
fn test_record_codec_state() {
    let rec = RaftLogRecord::<TestTypes>::Checkpoint(RaftLogState {
        vote: Some((1, 2)),
        last: Some((2, 3)),
        committed: Some((4, 5)),
        purged: Some((6, 7)),
        user_data: Some(ss("hello")),
    });

    let b = vec![
        0, 0, 0, 5, // typ
        1, // version
        1, // Some
        0, 0, 0, 0, 0, 0, 0, 1, // vote.term
        0, 0, 0, 0, 0, 0, 0, 2, // vote.voted_for
        1, // Some
        0, 0, 0, 0, 0, 0, 0, 2, // last.term
        0, 0, 0, 0, 0, 0, 0, 3, // last.index
        1, // Some
        0, 0, 0, 0, 0, 0, 0, 4, // committed.term
        0, 0, 0, 0, 0, 0, 0, 5, // committed.index
        1, // Some
        0, 0, 0, 0, 0, 0, 0, 6, // purged.term
        0, 0, 0, 0, 0, 0, 0, 7, // purged.index
        1, // Some
        0, 0, 0, 5, // user_data.len
        104, 101, 108, 108, 111, // user_data
        0, 0, 0, 0, 121, 106, 111, 41, // checksum
    ];

    check_codec(&b, &rec)
}

#[test]
fn test_decode_action_does_not_consume_next_record() {
    let record_1 = RaftLogRecord::<TestTypes>::Action(RaftLogAction::TruncateAfter(None));
    let record_2 = RaftLogRecord::<TestTypes>::Action(RaftLogAction::Commit((3, 4)));

    let mut b = Vec::new();
    record_1.encode_data(&mut b);
    record_2.encode_data(&mut b);

    let (got_1, end_1) = RaftLogRecord::<TestTypes>::decode_data(&b, 0).unwrap();
    assert_eq!(record_1, got_1);
    let (got_2, end_2) = RaftLogRecord::<TestTypes>::decode_data(&b, end_1).unwrap();
    assert_eq!(record_2, got_2);
    assert_eq!(b.len(), end_2);
}

/// Shows a record with its `{}` rendering.
struct Shown(String);

impl fmt::Display for Shown {
    fn fmt(&self, f: &mut fmt::Formatter<'_>) -> fmt::Result {
        f.write_str(&self.0)
    }
}

fn shown<D: DataDisplay>(d: &D) -> Shown {
    let mut s = String::new();
    d.write_data_display(&mut s);
    Shown(s)
}

#[test]
fn test_wal_record_display() {
    let records = [
        RaftLogRecord::<TestDisplayTypes>::Action(RaftLogAction::SaveVote(1)),
        RaftLogRecord::<TestDisplayTypes>::Action(RaftLogAction::Append(3u64, "hello".to_string())),
        RaftLogRecord::<TestDisplayTypes>::Action(RaftLogAction::Commit(5u64)),
        RaftLogRecord::<TestDisplayTypes>::Action(RaftLogAction::TruncateAfter(Some(7u64))),
        RaftLogRecord::<TestDisplayTypes>::Action(RaftLogAction::PurgeUpto(9u64)),
        RaftLogRecord::<TestDisplayTypes>::Checkpoint(RaftLogState {
            vote: Some(1),
            last: Some(3),
            committed: Some(4),
            purged: Some(6),
            user_data: Some("hello".to_string()),
        }),
    ];

    let shown = records.iter().map(shown).collect::<Vec<_>>();
    let got = format!("{}", shown.display_n(1000));

    let want = "[SaveVote(1),Append(log_id: 3, payload: hello),Commit(5),TruncateAfter(7),PurgeUpto(9),Checkpoint(RaftLogState(vote: 1, last: 3, committed: 4, purged: 6, user_data: hello))]";

    assert_eq!(want, got);
}

#[test]
fn test_decode_unknown_record_type_and_truncated_record() {
    // record type 9 is neither an action nor a checkpoint
    let b = vec![0, 0, 0, 9, 0, 0, 0, 0, 0, 0, 0, 0];
    let err = RaftLogRecord::<TestTypes>::decode_data(&b, 0).unwrap_err();
    assert!(err.message.contains("Unknown record type: 9"), "got: {}", err.message);

    // a vote record cut before its checksum
    let rec = RaftLogRecord::<TestTypes>::Action(RaftLogAction::SaveVote((1, 2)));
    let mut b = Vec::new();
    rec.encode_data(&mut b);
    b.truncate(b.len() - 3);
    let err = RaftLogRecord::<TestTypes>::decode_data(&b, 0).unwrap_err();
    assert_eq!(raft_log::types::DecodeErrorKind::UnexpectedEof, err.kind);
}

#[test]
fn test_action_debug_strings() {
    let mut s = String::new();
    RaftLogRecord::<TestTypes>::Action(RaftLogAction::Append((1, 2), ss("a\"b\n"))).write_data_debug(&mut s);
    assert_eq!("Append((1, 2), \"a\\\"b\\n\")", s);

    let mut s = String::new();
    RaftLogRecord::<TestTypes>::Action(RaftLogAction::TruncateAfter(Some((1, 2)))).write_data_debug(&mut s);
    assert_eq!("TruncateAfter(Some((1, 2)))", s);
}
