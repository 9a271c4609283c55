use std::io;
use std::sync::mpsc::SyncSender;

use raft_log::record::WALRecord;
use raft_log::record::WalTypes;
use raft_log::record::CHECKPOINT_RECORD_TYPE;
use raft_log::types::DataDisplay;
use raft_log::types::DataValue;
use raft_log::types::DecodeErrorKind;

#[derive(Debug, Default, Clone, PartialEq, Eq)]
struct TestWal;

impl WalTypes for TestWal {
    type Action = String;
    type Checkpoint = String;
    type Callback = SyncSender<Result<(), io::Error>>;
}

fn action(v: &str) -> WALRecord<TestWal> {
    WALRecord::Action(v.to_string())
}

fn checkpoint(v: &str) -> WALRecord<TestWal> {
    WALRecord::Checkpoint(v.to_string())
}

fn checkpoint_state_bytes() -> Vec<u8> {
    vec![
        0, 0, 0, 5, // checkpoint record type
        0, 0, 0, 5, // checkpoint string len
        115, 116, 97, 116, 101, // checkpoint string: state
        0, 0, 0, 0, 220, 33, 57, 147, // checksum
    ]
}

fn debug_of(rec: &WALRecord<TestWal>) -> String {
    let mut s = String::new();
    rec.write_data_debug(&mut s);
    s
}

fn display_of(rec: &WALRecord<TestWal>) -> String {
    let mut s = String::new();
    rec.write_data_display(&mut s);
    s
}

fn encoded(rec: &WALRecord<TestWal>) -> Vec<u8> {
    let mut b = Vec::new();
    rec.encode_data(&mut b);
    b
}

#[test]
fn test_action_debug_display_and_clone() {
    let rec = action("vote");

    assert_eq!("\"vote\"", debug_of(&rec));
    assert_eq!("vote", display_of(&rec));
    assert_eq!(rec, rec.clone());
}

#[test]
fn test_checkpoint_debug_display_and_clone() {
    let rec = checkpoint("state");

    assert_eq!("State(\"state\")", debug_of(&rec));
    assert_eq!("Checkpoint(state)", display_of(&rec));
    assert_eq!(rec, rec.clone());
}

#[test]
fn test_encode_action_delegates_to_action_codec() {
    let got = encoded(&action("vote"));

    assert_eq!(vec![0, 0, 0, 4, 118, 111, 116, 101], got);
}

#[test]
fn test_encode_checkpoint_adds_type_and_checksum() {
    let got = encoded(&checkpoint("state"));

    assert_eq!(CHECKPOINT_RECORD_TYPE, 5);
    assert_eq!(checkpoint_state_bytes(), got);
}

#[test]
fn test_decode_action_replays_record_type_bytes() {
    let mut bytes = Vec::new();
    action("vote").encode_data(&mut bytes);
    action("log").encode_data(&mut bytes);

    let (first, end) = WALRecord::<TestWal>::decode_data(&bytes, 0).unwrap();
    assert_eq!(action("vote"), first);
    let (second, end) = WALRecord::<TestWal>::decode_data(&bytes, end).unwrap();
    assert_eq!(action("log"), second);
    assert_eq!(bytes.len(), end);
}

#[test]
fn test_decode_checkpoint_verifies_checksum() {
    let bytes = checkpoint_state_bytes();

    let (got, end) = WALRecord::<TestWal>::decode_data(&bytes, 0).unwrap();

    assert_eq!(checkpoint("state"), got);
    assert_eq!(bytes.len(), end);
}

#[test]
fn test_decode_checkpoint_rejects_bad_checksum() {
    let mut bytes = checkpoint_state_bytes();
    *bytes.last_mut().unwrap() ^= 1;

    let err = WALRecord::<TestWal>::decode_data(&bytes, 0).expect_err("corrupted checkpoint checksum must fail");

    assert_eq!(DecodeErrorKind::InvalidData, err.kind);
    assert!(err.message.contains("Record::decode()"));
}

#[test]
fn test_decode_rejects_short_record_type() {
    let err = WALRecord::<TestWal>::decode_data(&[0, 0, 0], 0).expect_err("short record type must fail");

    assert_eq!(DecodeErrorKind::UnexpectedEof, err.kind);
}

#[test]
fn test_checksum_mismatch_message_and_invalid_utf8() {
    let mut bytes = checkpoint_state_bytes();
    *bytes.last_mut().unwrap() ^= 1;
    let err = WALRecord::<TestWal>::decode_data(&bytes, 0).unwrap_err();
    assert_eq!(
        "crc32 checksum mismatch: expected dc213993, got dc213992, while Record::decode()",
        err.message
    );

    // a string whose bytes are not UTF-8
    let bytes = vec![0, 0, 0, 2, 0xff, 0xfe];
    let err = String::decode_data(&bytes, 0).unwrap_err();
    assert_eq!(DecodeErrorKind::InvalidData, err.kind);
}
