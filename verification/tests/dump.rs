use std::io;
use std::sync::mpsc::SyncSender;

use raft_log::chunk_id::ChunkId;
use raft_log::chunk_id::Segment;
use raft_log::dump_writer::write_record_debug;
use raft_log::dump_writer::write_record_display;
use raft_log::dump_writer::DumpApi;
use raft_log::dump_writer::RecordWriter;
use raft_log::record::RaftLogAction;
use raft_log::record::RaftWalTypes;
use raft_log::record::WALRecord;
use raft_log::types::DataValue;
use raft_log::types::Types;

/// Type config to test Display implementation
#[derive(Debug, Clone, PartialEq, Eq, Default)]
struct TestDisplayTypes;

impl Types for TestDisplayTypes {
    type LogId = u64;
    type Vote = u64;
    type LogPayload = String;
    type UserData = String;
    type Callback = SyncSender<Result<(), io::Error>>;
}

type Rec = WALRecord<RaftWalTypes<TestDisplayTypes>>;

fn append(log_id: u64, payload: &str) -> Rec {
    WALRecord::Action(RaftLogAction::Append(log_id, payload.to_string()))
}

fn make_input() -> Result<(Segment, Rec), String> {
    Ok((Segment::new(0, 10), append(3, "hello")))
}

#[test]
fn test_write_record_debug_vs_display() {
    let mut debug_out = String::new();
    write_record_debug(&mut debug_out, ChunkId(0), 0, make_input());

    let mut display_out = String::new();
    write_record_display(&mut display_out, ChunkId(0), 0, make_input());

    // Debug uses derived format: Append(3, "hello")
    assert!(
        debug_out.contains(r#"Append(3, "hello")"#),
        "got: {debug_out}"
    );
    // Display uses manual format: Append(log_id: 3, payload: hello)
    assert!(
        display_out.contains("Append(log_id: 3, payload: hello)"),
        "got: {display_out}"
    );
}

struct MockDump {
    seg: Segment,
    record: Rec,
}

impl DumpApi<RaftWalTypes<TestDisplayTypes>> for MockDump {
    fn write_with<D: RecordWriter<RaftWalTypes<TestDisplayTypes>>>(
        &self,
        writer: &mut D,
    ) -> Result<(), String> {
        writer.write_record(ChunkId(0), 0, Ok((self.seg, self.record.clone())))?;
        Ok(())
    }
}

#[test]
fn test_write_to_string() -> Result<(), String> {
    let dump = MockDump {
        seg: Segment::new(0, 10),
        record: WALRecord::Action(RaftLogAction::SaveVote(1)),
    };

    let got = dump.write_to_string()?;
    let want = "RaftLog:\nChunkId(00_000_000_000_000_000_000)\n  R-00000: [000_000_000, 000_000_010) Size(10): SaveVote(1)\n";
    assert_eq!(want, got);
    Ok(())
}

#[test]
fn test_write_uses_debug_format() -> Result<(), String> {
    let dump = MockDump {
        seg: Segment::new(0, 10),
        record: append(3, "hello"),
    };

    let mut got = String::new();
    dump.write(&mut got)?;

    let want = "RaftLog:\nChunkId(00_000_000_000_000_000_000)\n  R-00000: [000_000_000, 000_000_010) Size(10): Append(3, \"hello\")\n";
    assert_eq!(want, got);
    Ok(())
}

#[test]
fn test_write_display_uses_display_format() -> Result<(), String> {
    let dump = MockDump {
        seg: Segment::new(0, 10),
        record: append(3, "hello"),
    };

    let mut got = String::new();
    dump.write_display(&mut got)?;

    let want = "RaftLog:\nChunkId(00_000_000_000_000_000_000)\n  R-00000: [000_000_000, 000_000_010) Size(10): Append(log_id: 3, payload: hello)\n";
    assert_eq!(want, got);
    Ok(())
}

/// A writer of the caller's own: one line per record.
struct CustomWriter {
    out: String,
}

impl RecordWriter<RaftWalTypes<TestDisplayTypes>> for CustomWriter {
    fn write_record(
        &mut self,
        chunk_id: ChunkId,
        index: u64,
        res: Result<(Segment, Rec), String>,
    ) -> Result<(), String> {
        if let Ok((_, rec)) = res {
            let mut s = String::new();
            rec.write_data_debug(&mut s);
            self.out.push_str(&format!("custom: {} {} {}\n", chunk_id.0, index, s));
        }
        Ok(())
    }
}

#[test]
fn test_write_with_custom_writer() -> Result<(), String> {
    let dump = MockDump {
        seg: Segment::new(0, 10),
        record: WALRecord::Action(RaftLogAction::Commit(5)),
    };

    let mut custom = CustomWriter { out: String::new() };
    dump.write_with(&mut custom)?;

    assert_eq!("custom: 0 0 Commit(5)\n", custom.out);
    Ok(())
}

#[test]
fn test_dump_error_line_and_later_records() {
    let mut out = String::new();
    write_record_debug::<RaftWalTypes<TestDisplayTypes>>(
        &mut out,
        ChunkId(0),
        0,
        Err("bad bytes".to_string()),
    );
    assert_eq!("Error: bad bytes\n", out);

    let mut out = String::new();
    write_record_debug(
        &mut out,
        ChunkId(324),
        12,
        Ok((Segment::new(330, 25), Rec::Action(RaftLogAction::TruncateAfter(None)))),
    );
    assert_eq!(
        "  R-00012: [000_000_330, 000_000_355) Size(25): TruncateAfter(None)\n",
        out
    );
}
