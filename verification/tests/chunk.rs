use std::io;
use std::sync::mpsc::SyncSender;

use raft_log::chunk::verify_trailing_zeros;
use raft_log::chunk::Chunk;
use raft_log::chunk::ClosedChunk;
use raft_log::chunk::OpenChunk;
use raft_log::chunk_id::ChunkId;
use raft_log::raft_log_state::RaftLogState;
use raft_log::record::RaftLogAction;
use raft_log::record::RaftLogRecord;
use raft_log::record::RaftWalTypes;
use raft_log::stat::ChunkStat;
use raft_log::types::DataValue;
use raft_log::types::DecodeErrorKind;
use raft_log::types::Types;

#[derive(Debug, Clone, PartialEq, Eq, Default)]
struct TestTypes;

impl Types for TestTypes {
    /// (term, index)
    type LogId = (u64, u64);
    /// (term, voted_for)
    type Vote = (u64, u64);
    type LogPayload = String;
    type UserData = String;
    type Callback = SyncSender<Result<(), io::Error>>;
}

type W = RaftWalTypes<TestTypes>;

fn records() -> Vec<RaftLogRecord<TestTypes>> {
    vec![
        RaftLogRecord::<TestTypes>::Checkpoint(RaftLogState::default()),
        RaftLogRecord::<TestTypes>::Action(RaftLogAction::SaveVote((1, 2))),
        RaftLogRecord::<TestTypes>::Action(RaftLogAction::Append((1, 1), "hello".to_string())),
        RaftLogRecord::<TestTypes>::Action(RaftLogAction::Commit((1, 1))),
    ]
}

/// The bytes an open chunk at `chunk_id` collects for `records()`, with
/// the end offset of each record.
fn written(chunk_id: ChunkId) -> (Vec<u8>, Vec<u64>) {
    let recs = records();
    let mut open = OpenChunk::create(chunk_id, &recs[0]);
    for r in &recs[1..] {
        open.append_record(r);
    }
    let ends = (0..=recs.len()).map(|i| {
        let mut b = Vec::new();
        for r in &recs[..i] {
            r.encode_data(&mut b);
        }
        chunk_id.0 + b.len() as u64
    });
    let ends = ends.collect::<Vec<_>>();
    assert_eq!(recs.len(), open.chunk.records_count());
    assert_eq!(*ends.last().unwrap(), open.chunk.global_end());
    let data = open.take_pending_data();
    (data, ends)
}

#[test]
fn test_load_reads_back_what_was_written() {
    let chunk_id = ChunkId(1000);
    let (data, ends) = written(chunk_id);

    let (chunk, got) = Chunk::load::<W>(&data, chunk_id, true).unwrap();
    assert_eq!(records(), got);
    assert_eq!(None, chunk.truncated());
    assert_eq!(chunk_id, chunk.chunk_id());
    assert_eq!(records().len(), chunk.records_count());
    assert_eq!(1000, chunk.global_start());
    assert_eq!(*ends.last().unwrap(), chunk.global_end());
    assert_eq!(data.len() as u64, chunk.chunk_size());
    let seg = chunk.last_segment();
    assert_eq!(ends[ends.len() - 2], seg.offset);
    assert_eq!(ends[ends.len() - 1] - ends[ends.len() - 2], seg.size);
}

#[test]
fn test_load_cuts_unfinished_record() {
    let chunk_id = ChunkId(0);
    let (mut data, ends) = written(chunk_id);
    let full = data.len();
    data.truncate(full - 3);

    let (chunk, got) = Chunk::load::<W>(&data, chunk_id, true).unwrap();
    assert_eq!(records()[..3].to_vec(), got);
    assert_eq!(Some((full - 3) as u64), chunk.truncated());
    assert_eq!(ends[3], chunk.global_end());

    let err = Chunk::load::<W>(&data, chunk_id, false).unwrap_err();
    assert_eq!(DecodeErrorKind::UnexpectedEof, err.kind);
}

#[test]
fn test_load_cuts_last_record_cut_anywhere() {
    let chunk_id = ChunkId(0);
    let (data, ends) = written(chunk_id);
    let last_start = ends[ends.len() - 2] as usize;
    for cut in last_start + 1..data.len() {
        let (chunk, got) = Chunk::load::<W>(&data[..cut], chunk_id, true).unwrap();
        assert_eq!(records()[..records().len() - 1].to_vec(), got);
        assert_eq!(Some(cut as u64), chunk.truncated());
        assert_eq!(last_start as u64, chunk.global_end());
    }
}

#[test]
fn test_load_treats_trailing_zeros_as_unfinished_write() {
    let chunk_id = ChunkId(0);
    let (mut data, ends) = written(chunk_id);
    data.extend_from_slice(&[0u8; 40]);

    let (chunk, got) = Chunk::load::<W>(&data, chunk_id, true).unwrap();
    assert_eq!(records(), got);
    assert_eq!(Some(data.len() as u64), chunk.truncated());
    assert_eq!(*ends.last().unwrap(), chunk.global_end());

    assert!(Chunk::load::<W>(&data, chunk_id, false).is_err());
}

#[test]
fn test_load_rejects_damaged_tail() {
    let chunk_id = ChunkId(0);
    let (mut data, _ends) = written(chunk_id);
    data.extend_from_slice(&[0u8; 20]);
    data.push(7);
    data.extend_from_slice(&[0u8; 20]);

    let err = Chunk::load::<W>(&data, chunk_id, true).unwrap_err();
    assert_eq!(DecodeErrorKind::InvalidData, err.kind);

    // a damaged record in the middle is an error too
    let (mut data, ends) = written(chunk_id);
    let i = ends[2] as usize + 5;
    data[i] ^= 0xff;
    assert!(Chunk::load::<W>(&data, chunk_id, true).is_err());
}

#[test]
fn test_verify_trailing_zeros() {
    assert_eq!(Ok(true), verify_trailing_zeros(&[1, 2, 0, 0], 2));
    assert_eq!(Ok(true), verify_trailing_zeros(&[1, 2, 0, 0], 4));
    assert_eq!(Ok(false), verify_trailing_zeros(&[1, 2, 0, 3], 2));
    assert_eq!(
        Err("Start offset 5 exceeds file size 4".to_string()),
        verify_trailing_zeros(&[1, 2, 0, 3], 5)
    );
}

#[test]
fn test_open_chunk_writes_and_closing() {
    let mut open = OpenChunk::create(
        ChunkId(50),
        &RaftLogRecord::<TestTypes>::Checkpoint(RaftLogState::default()),
    );
    let first_end = open.chunk.global_end();
    let seg = open.append_record(&RaftLogRecord::<TestTypes>::Action(RaftLogAction::Commit((1, 1))));
    assert_eq!(first_end, seg.offset);
    assert_eq!(open.chunk.global_end(), seg.offset + seg.size);
    assert_eq!(open.chunk.global_end(), open.next_chunk_id().0);

    let w = open.pending_write::<u32>(false, Some(7));
    assert_eq!(open.chunk.global_end(), w.upto_offset);
    assert_eq!((open.chunk.global_end() - 50) as usize, w.data.len());
    assert!(!w.sync);
    assert_eq!(Some(7), w.callback);
    assert!(open.pending_data.is_empty());
    assert!(open.closing_write::<u32>().is_none());

    open.append_record(&RaftLogRecord::<TestTypes>::Action(RaftLogAction::Commit((1, 2))));
    let w = open.closing_write::<u32>().unwrap();
    assert!(w.sync);
    assert_eq!(None, w.callback);
    assert_eq!(open.chunk.global_end(), w.upto_offset);

    assert!(open.chunk.is_full(3, 1 << 20));
    assert!(!open.chunk.is_full(4, 1 << 20));
    assert!(open.chunk.is_full(4, open.chunk.chunk_size() as usize));
}

#[test]
fn test_closed_chunk_stat_display() {
    let mut chunk = Chunk::new(ChunkId(12));
    chunk.append_record_size(10);
    chunk.append_record_size(10);
    chunk.append_record_size(13);
    let closed = ClosedChunk::new(chunk, "checkpoint".to_string());
    let stat = closed.stat();
    assert_eq!(3, stat.records_count);
    assert_eq!(12, stat.global_start);
    assert_eq!(45, stat.global_end);
    assert_eq!(33, stat.size);
    assert_eq!(
        "ChunkStat(ChunkId(00_000_000_000_000_000_012)){records: 3, [000_000_012, 000_000_045), size: 000_000_033, log_state: \"checkpoint\"}",
        stat.display()
    );

    let stat = ChunkStat {
        chunk_id: ChunkId(0),
        records_count: 1,
        global_start: 0,
        global_end: 7,
        size: 7,
        log_state: RaftLogState::<TestTypes>::default(),
    };
    assert_eq!(
        "ChunkStat(ChunkId(00_000_000_000_000_000_000)){records: 1, [000_000_000, 000_000_007), size: 000_000_007, log_state: RaftLogState { vote: None, last: None, committed: None, purged: None, user_data: None }}",
        stat.display()
    );
}

#[test]
fn test_close_if_full_rolls_over_to_new_chunk() {
    let recs = records();
    let mut open = OpenChunk::create(ChunkId(0), &recs[0]);
    for r in &recs[1..] {
        open.append_record(r);
    }
    let end = open.chunk.global_end();
    let pending = open.pending_data.clone();

    let cp = RaftLogState::<TestTypes> { vote: Some((1, 2)), ..Default::default() };
    // not full yet: nothing happens
    assert!(open.close_if_full::<W, u32>(cp.clone(), 10, 1 << 20).is_none());
    assert_eq!(pending, open.pending_data);

    let (closed, write) = open.close_if_full::<W, u32>(cp.clone(), 4, 1 << 20).unwrap();
    assert_eq!(cp, closed.state);
    assert_eq!(4, closed.chunk.records_count());
    let write = write.unwrap();
    assert_eq!(end, write.upto_offset);
    assert_eq!(pending, write.data);
    assert!(write.sync);

    // the new chunk starts at the end of the old one with the checkpoint
    assert_eq!(ChunkId(end), open.chunk.chunk_id());
    assert_eq!(1, open.chunk.records_count());
    let (loaded, got) = Chunk::load::<W>(&open.pending_data, ChunkId(end), true).unwrap();
    assert_eq!(vec![RaftLogRecord::<TestTypes>::Checkpoint(cp)], got);
    assert_eq!(open.chunk.global_end(), loaded.global_end());
}

#[test]
fn test_dump_lists_records_and_stops_at_error() {
    let (data, ends) = written(ChunkId(500));
    let got = Chunk::dump::<W>(&data, ChunkId(500));
    assert_eq!(records().len(), got.len());
    for (i, res) in got.iter().enumerate() {
        let (seg, rec) = res.as_ref().unwrap();
        assert_eq!(&records()[i], rec);
        assert_eq!(ends[i] - 500, seg.offset);
        assert_eq!(ends[i + 1] - ends[i], seg.size);
    }

    let mut damaged = data.clone();
    damaged.extend_from_slice(&[0, 0, 0, 9, 1, 2, 3]);
    let got = Chunk::dump::<W>(&damaged, ChunkId(500));
    assert_eq!(records().len() + 1, got.len());
    let err = got.last().unwrap().as_ref().unwrap_err();
    let want = format!(
        "Unknown record type: 9; when:(decode Record at offset {}); when:(iterate ChunkId(00_000_000_000_000_000_500))",
        data.len()
    );
    assert_eq!(want, err.message);
}

#[test]
fn test_read_record_at_segment() {
    let (data, ends) = written(ChunkId(500));
    let (chunk, _) = Chunk::load::<W>(&data, ChunkId(500), true).unwrap();
    let seg = raft_log::chunk_id::Segment::new(ends[2], ends[3] - ends[2]);
    let rec = chunk.read_record::<W>(&data, seg).unwrap();
    assert_eq!(records()[2], rec);

    // a span that does not start a record does not decode
    let seg = raft_log::chunk_id::Segment::new(ends[2] + 1, 4);
    assert!(chunk.read_record::<W>(&data, seg).is_err());
}
