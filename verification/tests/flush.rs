use raft_log::flush::FileEntry;
use raft_log::flush::FileQueue;
use raft_log::flush::FlushStat;
use raft_log::flush::SeqRequest;
use raft_log::flush::VectoredCursor;
use raft_log::flush::WorkerRequest;
use raft_log::flush::WriteBatch;
use raft_log::flush::WriteRequest;

type Req = SeqRequest<&'static str, &'static str, u8, u64>;

fn write(seq: u64, upto: u64, data: &[u8], sync: bool, cb: Option<&'static str>) -> Req {
    SeqRequest {
        seq,
        queued_at: seq * 10,
        req: WorkerRequest::Write(WriteRequest {
            upto_offset: upto,
            data: data.to_vec(),
            sync,
            callback: cb,
        }),
    }
}

#[test]
fn test_write_batch_gathers_until_other_request() {
    let mut batch = WriteBatch::new(3);
    assert!(batch.can_take_more());
    assert!(batch.push_seq_request(write(4, 10, b"abc", false, None)));
    assert!(batch.push_seq_request(write(2, 12, b"", false, Some("cb"))));
    assert!(batch.can_take_more());
    assert_eq!(4, batch.max_seq);
    assert!(!batch.need_sync());
    assert_eq!(None, batch.sync_upto());

    let other = SeqRequest {
        seq: 9,
        queued_at: 90,
        req: WorkerRequest::RemoveChunks { chunk_paths: vec!["a".to_string()] },
    };
    assert!(!batch.push_seq_request(other));
    assert!(!batch.can_take_more());
    assert_eq!(2, batch.writes.len());
    assert_eq!(9, batch.done_seq());
    assert_eq!(vec![0], batch.nonempty_writes(0, 2));
}

#[test]
fn test_write_batch_sync_and_fullness() {
    let mut batch = WriteBatch::<&str, &str, u8, u64>::new(2);
    batch.push_seq_request(write(1, 10, b"a", true, None));
    assert!(batch.can_take_more());
    batch.push_seq_request(write(2, 20, b"bc", false, None));
    assert!(!batch.can_take_more());
    assert!(batch.need_sync());
    // a sync makes the whole batch durable: up to its last write
    assert_eq!(Some(20), batch.sync_upto());
    assert_eq!(2, batch.done_seq());
    assert_eq!(vec![0, 1], batch.nonempty_writes(0, 2));
    assert_eq!(vec![1], batch.nonempty_writes(1, 2));
}

#[test]
fn test_vectored_cursor_follows_short_writes() {
    let lens = vec![3usize, 5, 2];
    let mut c = VectoredCursor::new();
    c.advance(&lens, 2);
    assert_eq!(VectoredCursor { start: 0, offset: 2 }, c);
    c.advance(&lens, 1);
    assert_eq!(VectoredCursor { start: 1, offset: 0 }, c);
    c.advance(&lens, 6);
    assert_eq!(VectoredCursor { start: 2, offset: 1 }, c);
    assert!(!c.is_done(&lens));
    c.advance(&lens, 1);
    assert_eq!(VectoredCursor { start: 3, offset: 0 }, c);
    assert!(c.is_done(&lens));

    let mut c = VectoredCursor::new();
    c.advance(&lens, 10);
    assert!(c.is_done(&lens));
}

#[test]
fn test_file_queue_sync_keeps_only_newest() {
    let mut q = FileQueue::new(FileEntry::new(0, "f0"));
    q.append_file(FileEntry::new(100, "f1"));
    q.append_file(FileEntry::new(200, "f2"));

    let mut synced = vec![];
    while let Some(f) = q.pop_older() {
        synced.push(f.f);
    }
    assert_eq!(vec!["f0", "f1"], synced);
    q.mark_synced(250);

    let stats = q.flush_stats(&vec![77]);
    assert_eq!(
        vec![FlushStat { starting_offset: 200, sync_id: 250, ino: 77 }],
        stats
    );
    assert_eq!((200, 250), stats[0].offset_sync_id());
}

#[test]
fn test_write_batch_finish_gives_each_callback_once() {
    let mut batch = WriteBatch::new(10);
    batch.push_seq_request(write(1, 10, b"a", false, Some("first")));
    batch.push_seq_request(write(2, 20, b"b", true, None));
    batch.push_seq_request(write(3, 30, b"c", false, Some("third")));
    let other = SeqRequest { seq: 7, queued_at: 70, req: WorkerRequest::RemoveChunks { chunk_paths: vec![] } };
    batch.push_seq_request(other);

    let (callbacks, last, done) = batch.finish();
    assert_eq!(vec!["first", "third"], callbacks);
    assert!(matches!(last, Some(WorkerRequest::RemoveChunks { .. })));
    assert_eq!(7, done);

    let batch = WriteBatch::<&str, &str, u8, u64>::new(10);
    let (callbacks, last, done) = batch.finish();
    assert!(callbacks.is_empty());
    assert!(last.is_none());
    assert_eq!(0, done);
}
