# raft_log

Log storage for the raft consensus protocol, with its core verified by Verus.

## Layout

- `src/` — the verified library.
  - `types.rs`, `record.rs`: the type parameters of a log and the records
    it writes to its WAL.
  - `bytes.rs`, `string_data.rs`, `codec.rs`: the byte format of records,
    with encode/decode round trips proved.
  - `raft_log_state.rs`, `errors.rs`: the persisted raft state and the
    rules that accept or reject each record.
  - `state_machine.rs`, `payload_cache.rs`, `sorted.rs`: the in-memory
    index of entries and the payload cache, and the decisions of truncate,
    purge and read.
  - `chunk.rs`, `chunk_id.rs`: the records of a chunk file, loading them
    back (cutting an unfinished tail), and rolling over to a new chunk.
  - `flush.rs`, `metrics.rs`: the decisions of the flush worker and its
    metrics.
  - `stat.rs`, `num.rs`, `text.rs`, `dump_writer.rs`, `dump_data.rs`:
    statistics and human-readable dumps.
  - `config.rs`, `file_lock.rs`, `api.rs`: configuration, lock file names
    and the interfaces of a log.
- `app/` — what runs around the library: the log on disk over the
  `chunked-wal` crate (which writes and syncs through its own worker), the
  directory lock and the command line programs. `app/flush_worker.rs` is a
  flush worker of this crate's own, built on `flush.rs` and `metrics.rs`,
  for a WAL that manages its chunk files itself; the log above does not
  start it.
- `tests/` — tests of the library.
