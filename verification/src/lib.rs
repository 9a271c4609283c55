//! Log storage for the raft consensus protocol: the verified core.
//!
//! The modules here hold the logic of a raft log store: the persisted raft
//! state and the rules that guard its changes, the in-memory index of log
//! entries, the payload cache, the byte format of WAL records and the
//! human-readable dump of a log.

pub mod api;
pub mod bytes;
pub mod chunk;
pub mod chunk_id;
pub mod codec;
pub mod config;
pub mod dump_data;
pub mod dump_writer;
pub mod errors;
pub mod file_lock;
pub mod flush;
pub mod metrics;
pub mod num;
pub mod payload_cache;
pub mod raft_log_state;
pub mod record;
pub mod sorted;
pub mod stat;
pub mod state_machine;
pub mod string_data;
pub mod text;
pub mod types;
