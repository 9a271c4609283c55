//! The interfaces of a raft log: how it is written, the WAL beneath it, the
//! state machine the WAL feeds, and how IO completion is reported.

use vstd::prelude::*;

use crate::chunk_id::{ChunkId, Segment};
use crate::record::{WALRecord, WalTypes};
use crate::types::Types;

verus! {

#[verifier::external_type_specification]
#[verifier::external_body]
pub struct ExIoError(std::io::Error);

#[verifier::external_type_specification]
#[verifier::external_body]
#[verifier::reject_recursive_types(T)]
pub struct ExSyncSender<T>(std::sync::mpsc::SyncSender<T>);

/// Reports the result of an IO operation back to whoever asked for it.
pub trait Callback {
    /// Sends the result of the operation, `Ok(())` or the IO error.
    fn send(self, res: Result<(), std::io::Error>);
}

/// Sends `res` over `tx`; a receiver that is gone is not waited for.
///
/// Calls `SyncSender::send`, blocking while the channel is full; whether the
/// value arrived is not reported, as nothing is done about a closed channel.
#[verifier::external_body]
fn send_over_channel(tx: &std::sync::mpsc::SyncSender<Result<(), std::io::Error>>, res: Result<(), std::io::Error>) {
    let _ = tx.send(res);
}

/// A synchronous channel is a callback: the result is sent over it.
impl Callback for std::sync::mpsc::SyncSender<Result<(), std::io::Error>> {
    fn send(self, res: Result<(), std::io::Error>) {
        send_over_channel(&self, res);
    }
}

/// A write-ahead log of records of type `R`.
pub trait WAL<R> {
    /// Appends a record to the log.
    fn append(&mut self, rec: &R) -> Result<(), std::io::Error>;

    /// Where the last appended record lies in the log.
    fn last_segment(&self) -> Segment;
}

/// The state a WAL's records build: each record, once in the WAL, is
/// applied to it, and it gives the checkpoint that starts each new chunk.
pub trait StateMachine<W: WalTypes> {
    /// Why a record could not be applied.
    type Error;

    /// Applies `record`, stored at `global_segment` in chunk `chunk_id`.
    fn apply(&mut self, record: &WALRecord<W>, chunk_id: ChunkId, global_segment: Segment) -> Result<(), Self::Error>;

    /// The value to store at the start of a new chunk.
    fn checkpoint(&self) -> W::Checkpoint;
}

/// The writing interface of a raft log. Writes are not durable until a
/// [`Self::flush`] with `sync` completes.
pub trait RaftLogWriter<T: Types> {
    /// Replaces the user data (`None` clears it).
    fn save_user_data(&mut self, user_data: Option<T::UserData>) -> Result<Segment, std::io::Error>;

    /// Saves the vote.
    fn save_vote(&mut self, vote: T::Vote) -> Result<Segment, std::io::Error>;

    /// Appends log entries.
    fn append<I>(&mut self, entries: I) -> Result<Segment, std::io::Error> where
        I: IntoIterator<Item = (T::LogId, T::LogPayload)>,
    ;

    /// Removes the entries at and after `index`.
    fn truncate(&mut self, index: u64) -> Result<Segment, std::io::Error>;

    /// Removes the entries up to and including `upto`.
    fn purge(&mut self, upto: T::LogId) -> Result<Segment, std::io::Error>;

    /// Saves the committed log id.
    fn commit(&mut self, log_id: T::LogId) -> Result<Segment, std::io::Error>;

    /// Hands written data to the flush worker, synced to disk when `sync`;
    /// `callback` is told when that is done.
    fn flush(&mut self, sync: bool, callback: Option<T::Callback>) -> Result<(), std::io::Error>;
}

} // verus!
