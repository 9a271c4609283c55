//! The records a raft log writes to its WAL.

use vstd::prelude::*;

use crate::raft_log_state::RaftLogState;
use crate::types::{DataValue, Types};

verus! {

/// For historical reasons and compatibility, the WAL reserves record types
/// `0..=4` for actions and `5` for checkpoints.
pub const CHECKPOINT_RECORD_TYPE: u32 = 5;

/// The types a WAL stores: user actions and state-machine checkpoints.
pub trait WalTypes: Sized {
    type Action: DataValue + Clone + PartialEq + Eq + std::fmt::Debug;
    type Checkpoint: DataValue + Clone + PartialEq + Eq + std::fmt::Debug;

    /// Told when an IO operation completes.
    type Callback: crate::api::Callback;
}

/// A record stored in the write-ahead log.
///
/// The WAL only distinguishes user actions from state-machine checkpoints.
#[derive(Debug, Clone, PartialEq, Eq)]
pub enum WALRecord<W: WalTypes> {
    /// A user-defined command.
    Action(W::Action),
    /// A state-machine checkpoint persisted by the WAL.
    Checkpoint(W::Checkpoint),
}

/// Raft log commands stored in the WAL.
#[derive(Debug, Clone, PartialEq, Eq)]
pub enum RaftLogAction<T: Types> {
    /// Save a vote change.
    SaveVote(T::Vote),
    /// Append a new log entry.
    Append(T::LogId, T::LogPayload),
    /// Save the committed log id.
    Commit(T::LogId),
    /// Truncate log entries after the given log id.
    TruncateAfter(Option<T::LogId>),
    /// Purge log entries up to (and including) the given log id.
    PurgeUpto(T::LogId),
}

/// The numeric type tag of each action.
pub open spec fn spec_record_type<T: Types>(a: RaftLogAction<T>) -> u32 {
    match a {
        RaftLogAction::SaveVote(_) => 0,
        RaftLogAction::Append(_, _) => 1,
        RaftLogAction::Commit(_) => 2,
        RaftLogAction::TruncateAfter(_) => 3,
        RaftLogAction::PurgeUpto(_) => 4,
    }
}

impl<T: Types> RaftLogAction<T> {
    /// Returns the numeric type identifier for this action.
    pub fn record_type(&self) -> (r: u32)
        ensures
            r == spec_record_type(*self),
            r < CHECKPOINT_RECORD_TYPE,
    {
        match self {
            RaftLogAction::SaveVote(_) => 0,
            RaftLogAction::Append(_, _) => 1,
            RaftLogAction::Commit(_) => 2,
            RaftLogAction::TruncateAfter(_) => 3,
            RaftLogAction::PurgeUpto(_) => 4,
        }
    }
}

/// The WAL types of a raft log: raft actions, and the raft log state as the
/// checkpoint.
#[derive(Debug, PartialEq, Eq)]
pub struct RaftWalTypes<T> {
    pub _p: std::marker::PhantomData<T>,
}

impl<T> Clone for RaftWalTypes<T> {
    fn clone(&self) -> Self {
        RaftWalTypes { _p: std::marker::PhantomData }
    }
}

impl<T: Types> WalTypes for RaftWalTypes<T> {
    type Action = RaftLogAction<T>;
    type Checkpoint = RaftLogState<T>;
    type Callback = T::Callback;
}

/// The WAL record of a raft log.
pub type RaftLogRecord<T> = WALRecord<RaftWalTypes<T>>;

} // verus!
