//! Errors that the raft log state rejects a change with.

use vstd::prelude::*;

use crate::text::push_str;
use crate::types::{LogIdKind, OrderedId, Types};

verus! {

/// `{:?}` of an optional id: `None`, or `Some(..)` around the id's own.
pub open spec fn opt_id_debug<K: OrderedId>(v: Option<K>) -> Seq<char> {
    match v {
        Some(k) => "Some("@ + k.id_debug() + ")"@,
        None => "None"@,
    }
}

pub fn write_opt_id_debug<K: OrderedId>(v: &Option<K>, out: &mut String)
    ensures
        final(out)@ == old(out)@ + opt_id_debug(*v),
{
    match v {
        Some(k) => {
            push_str(out, "Some(");
            k.write_id_debug(out);
            push_str(out, ")");
        },
        None => {
            push_str(out, "None");
        },
    }
    assert(out@ =~= old(out)@ + opt_id_debug(*v));
}

/// A vote cannot move back.
#[derive(Debug, Clone, PartialEq, Eq)]
pub struct VoteReversal<T: Types> {
    pub current: T::Vote,
    pub attempted: T::Vote,
}

impl<T: Types> VoteReversal<T> {
    pub fn new(current: T::Vote, attempted: T::Vote) -> (r: Self)
        ensures
            r.current == current,
            r.attempted == attempted,
    {
        Self { current, attempted }
    }

    pub open spec fn spec_message(self) -> Seq<char> {
        "Vote cannot be reversed: current "@ + self.current.id_debug() + ", attempted "@
            + self.attempted.id_debug()
    }

    pub fn message(&self) -> (r: String)
        ensures
            r@ == self.spec_message(),
    {
        let mut s = String::new();
        push_str(&mut s, "Vote cannot be reversed: current ");
        self.current.write_id_debug(&mut s);
        push_str(&mut s, ", attempted ");
        self.attempted.write_id_debug(&mut s);
        s
    }
}

/// A log id (the last one, or the committed one) cannot move back.
#[derive(Debug, Clone, PartialEq, Eq)]
pub struct LogIdReversal<T: Types> {
    pub current: T::LogId,
    pub attempted: T::LogId,
    pub when: &'static str,
}

impl<T: Types> LogIdReversal<T> {
    pub fn new(current: T::LogId, attempted: T::LogId, when: &'static str) -> (r: Self)
        ensures
            r.current == current,
            r.attempted == attempted,
            r.when == when,
    {
        Self { current, attempted, when }
    }

    pub open spec fn spec_message(self) -> Seq<char> {
        "Log id cannot be reversed when "@ + self.when@ + ": current "@ + self.current.id_debug()
            + ", attempted "@ + self.attempted.id_debug()
    }

    pub fn message(&self) -> (r: String)
        ensures
            r@ == self.spec_message(),
    {
        let mut s = String::new();
        push_str(&mut s, "Log id cannot be reversed when ");
        push_str(&mut s, self.when);
        push_str(&mut s, ": current ");
        self.current.write_id_debug(&mut s);
        push_str(&mut s, ", attempted ");
        self.attempted.write_id_debug(&mut s);
        s
    }
}

/// An appended log id does not follow the last one.
#[derive(Debug, Clone, PartialEq, Eq)]
pub struct LogIdNonConsecutive<T: Types> {
    pub last: Option<T::LogId>,
    pub attempted: T::LogId,
}

impl<T: Types> LogIdNonConsecutive<T> {
    pub fn new(last: Option<T::LogId>, attempted: T::LogId) -> (r: Self)
        ensures
            r.last == last,
            r.attempted == attempted,
    {
        Self { last, attempted }
    }

    pub open spec fn spec_message(self) -> Seq<char> {
        "Log id is not consecutive when append: last "@ + opt_id_debug(self.last) + ", attempted "@
            + self.attempted.id_debug()
    }

    pub fn message(&self) -> (r: String)
        ensures
            r@ == self.spec_message(),
    {
        let mut s = String::new();
        push_str(&mut s, "Log id is not consecutive when append: last ");
        write_opt_id_debug(&self.last, &mut s);
        push_str(&mut s, ", attempted ");
        self.attempted.write_id_debug(&mut s);
        s
    }
}

/// A log id disagrees with the log id stored at the same or a nearby index.
///
/// A raft log stores a greater log id at a greater index, so log id order and
/// index order must always agree. A pair that orders one way by log id and the
/// other way by index describes a log that was never written.
#[derive(Debug, Clone, PartialEq, Eq)]
pub struct LogIdIndexDisorder<T: Types> {
    pub stored: T::LogId,
    pub attempted: T::LogId,
    pub when: &'static str,
}

impl<T: Types> LogIdIndexDisorder<T> {
    pub fn new(stored: T::LogId, attempted: T::LogId, when: &'static str) -> (r: Self)
        ensures
            r.stored == stored,
            r.attempted == attempted,
            r.when == when,
    {
        Self { stored, attempted, when }
    }

    pub open spec fn spec_message(self) -> Seq<char> {
        "Log id conflicts with the stored log id when "@ + self.when@ + ": stored "@
            + self.stored.id_debug() + ", attempted "@ + self.attempted.id_debug()
            + "; log id order and log index order must agree"@
    }

    pub fn message(&self) -> (r: String)
        ensures
            r@ == self.spec_message(),
    {
        let mut s = String::new();
        push_str(&mut s, "Log id conflicts with the stored log id when ");
        push_str(&mut s, self.when);
        push_str(&mut s, ": stored ");
        self.stored.write_id_debug(&mut s);
        push_str(&mut s, ", attempted ");
        self.attempted.write_id_debug(&mut s);
        push_str(&mut s, "; log id order and log index order must agree");
        s
    }
}

/// A checkpoint declares a log range other than the one the store holds.
///
/// A checkpoint states that the log is exactly the entries in
/// `(purged, last]`.
#[derive(Debug, Clone, PartialEq, Eq)]
pub struct CheckpointLogMismatch<T: Types> {
    pub first: T::LogId,
    pub last: T::LogId,
    pub purged: Option<T::LogId>,
    pub declared_last: Option<T::LogId>,
}

impl<T: Types> CheckpointLogMismatch<T> {
    pub fn new(
        first: T::LogId,
        last: T::LogId,
        purged: Option<T::LogId>,
        declared_last: Option<T::LogId>,
    ) -> (r: Self)
        ensures
            r.first == first,
            r.last == last,
            r.purged == purged,
            r.declared_last == declared_last,
    {
        Self { first, last, purged, declared_last }
    }

    pub open spec fn spec_message(self) -> Seq<char> {
        "Checkpoint does not match the stored log: the log holds "@ + self.first.id_debug() + "..="@
            + self.last.id_debug() + ", the checkpoint declares purged "@ + opt_id_debug(
            self.purged,
        ) + " and last "@ + opt_id_debug(self.declared_last)
    }

    pub fn message(&self) -> (r: String)
        ensures
            r@ == self.spec_message(),
    {
        let mut s = String::new();
        push_str(&mut s, "Checkpoint does not match the stored log: the log holds ");
        self.first.write_id_debug(&mut s);
        push_str(&mut s, "..=");
        self.last.write_id_debug(&mut s);
        push_str(&mut s, ", the checkpoint declares purged ");
        write_opt_id_debug(&self.purged, &mut s);
        push_str(&mut s, " and last ");
        write_opt_id_debug(&self.declared_last, &mut s);
        s
    }
}

/// No log entry is stored at an index.
#[derive(Debug, Clone, Copy, PartialEq, Eq)]
pub struct LogIndexNotFound {
    pub index: u64,
}

impl LogIndexNotFound {
    pub fn new(index: u64) -> (r: Self)
        ensures
            r.index == index,
    {
        Self { index }
    }

    pub open spec fn spec_message(self) -> Seq<char> {
        "Log not found at index "@ + crate::num::decimal(self.index as nat)
    }

    pub fn message(&self) -> (r: String)
        ensures
            r@ == self.spec_message(),
    {
        let mut s = String::new();
        push_str(&mut s, "Log not found at index ");
        let d = crate::num::decimal_chars(self.index);
        crate::text::push_chars(&mut s, &d);
        s
    }
}

/// Why a record cannot be applied to the raft log state.
#[derive(Debug, Clone, PartialEq, Eq)]
pub enum RaftLogStateError<T: Types> {
    VoteReversal(VoteReversal<T>),
    LogIdReversal(LogIdReversal<T>),
    LogIdNonConsecutive(LogIdNonConsecutive<T>),
    LogIdIndexDisorder(LogIdIndexDisorder<T>),
    CheckpointLogMismatch(CheckpointLogMismatch<T>),
    LogIndexNotFound(LogIndexNotFound),
}

impl<T: Types> RaftLogStateError<T> {
    /// The message of the error it wraps.
    pub open spec fn spec_message(self) -> Seq<char> {
        match self {
            RaftLogStateError::VoteReversal(e) => e.spec_message(),
            RaftLogStateError::LogIdReversal(e) => e.spec_message(),
            RaftLogStateError::LogIdNonConsecutive(e) => e.spec_message(),
            RaftLogStateError::LogIdIndexDisorder(e) => e.spec_message(),
            RaftLogStateError::CheckpointLogMismatch(e) => e.spec_message(),
            RaftLogStateError::LogIndexNotFound(e) => e.spec_message(),
        }
    }

    /// The message of the error it wraps, as `to_string()` gives it.
    pub fn message(&self) -> (r: String)
        ensures
            r@ == self.spec_message(),
    {
        match self {
            RaftLogStateError::VoteReversal(e) => e.message(),
            RaftLogStateError::LogIdReversal(e) => e.message(),
            RaftLogStateError::LogIdNonConsecutive(e) => e.message(),
            RaftLogStateError::LogIdIndexDisorder(e) => e.message(),
            RaftLogStateError::CheckpointLogMismatch(e) => e.message(),
            RaftLogStateError::LogIndexNotFound(e) => e.message(),
        }
    }
}

/// A WAL chunk file whose name does not parse.
#[derive(Debug, Clone, PartialEq, Eq)]
pub struct InvalidChunkFileName {
    pub bad_file_name: String,
    pub reason: String,
}

impl InvalidChunkFileName {
    pub fn new(bad_file_name: &str, reason: &str) -> (r: Self)
        ensures
            r.bad_file_name@ == bad_file_name@,
            r.reason@ == reason@,
    {
        Self { bad_file_name: String::from_str(bad_file_name), reason: String::from_str(reason) }
    }

    pub open spec fn spec_message(self) -> Seq<char> {
        "Invalid WAL chunk file name: "@ + self.bad_file_name@ + ": "@ + self.reason@
    }

    pub fn message(&self) -> (r: String)
        ensures
            r@ == self.spec_message(),
    {
        let mut s = String::new();
        push_str(&mut s, "Invalid WAL chunk file name: ");
        push_str(&mut s, self.bad_file_name.as_str());
        push_str(&mut s, ": ");
        push_str(&mut s, self.reason.as_str());
        s
    }
}

} // verus!
