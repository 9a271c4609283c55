//! The in-memory state a raft log rebuilds from its WAL: where each log
//! entry is stored, the cached payloads, and the raft log state.

use vstd::prelude::*;

use crate::chunk_id::{ChunkId, Segment};
use crate::config::{default_log_cache_capacity, default_log_cache_max_items, Config};
use crate::errors::{CheckpointLogMismatch, LogIdIndexDisorder, LogIndexNotFound, RaftLogStateError};
use crate::payload_cache::{charged, evicted, opt_min, sum_sizes, EntryView, PayloadCache, PayloadCacheView};
use crate::raft_log_state::{copy_opt_id, opt_id_lt, opt_le, opt_lt, RaftLogState, RaftLogStateView};
use crate::record::{RaftLogAction, RaftLogRecord, RaftWalTypes, WALRecord};
use crate::sorted::{count_le, count_lt, inserted, lemma_count_lt, lemma_inserted, position_lt, sorted};
use crate::types::{key_lt, next_log_index, spec_next_log_index, DataValue, LogIdKind, OrderedId, PayloadValue, Types};

verus! {

/// Where a log entry is stored: its log id, chunk and byte span.
#[derive(Debug, Clone, PartialEq, Eq)]
pub struct LogData<T: Types> {
    pub log_id: T::LogId,
    pub chunk_id: ChunkId,
    pub record_segment: Segment,
}

impl<T: Types> LogData<T> {
    pub fn new(log_id: T::LogId, chunk_id: ChunkId, record_segment: Segment) -> (r: Self)
        ensures
            r.log_id == log_id,
            r.chunk_id == chunk_id,
            r.record_segment == record_segment,
    {
        Self { log_id, chunk_id, record_segment }
    }

    pub fn duplicate(&self) -> (r: Self)
        ensures
            r == *self,
    {
        Self { log_id: self.log_id.copy_id(), chunk_id: self.chunk_id, record_segment: self.record_segment }
    }
}

/// Log id order and index order agree on `a` and `b`: `a` is below, equal
/// to or above `b` by log id exactly when it is by index.
pub open spec fn order_agrees<L: LogIdKind>(a: L, b: L) -> bool {
    &&& (key_lt(a.key(), b.key()) <==> a.index() < b.index())
    &&& (a == b <==> a.index() == b.index())
}

/// The log entry stored at `index`, found in entries sorted by index.
pub open spec fn stored_at<T: Types>(log: Seq<(u64, LogData<T>)>, index: u64) -> Option<LogData<T>> {
    let i = count_lt(log, index) as int;
    if i < log.len() && log[i].0 == index {
        Some(log[i].1)
    } else {
        None
    }
}

/// What a [`RaftLogStateMachine`] holds.
pub struct StateMachineView<T: Types> {
    pub log: Seq<(u64, LogData<T>)>,
    pub cache: PayloadCacheView<T>,
    pub state: RaftLogStateView<T>,
}

impl<T: Types> StateMachineView<T> {
    /// Entries sorted by index, each kept at its log id's index; a
    /// well-formed cache.
    pub open spec fn wf(self) -> bool {
        &&& sorted(self.log)
        &&& forall|i: int| 0 <= i < self.log.len() ==> (#[trigger] self.log[i]).0 == self.log[i].1.log_id.index()
        &&& self.cache.wf()
    }

    /// The first disorder among `upto` and the log ids it must agree with.
    pub open spec fn check_purge(self, upto: T::LogId) -> Result<(), RaftLogStateError<T>> {
        let stored = match stored_at(self.log, upto.index()) {
            Some(d) => Some(d.log_id),
            None => None,
        };
        if stored matches Some(s) && !order_agrees(upto, s) {
            Err(RaftLogStateError::LogIdIndexDisorder(LogIdIndexDisorder { stored: stored->0, attempted: upto, when: "purge" }))
        } else if self.state.purged matches Some(s) && !order_agrees(upto, s) {
            Err(RaftLogStateError::LogIdIndexDisorder(LogIdIndexDisorder { stored: self.state.purged->0, attempted: upto, when: "purge" }))
        } else if self.state.last matches Some(s) && !order_agrees(upto, s) {
            Err(RaftLogStateError::LogIdIndexDisorder(LogIdIndexDisorder { stored: self.state.last->0, attempted: upto, when: "purge" }))
        } else {
            Ok(())
        }
    }

    /// The error, if any, that `rec` is rejected with.
    pub open spec fn check(self, rec: RaftLogRecord<T>) -> Result<(), RaftLogStateError<T>> {
        match rec {
            WALRecord::Action(RaftLogAction::PurgeUpto(upto)) => match self.check_purge(upto) {
                Err(e) => Err(e),
                Ok(()) => self.state.check(rec),
            },
            _ => self.state.check(rec),
        }
    }

    /// The log after `rec`, recorded at `segment` in chunk `chunk_id`.
    pub open spec fn log_after(self, rec: RaftLogRecord<T>, chunk_id: ChunkId, segment: Segment) -> Seq<(u64, LogData<T>)> {
        match rec {
            WALRecord::Action(RaftLogAction::Append(log_id, _)) => inserted(
                self.log,
                log_id.index(),
                LogData { log_id, chunk_id, record_segment: segment },
            ),
            WALRecord::Action(RaftLogAction::TruncateAfter(log_id)) => self.log.subrange(
                0,
                count_lt(self.log, spec_next_log_index(log_id) as u64) as int,
            ),
            WALRecord::Action(RaftLogAction::PurgeUpto(log_id)) => self.log.subrange(
                count_lt(self.log, spec_next_log_index(Some(log_id)) as u64) as int,
                self.log.len() as int,
            ),
            _ => self.log,
        }
    }

    /// The log id a truncation at `index` keeps last: the purged id right
    /// after it, else the entry stored just below `index`, which must exist.
    pub open spec fn truncate_keep(self, index: u64) -> Result<Option<T::LogId>, RaftLogStateError<T>> {
        if index == spec_next_log_index(self.state.purged) {
            Ok(self.state.purged)
        } else if index == 0 {
            Err(RaftLogStateError::LogIndexNotFound(LogIndexNotFound { index }))
        } else {
            match stored_at(self.log, (index - 1) as u64) {
                Some(d) => Ok(Some(d.log_id)),
                None => Err(RaftLogStateError::LogIndexNotFound(LogIndexNotFound { index: (index - 1) as u64 })),
            }
        }
    }

    /// Every log id that applying `rec` computes the next index of fits.
    pub open spec fn indexes_fit(self, rec: RaftLogRecord<T>) -> bool {
        &&& self.state.next_index_fits(rec)
        &&& (rec matches WALRecord::Action(RaftLogAction::TruncateAfter(Some(l))) ==> l.index() < u64::MAX)
        &&& (rec matches WALRecord::Action(RaftLogAction::PurgeUpto(l)) ==> l.index() < u64::MAX)
        &&& (rec matches WALRecord::Action(RaftLogAction::Append(_, p)) ==> self.cache.size + charged::<T>(p@) <= usize::MAX)
    }

    /// The cache after `rec`: an append caches its payload (and evicts), a
    /// truncation drops the payloads after its log id, a purge drops the
    /// evictable payloads up to its log id.
    pub open spec fn cache_after(self, rec: RaftLogRecord<T>, c: PayloadCacheView<T>) -> bool {
        let old = self.cache;
        match rec {
            WALRecord::Action(RaftLogAction::Append(log_id, p)) => {
                &&& (c.entries, c.size as int) == evicted::<T>(
                    inserted(old.entries, log_id, p@),
                    old.size + charged::<T>(p@),
                    old.max_items,
                    old.capacity,
                    old.last_evictable,
                )
                &&& c.max_items == old.max_items
                &&& c.capacity == old.capacity
                &&& c.last_evictable == old.last_evictable
            },
            WALRecord::Action(RaftLogAction::TruncateAfter(Some(l))) => {
                let n = count_le(old.entries, Some(l)) as int;
                c == PayloadCacheView {
                    entries: old.entries.subrange(0, n),
                    size: (old.size - sum_sizes::<T>(old.entries.subrange(n, old.entries.len() as int))) as nat,
                    ..old
                }
            },
            WALRecord::Action(RaftLogAction::TruncateAfter(None)) => {
                c == PayloadCacheView { entries: Seq::<EntryView<T>>::empty(), size: 0, ..old }
            },
            WALRecord::Action(RaftLogAction::PurgeUpto(l)) => {
                let n = count_le(old.entries, opt_min(Some(l), old.last_evictable)) as int;
                c == PayloadCacheView {
                    entries: old.entries.subrange(n, old.entries.len() as int),
                    size: (old.size - sum_sizes::<T>(old.entries.subrange(0, n))) as nat,
                    ..old
                }
            },
            _ => c == old,
        }
    }
}

/// The state machine of a raft log: the index of stored log entries, the
/// payload cache, and the raft log state.
pub struct RaftLogStateMachine<T: Types> {
    /// Where each log entry is stored, by index, in increasing index order.
    pub log: Vec<(u64, LogData<T>)>,
    pub payload_cache: PayloadCache<T>,
    pub log_state: RaftLogState<T>,
}

impl<T: Types> View for RaftLogStateMachine<T> {
    type V = StateMachineView<T>;

    open spec fn view(&self) -> StateMachineView<T> {
        StateMachineView { log: self.log@, cache: self.payload_cache@, state: self.log_state@ }
    }
}

impl<T: Types> RaftLogStateMachine<T> {
    /// An empty state machine whose cache holds at most the configured
    /// number of entries and bytes of evictable payload.
    pub fn new(config: &Config) -> (r: Self)
        ensures
            r@.wf(),
            r@.log.len() == 0,
            r@.cache.entries.len() == 0,
            r@.cache.size == 0,
            r@.cache.max_items == match config.log_cache_max_items {
                Some(n) => n,
                None => default_log_cache_max_items(),
            },
            r@.cache.capacity == match config.log_cache_capacity {
                Some(n) => n,
                None => default_log_cache_capacity(),
            },
            r@.cache.last_evictable is None,
            r@.state.vote is None,
            r@.state.last is None,
            r@.state.committed is None,
            r@.state.purged is None,
            r@.state.user_data is None,
    {
        Self {
            log: Vec::new(),
            payload_cache: PayloadCache::new(config.log_cache_max_items(), config.log_cache_capacity()),
            log_state: RaftLogState::new(),
        }
    }

    /// The log entry stored at `index`.
    fn find(&self, index: u64) -> (r: Option<&LogData<T>>)
        requires
            self@.wf(),
        ensures
            r matches Some(d) ==> stored_at(self@.log, index) == Some(*d),
            r is None <==> stored_at(self@.log, index) is None,
    {
        let i = position_lt(&self.log, &index);
        if i < self.log.len() && self.log[i].0 == index {
            Some(&self.log[i].1)
        } else {
            None
        }
    }

    /// Require `attempted` and `stored` to order the same way by log id and
    /// by index.
    ///
    /// When the two indexes are equal this demands the two log ids be equal,
    /// which is the check against the entry stored at that index.
    pub fn check_index_order(attempted: &T::LogId, stored: Option<&T::LogId>) -> (r: Result<(), RaftLogStateError<T>>)
        ensures
            stored is None ==> r is Ok,
            stored matches Some(s) ==> (r is Ok <==> order_agrees(*attempted, *s)),
            stored matches Some(s) ==> (r is Err ==> r == Err::<(), RaftLogStateError<T>>(
                RaftLogStateError::LogIdIndexDisorder(LogIdIndexDisorder { stored: *s, attempted: *attempted, when: "purge" }),
            )),
    {
        match stored {
            None => Ok(()),
            Some(s) => {
                proof {
                    T::LogId::lemma_key_injective(*attempted, *s);
                }
                let by_log_id: i8 = if attempted.id_lt(s) {
                    -1
                } else if attempted.id_eq(s) {
                    0
                } else {
                    1
                };
                let ai = attempted.log_index();
                let si = s.log_index();
                let by_index: i8 = if ai < si {
                    -1
                } else if ai == si {
                    0
                } else {
                    1
                };
                if by_log_id != by_index {
                    Err(RaftLogStateError::LogIdIndexDisorder(
                        LogIdIndexDisorder::new(s.copy_id(), attempted.copy_id(), "purge"),
                    ))
                } else {
                    Ok(())
                }
            },
        }
    }

    /// Verify that `upto` names a log id this log actually holds.
    ///
    /// A raft log stores a greater log id at a greater index, so the log id
    /// at `upto`'s index is already determined by what was written. Purging
    /// by a log id that disagrees with it would leave the log permanently
    /// inconsistent, so the call is rejected instead.
    pub fn check_purge(&self, upto: &T::LogId) -> (r: Result<(), RaftLogStateError<T>>)
        requires
            self@.wf(),
        ensures
            r == self@.check_purge(*upto),
    {
        let stored = match self.find(upto.log_index()) {
            Some(d) => Some(&d.log_id),
            None => None,
        };
        Self::check_index_order(upto, stored)?;
        Self::check_index_order(upto, self.log_state.purged.as_ref())?;
        Self::check_index_order(upto, self.log_state.last.as_ref())?;
        Ok(())
    }

    /// Verify that `rec` can be applied, without changing anything.
    pub fn check(&self, rec: &RaftLogRecord<T>) -> (r: Result<(), RaftLogStateError<T>>)
        requires
            self@.wf(),
            self@.state.next_index_fits(*rec),
        ensures
            r == self@.check(*rec),
    {
        if let WALRecord::Action(RaftLogAction::PurgeUpto(upto)) = rec {
            self.check_purge(upto)?;
        }
        self.log_state.check(rec)
    }

    /// Verify that `state` describes the log entries this store holds:
    /// exactly those in `(purged, last]`.
    ///
    /// The log is contiguous, so that reduces to two conditions: its first
    /// entry sits right after `purged` (and above it), and its last entry
    /// equals `last`. An empty log matches any state, as a store restored
    /// from a snapshot needs.
    pub fn check_checkpoint(&self, state: &RaftLogState<T>) -> (r: Result<(), RaftLogStateError<T>>)
        requires
            self@.wf(),
            state.purged matches Some(p) ==> p.index() < u64::MAX,
        ensures
            self@.log.len() == 0 ==> r is Ok,
            self@.log.len() > 0 ==> ({
                let first = self@.log[0].1.log_id;
                let last = self@.log.last().1.log_id;
                let ok = first.index() == spec_next_log_index(state.purged)
                    && opt_lt(state.purged, Some(first))
                    && Some(last) == state.last;
                &&& ok ==> r is Ok
                &&& !ok ==> r == Err::<(), RaftLogStateError<T>>(RaftLogStateError::CheckpointLogMismatch(
                    CheckpointLogMismatch { first, last, purged: state.purged, declared_last: state.last },
                ))
            }),
    {
        if self.log.len() == 0 {
            return Ok(());
        }
        let first = &self.log[0].1.log_id;
        let last = &self.log[self.log.len() - 1].1.log_id;
        let first_index = first.log_index();
        let index_after_purged = next_log_index(state.purged.as_ref());
        let starts_at_right_index = first_index == index_after_purged;
        let starts_above_purged = opt_id_lt(&state.purged, &Some(first.copy_id()));
        let ends_at_last = match &state.last {
            Some(l) => last.id_eq(l),
            None => false,
        };
        if starts_at_right_index && starts_above_purged && ends_at_last {
            return Ok(());
        }
        Err(RaftLogStateError::CheckpointLogMismatch(CheckpointLogMismatch::new(
            first.copy_id(),
            last.copy_id(),
            copy_opt_id(&state.purged),
            copy_opt_id(&state.last),
        )))
    }

    /// Apply a record to the log index, the payload cache and the raft log
    /// state; the record is stored at `segment` in chunk `chunk_id`.
    ///
    /// A purge that disagrees with the stored log ids changes nothing. Any
    /// other record updates the log index and the cache first, then the raft
    /// log state, which rejects it without change if [`RaftLogState::check`]
    /// does. After [`Self::check`] accepts a record, applying it never fails.
    pub fn apply(&mut self, rec: &RaftLogRecord<T>, chunk_id: ChunkId, segment: Segment) -> (r: Result<(), RaftLogStateError<T>>)
        requires
            old(self)@.wf(),
            old(self)@.indexes_fit(*rec),
        ensures
            final(self)@.wf(),
            r == old(self)@.check(*rec),
            (*rec matches WALRecord::Action(RaftLogAction::PurgeUpto(u)) && old(self)@.check_purge(u) is Err)
                ==> final(self)@ == old(self)@,
            !(*rec matches WALRecord::Action(RaftLogAction::PurgeUpto(u)) && old(self)@.check_purge(u) is Err) ==> {
                &&& final(self)@.log == old(self)@.log_after(*rec, chunk_id, segment)
                &&& old(self)@.cache_after(*rec, final(self)@.cache)
                &&& r is Ok ==> final(self)@.state == old(self)@.state.after(*rec)
                &&& r is Err ==> final(self)@.state == old(self)@.state
            },
    {
        let ghost log0 = self.log@;
        match rec {
            WALRecord::Action(RaftLogAction::Append(log_id, payload)) => {
                let index = log_id.log_index();
                let data = LogData::new(log_id.copy_id(), chunk_id, segment);
                let i = position_lt(&self.log, &index);
                proof {
                    lemma_count_lt(log0, index);
                    lemma_inserted(log0, index, data);
                }
                if i < self.log.len() && self.log[i].0 == index {
                    self.log.set(i, (index, data));
                } else {
                    self.log.insert(i, (index, data));
                }
                proof {
                    let n = inserted(log0, index, data);
                    assert(self.log@ =~= n);
                    assert forall|j: int| 0 <= j < n.len() implies (#[trigger] n[j]).0 == n[j].1.log_id.index() by {
                        if j != i {
                            if j < i {
                                assert(n[j] == log0[j]);
                            } else if n != log0.update(i as int, (index, data)) {
                                assert(n[j] == log0[j - 1]);
                            } else {
                                assert(n[j] == log0[j]);
                            }
                        }
                    }
                }
                self.payload_cache.insert(log_id.copy_id(), payload.duplicate());
            },
            WALRecord::Action(RaftLogAction::TruncateAfter(log_id)) => {
                let index = next_log_index(log_id.as_ref());
                let n = position_lt(&self.log, &index);
                self.log.truncate(n);
                match log_id {
                    Some(l) => self.payload_cache.truncate_after(l),
                    None => self.payload_cache.clear(),
                }
            },
            WALRecord::Action(RaftLogAction::PurgeUpto(log_id)) => {
                self.check_purge(log_id)?;
                let index = next_log_index(Some(log_id));
                let n = position_lt(&self.log, &index);
                let rest = self.log.split_off(n);
                self.log = rest;
                self.payload_cache.purge_upto(log_id);
            },
            _ => {},
        }
        self.log_state.apply(rec)
    }

    /// The log id stored at `index`.
    pub fn get_log_id(&self, index: u64) -> (r: Result<T::LogId, RaftLogStateError<T>>)
        requires
            self@.wf(),
        ensures
            r matches Ok(l) ==> stored_at(self@.log, index) matches Some(d) && d.log_id == l,
            r is Err ==> stored_at(self@.log, index) is None && r == Err::<T::LogId, RaftLogStateError<T>>(
                RaftLogStateError::LogIndexNotFound(LogIndexNotFound { index }),
            ),
    {
        match self.find(index) {
            Some(d) => Ok(d.log_id.copy_id()),
            None => Err(RaftLogStateError::LogIndexNotFound(LogIndexNotFound::new(index))),
        }
    }

    /// The record that truncates the log at `index`, keeping the entries
    /// before it: it names the log id to keep last.
    ///
    /// At the index right after the purged log id that is the purged id.
    /// Anywhere else it is the entry stored just below `index`, which must
    /// exist; at index `0` there is none below.
    pub fn truncate_record(&self, index: u64) -> (r: Result<RaftLogRecord<T>, RaftLogStateError<T>>)
        requires
            self@.wf(),
            self@.state.purged matches Some(p) ==> p.index() < u64::MAX,
        ensures
            r == match self@.truncate_keep(index) {
                Ok(k) => Ok::<RaftLogRecord<T>, RaftLogStateError<T>>(
                    WALRecord::Action(RaftLogAction::TruncateAfter(k)),
                ),
                Err(e) => Err(e),
            },
    {
        let purged = self.log_state.purged.as_ref();
        let keep = if index == next_log_index(purged) {
            copy_opt_id(&self.log_state.purged)
        } else {
            if index == 0 {
                return Err(RaftLogStateError::LogIndexNotFound(LogIndexNotFound::new(index)));
            }
            let log_id = self.get_log_id(index - 1)?;
            Some(log_id)
        };
        Ok(WALRecord::Action(RaftLogAction::TruncateAfter(keep)))
    }

    /// The record that purges the log up to `upto`; none when `upto` is
    /// below the index after the purged log id, since those entries are
    /// gone already.
    pub fn purge_record(&self, upto: &T::LogId) -> (r: Option<RaftLogRecord<T>>)
        requires
            self@.state.purged matches Some(p) ==> p.index() < u64::MAX,
        ensures
            upto.index() < spec_next_log_index(self@.state.purged) ==> r is None,
            upto.index() >= spec_next_log_index(self@.state.purged) ==> r == Some(
                WALRecord::<RaftWalTypes<T>>::Action(RaftLogAction::PurgeUpto(*upto)),
            ),
    {
        if upto.log_index() < next_log_index(self.log_state.purged.as_ref()) {
            None
        } else {
            Some(WALRecord::Action(RaftLogAction::PurgeUpto(upto.copy_id())))
        }
    }

    /// The checkpoint record that replaces the user data and keeps the rest
    /// of the state.
    pub fn user_data_record(&self, user_data: Option<T::UserData>) -> (r: RaftLogRecord<T>)
        ensures
            r matches WALRecord::Checkpoint(st) && st@ == (RaftLogStateView {
                user_data: crate::raft_log_state::opt_view(user_data),
                ..self@.state
            }),
    {
        let mut state = self.checkpoint();
        state.user_data = user_data;
        WALRecord::Checkpoint(state)
    }

    /// Where the entries with an index in `from..to` are stored, in index
    /// order.
    pub fn read_range(&self, from: u64, to: u64) -> (r: Vec<LogData<T>>)
        requires
            self@.wf(),
            from <= to,
        ensures
            r@ == self@.log.subrange(count_lt(self@.log, from) as int, count_lt(self@.log, to) as int).map_values(
                |e: (u64, LogData<T>)| e.1,
            ),
            forall|i: int| 0 <= i < r@.len() ==> from <= (#[trigger] r@[i]).log_id.index() < to,
    {
        let lo = position_lt(&self.log, &from);
        let hi = position_lt(&self.log, &to);
        proof {
            lemma_count_lt(self@.log, from);
            lemma_count_lt(self@.log, to);
            if lo > hi {
                assert(key_lt(self@.log[hi as int].0.key(), from.key()));
            }
        }
        let mut r: Vec<LogData<T>> = Vec::new();
        let mut i = lo;
        while i < hi
            invariant
                self@.wf(),
                lo <= i <= hi <= self@.log.len(),
                lo == count_lt(self@.log, from),
                hi == count_lt(self@.log, to),
                forall|k: int| 0 <= k < lo ==> key_lt(#[trigger] self@.log[k].0.key(), from.key()),
                forall|k: int| lo <= k < self@.log.len() ==> !key_lt(#[trigger] self@.log[k].0.key(), from.key()),
                forall|k: int| 0 <= k < hi ==> key_lt(#[trigger] self@.log[k].0.key(), to.key()),
                r@ == self@.log.subrange(lo as int, i as int).map_values(|e: (u64, LogData<T>)| e.1),
            decreases hi - i,
        {
            r.push(self.log[i].1.duplicate());
            proof {
                assert(self@.log.subrange(lo as int, i + 1).map_values(|e: (u64, LogData<T>)| e.1) =~= self@.log.subrange(
                    lo as int,
                    i as int,
                ).map_values(|e: (u64, LogData<T>)| e.1).push(self@.log[i as int].1));
            }
            i = i + 1;
        }
        proof {
            assert forall|k: int| 0 <= k < r@.len() implies from <= (#[trigger] r@[k]).log_id.index() < to by {
                let j = lo + k;
                assert(r@[k] == self@.log[j].1);
                assert(self@.log[j].0 == self@.log[j].1.log_id.index());
                assert(!key_lt(self@.log[j].0.key(), from.key()));
                assert(key_lt(self@.log[j].0.key(), to.key()));
            }
        }
        r
    }

    /// The payload of the entry that `record`, read back from the WAL for a
    /// log entry, stores; none when it is not an append.
    pub fn append_payload(record: RaftLogRecord<T>) -> (r: Option<T::LogPayload>)
        ensures
            record matches WALRecord::Action(RaftLogAction::Append(_, p)) ==> r == Some(p),
            !(record matches WALRecord::Action(RaftLogAction::Append(_, _))) ==> r is None,
    {
        match record {
            WALRecord::Action(RaftLogAction::Append(_, payload)) => Some(payload),
            _ => None,
        }
    }

    /// The current raft log state, to store at the start of a new chunk.
    /// Whether the machine has room for `rec`: the log ids it needs a
    /// successor of have one, and the cache's size counter can take its
    /// payload. Applying a record that does not fit would overflow.
    pub fn fits(&self, rec: &RaftLogRecord<T>) -> (r: bool)
        ensures
            r == self@.indexes_fit(*rec),
    {
        match rec {
            WALRecord::Action(RaftLogAction::Append(log_id, payload)) => {
                let index_fits = match &self.log_state.last {
                    Some(l) => !l.id_lt(log_id) || l.log_index() < u64::MAX,
                    None => true,
                };
                #[verifier::truncate]
                let p = payload.payload_size() as usize;
                index_fits && self.payload_cache.total_size() <= usize::MAX - p
            },
            WALRecord::Action(RaftLogAction::TruncateAfter(Some(l))) => l.log_index() < u64::MAX,
            WALRecord::Action(RaftLogAction::PurgeUpto(l)) => l.log_index() < u64::MAX,
            _ => true,
        }
    }

    pub fn checkpoint(&self) -> (r: RaftLogState<T>)
        ensures
            r@ == self@.state,
    {
        self.log_state.duplicate()
    }
}

} // verus!

verus! {

/// Whether a closed chunk holds only purged entries: the state it closed
/// with has `last` at or below `purged`, so no entry of the log lies in it.
pub fn chunk_is_removable<T: Types>(checkpoint: &RaftLogState<T>, purged: &T::LogId) -> (r: bool)
    ensures
        r == opt_le(checkpoint@.last, Some(*purged)),
{
    proof {
        crate::raft_log_state::lemma_opt_order(checkpoint@.last, Some(*purged));
        crate::raft_log_state::lemma_opt_order(Some(*purged), checkpoint@.last);
    }
    !opt_id_lt(&Some(purged.copy_id()), &checkpoint.last)
}

/// The cache after a record is determined by the cache before it and the
/// record. With `log_after` and `after`, which are functions too, replaying
/// the records of a WAL from the same start rebuilds the same state machine.
pub proof fn lemma_cache_after_is_determined<T: Types>(
    v: StateMachineView<T>,
    rec: RaftLogRecord<T>,
    c1: PayloadCacheView<T>,
    c2: PayloadCacheView<T>,
)
    requires
        v.cache_after(rec, c1),
        v.cache_after(rec, c2),
    ensures
        c1 == c2,
{
    if let WALRecord::Action(RaftLogAction::Append(_, _)) = rec {
        assert(c1.entries == c2.entries);
        assert(c1.size == c2.size);
    }
}

/// The entry stored at an index has a log id of that index.
pub proof fn lemma_stored_at_index<T: Types>(v: StateMachineView<T>, index: u64)
    requires
        v.wf(),
    ensures
        stored_at(v.log, index) matches Some(d) ==> d.log_id.index() == index,
{
    let i = count_lt(v.log, index) as int;
    if i < v.log.len() && v.log[i].0 == index {
        assert(v.log[i].0 == v.log[i].1.log_id.index());
    }
}

/// A truncation at `index` leaves only entries below `index`.
pub proof fn lemma_truncate_keeps_below_index<T: Types>(
    v: StateMachineView<T>,
    index: u64,
    chunk_id: ChunkId,
    segment: Segment,
)
    requires
        v.wf(),
        v.truncate_keep(index) is Ok,
        v.truncate_keep(index) matches Ok(Some(l)) ==> l.index() < u64::MAX,
        v.state.purged matches Some(p) ==> p.index() < u64::MAX,
    ensures
        ({
            let rec = WALRecord::<RaftWalTypes<T>>::Action(RaftLogAction::TruncateAfter(v.truncate_keep(index)->Ok_0));
            forall|j: int|
                0 <= j < v.log_after(rec, chunk_id, segment).len() ==> (#[trigger] v.log_after(
                    rec,
                    chunk_id,
                    segment,
                )[j]).0 < index
        }),
{
    let keep = v.truncate_keep(index)->Ok_0;
    let rec = WALRecord::<RaftWalTypes<T>>::Action(RaftLogAction::TruncateAfter(keep));
    if index > 0 {
        lemma_stored_at_index(v, (index - 1) as u64);
    }
    assert(spec_next_log_index(keep) == index);
    lemma_truncate_and_purge_bound_the_log(v, rec, chunk_id, segment);
}

/// A record that the state machine's check accepts is applied in full: it
/// passes the purge check, and the raft log state accepts it too.
pub proof fn lemma_accepted_record_applies_fully<T: Types>(v: StateMachineView<T>, rec: RaftLogRecord<T>)
    requires
        v.check(rec) is Ok,
    ensures
        !(rec matches WALRecord::Action(RaftLogAction::PurgeUpto(u)) && v.check_purge(u) is Err),
        v.state.check(rec) is Ok,
{
}

/// After an append, the log stores the appended log id at its index.
pub proof fn lemma_append_is_stored<T: Types>(
    v: StateMachineView<T>,
    log_id: T::LogId,
    payload: T::LogPayload,
    chunk_id: ChunkId,
    segment: Segment,
)
    requires
        v.wf(),
    ensures
        stored_at(
            v.log_after(WALRecord::Action(RaftLogAction::Append(log_id, payload)), chunk_id, segment),
            log_id.index(),
        ) == Some(LogData::<T> { log_id, chunk_id, record_segment: segment }),
{
    let index = log_id.index();
    let data = LogData::<T> { log_id, chunk_id, record_segment: segment };
    lemma_count_lt(v.log, index);
    lemma_inserted(v.log, index, data);
    let n = inserted(v.log, index, data);
    let i = count_lt(v.log, index) as int;
    assert(n[i] == (index, data));
    assert forall|j: int| 0 <= j < i implies key_lt(#[trigger] n[j].0.key(), index.key()) by {
        assert(n[j] == v.log[j]);
    }
    crate::sorted::lemma_count_lt_unique(n, index, i);
}

/// A purge is accepted whenever its log id agrees in order with every log
/// id it is weighed against: the entry stored at its index, if there is one,
/// and the purged and last log ids. In particular a purge ahead of the last
/// log id with nothing stored at its index, as after a snapshot is
/// installed, is accepted; it moves both `purged` and `last` to its log id
/// and leaves no entry at or below its index.
pub proof fn lemma_purge_accepted_when_in_order<T: Types>(
    v: StateMachineView<T>,
    upto: T::LogId,
    chunk_id: ChunkId,
    segment: Segment,
)
    requires
        v.wf(),
        upto.index() < u64::MAX,
        stored_at(v.log, upto.index()) matches Some(d) ==> order_agrees(upto, d.log_id),
        v.state.purged matches Some(p) ==> order_agrees(upto, p),
        v.state.last matches Some(l) ==> order_agrees(upto, l),
    ensures
        v.check(WALRecord::Action(RaftLogAction::PurgeUpto(upto))) is Ok,
        opt_lt(v.state.purged, Some(upto)) ==> v.state.after(WALRecord::Action(RaftLogAction::PurgeUpto(upto))).purged
            == Some(upto),
        opt_lt(v.state.last, Some(upto)) ==> v.state.after(WALRecord::Action(RaftLogAction::PurgeUpto(upto))).last
            == Some(upto),
        forall|j: int|
            0 <= j < v.log_after(WALRecord::Action(RaftLogAction::PurgeUpto(upto)), chunk_id, segment).len() ==> (
            #[trigger] v.log_after(WALRecord::Action(RaftLogAction::PurgeUpto(upto)), chunk_id, segment)[j]).0
                > upto.index(),
{
    lemma_truncate_and_purge_bound_the_log(v, WALRecord::Action(RaftLogAction::PurgeUpto(upto)), chunk_id, segment);
}

/// A record that is neither an append, a truncation nor a purge leaves the
/// log index as it was: checkpoints, votes and commits store and drop no
/// entry.
pub proof fn lemma_other_records_keep_log<T: Types>(
    v: StateMachineView<T>,
    rec: RaftLogRecord<T>,
    chunk_id: ChunkId,
    segment: Segment,
)
    requires
        rec is Checkpoint || rec matches WALRecord::Action(RaftLogAction::SaveVote(_)) || rec matches WALRecord::Action(
            RaftLogAction::Commit(_),
        ),
    ensures
        v.log_after(rec, chunk_id, segment) == v.log,
{
}

/// After a truncation no entry remains at or after the index following the
/// kept log id; after a purge no entry remains at or below the purged index.
pub proof fn lemma_truncate_and_purge_bound_the_log<T: Types>(
    v: StateMachineView<T>,
    rec: RaftLogRecord<T>,
    chunk_id: ChunkId,
    segment: Segment,
)
    requires
        v.wf(),
        v.indexes_fit(rec),
    ensures
        rec matches WALRecord::Action(RaftLogAction::TruncateAfter(t)) ==> forall|j: int|
            0 <= j < v.log_after(rec, chunk_id, segment).len() ==> (#[trigger] v.log_after(
                rec,
                chunk_id,
                segment,
            )[j]).0 < spec_next_log_index(t),
        rec matches WALRecord::Action(RaftLogAction::PurgeUpto(p)) ==> forall|j: int|
            0 <= j < v.log_after(rec, chunk_id, segment).len() ==> (#[trigger] v.log_after(
                rec,
                chunk_id,
                segment,
            )[j]).0 > p.index(),
{
    match rec {
        WALRecord::Action(RaftLogAction::TruncateAfter(t)) => {
            let k = spec_next_log_index(t) as u64;
            lemma_count_lt(v.log, k);
            let n = count_lt(v.log, k) as int;
            assert forall|j: int| 0 <= j < v.log_after(rec, chunk_id, segment).len() implies
                (#[trigger] v.log_after(rec, chunk_id, segment)[j]).0 < spec_next_log_index(t) by {
                assert(v.log_after(rec, chunk_id, segment)[j] == v.log[j]);
                assert(key_lt(v.log[j].0.key(), k.key()));
            }
        },
        WALRecord::Action(RaftLogAction::PurgeUpto(p)) => {
            let k = spec_next_log_index(Some(p)) as u64;
            lemma_count_lt(v.log, k);
            let n = count_lt(v.log, k) as int;
            assert forall|j: int| 0 <= j < v.log_after(rec, chunk_id, segment).len() implies
                (#[trigger] v.log_after(rec, chunk_id, segment)[j]).0 > p.index() by {
                assert(v.log_after(rec, chunk_id, segment)[j] == v.log[j + n]);
                assert(!key_lt(v.log[j + n].0.key(), k.key()));
            }
        },
        _ => {},
    }
}

} // verus!
