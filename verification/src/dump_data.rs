//! A snapshot of a raft log's data for inspection: its state, where each
//! entry is stored and the cached payloads. Entries are served from the
//! cache where it holds them; the others must be read from the WAL.

use vstd::prelude::*;

use crate::payload_cache::PayloadCache;
use crate::raft_log_state::RaftLogState;
use crate::state_machine::{LogData, RaftLogStateMachine};
use crate::types::{DataValue, OrderedId, Types};

verus! {

/// One entry of a snapshot: its payload from the cache, or where it is
/// stored when the cache does not hold it.
#[derive(Debug, Clone, PartialEq, Eq)]
pub enum DumpEntry<T: Types> {
    Cached(T::LogId, T::LogPayload),
    Stored(LogData<T>),
}

/// A snapshot of a raft log's data, and how many of the entries served so
/// far came from the cache.
pub struct DumpRaftLog<T: Types> {
    state: RaftLogState<T>,
    logs: Vec<LogData<T>>,
    cache: PayloadCache<T>,
    cache_hit: usize,
    cache_miss: usize,
}

impl<T: Types> DumpRaftLog<T> {
    pub closed spec fn spec_state(self) -> RaftLogState<T> {
        self.state
    }

    pub closed spec fn spec_logs(self) -> Seq<LogData<T>> {
        self.logs@
    }

    pub closed spec fn spec_cache(self) -> crate::payload_cache::PayloadCacheView<T> {
        self.cache@
    }

    pub closed spec fn spec_hits(self) -> usize {
        self.cache_hit
    }

    pub closed spec fn spec_misses(self) -> usize {
        self.cache_miss
    }

    /// How many entries served so far came from the cache.
    pub fn cache_hit(&self) -> (r: usize)
        ensures
            r == self.spec_hits(),
    {
        self.cache_hit
    }

    /// How many entries served so far had to be read from the WAL.
    pub fn cache_miss(&self) -> (r: usize)
        ensures
            r == self.spec_misses(),
    {
        self.cache_miss
    }

    /// A snapshot of what `sm` holds.
    pub fn new(sm: &RaftLogStateMachine<T>) -> (r: Self)
        requires
            sm@.wf(),
        ensures
            r.spec_state()@ == sm@.state,
            r.spec_logs() == sm@.log.map_values(|e: (u64, LogData<T>)| e.1),
            r.spec_cache() == sm@.cache,
            r.spec_hits() == 0,
            r.spec_misses() == 0,
    {
        let mut logs: Vec<LogData<T>> = Vec::new();
        let mut i: usize = 0;
        while i < sm.log.len()
            invariant
                i <= sm@.log.len(),
                logs@ == sm@.log.subrange(0, i as int).map_values(|e: (u64, LogData<T>)| e.1),
            decreases sm@.log.len() - i,
        {
            logs.push(sm.log[i].1.duplicate());
            proof {
                assert(sm@.log.subrange(0, i + 1).map_values(|e: (u64, LogData<T>)| e.1) =~= sm@.log.subrange(
                    0,
                    i as int,
                ).map_values(|e: (u64, LogData<T>)| e.1).push(sm@.log[i as int].1));
            }
            i = i + 1;
        }
        proof {
            assert(sm@.log.subrange(0, i as int) =~= sm@.log);
        }
        DumpRaftLog {
            state: sm.checkpoint(),
            logs,
            cache: sm.payload_cache.duplicate(),
            cache_hit: 0,
            cache_miss: 0,
        }
    }

    /// The raft log state of the snapshot.
    pub fn state(&self) -> (r: &RaftLogState<T>)
        ensures
            *r == self.spec_state(),
    {
        &self.state
    }

    /// The number of entries.
    pub fn len(&self) -> (r: usize)
        ensures
            r == self.spec_logs().len(),
    {
        self.logs.len()
    }

    /// Serves entry `i`, in log order: from the cache when it holds the
    /// payload (a hit), else where it is stored (a miss).
    pub fn entry(&mut self, i: usize) -> (r: Option<DumpEntry<T>>)
        requires
            old(self).spec_cache().wf(),
            old(self).spec_hits() < usize::MAX,
            old(self).spec_misses() < usize::MAX,
        ensures
            final(self).spec_state() == old(self).spec_state(),
            final(self).spec_logs() == old(self).spec_logs(),
            final(self).spec_cache() == old(self).spec_cache(),
            i >= old(self).spec_logs().len() ==> r is None && final(self).spec_hits() == old(self).spec_hits()
                && final(self).spec_misses() == old(self).spec_misses(),
            i < old(self).spec_logs().len() ==> ({
                let d = old(self).spec_logs()[i as int];
                match old(self).spec_cache().lookup(d.log_id) {
                    Some(p) => (r matches Some(DumpEntry::Cached(l, q)) && l == d.log_id && q@ == p)
                        && final(self).spec_hits() == old(self).spec_hits() + 1
                        && final(self).spec_misses() == old(self).spec_misses(),
                    None => r == Some(DumpEntry::Stored(d)) && final(self).spec_misses() == old(self).spec_misses() + 1
                        && final(self).spec_hits() == old(self).spec_hits(),
                }
            }),
    {
        if i >= self.logs.len() {
            return None;
        }
        let d = self.logs[i].duplicate();
        match self.cache.get(&d.log_id) {
            Some(p) => {
                self.cache_hit = self.cache_hit + 1;
                Some(DumpEntry::Cached(d.log_id, p))
            },
            None => {
                self.cache_miss = self.cache_miss + 1;
                Some(DumpEntry::Stored(d))
            },
        }
    }
}

} // verus!
