//! Statistics of a raft log and how they are displayed.

use vstd::prelude::*;

use crate::chunk_id::ChunkId;
use crate::metrics::FlushMetrics;
use crate::num::{decimal, spec_format_grouped};
use crate::raft_log_state::RaftLogState;
use crate::text::{push_chars, push_str};
use crate::types::{DataValue, OrderedId, Types};

verus! {

/// `{}` of a number padded to 9 digits and grouped.
pub open spec fn pad9(n: u64) -> Seq<char> {
    spec_format_grouped(n as nat, 9)
}

fn push_pad9(s: &mut String, n: u64)
    ensures
        final(s)@ == old(s)@ + pad9(n),
{
    let p = crate::num::format_pad9_u64(n);
    push_str(s, p.as_str());
}

fn push_decimal(s: &mut String, n: u64)
    ensures
        final(s)@ == old(s)@ + decimal(n as nat),
{
    let d = crate::num::decimal_chars(n);
    push_chars(s, &d);
}

/// Statistics about one chunk of the WAL and the checkpoint it holds.
#[derive(Debug, Clone)]
pub struct ChunkStat<C> {
    pub chunk_id: ChunkId,
    pub records_count: u64,
    pub global_start: u64,
    pub global_end: u64,
    pub size: u64,
    pub log_state: C,
}

impl<C: DataValue> ChunkStat<C> {
    /// `ChunkStat(<chunk id>){records: n, [start, end), size: s, log_state: <debug>}`.
    pub open spec fn spec_display(self) -> Seq<char> {
        "ChunkStat("@ + self.chunk_id.spec_display() + "){records: "@ + decimal(self.records_count as nat)
            + ", ["@ + pad9(self.global_start) + ", "@ + pad9(self.global_end) + "), size: "@ + pad9(
            self.size,
        ) + ", log_state: "@ + C::data_debug(self.log_state@) + "}"@
    }

    pub fn display(&self) -> (r: String)
        ensures
            r@ == self.spec_display(),
    {
        let mut s = String::new();
        push_str(&mut s, "ChunkStat(");
        let id = self.chunk_id.display();
        push_str(&mut s, id.as_str());
        push_str(&mut s, "){records: ");
        push_decimal(&mut s, self.records_count);
        push_str(&mut s, ", [");
        push_pad9(&mut s, self.global_start);
        push_str(&mut s, ", ");
        push_pad9(&mut s, self.global_end);
        push_str(&mut s, "), size: ");
        push_pad9(&mut s, self.size);
        push_str(&mut s, ", log_state: ");
        self.log_state.write_data_debug(&mut s);
        push_str(&mut s, "}");
        s
    }
}

/// How many reads the payload cache served and how many it missed.
#[derive(Debug, Clone, Copy, Default, PartialEq, Eq)]
pub struct AccessStat {
    pub cache_hit: u64,
    pub cache_miss: u64,
}

impl AccessStat {
    /// `AccessStat{cache(hit/miss)=h/m}`.
    pub open spec fn spec_display(self) -> Seq<char> {
        "AccessStat{cache(hit/miss)="@ + decimal(self.cache_hit as nat) + "/"@ + decimal(
            self.cache_miss as nat,
        ) + "}"@
    }

    pub fn display(&self) -> (r: String)
        ensures
            r@ == self.spec_display(),
    {
        let mut s = String::new();
        push_str(&mut s, "AccessStat{cache(hit/miss)=");
        push_decimal(&mut s, self.cache_hit);
        push_str(&mut s, "/");
        push_decimal(&mut s, self.cache_miss);
        push_str(&mut s, "}");
        s
    }
}

/// `{:?}` of an optional id with `None` for none: the value itself otherwise.
pub open spec fn opt_display_debug<K: OrderedId>(o: Option<K>) -> Seq<char> {
    match o {
        Some(k) => k.id_debug(),
        None => "None"@,
    }
}

/// Statistics about a raft log: its chunks, its payload cache and the flush
/// worker.
#[derive(Debug, Clone)]
pub struct Stat<T: Types> {
    /// The closed (complete) chunks.
    pub closed_chunks: Vec<ChunkStat<RaftLogState<T>>>,
    /// The chunk being written.
    pub open_chunk: ChunkStat<RaftLogState<T>>,
    /// The last log id the payload cache may evict.
    pub payload_cache_last_evictable: Option<T::LogId>,
    pub payload_cache_item_count: u64,
    pub payload_cache_max_item: u64,
    /// The size of the cached payloads, in bytes.
    pub payload_cache_size: u64,
    pub payload_cache_capacity: u64,
    pub payload_cache_miss: u64,
    pub payload_cache_hit: u64,
    /// Flush worker batching and IO metrics.
    pub flush_metrics: FlushMetrics,
}

/// The closed chunks displayed and joined with `sep`.
pub open spec fn joined_chunks<T: Types>(cs: Seq<ChunkStat<RaftLogState<T>>>, sep: Seq<char>) -> Seq<char>
    decreases cs.len(),
{
    if cs.len() == 0 {
        Seq::empty()
    } else if cs.len() == 1 {
        cs[0].spec_display()
    } else {
        joined_chunks(cs.drop_last(), sep) + sep + cs.last().spec_display()
    }
}

impl<T: Types> Stat<T> {
    /// `{}` of the statistics; with `alternate` (`{:#}`) every part is on a
    /// line of its own.
    pub open spec fn spec_display(self, alternate: bool) -> Seq<char> {
        let lb = if alternate { "\n"@ } else { ""@ };
        let idt = if alternate { "  "@ } else { ""@ };
        "Stat{"@ + lb + " closed_chunks: ["@ + lb + idt + joined_chunks(self.closed_chunks@, ","@ + lb + idt)
            + lb + " ],"@ + lb + " open_chunk: "@ + self.open_chunk.spec_display() + ","@ + lb
            + " payload_cache:{evictable: ..="@ + opt_display_debug(self.payload_cache_last_evictable)
            + ",item/max: "@ + pad9(self.payload_cache_item_count) + " / "@ + pad9(self.payload_cache_max_item)
            + ",size/cap: "@ + pad9(self.payload_cache_size) + " / "@ + pad9(self.payload_cache_capacity)
            + ",miss: "@ + pad9(self.payload_cache_miss) + ",hit: "@ + pad9(self.payload_cache_hit) + "}"@ + lb
            + "}"@
    }

    pub fn display(&self, alternate: bool) -> (r: String)
        ensures
            r@ == self.spec_display(alternate),
    {
        let lb = if alternate { "\n" } else { "" };
        let idt = if alternate { "  " } else { "" };
        proof {
            reveal_strlit("\n");
            reveal_strlit("");
            reveal_strlit("  ");
        }
        let mut s = String::new();
        push_str(&mut s, "Stat{");
        push_str(&mut s, lb);
        push_str(&mut s, " closed_chunks: [");
        push_str(&mut s, lb);
        push_str(&mut s, idt);
        let ghost sep = ","@ + lb@ + idt@;
        let ghost before = s@;
        let mut i: usize = 0;
        while i < self.closed_chunks.len()
            invariant
                i <= self.closed_chunks@.len(),
                sep == ","@ + lb@ + idt@,
                s@ == before + joined_chunks(self.closed_chunks@.take(i as int), sep),
            decreases self.closed_chunks@.len() - i,
        {
            let ghost prev = self.closed_chunks@.take(i as int);
            if i > 0 {
                push_str(&mut s, ",");
                push_str(&mut s, lb);
                push_str(&mut s, idt);
            }
            let c = self.closed_chunks[i].display();
            push_str(&mut s, c.as_str());
            proof {
                let next = self.closed_chunks@.take(i + 1);
                assert(next.drop_last() =~= prev);
                assert(next.last() == self.closed_chunks@[i as int]);
                if i == 0 {
                    assert(prev =~= Seq::<ChunkStat<RaftLogState<T>>>::empty());
                    assert(s@ =~= before + joined_chunks(next, sep));
                } else {
                    assert(s@ =~= before + joined_chunks(next, sep));
                }
            }
            i = i + 1;
        }
        proof {
            assert(self.closed_chunks@.take(i as int) =~= self.closed_chunks@);
        }
        push_str(&mut s, lb);
        push_str(&mut s, " ],");
        push_str(&mut s, lb);
        push_str(&mut s, " open_chunk: ");
        let o = self.open_chunk.display();
        push_str(&mut s, o.as_str());
        push_str(&mut s, ",");
        push_str(&mut s, lb);
        push_str(&mut s, " payload_cache:{evictable: ..=");
        match &self.payload_cache_last_evictable {
            Some(k) => k.write_id_debug(&mut s),
            None => push_str(&mut s, "None"),
        }
        push_str(&mut s, ",item/max: ");
        push_pad9(&mut s, self.payload_cache_item_count);
        push_str(&mut s, " / ");
        push_pad9(&mut s, self.payload_cache_max_item);
        push_str(&mut s, ",size/cap: ");
        push_pad9(&mut s, self.payload_cache_size);
        push_str(&mut s, " / ");
        push_pad9(&mut s, self.payload_cache_capacity);
        push_str(&mut s, ",miss: ");
        push_pad9(&mut s, self.payload_cache_miss);
        push_str(&mut s, ",hit: ");
        push_pad9(&mut s, self.payload_cache_hit);
        push_str(&mut s, "}");
        push_str(&mut s, lb);
        push_str(&mut s, "}");
        proof {
            assert(s@ =~= self.spec_display(alternate));
        }
        s
    }
}

} // verus!
