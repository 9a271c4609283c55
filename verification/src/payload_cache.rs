//! A size- and count-bounded cache of log entry payloads, ordered by log id.

use vstd::prelude::*;

use crate::raft_log_state::{opt_le, opt_lt, lemma_opt_order};
use crate::sorted::{count_le, count_lt, inserted, lemma_count_le, lemma_count_le_unique, lemma_count_lt, lemma_count_lt_unique, lemma_inserted, sorted};
use crate::types::{key_lt, DataValue, OrderedId, PayloadValue, Types};

verus! {

/// The view of a cached entry: its log id and the view of its payload.
pub type EntryView<T> = (<T as Types>::LogId, <<T as Types>::LogPayload as View>::V);

/// The size a payload is charged, as the cache's `usize` counter adds it.
pub open spec fn charged<T: Types>(p: <T::LogPayload as View>::V) -> int {
    (T::LogPayload::size(p) as usize) as int
}

/// The total size charged for the payloads of `s`.
pub open spec fn sum_sizes<T: Types>(s: Seq<EntryView<T>>) -> int
    decreases s.len(),
{
    if s.len() == 0 {
        0
    } else {
        sum_sizes::<T>(s.drop_last()) + charged::<T>(s.last().1)
    }
}

/// The sizes of a sequence split in two add up to the sizes of the whole.
pub proof fn lemma_sum_sizes_split<T: Types>(s: Seq<EntryView<T>>, n: int)
    requires
        0 <= n <= s.len(),
    ensures
        sum_sizes::<T>(s) == sum_sizes::<T>(s.subrange(0, n)) + sum_sizes::<T>(s.subrange(n, s.len() as int)),
        sum_sizes::<T>(s.subrange(0, n)) >= 0,
        sum_sizes::<T>(s.subrange(n, s.len() as int)) >= 0,
    decreases s.len(),
{
    if n == s.len() {
        assert(s.subrange(0, n) == s);
        assert(s.subrange(n, s.len() as int) =~= Seq::<EntryView<T>>::empty());
        lemma_sum_sizes_nonneg::<T>(s);
    } else {
        lemma_sum_sizes_split::<T>(s.drop_last(), n);
        assert(s.drop_last().subrange(0, n) == s.subrange(0, n));
        assert(s.subrange(n, s.len() as int).drop_last() == s.drop_last().subrange(n, s.len() - 1));
        assert(s.subrange(n, s.len() as int).last() == s.last());
    }
}

/// Sizes are never negative.
pub proof fn lemma_sum_sizes_nonneg<T: Types>(s: Seq<EntryView<T>>)
    ensures
        sum_sizes::<T>(s) >= 0,
    decreases s.len(),
{
    if s.len() > 0 {
        lemma_sum_sizes_nonneg::<T>(s.drop_last());
    }
}

/// The sizes of two sequences joined are the sizes of each, added.
pub proof fn lemma_sum_sizes_concat<T: Types>(a: Seq<EntryView<T>>, b: Seq<EntryView<T>>)
    ensures
        sum_sizes::<T>(a + b) == sum_sizes::<T>(a) + sum_sizes::<T>(b),
    decreases b.len(),
{
    if b.len() == 0 {
        assert(a + b == a);
    } else {
        lemma_sum_sizes_concat::<T>(a, b.drop_last());
        assert((a + b).drop_last() == a + b.drop_last());
    }
}

/// The size of one entry is what it is charged.
pub proof fn lemma_sum_sizes_single<T: Types>(x: EntryView<T>)
    ensures
        sum_sizes::<T>(seq![x]) == charged::<T>(x.1),
{
    assert(seq![x].drop_last() =~= Seq::<EntryView<T>>::empty());
    assert(sum_sizes::<T>(Seq::<EntryView<T>>::empty()) == 0);
    assert(seq![x].last() == x);
}

/// The smaller of two bounds.
pub open spec fn opt_min<K: OrderedId>(a: Option<K>, b: Option<K>) -> Option<K> {
    if opt_lt(b, a) {
        b
    } else {
        a
    }
}

/// What eviction leaves of the entries and of the size counter: while the
/// cache holds more than `max_items` entries or `capacity` bytes, and its
/// first entry is at or below `last_evictable`, the first entry goes.
pub open spec fn evicted<T: Types>(
    s: Seq<EntryView<T>>,
    size: int,
    max_items: nat,
    capacity: nat,
    last_evictable: Option<T::LogId>,
) -> (Seq<EntryView<T>>, int)
    decreases s.len(),
{
    if (s.len() > max_items || size > capacity) && s.len() > 0 && opt_le(Some(s[0].0), last_evictable) {
        evicted::<T>(s.drop_first(), size - charged::<T>(s[0].1), max_items, capacity, last_evictable)
    } else {
        (s, size)
    }
}

/// Eviction only removes a run of leading entries at or below
/// `last_evictable`.
pub proof fn lemma_evicted_is_evictable_prefix<T: Types>(
    s: Seq<EntryView<T>>,
    size: int,
    max_items: nat,
    capacity: nat,
    le: Option<T::LogId>,
)
    requires
        sorted(s),
    ensures
        exists|m: int|
            0 <= m <= count_le(s, le) && #[trigger] evicted::<T>(s, size, max_items, capacity, le).0
                == s.subrange(m, s.len() as int),
    decreases s.len(),
{
    lemma_count_le(s, le);
    if (s.len() > max_items || size > capacity) && s.len() > 0 && opt_le(Some(s[0].0), le) {
        let t = s.drop_first();
        assert(sorted(t));
        lemma_evicted_is_evictable_prefix::<T>(t, size - charged::<T>(s[0].1), max_items, capacity, le);
        let m = choose|m: int|
            0 <= m <= count_le(t, le) && #[trigger] evicted::<T>(t, size - charged::<T>(s[0].1), max_items, capacity, le).0
                == t.subrange(m, t.len() as int);
        assert(t.subrange(m, t.len() as int) =~= s.subrange(m + 1, s.len() as int));
        assert(evicted::<T>(s, size, max_items, capacity, le).0 == s.subrange(m + 1, s.len() as int));
    } else {
        assert(s.subrange(0, s.len() as int) =~= s);
        assert(evicted::<T>(s, size, max_items, capacity, le).0 == s.subrange(0, s.len() as int));
    }
}

/// Eviction keeps every entry above `last_evictable`: those entries must stay
/// in memory.
pub proof fn lemma_eviction_keeps_unevictable<T: Types>(
    s: Seq<EntryView<T>>,
    size: int,
    max_items: nat,
    capacity: nat,
    le: Option<T::LogId>,
)
    requires
        sorted(s),
    ensures
        forall|i: int|
            0 <= i < s.len() && !opt_le(Some(s[i].0), le) ==> evicted::<T>(
                s,
                size,
                max_items,
                capacity,
                le,
            ).0.contains(#[trigger] s[i]),
{
    lemma_evicted_is_evictable_prefix::<T>(s, size, max_items, capacity, le);
    lemma_count_le(s, le);
    let m = choose|m: int|
        0 <= m <= count_le(s, le) && #[trigger] evicted::<T>(s, size, max_items, capacity, le).0
            == s.subrange(m, s.len() as int);
    assert forall|i: int| 0 <= i < s.len() && !opt_le(Some(s[i].0), le) implies evicted::<T>(
        s,
        size,
        max_items,
        capacity,
        le,
    ).0.contains(#[trigger] s[i]) by {
        assert(i >= m);
        assert(s.subrange(m, s.len() as int)[i - m] == s[i]);
    }
}

/// In sorted entries, an entry found by key is the one `lookup` gives.
pub proof fn lemma_lookup_unique<T: Types>(c: PayloadCacheView<T>, i: int)
    requires
        sorted(c.entries),
        0 <= i < c.entries.len(),
    ensures
        c.lookup(c.entries[i].0) == Some(c.entries[i].1),
{
    let k = c.entries[i].0;
    let j = choose|j: int| 0 <= j < c.entries.len() && c.entries[j].0 == k;
    if j < i {
        assert(key_lt(c.entries[j].0.key(), c.entries[i].0.key()));
    } else if j > i {
        assert(key_lt(c.entries[i].0.key(), c.entries[j].0.key()));
    }
}

/// A payload inserted above `last_evictable` is read back: whatever the
/// cache evicts to make room, `lookup` of its log id gives it.
pub proof fn lemma_insert_then_lookup<T: Types>(
    c: PayloadCacheView<T>,
    k: T::LogId,
    v: <T::LogPayload as View>::V,
    after: PayloadCacheView<T>,
)
    requires
        c.wf(),
        !opt_le(Some(k), c.last_evictable),
        (after.entries, after.size as int) == evicted::<T>(
            inserted(c.entries, k, v),
            c.size + charged::<T>(v),
            c.max_items,
            c.capacity,
            c.last_evictable,
        ),
    ensures
        after.lookup(k) == Some(v),
{
    let n = inserted(c.entries, k, v);
    lemma_inserted(c.entries, k, v);
    let i = choose|i: int| 0 <= i < n.len() && n[i] == (k, v);
    lemma_eviction_keeps_unevictable::<T>(n, c.size + charged::<T>(v), c.max_items, c.capacity, c.last_evictable);
    assert(after.entries.contains(n[i]));
    let j = choose|j: int| 0 <= j < after.entries.len() && after.entries[j] == (k, v);
    lemma_evicted_is_evictable_prefix::<T>(n, c.size + charged::<T>(v), c.max_items, c.capacity, c.last_evictable);
    let m = choose|m: int|
        0 <= m <= count_le(n, c.last_evictable) && #[trigger] evicted::<T>(n, c.size + charged::<T>(v), c.max_items, c.capacity, c.last_evictable).0
            == n.subrange(m, n.len() as int);
    lemma_count_le(n, c.last_evictable);
    assert(after.entries == evicted::<T>(n, c.size + charged::<T>(v), c.max_items, c.capacity, c.last_evictable).0);
    assert(after.entries == n.subrange(m, n.len() as int));
    assert(sorted(after.entries)) by {
        assert forall|a: int, b: int| 0 <= a < b < after.entries.len() implies key_lt(#[trigger] after.entries[a].0.key(), #[trigger] after.entries[b].0.key()) by {
            assert(after.entries[a] == n[a + m] && after.entries[b] == n[b + m]);
        }
    }
    lemma_lookup_unique::<T>(after, j);
}

/// Eviction keeps a size counter that is exactly the charged size of the
/// entries exact.
pub proof fn lemma_evicted_exact_size<T: Types>(
    s: Seq<EntryView<T>>,
    size: int,
    max_items: nat,
    capacity: nat,
    le: Option<T::LogId>,
)
    requires
        size == sum_sizes::<T>(s),
    ensures
        evicted::<T>(s, size, max_items, capacity, le).1 == sum_sizes::<T>(
            evicted::<T>(s, size, max_items, capacity, le).0,
        ),
    decreases s.len(),
{
    if (s.len() > max_items || size > capacity) && s.len() > 0 && opt_le(Some(s[0].0), le) {
        lemma_sum_sizes_split::<T>(s, 1);
        lemma_sum_sizes_single::<T>(s[0]);
        assert(s.subrange(0, 1) =~= seq![s[0]]);
        assert(s.subrange(1, s.len() as int) =~= s.drop_first());
        lemma_evicted_exact_size::<T>(s.drop_first(), size - charged::<T>(s[0].1), max_items, capacity, le);
    }
}

/// Inserting an entry under a key the sorted entries do not hold adds
/// exactly its charge to their total.
pub proof fn lemma_inserted_new_sum<T: Types>(s: Seq<EntryView<T>>, k: T::LogId, v: <T::LogPayload as View>::V)
    requires
        sorted(s),
        forall|j: int| 0 <= j < s.len() ==> s[j].0 != k,
    ensures
        sum_sizes::<T>(inserted(s, k, v)) == sum_sizes::<T>(s) + charged::<T>(v),
{
    lemma_count_lt(s, k);
    let i = count_lt(s, k) as int;
    let x = (k, v);
    lemma_sum_sizes_split::<T>(s, i);
    lemma_sum_sizes_single::<T>(x);
    lemma_sum_sizes_concat::<T>(s.subrange(0, i), seq![x]);
    lemma_sum_sizes_concat::<T>(s.subrange(0, i) + seq![x], s.subrange(i, s.len() as int));
    assert(s.insert(i, x) =~= s.subrange(0, i) + seq![x] + s.subrange(i, s.len() as int));
}

/// What a [`PayloadCache`] holds.
pub struct PayloadCacheView<T: Types> {
    pub max_items: nat,
    pub capacity: nat,
    pub size: nat,
    pub entries: Seq<EntryView<T>>,
    pub last_evictable: Option<T::LogId>,
}

impl<T: Types> PayloadCacheView<T> {
    /// The payload cached for `k`.
    pub open spec fn lookup(self, k: T::LogId) -> Option<<T::LogPayload as View>::V> {
        if exists|i: int| 0 <= i < self.entries.len() && self.entries[i].0 == k {
            let i = choose|i: int| 0 <= i < self.entries.len() && self.entries[i].0 == k;
            Some(self.entries[i].1)
        } else {
            None
        }
    }

    /// The size counter is exactly the charged size of the entries. It stays
    /// so through every operation but an insert that replaces a cached
    /// payload, which charges the new payload on top of the old one.
    pub open spec fn exact_size(self) -> bool {
        self.size == sum_sizes::<T>(self.entries)
    }

    /// Sorted entries, and a size counter that covers their payloads.
    pub open spec fn wf(self) -> bool {
        &&& sorted(self.entries)
        &&& self.size >= sum_sizes::<T>(self.entries)
    }
}

/// A cache of log payloads, ordered by log id.
///
/// Eviction is bounded by `last_evictable`: every entry above it must stay
/// in memory, because it may not yet be readable from disk.
pub struct PayloadCache<T: Types> {
    max_items: usize,
    capacity: usize,
    size: usize,
    cache: Vec<(T::LogId, T::LogPayload)>,
    /// The last evictable log id.
    ///
    /// All logs with log id after this value must be held in memory.
    last_evictable: Option<T::LogId>,
}

impl<T: Types> View for PayloadCache<T> {
    type V = PayloadCacheView<T>;

    closed spec fn view(&self) -> PayloadCacheView<T> {
        PayloadCacheView {
            max_items: self.max_items as nat,
            capacity: self.capacity as nat,
            size: self.size as nat,
            entries: self.cache@.map_values(|e: (T::LogId, T::LogPayload)| (e.0, e.1@)),
            last_evictable: self.last_evictable,
        }
    }
}


impl<T: Types> PayloadCache<T> {
    proof fn lemma_view_entry(&self, i: int)
        requires
            0 <= i < self.cache@.len(),
        ensures
            self@.entries.len() == self.cache@.len(),
            self@.entries[i] == (self.cache@[i].0, self.cache@[i].1@),
    {
    }

    /// An empty cache that holds at most `max_items` entries and `capacity`
    /// bytes of payload, beyond what it may not evict.
    pub fn new(max_items: usize, capacity: usize) -> (r: Self)
        ensures
            r@.max_items == max_items,
            r@.capacity == capacity,
            r@.size == 0,
            r@.entries.len() == 0,
            r@.last_evictable is None,
            r@.wf(),
            r@.exact_size(),
    {
        let r = Self { max_items, capacity, size: 0, cache: Vec::new(), last_evictable: None };
        assert(r@.entries =~= Seq::<EntryView<T>>::empty());
        r
    }

    /// A copy of the cache.
    pub fn duplicate(&self) -> (r: Self)
        ensures
            r@ == self@,
    {
        let mut cache: Vec<(T::LogId, T::LogPayload)> = Vec::new();
        let mut i: usize = 0;
        while i < self.cache.len()
            invariant
                i <= self.cache@.len(),
                cache@.len() == i,
                forall|k: int|
                    0 <= k < i ==> (#[trigger] cache@[k]).0 == self.cache@[k].0 && cache@[k].1@ == self.cache@[k].1@,
            decreases self.cache@.len() - i,
        {
            let e = &self.cache[i];
            cache.push((e.0.copy_id(), e.1.duplicate()));
            i = i + 1;
        }
        let r = Self {
            max_items: self.max_items,
            capacity: self.capacity,
            size: self.size,
            cache,
            last_evictable: crate::raft_log_state::copy_opt_id(&self.last_evictable),
        };
        assert(r@.entries =~= self@.entries);
        r
    }

    /// Entries at or below `log_id` may now be evicted.
    pub fn set_last_evictable(&mut self, log_id: Option<T::LogId>)
        ensures
            final(self)@ == (PayloadCacheView { last_evictable: log_id, ..old(self)@ }),
    {
        self.last_evictable = log_id;
        assert(self@.entries =~= old(self)@.entries);
    }

    pub fn last_evictable(&self) -> (r: Option<&T::LogId>)
        ensures
            r matches Some(v) ==> self@.last_evictable == Some(*v),
            r is None <==> self@.last_evictable is None,
    {
        self.last_evictable.as_ref()
    }

    pub fn item_count(&self) -> (r: usize)
        ensures
            r == self@.entries.len(),
    {
        self.cache.len()
    }

    pub fn max_items(&self) -> (r: usize)
        ensures
            r == self@.max_items,
    {
        self.max_items
    }

    pub fn total_size(&self) -> (r: usize)
        ensures
            r == self@.size,
    {
        self.size
    }

    pub fn capacity(&self) -> (r: usize)
        ensures
            r == self@.capacity,
    {
        self.capacity
    }

    /// The number of leading entries below `k`.
    fn position_of(&self, k: &T::LogId) -> (r: usize)
        requires
            self@.wf(),
        ensures
            r == count_lt(self@.entries, *k),
            r <= self@.entries.len(),
    {
        let ghost s = self@.entries;
        let mut lo: usize = 0;
        let mut hi: usize = self.cache.len();
        while lo < hi
            invariant
                s == self@.entries,
                sorted(s),
                s.len() == self.cache@.len(),
                lo <= hi <= s.len(),
                forall|i: int| 0 <= i < lo ==> key_lt(#[trigger] s[i].0.key(), k.key()),
                forall|i: int| hi <= i < s.len() ==> !key_lt(#[trigger] s[i].0.key(), k.key()),
            decreases hi - lo,
        {
            let mid = lo + (hi - lo) / 2;
            proof {
                self.lemma_view_entry(mid as int);
            }
            if self.cache[mid].0.id_lt(k) {
                assert forall|i: int| 0 <= i < mid + 1 implies key_lt(#[trigger] s[i].0.key(), k.key()) by {
                    if i < mid {
                        assert(key_lt(s[i].0.key(), s[mid as int].0.key()));
                    }
                }
                lo = mid + 1;
            } else {
                assert forall|i: int| mid <= i < s.len() implies !key_lt(#[trigger] s[i].0.key(), k.key()) by {
                    if i > mid {
                        assert(key_lt(s[mid as int].0.key(), s[i].0.key()));
                    }
                }
                hi = mid;
            }
        }
        proof {
            lemma_count_lt_unique(s, *k, lo as int);
        }
        lo
    }

    /// The number of leading entries at or below `bound`.
    fn count_at_or_below(&self, bound: &Option<T::LogId>) -> (r: usize)
        requires
            self@.wf(),
        ensures
            r == count_le(self@.entries, *bound),
            r <= self@.entries.len(),
    {
        let ghost s = self@.entries;
        let mut lo: usize = 0;
        let mut hi: usize = self.cache.len();
        while lo < hi
            invariant
                s == self@.entries,
                sorted(s),
                s.len() == self.cache@.len(),
                lo <= hi <= s.len(),
                forall|i: int| 0 <= i < lo ==> opt_le(Some(#[trigger] s[i].0), *bound),
                forall|i: int| hi <= i < s.len() ==> !opt_le(Some(#[trigger] s[i].0), *bound),
            decreases hi - lo,
        {
            let mid = lo + (hi - lo) / 2;
            proof {
                self.lemma_view_entry(mid as int);
            }
            let above = match bound {
                Some(b) => b.id_lt(&self.cache[mid].0),
                None => true,
            };
            proof {
                if let Some(b) = bound {
                    T::LogId::lemma_key_injective(s[mid as int].0, *b);
                }
            }
            if !above {
                assert forall|i: int| 0 <= i < mid + 1 implies opt_le(Some(#[trigger] s[i].0), *bound) by {
                    if i < mid {
                        assert(key_lt(s[i].0.key(), s[mid as int].0.key()));
                    }
                }
                lo = mid + 1;
            } else {
                assert forall|i: int| mid <= i < s.len() implies !opt_le(Some(#[trigger] s[i].0), *bound) by {
                    if i > mid {
                        assert(key_lt(s[mid as int].0.key(), s[i].0.key()));
                    }
                    if let Some(b) = bound {
                        T::LogId::lemma_key_injective(s[i].0, *b);
                    }
                }
                hi = mid;
            }
        }
        proof {
            lemma_count_le_unique(s, *bound, lo as int);
        }
        lo
    }

    /// The total charged size of the entries in `[from, to)`.
    fn sum_range(&self, from: usize, to: usize) -> (r: usize)
        requires
            self@.wf(),
            from <= to <= self@.entries.len(),
        ensures
            r == sum_sizes::<T>(self@.entries.subrange(from as int, to as int)),
    {
        let ghost s = self@.entries;
        proof {
            lemma_sum_sizes_split::<T>(s, from as int);
            lemma_sum_sizes_split::<T>(s.subrange(from as int, s.len() as int), to - from);
            assert(s.subrange(from as int, s.len() as int).subrange(0, to - from) =~= s.subrange(from as int, to as int));
        }
        let mut sum: usize = 0;
        let mut i: usize = from;
        while i < to
            invariant
                s == self@.entries,
                s.len() == self.cache@.len(),
                from <= i <= to <= s.len(),
                sum == sum_sizes::<T>(s.subrange(from as int, i as int)),
                sum_sizes::<T>(s.subrange(from as int, to as int)) <= self.size,
            decreases to - i,
        {
            proof {
                self.lemma_view_entry(i as int);
                assert(s.subrange(from as int, i + 1).drop_last() == s.subrange(from as int, i as int));
                assert(s.subrange(from as int, i + 1).last() == s[i as int]);
                let sub = s.subrange(from as int, to as int);
                lemma_sum_sizes_split::<T>(sub, i + 1 - from);
                assert(sub.subrange(0, i + 1 - from) =~= s.subrange(from as int, i + 1));
            }
            #[verifier::truncate]
            let p = self.cache[i].1.payload_size() as usize;
            sum = sum + p;
            i = i + 1;
        }
        sum
    }

    pub fn need_evict(&self) -> (r: bool)
        ensures
            r == (self@.entries.len() > self@.max_items || self@.size > self@.capacity),
    {
        self.cache.len() > self.max_items || self.size > self.capacity
    }

    /// Remove the first entry and its charge.
    fn evict_first(&mut self)
        requires
            old(self)@.wf(),
            old(self)@.entries.len() > 0,
        ensures
            final(self)@ == (PayloadCacheView {
                entries: old(self)@.entries.drop_first(),
                size: (old(self)@.size - charged::<T>(old(self)@.entries[0].1)) as nat,
                ..old(self)@
            }),
            final(self)@.wf(),
    {
        let ghost s = self@.entries;
        proof {
            self.lemma_view_entry(0);
            lemma_sum_sizes_split::<T>(s, 1);
            lemma_sum_sizes_single::<T>(s[0]);
            assert(s.subrange(0, 1) =~= seq![s[0]]);
            assert(s.subrange(1, s.len() as int) =~= s.drop_first());
        }
        let (_log_id, payload) = self.cache.remove(0);
        #[verifier::truncate]
        let p = payload.payload_size() as usize;
        self.size = self.size - p;
        assert(self@.entries =~= s.drop_first());
    }

    /// Evict entries from the front while the cache is over its limits and
    /// the first entry is evictable.
    pub fn try_evict(&mut self)
        requires
            old(self)@.wf(),
        ensures
            final(self)@.wf(),
            (final(self)@.entries, final(self)@.size as int) == evicted::<T>(
                old(self)@.entries,
                old(self)@.size as int,
                old(self)@.max_items,
                old(self)@.capacity,
                old(self)@.last_evictable,
            ),
            final(self)@.max_items == old(self)@.max_items,
            final(self)@.capacity == old(self)@.capacity,
            final(self)@.last_evictable == old(self)@.last_evictable,
            old(self)@.exact_size() ==> final(self)@.exact_size(),
    {
        proof {
            if old(self)@.exact_size() {
                lemma_evicted_exact_size::<T>(
                    old(self)@.entries,
                    old(self)@.size as int,
                    old(self)@.max_items,
                    old(self)@.capacity,
                    old(self)@.last_evictable,
                );
            }
        }
        while self.need_evict()
            invariant
                self@.wf(),
                self@.max_items == old(self)@.max_items,
                self@.capacity == old(self)@.capacity,
                self@.last_evictable == old(self)@.last_evictable,
                evicted::<T>(self@.entries, self@.size as int, self@.max_items, self@.capacity, self@.last_evictable)
                    == evicted::<T>(old(self)@.entries, old(self)@.size as int, old(self)@.max_items, old(self)@.capacity, old(self)@.last_evictable),
                old(self)@.exact_size() ==> evicted::<T>(old(self)@.entries, old(self)@.size as int, old(self)@.max_items, old(self)@.capacity, old(self)@.last_evictable).1
                    == sum_sizes::<T>(evicted::<T>(old(self)@.entries, old(self)@.size as int, old(self)@.max_items, old(self)@.capacity, old(self)@.last_evictable).0),
            decreases self@.entries.len(),
        {
            if self.cache.len() == 0 {
                return;
            }
            proof {
                self.lemma_view_entry(0);
                T::LogId::lemma_key_injective(self.cache@[0].0, self.cache@[0].0);
            }
            let evictable = match &self.last_evictable {
                Some(le) => !le.id_lt(&self.cache[0].0),
                None => false,
            };
            proof {
                if let Some(le) = self@.last_evictable {
                    T::LogId::lemma_key_injective(self.cache@[0].0, le);
                }
            }
            if evictable {
                let ghost pre = self@;
                proof {
                    lemma_sum_sizes_split::<T>(pre.entries, 1);
                    lemma_sum_sizes_single::<T>(pre.entries[0]);
                    assert(pre.entries.subrange(0, 1) =~= seq![pre.entries[0]]);
                }
                assert(evicted::<T>(pre.entries, pre.size as int, pre.max_items, pre.capacity, pre.last_evictable)
                    == evicted::<T>(pre.entries.drop_first(), pre.size - charged::<T>(pre.entries[0].1), pre.max_items, pre.capacity, pre.last_evictable));
                self.evict_first();
            } else {
                return;
            }
        }
    }

    /// Insert a payload, replacing the one cached for the same log id, then
    /// evict as [`Self::try_evict`] does.
    ///
    /// The size counter grows by the new payload's size even when it
    /// replaces a cached one.
    pub fn insert(&mut self, key: T::LogId, value: T::LogPayload)
        requires
            old(self)@.wf(),
            old(self)@.size + charged::<T>(value@) <= usize::MAX,
        ensures
            final(self)@.wf(),
            (final(self)@.entries, final(self)@.size as int) == evicted::<T>(
                inserted(old(self)@.entries, key, value@),
                old(self)@.size + charged::<T>(value@),
                old(self)@.max_items,
                old(self)@.capacity,
                old(self)@.last_evictable,
            ),
            final(self)@.max_items == old(self)@.max_items,
            final(self)@.capacity == old(self)@.capacity,
            final(self)@.last_evictable == old(self)@.last_evictable,
            old(self)@.exact_size() && old(self)@.lookup(key) is None ==> final(self)@.exact_size(),
    {
        proof {
            if old(self)@.exact_size() && old(self)@.lookup(key) is None {
                let s0 = old(self)@.entries;
                assert forall|j: int| 0 <= j < s0.len() implies s0[j].0 != key by {
                    if s0[j].0 == key {
                        assert(exists|i: int| 0 <= i < s0.len() && s0[i].0 == key);
                    }
                }
                lemma_inserted_new_sum::<T>(s0, key, value@);
                lemma_evicted_exact_size::<T>(
                    inserted(s0, key, value@),
                    old(self)@.size + charged::<T>(value@),
                    old(self)@.max_items,
                    old(self)@.capacity,
                    old(self)@.last_evictable,
                );
            }
        }
        let ghost s = self@.entries;
        let ghost x = (key, value@);
        #[verifier::truncate]
        let p = value.payload_size() as usize;
        let i = self.position_of(&key);
        proof {
            lemma_count_lt(s, key);
            lemma_sum_sizes_split::<T>(s, i as int);
            lemma_sum_sizes_single::<T>(x);
        }
        let replace = i < self.cache.len() && self.cache[i].0.id_eq(&key);
        if replace {
            proof {
                self.lemma_view_entry(i as int);
                lemma_sum_sizes_split::<T>(s.subrange(i as int, s.len() as int), 1);
                lemma_sum_sizes_single::<T>(s[i as int]);
                assert(s.subrange(i as int, s.len() as int).subrange(0, 1) =~= seq![s[i as int]]);
                assert(s.subrange(i as int, s.len() as int).subrange(1, s.len() - i) =~= s.subrange(i + 1, s.len() as int));
                lemma_sum_sizes_concat::<T>(s.subrange(0, i as int), seq![x]);
                lemma_sum_sizes_concat::<T>(s.subrange(0, i as int) + seq![x], s.subrange(i + 1, s.len() as int));
                assert(s.update(i as int, x) =~= s.subrange(0, i as int) + seq![x] + s.subrange(i + 1, s.len() as int));
            }
            self.cache.set(i, (key, value));
        } else {
            proof {
                lemma_sum_sizes_concat::<T>(s.subrange(0, i as int), seq![x]);
                lemma_sum_sizes_concat::<T>(s.subrange(0, i as int) + seq![x], s.subrange(i as int, s.len() as int));
                assert(s.insert(i as int, x) =~= s.subrange(0, i as int) + seq![x] + s.subrange(i as int, s.len() as int));
                if i < s.len() {
                    self.lemma_view_entry(i as int);
                    T::LogId::lemma_key_injective(s[i as int].0, key);
                }
            }
            self.cache.insert(i, (key, value));
        }
        self.size = self.size + p;
        proof {
            let n = inserted(s, key, x.1);
            assert(self@.entries =~= n);
            assert forall|a: int, b: int| 0 <= a < b < n.len() implies key_lt(#[trigger] n[a].0.key(), #[trigger] n[b].0.key()) by {
                if !replace {
                    if a < i && b > i {
                        assert(n[b] == s[b - 1]);
                    } else if a == i && b > i {
                        assert(n[b] == s[b - 1]);
                    } else if a > i {
                        assert(n[a] == s[a - 1] && n[b] == s[b - 1]);
                    }
                }
            }
        }
        self.try_evict();
    }

    /// Evict all entries up to `last_evictable` regardless of cache fullness.
    ///
    /// Normally eviction only runs during `insert()`, when the cache exceeds
    /// its limits. This brings the cache to a state that does not depend on
    /// when `last_evictable` was moved.
    pub fn drain_evictable(&mut self)
        requires
            old(self)@.wf(),
        ensures
            final(self)@.wf(),
            old(self)@.exact_size() ==> final(self)@.exact_size(),
            final(self)@ == (PayloadCacheView {
                entries: old(self)@.entries.subrange(
                    count_le(old(self)@.entries, old(self)@.last_evictable) as int,
                    old(self)@.entries.len() as int,
                ),
                size: (old(self)@.size - sum_sizes::<T>(old(self)@.entries.subrange(
                    0,
                    count_le(old(self)@.entries, old(self)@.last_evictable) as int,
                ))) as nat,
                ..old(self)@
            }),
    {
        let le = crate::raft_log_state::copy_opt_id(&self.last_evictable);
        self.remove_front(&le);
    }

    /// Remove the leading entries at or below `bound`.
    fn remove_front(&mut self, bound: &Option<T::LogId>)
        requires
            old(self)@.wf(),
        ensures
            final(self)@.wf(),
            old(self)@.exact_size() ==> final(self)@.exact_size(),
            final(self)@ == (PayloadCacheView {
                entries: old(self)@.entries.subrange(
                    count_le(old(self)@.entries, *bound) as int,
                    old(self)@.entries.len() as int,
                ),
                size: (old(self)@.size - sum_sizes::<T>(old(self)@.entries.subrange(
                    0,
                    count_le(old(self)@.entries, *bound) as int,
                ))) as nat,
                ..old(self)@
            }),
    {
        let ghost s = self@.entries;
        let n = self.count_at_or_below(bound);
        let removed = self.sum_range(0, n);
        proof {
            lemma_sum_sizes_split::<T>(s, n as int);
        }
        let rest = self.cache.split_off(n);
        self.cache = rest;
        self.size = self.size - removed;
        proof {
            assert(self@.entries =~= s.subrange(n as int, s.len() as int));
        }
    }

    /// The payload cached for `key`.
    pub fn get(&self, key: &T::LogId) -> (r: Option<T::LogPayload>)
        requires
            self@.wf(),
        ensures
            r matches Some(p) ==> self@.lookup(*key) == Some(p@),
            r is None ==> self@.lookup(*key) is None,
    {
        let ghost s = self@.entries;
        let i = self.position_of(key);
        proof {
            lemma_count_lt(s, *key);
        }
        if i < self.cache.len() && self.cache[i].0.id_eq(key) {
            proof {
                self.lemma_view_entry(i as int);
                let j = choose|j: int| 0 <= j < s.len() && s[j].0 == *key;
                if j != i {
                    if j < i {
                        assert(key_lt(s[j].0.key(), s[i as int].0.key()));
                    } else {
                        assert(key_lt(s[i as int].0.key(), s[j].0.key()));
                    }
                }
            }
            Some(self.cache[i].1.duplicate())
        } else {
            proof {
                if exists|j: int| 0 <= j < s.len() && s[j].0 == *key {
                    let j = choose|j: int| 0 <= j < s.len() && s[j].0 == *key;
                    if j < i {
                        assert(key_lt(s[j].0.key(), key.key()));
                    } else if j > i {
                        self.lemma_view_entry(i as int);
                        assert(key_lt(s[i as int].0.key(), s[j].0.key()));
                    } else {
                        self.lemma_view_entry(i as int);
                    }
                }
            }
            None
        }
    }

    /// Remove every entry after `key`.
    pub fn truncate_after(&mut self, key: &T::LogId)
        requires
            old(self)@.wf(),
        ensures
            final(self)@.wf(),
            old(self)@.exact_size() ==> final(self)@.exact_size(),
            final(self)@ == (PayloadCacheView {
                entries: old(self)@.entries.subrange(0, count_le(old(self)@.entries, Some(*key)) as int),
                size: (old(self)@.size - sum_sizes::<T>(old(self)@.entries.subrange(
                    count_le(old(self)@.entries, Some(*key)) as int,
                    old(self)@.entries.len() as int,
                ))) as nat,
                ..old(self)@
            }),
    {
        let ghost s = self@.entries;
        let bound = Some(key.copy_id());
        let n = self.count_at_or_below(&bound);
        let len = self.cache.len();
        let removed = self.sum_range(n, len);
        proof {
            lemma_sum_sizes_split::<T>(s, n as int);
        }
        self.cache.truncate(n);
        self.size = self.size - removed;
        proof {
            assert(self@.entries =~= s.subrange(0, n as int));
        }
    }

    /// Remove the leading entries that are at or below both `key` and
    /// `last_evictable`.
    pub fn purge_upto(&mut self, key: &T::LogId)
        requires
            old(self)@.wf(),
        ensures
            final(self)@.wf(),
            old(self)@.exact_size() ==> final(self)@.exact_size(),
            ({
                let n = count_le(old(self)@.entries, opt_min(Some(*key), old(self)@.last_evictable)) as int;
                final(self)@ == (PayloadCacheView {
                    entries: old(self)@.entries.subrange(n, old(self)@.entries.len() as int),
                    size: (old(self)@.size - sum_sizes::<T>(old(self)@.entries.subrange(0, n))) as nat,
                    ..old(self)@
                })
            }),
    {
        let k = Some(key.copy_id());
        let bound = if crate::raft_log_state::opt_id_lt(&self.last_evictable, &k) {
            crate::raft_log_state::copy_opt_id(&self.last_evictable)
        } else {
            k
        };
        self.remove_front(&bound);
    }

    /// Remove every entry.
    pub fn clear(&mut self)
        ensures
            final(self)@ == (PayloadCacheView { entries: Seq::<EntryView<T>>::empty(), size: 0, ..old(self)@ }),
            final(self)@.wf(),
            final(self)@.exact_size(),
    {
        self.cache.clear();
        self.size = 0;
        assert(self@.entries =~= Seq::<EntryView<T>>::empty());
    }
}

} // verus!
