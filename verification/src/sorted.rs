//! Vectors of `(key, value)` entries kept in strictly increasing key order,
//! and the searches over them.

use vstd::prelude::*;

use crate::raft_log_state::opt_le;
use crate::types::{key_lt, OrderedId};

verus! {

/// The keys of `s` strictly increase.
pub open spec fn sorted<K: OrderedId, V>(s: Seq<(K, V)>) -> bool {
    forall|i: int, j: int| 0 <= i < j < s.len() ==> key_lt(#[trigger] s[i].0.key(), #[trigger] s[j].0.key())
}

/// The number of leading entries of `s` whose key is below `k`.
pub open spec fn count_lt<K: OrderedId, V>(s: Seq<(K, V)>, k: K) -> nat
    decreases s.len(),
{
    if s.len() > 0 && key_lt(s[0].0.key(), k.key()) {
        1 + count_lt(s.drop_first(), k)
    } else {
        0
    }
}

/// The number of leading entries of `s` whose key is at or below `bound`
/// (none, when there is no bound).
pub open spec fn count_le<K: OrderedId, V>(s: Seq<(K, V)>, bound: Option<K>) -> nat
    decreases s.len(),
{
    if s.len() > 0 && opt_le(Some(s[0].0), bound) {
        1 + count_le(s.drop_first(), bound)
    } else {
        0
    }
}

/// In a sorted sequence, the entries below `k` are exactly the first
/// `count_lt(s, k)`.
pub proof fn lemma_count_lt<K: OrderedId, V>(s: Seq<(K, V)>, k: K)
    requires
        sorted(s),
    ensures
        count_lt(s, k) <= s.len(),
        forall|i: int| 0 <= i < count_lt(s, k) ==> key_lt(#[trigger] s[i].0.key(), k.key()),
        forall|i: int| count_lt(s, k) <= i < s.len() ==> !key_lt(#[trigger] s[i].0.key(), k.key()),
    decreases s.len(),
{
    if s.len() > 0 {
        lemma_count_lt(s.drop_first(), k);
        assert(sorted(s.drop_first()));
        if !key_lt(s[0].0.key(), k.key()) {
            assert forall|i: int| 0 <= i < s.len() implies !key_lt(#[trigger] s[i].0.key(), k.key()) by {
                if i > 0 {
                    assert(key_lt(s[0].0.key(), s[i].0.key()));
                }
            }
        } else {
            assert forall|i: int| 0 <= i < count_lt(s, k) implies key_lt(#[trigger] s[i].0.key(), k.key()) by {
                if i > 0 {
                    assert(s[i] == s.drop_first()[i - 1]);
                }
            }
            assert forall|i: int| count_lt(s, k) <= i < s.len() implies !key_lt(#[trigger] s[i].0.key(), k.key()) by {
                assert(s[i] == s.drop_first()[i - 1]);
            }
        }
    }
}

/// In a sorted sequence, the entries at or below `bound` are exactly the
/// first `count_le(s, bound)`.
pub proof fn lemma_count_le<K: OrderedId, V>(s: Seq<(K, V)>, bound: Option<K>)
    requires
        sorted(s),
    ensures
        count_le(s, bound) <= s.len(),
        forall|i: int| 0 <= i < count_le(s, bound) ==> opt_le(Some(#[trigger] s[i].0), bound),
        forall|i: int| count_le(s, bound) <= i < s.len() ==> !opt_le(Some(#[trigger] s[i].0), bound),
    decreases s.len(),
{
    if s.len() > 0 {
        lemma_count_le(s.drop_first(), bound);
        assert(sorted(s.drop_first()));
        if !opt_le(Some(s[0].0), bound) {
            assert forall|i: int| 0 <= i < s.len() implies !opt_le(Some(#[trigger] s[i].0), bound) by {
                if i > 0 {
                    assert(key_lt(s[0].0.key(), s[i].0.key()));
                    K::lemma_key_injective(s[0].0, s[i].0);
                    if let Some(b) = bound {
                        K::lemma_key_injective(s[i].0, b);
                    }
                }
            }
        } else {
            assert forall|i: int| 0 <= i < count_le(s, bound) implies opt_le(Some(#[trigger] s[i].0), bound) by {
                if i > 0 {
                    assert(s[i] == s.drop_first()[i - 1]);
                }
            }
            assert forall|i: int| count_le(s, bound) <= i < s.len() implies !opt_le(Some(#[trigger] s[i].0), bound) by {
                assert(s[i] == s.drop_first()[i - 1]);
            }
        }
    }
}

/// A sorted sequence whose prefix of length `n` holds exactly the entries
/// satisfying a prefix-closed condition has `count_le` equal to `n`.
pub proof fn lemma_count_le_unique<K: OrderedId, V>(s: Seq<(K, V)>, bound: Option<K>, n: int)
    requires
        0 <= n <= s.len(),
        forall|i: int| 0 <= i < n ==> opt_le(Some(#[trigger] s[i].0), bound),
        n < s.len() ==> !opt_le(Some(s[n].0), bound),
    ensures
        count_le(s, bound) == n,
    decreases n,
{
    if n > 0 {
        assert(opt_le(Some(s[0].0), bound));
        assert forall|i: int| 0 <= i < n - 1 implies opt_le(Some(#[trigger] s.drop_first()[i].0), bound) by {
            assert(s.drop_first()[i] == s[i + 1]);
        }
        if n < s.len() {
            assert(s.drop_first()[n - 1] == s[n]);
        }
        lemma_count_le_unique(s.drop_first(), bound, n - 1);
    }
}

/// A sequence whose first `n` entries are below `k` and whose next entry is not has `count_lt` equal to `n`.
pub proof fn lemma_count_lt_unique<K: OrderedId, V>(s: Seq<(K, V)>, k: K, n: int)
    requires
        0 <= n <= s.len(),
        forall|i: int| 0 <= i < n ==> key_lt(#[trigger] s[i].0.key(), k.key()),
        n < s.len() ==> !key_lt(s[n].0.key(), k.key()),
    ensures
        count_lt(s, k) == n,
    decreases n,
{
    if n > 0 {
        assert(key_lt(s[0].0.key(), k.key()));
        assert forall|i: int| 0 <= i < n - 1 implies key_lt(#[trigger] s.drop_first()[i].0.key(), k.key()) by {
            assert(s.drop_first()[i] == s[i + 1]);
        }
        if n < s.len() {
            assert(s.drop_first()[n - 1] == s[n]);
        }
        lemma_count_lt_unique(s.drop_first(), k, n - 1);
    }
}

/// The entries after inserting `(k, v)` into sorted entries: the value of an
/// entry with key `k` is replaced, or a new entry is placed in order.
pub open spec fn inserted<K: OrderedId, V>(s: Seq<(K, V)>, k: K, v: V) -> Seq<(K, V)> {
    let i = count_lt(s, k) as int;
    if i < s.len() && s[i].0 == k {
        s.update(i, (k, v))
    } else {
        s.insert(i, (k, v))
    }
}

/// Inserting keeps the entries sorted and places the new entry.
pub proof fn lemma_inserted<K: OrderedId, V>(s: Seq<(K, V)>, k: K, v: V)
    requires
        sorted(s),
    ensures
        sorted(inserted(s, k, v)),
        inserted(s, k, v).contains((k, v)),
{
    lemma_count_lt(s, k);
    let i = count_lt(s, k) as int;
    let n = inserted(s, k, v);
    if i < s.len() && s[i].0 == k {
        assert(n[i] == (k, v));
    } else {
        if i < s.len() {
            K::lemma_key_injective(s[i].0, k);
        }
        assert(n[i] == (k, v));
        assert forall|a: int, b: int| 0 <= a < b < n.len() implies key_lt(#[trigger] n[a].0.key(), #[trigger] n[b].0.key()) by {
            if a < i && b > i {
                assert(n[b] == s[b - 1]);
            } else if a == i && b > i {
                assert(n[b] == s[b - 1]);
            } else if a > i {
                assert(n[a] == s[a - 1] && n[b] == s[b - 1]);
            }
        }
    }
}

/// The number of leading entries of `v` whose key is below `k`, found by
/// binary search.
pub fn position_lt<K: OrderedId, V>(v: &Vec<(K, V)>, k: &K) -> (r: usize)
    requires
        sorted(v@),
    ensures
        r == count_lt(v@, *k),
        r <= v@.len(),
{
    let ghost s = v@;
    let mut lo: usize = 0;
    let mut hi: usize = v.len();
    while lo < hi
        invariant
            s == v@,
            sorted(s),
            lo <= hi <= s.len(),
            forall|i: int| 0 <= i < lo ==> key_lt(#[trigger] s[i].0.key(), k.key()),
            forall|i: int| hi <= i < s.len() ==> !key_lt(#[trigger] s[i].0.key(), k.key()),
        decreases hi - lo,
    {
        let mid = lo + (hi - lo) / 2;
        if v[mid].0.id_lt(k) {
            assert forall|i: int| 0 <= i < mid + 1 implies key_lt(#[trigger] s[i].0.key(), k.key()) by {
                if i < mid {
                    assert(key_lt(s[i].0.key(), s[mid as int].0.key()));
                }
            }
            lo = mid + 1;
        } else {
            assert forall|i: int| mid <= i < s.len() implies !key_lt(#[trigger] s[i].0.key(), k.key()) by {
                if i > mid {
                    assert(key_lt(s[mid as int].0.key(), s[i].0.key()));
                }
            }
            hi = mid;
        }
    }
    proof {
        lemma_count_lt_unique(s, *k, lo as int);
    }
    lo
}

} // verus!
