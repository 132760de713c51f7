//! Stable ordering of indices by integer keys.
use vstd::prelude::*;

use crate::lex::{compare_bytes, lemma_seq_lt_total, lemma_seq_lt_transitive, seq_lt};

verus! {

/// `order` lists the indices `0..keys.len()` once each, by nondecreasing key,
/// and indices with equal keys in increasing order: the result of a stable
/// sort of the indices by key.
pub open spec fn is_stable_order(keys: Seq<u32>, order: Seq<usize>) -> bool {
    &&& order.len() == keys.len()
    &&& forall|a: int| 0 <= a < order.len() ==> (#[trigger] order[a]) < keys.len()
    &&& forall|a: int, b: int| 0 <= a < b < order.len() ==> order[a] != order[b]
    &&& forall|a: int, b: int|
        0 <= a < b < order.len() ==> keys[order[a] as int] <= keys[order[b] as int]
    &&& forall|a: int, b: int|
        0 <= a < b < order.len() && keys[order[a] as int] == keys[order[b] as int] ==> order[a]
            < order[b]
}

/// The elements of `s` in the order the indices of `order` list them.
pub open spec fn reorder<T>(s: Seq<T>, order: Seq<usize>) -> Seq<T> {
    Seq::new(order.len(), |k: int| s[order[k] as int])
}

/// The indices of `keys`, stably sorted by key.
pub fn stable_order(keys: &Vec<u32>) -> (order: Vec<usize>)
    ensures
        is_stable_order(keys@, order@),
{
    let n = keys.len();
    let mut order: Vec<usize> = Vec::new();
    let mut i: usize = 0;
    while i < n
        invariant
            i <= n,
            n == keys@.len(),
            order@.len() == i,
            forall|a: int| 0 <= a < order@.len() ==> (#[trigger] order@[a]) < i,
            forall|a: int, b: int| 0 <= a < b < order@.len() ==> order@[a] != order@[b],
            forall|a: int, b: int|
                0 <= a < b < order@.len() ==> keys@[order@[a] as int] <= keys@[order@[b] as int],
            forall|a: int, b: int|
                0 <= a < b < order@.len() && keys@[order@[a] as int] == keys@[order@[b] as int]
                    ==> order@[a] < order@[b],
        decreases n - i,
    {
        let key = keys[i];
        // Position after every entry whose key is <= key.
        let mut p: usize = 0;
        while p < order.len() && keys[order[p]] <= key
            invariant
                p <= order@.len(),
                order@.len() == i,
                i < n,
                n == keys@.len(),
                key == keys@[i as int],
                forall|a: int| 0 <= a < order@.len() ==> (#[trigger] order@[a]) < i,
                forall|a: int| 0 <= a < p ==> keys@[#[trigger] order@[a] as int] <= key,
            decreases order@.len() - p,
        {
            p += 1;
        }
        let ghost old_order = order@;
        proof {
            // Every entry from p on has a key greater than `key` (sortedness).
            assert forall|a: int| p <= a < old_order.len() implies keys@[#[trigger] old_order[a] as int]
                > key by {
                if p < old_order.len() {
                    assert(keys@[old_order[p as int] as int] > key);
                    if a > p {
                        assert(keys@[old_order[p as int] as int] <= keys@[old_order[a] as int]);
                    }
                }
            }
        }
        order.insert(p, i);
        proof {
            let s = order@;
            assert(s == old_order.insert(p as int, i));
            old_order.insert_ensures(p as int, i);
            assert forall|a: int| 0 <= a < s.len() implies (#[trigger] s[a]) < i + 1 by {
                if a < p {
                    assert(s[a] == old_order[a]);
                } else if a > p {
                    assert(s[a] == old_order[a - 1]);
                }
            }
            assert forall|a: int, b: int| 0 <= a < b < s.len() implies s[a] != s[b] && keys@[s[a] as int]
                <= keys@[s[b] as int] && (keys@[s[a] as int] == keys@[s[b] as int] ==> s[a] < s[b]) by {
                if b < p {
                    assert(s[a] == old_order[a] && s[b] == old_order[b]);
                } else if b == p {
                    assert(s[a] == old_order[a]);
                    assert(keys@[old_order[a] as int] <= key);
                } else if a > p {
                    assert(s[a] == old_order[a - 1] && s[b] == old_order[b - 1]);
                } else if a == p {
                    assert(s[b] == old_order[b - 1]);
                    assert(keys@[old_order[b - 1] as int] > key);
                } else {
                    assert(s[a] == old_order[a] && s[b] == old_order[b - 1]);
                }
            }
        }
        i += 1;
    }
    order
}

/// `order` lists the indices `0..keys.len()` once each, by nondecreasing
/// byte-string key (lexicographic), and indices with equal keys in
/// increasing order: the result of a stable sort of the indices by key.
pub open spec fn is_stable_order_bytes(keys: Seq<Seq<u8>>, order: Seq<usize>) -> bool {
    &&& order.len() == keys.len()
    &&& forall|a: int| 0 <= a < order.len() ==> (#[trigger] order[a]) < keys.len()
    &&& forall|a: int, b: int| 0 <= a < b < order.len() ==> order[a] != order[b]
    &&& forall|a: int, b: int|
        0 <= a < b < order.len() ==> !seq_lt(keys[order[b] as int], keys[order[a] as int])
    &&& forall|a: int, b: int|
        0 <= a < b < order.len() && keys[order[a] as int] == keys[order[b] as int] ==> order[a]
            < order[b]
}

/// Byte vectors as sequences.
pub open spec fn bytes_view(v: Seq<Vec<u8>>) -> Seq<Seq<u8>> {
    v.map_values(|k: Vec<u8>| k@)
}

/// The indices of `keys`, stably sorted by byte-string key.
pub fn stable_order_bytes(keys: &Vec<Vec<u8>>) -> (order: Vec<usize>)
    ensures
        is_stable_order_bytes(bytes_view(keys@), order@),
{
    let ghost ks = bytes_view(keys@);
    let n = keys.len();
    let mut order: Vec<usize> = Vec::new();
    let mut i: usize = 0;
    while i < n
        invariant
            i <= n,
            n == keys@.len(),
            ks == bytes_view(keys@),
            order@.len() == i,
            forall|a: int| 0 <= a < order@.len() ==> (#[trigger] order@[a]) < i,
            forall|a: int, b: int| 0 <= a < b < order@.len() ==> order@[a] != order@[b],
            forall|a: int, b: int|
                0 <= a < b < order@.len() ==> !seq_lt(ks[order@[b] as int], ks[order@[a] as int]),
            forall|a: int, b: int|
                0 <= a < b < order@.len() && ks[order@[a] as int] == ks[order@[b] as int] ==> order@[a]
                    < order@[b],
        decreases n - i,
    {
        let ghost key = ks[i as int];
        let mut p: usize = 0;
        let mut stop = false;
        while p < order.len() && !stop
            invariant
                p <= order@.len(),
                order@.len() == i,
                i < n,
                n == keys@.len(),
                ks == bytes_view(keys@),
                key == ks[i as int],
                forall|a: int| 0 <= a < order@.len() ==> (#[trigger] order@[a]) < i,
                forall|a: int| 0 <= a < p ==> !seq_lt(key, ks[#[trigger] order@[a] as int]),
                stop ==> p < order@.len() && seq_lt(key, ks[order@[p as int] as int]),
            decreases 2 * (order@.len() - p) + if stop { 0int } else { 1int },
        {
            let c = compare_bytes(keys[i].as_slice(), keys[order[p]].as_slice());
            if c < 0 {
                stop = true;
            } else {
                p += 1;
            }
        }
        let ghost old_order = order@;
        proof {
            assert forall|a: int| p <= a < old_order.len() implies seq_lt(key, ks[#[trigger] old_order[a] as int]) by {
                assert(seq_lt(key, ks[old_order[p as int] as int]));
                if a > p {
                    let kp = ks[old_order[p as int] as int];
                    let ka = ks[old_order[a] as int];
                    assert(!seq_lt(ka, kp));
                    lemma_seq_lt_total(kp, ka);
                    if kp != ka {
                        lemma_seq_lt_transitive(key, kp, ka);
                    }
                }
            }
        }
        order.insert(p, i);
        proof {
            let s = order@;
            assert(s == old_order.insert(p as int, i));
            old_order.insert_ensures(p as int, i);
            assert forall|a: int| 0 <= a < s.len() implies (#[trigger] s[a]) < i + 1 by {
                if a < p {
                    assert(s[a] == old_order[a]);
                } else if a > p {
                    assert(s[a] == old_order[a - 1]);
                }
            }
            assert forall|a: int, b: int| 0 <= a < b < s.len() implies s[a] != s[b] && !seq_lt(
                ks[s[b] as int],
                ks[s[a] as int],
            ) && (ks[s[a] as int] == ks[s[b] as int] ==> s[a] < s[b]) by {
                if b < p {
                    assert(s[a] == old_order[a] && s[b] == old_order[b]);
                } else if b == p {
                    assert(s[a] == old_order[a]);
                    assert(!seq_lt(key, ks[old_order[a] as int]));
                    lemma_seq_lt_total(key, ks[old_order[a] as int]);
                } else if a > p {
                    assert(s[a] == old_order[a - 1] && s[b] == old_order[b - 1]);
                } else if a == p {
                    assert(s[b] == old_order[b - 1]);
                    assert(seq_lt(key, ks[old_order[b - 1] as int]));
                    lemma_seq_lt_total(key, ks[old_order[b - 1] as int]);
                    crate::lex::lemma_seq_lt_irreflexive(key);
                } else {
                    assert(s[a] == old_order[a] && s[b] == old_order[b - 1]);
                }
            }
        }
        i += 1;
    }
    order
}

/// Some entry of `order` is `j`.
pub open spec fn names_index(order: Seq<usize>, j: int) -> bool {
    exists|k: int| 0 <= k < order.len() && order[k] == j
}

/// `n` distinct indices below `n` name every index below `n`.
pub proof fn lemma_indices_cover(order: Seq<usize>, n: int)
    requires
        order.len() == n,
        forall|a: int| 0 <= a < order.len() ==> (#[trigger] order[a]) < n,
        forall|a: int, b: int| 0 <= a < b < order.len() ==> order[a] != order[b],
    ensures
        forall|j: int| 0 <= j < n ==> #[trigger] names_index(order, j),
{
    broadcast use vstd::set::group_set_axioms, vstd::seq_lib::seq_to_set_is_finite;
    let oi = order.map_values(|x: usize| x as int);
    assert(oi.no_duplicates()) by {
        assert forall|a: int, b: int| 0 <= a < oi.len() && 0 <= b < oi.len() && a != b implies oi[a] != oi[b] by {
            if a < b {
                assert(order[a] != order[b]);
            } else {
                assert(order[b] != order[a]);
            }
        }
    }
    oi.unique_seq_to_set();
    let r = vstd::set_lib::set_int_range(0, n);
    vstd::set_lib::lemma_int_range(0, n);
    assert(oi.to_set().subset_of(r)) by {
        assert forall|x: int| oi.to_set().contains(x) implies r.contains(x) by {
            assert(oi.contains(x));
            let k = choose|k: int| 0 <= k < oi.len() && oi[k] == x;
            assert(order[k] < n);
        }
    }
    vstd::set_lib::lemma_subset_equality(oi.to_set(), r);
    assert forall|j: int| 0 <= j < n implies #[trigger] names_index(order, j) by {
        assert(r.contains(j));
        assert(oi.to_set().contains(j));
        assert(oi.contains(j));
        let k = choose|k: int| 0 <= k < oi.len() && oi[k] == j;
        assert(order[k] as int == j);
    }
}

} // verus!
