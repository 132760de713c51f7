//! Sorted lookups in the two RESTBL tables: the order each table is kept
//! in, what a lookup finds there, and binary searches over both.
use vstd::prelude::*;
use vstd::utf8::encode_utf8;

use crate::lex::{compare_bytes, lemma_seq_lt_irreflexive, lemma_seq_lt_transitive, seq_lt};
use super::{CrcEntry, CrcModel, NameEntry, NameModel, crc_view, names_view, crc_with_size, names_with_size};

verus! {

/// The CRC table is sorted by strictly increasing hash.
pub open spec fn crc_sorted(s: Seq<CrcModel>) -> bool {
    forall|i: int, j: int| 0 <= i < j < s.len() ==> #[trigger] s[i].0 < #[trigger] s[j].0
}

/// Some entry of the CRC table has hash `h`.
pub open spec fn crc_has(s: Seq<CrcModel>, h: u32) -> bool {
    exists|i: int| 0 <= i < s.len() && #[trigger] s[i].0 == h
}

/// The size recorded for hash `h`, if any entry has it.
pub open spec fn crc_lookup(s: Seq<CrcModel>, h: u32) -> Option<u32> {
    if crc_has(s, h) {
        Some(s[choose|i: int| 0 <= i < s.len() && #[trigger] s[i].0 == h].1)
    } else {
        None
    }
}

/// The order of names: that of their UTF-8 bytes.
pub open spec fn name_lt(a: Seq<char>, b: Seq<char>) -> bool {
    seq_lt(encode_utf8(a), encode_utf8(b))
}

/// The name table is sorted by strictly increasing name.
pub open spec fn names_sorted(s: Seq<NameModel>) -> bool {
    forall|i: int, j: int| 0 <= i < j < s.len() ==> name_lt(#[trigger] s[i].0, #[trigger] s[j].0)
}

/// Some entry of the name table has name `n`.
pub open spec fn names_has(s: Seq<NameModel>, n: Seq<char>) -> bool {
    exists|i: int| 0 <= i < s.len() && #[trigger] s[i].0 == n
}

/// The size recorded for name `n`, if any entry has it.
pub open spec fn name_lookup(s: Seq<NameModel>, n: Seq<char>) -> Option<u32> {
    if names_has(s, n) {
        Some(s[choose|i: int| 0 <= i < s.len() && #[trigger] s[i].0 == n].1)
    } else {
        None
    }
}

/// Binary search of the CRC table for `hash`, in the manner of
/// `slice::binary_search_by`: `Ok` with the index of an entry with that
/// hash, or `Err` with the position where it would be inserted.
pub fn crc_search(entries: &Vec<CrcEntry>, hash: u32) -> (r: Result<usize, usize>)
    ensures
        r matches Ok(i) ==> i < entries@.len() && entries@[i as int].hash == hash,
        r matches Err(i) ==> i <= entries@.len(),
        crc_sorted(crc_view(entries@)) ==> match r {
            Ok(i) => crc_lookup(crc_view(entries@), hash) == Some(entries@[i as int].size),
            Err(i) => (forall|j: int| 0 <= j < i ==> #[trigger] entries@[j].hash < hash) && (forall|j: int|
                i <= j < entries@.len() ==> #[trigger] entries@[j].hash > hash) && crc_lookup(
                crc_view(entries@),
                hash,
            ) is None,
        },
{
    let ghost v = crc_view(entries@);
    let mut lo: usize = 0;
    let mut hi: usize = entries.len();
    while lo < hi
        invariant
            lo <= hi <= entries@.len(),
            v == crc_view(entries@),
            crc_sorted(v) ==> (forall|j: int| 0 <= j < lo ==> #[trigger] entries@[j].hash < hash) && (forall|
                j: int,
            | hi <= j < entries@.len() ==> #[trigger] entries@[j].hash > hash),
        decreases hi - lo,
    {
        let mid = lo + (hi - lo) / 2;
        let h = entries[mid].hash;
        if h == hash {
            proof {
                assert(v[mid as int].0 == hash);
                if crc_sorted(v) {
                    lemma_crc_unique(v, mid as int, hash);
                }
            }
            return Ok(mid);
        } else if h < hash {
            proof {
                if crc_sorted(v) {
                    assert forall|j: int| 0 <= j < mid + 1 implies #[trigger] entries@[j].hash < hash by {
                        if j < mid {
                            assert(v[j].0 < v[mid as int].0);
                        }
                    }
                }
            }
            lo = mid + 1;
        } else {
            proof {
                if crc_sorted(v) {
                    assert forall|j: int| mid <= j < entries@.len() implies #[trigger] entries@[j].hash > hash by {
                        if j > mid {
                            assert(v[mid as int].0 < v[j].0);
                        }
                    }
                }
            }
            hi = mid;
        }
    }
    proof {
        if crc_sorted(v) && crc_has(v, hash) {
            let k = choose|k: int| 0 <= k < v.len() && #[trigger] v[k].0 == hash;
            assert(entries@[k].hash == hash);
        }
    }
    Err(lo)
}

/// Binary search of the name table for `name`, comparing names as
/// `str::cmp` does (byte-wise): `Ok` with the index of an entry with that
/// name, or `Err` with the position where it would be inserted.
pub fn name_search(entries: &Vec<NameEntry>, name: &str) -> (r: Result<usize, usize>)
    ensures
        r matches Ok(i) ==> i < entries@.len() && entries@[i as int].name@ == name@,
        r matches Err(i) ==> i <= entries@.len(),
        names_sorted(names_view(entries@)) ==> match r {
            Ok(i) => name_lookup(names_view(entries@), name@) == Some(entries@[i as int].size),
            Err(i) => (forall|j: int| 0 <= j < i ==> name_lt(#[trigger] entries@[j].name@, name@)) && (forall|
                j: int,
            | i <= j < entries@.len() ==> name_lt(name@, #[trigger] entries@[j].name@)) && name_lookup(
                names_view(entries@),
                name@,
            ) is None,
        },
{
    let ghost v = names_view(entries@);
    let key = name.as_bytes();
    let mut lo: usize = 0;
    let mut hi: usize = entries.len();
    while lo < hi
        invariant
            lo <= hi <= entries@.len(),
            v == names_view(entries@),
            key@ == encode_utf8(name@),
            names_sorted(v) ==> (forall|j: int| 0 <= j < lo ==> name_lt(#[trigger] entries@[j].name@, name@)) && (
            forall|j: int| hi <= j < entries@.len() ==> name_lt(name@, #[trigger] entries@[j].name@)),
        decreases hi - lo,
    {
        let mid = lo + (hi - lo) / 2;
        let c = compare_bytes(entries[mid].name.as_str().as_bytes(), key);
        let ghost m = entries@[mid as int].name@;
        if c == 0 {
            proof {
                vstd::utf8::encode_utf8_decode_utf8(m);
                vstd::utf8::encode_utf8_decode_utf8(name@);
                assert(v[mid as int].0 == name@);
                if names_sorted(v) {
                    lemma_names_unique(v, mid as int, name@);
                }
            }
            return Ok(mid);
        } else if c < 0 {
            proof {
                if names_sorted(v) {
                    assert forall|j: int| 0 <= j < mid + 1 implies name_lt(#[trigger] entries@[j].name@, name@) by {
                        if j < mid {
                            assert(name_lt(v[j].0, v[mid as int].0));
                            lemma_seq_lt_transitive(encode_utf8(v[j].0), encode_utf8(m), encode_utf8(name@));
                        }
                    }
                }
            }
            lo = mid + 1;
        } else {
            proof {
                if names_sorted(v) {
                    assert forall|j: int| mid <= j < entries@.len() implies name_lt(name@, #[trigger] entries@[j].name@) by {
                        if j > mid {
                            assert(name_lt(v[mid as int].0, v[j].0));
                            lemma_seq_lt_transitive(encode_utf8(name@), encode_utf8(m), encode_utf8(v[j].0));
                        }
                    }
                }
            }
            hi = mid;
        }
    }
    proof {
        if names_sorted(v) && names_has(v, name@) {
            let k = choose|k: int| 0 <= k < v.len() && #[trigger] v[k].0 == name@;
            assert(entries@[k].name@ == name@);
            lemma_seq_lt_irreflexive(encode_utf8(name@));
        }
    }
    Err(lo)
}

/// In a sorted CRC table, a hash sits at one index at most.
pub proof fn lemma_crc_unique(s: Seq<CrcModel>, i: int, h: u32)
    requires
        crc_sorted(s),
        0 <= i < s.len(),
        s[i].0 == h,
    ensures
        crc_lookup(s, h) == Some(s[i].1),
{
    let k = choose|k: int| 0 <= k < s.len() && #[trigger] s[k].0 == h;
    if k < i {
        assert(s[k].0 < s[i].0);
    } else if k > i {
        assert(s[i].0 < s[k].0);
    }
}

/// Updating the size of entry `i` of a sorted CRC table keeps it sorted and
/// changes the lookup of that entry's hash only.
pub proof fn lemma_crc_update_lookup(s: Seq<CrcModel>, i: int, size: u32)
    requires
        0 <= i < s.len(),
    ensures
        crc_sorted(s) ==> crc_sorted(crc_with_size(s, i, size)) && forall|h: u32| #[trigger] crc_lookup(
            crc_with_size(s, i, size),
            h,
        ) == if h == s[i].0 {
            Some(size)
        } else {
            crc_lookup(s, h)
        },
{
    let t = crc_with_size(s, i, size);
    if crc_sorted(s) {
        assert(crc_sorted(t)) by {
            assert forall|a: int, b: int| 0 <= a < b < t.len() implies #[trigger] t[a].0 < #[trigger] t[b].0 by {
                assert(s[a].0 < s[b].0);
            }
        }
        assert forall|h: u32| #[trigger] crc_lookup(t, h) == if h == s[i].0 {
            Some(size)
        } else {
            crc_lookup(s, h)
        } by {
            if h == s[i].0 {
                lemma_crc_unique(t, i, h);
            } else if crc_has(s, h) {
                let k = choose|k: int| 0 <= k < s.len() && #[trigger] s[k].0 == h;
                lemma_crc_unique(s, k, h);
                assert(t[k].0 == h);
                lemma_crc_unique(t, k, h);
            } else {
                assert(!crc_has(t, h)) by {
                    if crc_has(t, h) {
                        let k = choose|k: int| 0 <= k < t.len() && #[trigger] t[k].0 == h;
                        assert(s[k].0 == h);
                    }
                }
            }
        }
    }
}

/// Inserting a new hash at the position the search reported keeps a sorted
/// CRC table sorted and adds exactly that hash's lookup.
pub proof fn lemma_crc_insert_lookup(s: Seq<CrcModel>, i: int, hash: u32, size: u32)
    requires
        crc_sorted(s),
        0 <= i <= s.len(),
        forall|j: int| 0 <= j < i ==> #[trigger] s[j].0 < hash,
        forall|j: int| i <= j < s.len() ==> #[trigger] s[j].0 > hash,
    ensures
        crc_sorted(s.insert(i, (hash, size))),
        forall|h: u32| #[trigger] crc_lookup(s.insert(i, (hash, size)), h) == if h == hash {
            Some(size)
        } else {
            crc_lookup(s, h)
        },
{
    let t = s.insert(i, (hash, size));
    assert forall|a: int, b: int| 0 <= a < b < t.len() implies #[trigger] t[a].0 < #[trigger] t[b].0 by {
        if b < i {
            assert(s[a].0 < s[b].0);
        } else if a > i {
            assert(s[a - 1].0 < s[b - 1].0);
        } else if a == i {
            assert(s[b - 1].0 > hash);
        } else if b == i {
            assert(s[a].0 < hash);
        } else {
            assert(s[a].0 < hash && hash < s[b - 1].0);
        }
    }
    assert forall|h: u32| #[trigger] crc_lookup(t, h) == if h == hash {
        Some(size)
    } else {
        crc_lookup(s, h)
    } by {
        if h == hash {
            lemma_crc_unique(t, i, h);
        } else if crc_has(s, h) {
            let k = choose|k: int| 0 <= k < s.len() && #[trigger] s[k].0 == h;
            lemma_crc_unique(s, k, h);
            let k2 = if k < i { k } else { k + 1 };
            assert(t[k2].0 == h);
            lemma_crc_unique(t, k2, h);
        } else {
            assert(!crc_has(t, h)) by {
                if crc_has(t, h) {
                    let k = choose|k: int| 0 <= k < t.len() && #[trigger] t[k].0 == h;
                    if k < i {
                        assert(s[k].0 == h);
                    } else if k > i {
                        assert(s[k - 1].0 == h);
                    }
                }
            }
        }
    }
}

/// In a sorted name table, a name sits at one index at most.
pub proof fn lemma_names_unique(s: Seq<NameModel>, i: int, n: Seq<char>)
    requires
        names_sorted(s),
        0 <= i < s.len(),
        s[i].0 == n,
    ensures
        name_lookup(s, n) == Some(s[i].1),
{
    let k = choose|k: int| 0 <= k < s.len() && #[trigger] s[k].0 == n;
    lemma_seq_lt_irreflexive(encode_utf8(n));
    if k < i {
        assert(name_lt(s[k].0, s[i].0));
    } else if k > i {
        assert(name_lt(s[i].0, s[k].0));
    }
}

/// Updating the size of entry `i` of a sorted name table keeps it sorted and
/// changes the lookup of that entry's name only.
pub proof fn lemma_names_update_lookup(s: Seq<NameModel>, i: int, size: u32)
    requires
        0 <= i < s.len(),
    ensures
        names_sorted(s) ==> names_sorted(names_with_size(s, i, size)) && forall|n: Seq<char>|
            #[trigger] name_lookup(names_with_size(s, i, size), n) == if n == s[i].0 {
                Some(size)
            } else {
                name_lookup(s, n)
            },
{
    let t = names_with_size(s, i, size);
    if names_sorted(s) {
        assert(names_sorted(t)) by {
            assert forall|a: int, b: int| 0 <= a < b < t.len() implies name_lt(#[trigger] t[a].0, #[trigger] t[b].0) by {
                assert(name_lt(s[a].0, s[b].0));
            }
        }
        assert forall|n: Seq<char>| #[trigger] name_lookup(t, n) == if n == s[i].0 {
            Some(size)
        } else {
            name_lookup(s, n)
        } by {
            if n == s[i].0 {
                lemma_names_unique(t, i, n);
            } else if names_has(s, n) {
                let k = choose|k: int| 0 <= k < s.len() && #[trigger] s[k].0 == n;
                lemma_names_unique(s, k, n);
                assert(t[k].0 == n);
                lemma_names_unique(t, k, n);
            } else {
                assert(!names_has(t, n)) by {
                    if names_has(t, n) {
                        let k = choose|k: int| 0 <= k < t.len() && #[trigger] t[k].0 == n;
                        assert(s[k].0 == n);
                    }
                }
            }
        }
    }
}

/// Inserting a new name at the position the search reported keeps a sorted
/// name table sorted and adds exactly that name's lookup.
pub proof fn lemma_names_insert_lookup(s: Seq<NameModel>, i: int, name: Seq<char>, size: u32)
    requires
        names_sorted(s),
        0 <= i <= s.len(),
        forall|j: int| 0 <= j < i ==> name_lt(#[trigger] s[j].0, name),
        forall|j: int| i <= j < s.len() ==> name_lt(name, #[trigger] s[j].0),
    ensures
        names_sorted(s.insert(i, (name, size))),
        forall|n: Seq<char>| #[trigger] name_lookup(s.insert(i, (name, size)), n) == if n == name {
            Some(size)
        } else {
            name_lookup(s, n)
        },
{
    let t = s.insert(i, (name, size));
    assert forall|a: int, b: int| 0 <= a < b < t.len() implies name_lt(#[trigger] t[a].0, #[trigger] t[b].0) by {
        if b < i {
            assert(name_lt(s[a].0, s[b].0));
        } else if a > i {
            assert(name_lt(s[a - 1].0, s[b - 1].0));
        } else if a == i {
            assert(name_lt(name, s[b - 1].0));
        } else if b == i {
            assert(name_lt(s[a].0, name));
        } else {
            assert(name_lt(s[a].0, name) && name_lt(name, s[b - 1].0));
            lemma_seq_lt_transitive(encode_utf8(s[a].0), encode_utf8(name), encode_utf8(s[b - 1].0));
        }
    }
    assert forall|n: Seq<char>| #[trigger] name_lookup(t, n) == if n == name {
        Some(size)
    } else {
        name_lookup(s, n)
    } by {
        if n == name {
            lemma_names_unique(t, i, n);
        } else if names_has(s, n) {
            let k = choose|k: int| 0 <= k < s.len() && #[trigger] s[k].0 == n;
            lemma_names_unique(s, k, n);
            let k2 = if k < i { k } else { k + 1 };
            assert(t[k2].0 == n);
            lemma_names_unique(t, k2, n);
        } else {
            assert(!names_has(t, n)) by {
                if names_has(t, n) {
                    let k = choose|k: int| 0 <= k < t.len() && #[trigger] t[k].0 == n;
                    if k < i {
                        assert(s[k].0 == n);
                    } else if k > i {
                        assert(s[k - 1].0 == n);
                    }
                }
            }
        }
    }
}

} // verus!
