//! Insert-or-replace lists of byte-string pairs, the shape shared by
//! a request's header list and the route table: ordered `(key,
//! value)` pairs where inserting an existing key replaces its value
//! in place.

use vstd::prelude::*;

use crate::text::bytes_eq;

verus! {

/// The pairs of a list, as byte sequences.
pub open spec fn pairs_view(h: Seq<(Vec<u8>, Vec<u8>)>) -> Seq<(Seq<u8>, Seq<u8>)> {
    Seq::new(h.len(), |i: int| (h[i].0@, h[i].1@))
}

/// Insert `(k, v)`: replace the value of the first pair keyed `k` in
/// place, or append a new pair.
pub open spec fn upsert(
    hs: Seq<(Seq<u8>, Seq<u8>)>,
    k: Seq<u8>,
    v: Seq<u8>,
) -> Seq<(Seq<u8>, Seq<u8>)>
    decreases hs.len(),
{
    if hs.len() == 0 {
        seq![(k, v)]
    } else if hs[0].0 == k {
        seq![(k, v)] + hs.skip(1)
    } else {
        seq![hs[0]] + upsert(hs.skip(1), k, v)
    }
}

/// The value of the first pair keyed `k`, if any.
pub open spec fn lookup(hs: Seq<(Seq<u8>, Seq<u8>)>, k: Seq<u8>) -> Option<Seq<u8>>
    decreases hs.len(),
{
    if hs.len() == 0 {
        None
    } else if hs[0].0 == k {
        Some(hs[0].1)
    } else {
        lookup(hs.skip(1), k)
    }
}

/// Some pair of `hs` is keyed `k`.
pub open spec fn key_in(hs: Seq<(Seq<u8>, Seq<u8>)>, k: Seq<u8>) -> bool {
    exists|i: int| 0 <= i < hs.len() && (#[trigger] hs[i]).0 == k
}

/// No two pairs share a key.
pub open spec fn unique_keys(hs: Seq<(Seq<u8>, Seq<u8>)>) -> bool {
    forall|i: int, j: int|
        0 <= i < j < hs.len() ==> (#[trigger] hs[i]).0 != (#[trigger] hs[j]).0
}

pub proof fn lemma_upsert_none(hs: Seq<(Seq<u8>, Seq<u8>)>, k: Seq<u8>, v: Seq<u8>)
    requires
        forall|j: int| 0 <= j < hs.len() ==> (#[trigger] hs[j]).0 != k,
    ensures
        upsert(hs, k, v) == hs.push((k, v)),
    decreases hs.len(),
{
    if hs.len() == 0 {
        assert(upsert(hs, k, v) =~= hs.push((k, v)));
    } else {
        lemma_upsert_none(hs.skip(1), k, v);
        assert(seq![hs[0]] + hs.skip(1).push((k, v)) =~= hs.push((k, v)));
    }
}

pub proof fn lemma_upsert_at(hs: Seq<(Seq<u8>, Seq<u8>)>, k: Seq<u8>, v: Seq<u8>, i: int)
    requires
        0 <= i < hs.len(),
        hs[i].0 == k,
        forall|j: int| 0 <= j < i ==> (#[trigger] hs[j]).0 != k,
    ensures
        upsert(hs, k, v) == hs.update(i, (k, v)),
    decreases hs.len(),
{
    if i == 0 {
        assert(seq![(k, v)] + hs.skip(1) =~= hs.update(0, (k, v)));
    } else {
        lemma_upsert_at(hs.skip(1), k, v, i - 1);
        assert(seq![hs[0]] + hs.skip(1).update(i - 1, (k, v)) =~= hs.update(i, (k, v)));
    }
}

/// Inserting leaves the looked-up value of the inserted key.
pub proof fn lemma_lookup_upsert(hs: Seq<(Seq<u8>, Seq<u8>)>, k: Seq<u8>, v: Seq<u8>)
    ensures
        lookup(upsert(hs, k, v), k) == Some(v),
    decreases hs.len(),
{
    if hs.len() == 0 {
        assert(upsert(hs, k, v)[0] == (k, v));
    } else if hs[0].0 == k {
        assert(upsert(hs, k, v)[0] == (k, v));
    } else {
        lemma_lookup_upsert(hs.skip(1), k, v);
        assert(upsert(hs, k, v)[0] == hs[0]);
        assert(upsert(hs, k, v).skip(1) =~= upsert(hs.skip(1), k, v));
    }
}

/// Inserting the same pair twice is the same as inserting it once.
pub proof fn lemma_upsert_idempotent(hs: Seq<(Seq<u8>, Seq<u8>)>, k: Seq<u8>, v: Seq<u8>)
    ensures
        upsert(upsert(hs, k, v), k, v) == upsert(hs, k, v),
    decreases hs.len(),
{
    if hs.len() == 0 {
        assert(upsert(hs, k, v)[0] == (k, v));
        assert(seq![(k, v)] + upsert(hs, k, v).skip(1) =~= upsert(hs, k, v));
    } else if hs[0].0 == k {
        assert(upsert(hs, k, v)[0] == (k, v));
        assert(seq![(k, v)] + upsert(hs, k, v).skip(1) =~= upsert(hs, k, v));
    } else {
        lemma_upsert_idempotent(hs.skip(1), k, v);
        assert(upsert(hs, k, v)[0] == hs[0]);
        assert(upsert(hs, k, v).skip(1) =~= upsert(hs.skip(1), k, v));
        assert(seq![hs[0]] + upsert(upsert(hs.skip(1), k, v), k, v) =~= upsert(
            upsert(hs, k, v),
            k,
            v,
        ));
        assert(seq![hs[0]] + upsert(hs.skip(1), k, v) =~= upsert(hs, k, v));
    }
}

/// Inserting keeps the keys unique, and adds at most the new key.
pub proof fn lemma_upsert_keys(hs: Seq<(Seq<u8>, Seq<u8>)>, k: Seq<u8>, v: Seq<u8>)
    ensures
        key_in(upsert(hs, k, v), k),
        forall|x: Seq<u8>| #[trigger] key_in(upsert(hs, k, v), x) ==> key_in(hs, x) || x == k,
        forall|x: Seq<u8>| #[trigger] key_in(hs, x) ==> key_in(upsert(hs, k, v), x),
        unique_keys(hs) ==> unique_keys(upsert(hs, k, v)),
    decreases hs.len(),
{
    let t = upsert(hs, k, v);
    if hs.len() == 0 {
        assert(t[0].0 == k);
        assert forall|x: Seq<u8>| #[trigger] key_in(t, x) implies key_in(hs, x) || x == k by {
            let i = choose|i: int| 0 <= i < t.len() && (#[trigger] t[i]).0 == x;
            assert(i == 0);
        }
    } else if hs[0].0 == k {
        assert(t =~= seq![(k, v)] + hs.skip(1));
        assert(t[0].0 == k);
        assert forall|x: Seq<u8>| #[trigger] key_in(t, x) implies key_in(hs, x) || x == k by {
            let i = choose|i: int| 0 <= i < t.len() && (#[trigger] t[i]).0 == x;
            if i > 0 {
                assert(hs[i].0 == x);
            }
        }
        assert forall|x: Seq<u8>| #[trigger] key_in(hs, x) implies key_in(t, x) by {
            let i = choose|i: int| 0 <= i < hs.len() && (#[trigger] hs[i]).0 == x;
            if i == 0 {
                assert(t[0].0 == x);
            } else {
                assert(t[i].0 == x);
            }
        }
        if unique_keys(hs) {
            assert forall|i: int, j: int| 0 <= i < j < t.len() implies t[i].0 != t[j].0 by {
                assert(t[j].0 == hs[j].0);
                if i > 0 {
                    assert(t[i].0 == hs[i].0);
                }
            }
        }
    } else {
        lemma_upsert_keys(hs.skip(1), k, v);
        let u = upsert(hs.skip(1), k, v);
        assert(t =~= seq![hs[0]] + u);
        assert(key_in(t, k)) by {
            assert(key_in(u, k));
            let m = choose|m: int| 0 <= m < u.len() && (#[trigger] u[m]).0 == k;
            assert(t[m + 1].0 == k);
        }
        assert forall|x: Seq<u8>| #[trigger] key_in(t, x) implies key_in(hs, x) || x == k by {
            let i = choose|i: int| 0 <= i < t.len() && (#[trigger] t[i]).0 == x;
            if i == 0 {
                assert(hs[0].0 == x);
            } else {
                assert(u[i - 1].0 == x);
                assert(key_in(u, x));
                if key_in(hs.skip(1), x) {
                    let m = choose|m: int|
                        0 <= m < hs.skip(1).len() && (#[trigger] hs.skip(1)[m]).0 == x;
                    assert(hs[m + 1].0 == x);
                }
            }
        }
        assert forall|x: Seq<u8>| #[trigger] key_in(hs, x) implies key_in(t, x) by {
            let i = choose|i: int| 0 <= i < hs.len() && (#[trigger] hs[i]).0 == x;
            if i == 0 {
                assert(t[0].0 == x);
            } else {
                assert(hs.skip(1)[i - 1].0 == x);
                assert(key_in(hs.skip(1), x));
                assert(key_in(u, x));
                let m = choose|m: int| 0 <= m < u.len() && (#[trigger] u[m]).0 == x;
                assert(t[m + 1].0 == x);
            }
        }
        if unique_keys(hs) {
            assert forall|i: int, j: int| 0 <= i < j < hs.skip(1).len() implies hs.skip(1)[i].0
                != hs.skip(1)[j].0 by {
                assert(hs.skip(1)[i] == hs[i + 1]);
                assert(hs.skip(1)[j] == hs[j + 1]);
            }
            assert(unique_keys(hs.skip(1)));
            assert(unique_keys(u));
            assert(!key_in(hs.skip(1), hs[0].0)) by {
                if key_in(hs.skip(1), hs[0].0) {
                    let m = choose|m: int|
                        0 <= m < hs.skip(1).len() && (#[trigger] hs.skip(1)[m]).0 == hs[0].0;
                    assert(hs[m + 1].0 == hs[0].0);
                }
            }
            assert(!key_in(u, hs[0].0));
            assert forall|i: int, j: int| 0 <= i < j < t.len() implies t[i].0 != t[j].0 by {
                if i == 0 {
                    assert(t[j].0 == u[j - 1].0);
                    if t[0].0 == u[j - 1].0 {
                        assert(key_in(u, hs[0].0));
                    }
                } else {
                    assert(t[i].0 == u[i - 1].0);
                    assert(t[j].0 == u[j - 1].0);
                }
            }
        }
    }
}

/// Insert `(k, v)` into `pairs` as [`upsert`] describes.
pub fn upsert_pair(pairs: &mut Vec<(Vec<u8>, Vec<u8>)>, k: Vec<u8>, v: Vec<u8>)
    ensures
        pairs_view(final(pairs)@) == upsert(pairs_view(old(pairs)@), k@, v@),
{
    let ghost orig = pairs_view(pairs@);
    let mut i: usize = 0;
    while i < pairs.len()
        invariant
            i <= pairs@.len(),
            orig == pairs_view(pairs@),
            orig == pairs_view(old(pairs)@),
            forall|j: int| 0 <= j < i ==> (#[trigger] orig[j]).0 != k@,
        decreases pairs@.len() - i,
    {
        if bytes_eq(pairs[i].0.as_slice(), k.as_slice()) {
            let ghost pos = i as int;
            pairs.remove(i);
            pairs.insert(i, (k, v));
            proof {
                assert(pairs_view(pairs@) =~= orig.update(pos, (k@, v@)));
                lemma_upsert_at(orig, k@, v@, pos);
            }
            return ;
        }
        i = i + 1;
    }
    pairs.push((k, v));
    proof {
        assert(pairs_view(pairs@) =~= orig.push((k@, v@)));
        lemma_upsert_none(orig, k@, v@);
    }
}

/// Look the value for `k` up, cloning it out of the list.
pub fn lookup_pair(pairs: &Vec<(Vec<u8>, Vec<u8>)>, k: &[u8]) -> (r: Option<Vec<u8>>)
    ensures
        match r {
            Some(p) => lookup(pairs_view(pairs@), k@) == Some(p@),
            None => lookup(pairs_view(pairs@), k@) is None,
        },
{
    let ghost hv = pairs_view(pairs@);
    let mut i: usize = 0;
    while i < pairs.len()
        invariant
            i <= pairs@.len(),
            hv == pairs_view(pairs@),
            forall|j: int| 0 <= j < i ==> (#[trigger] hv[j]).0 != k@,
        decreases pairs@.len() - i,
    {
        if bytes_eq(pairs[i].0.as_slice(), k) {
            let p = crate::text::clone_bytes(&pairs[i].1);
            proof {
                lemma_lookup_at(hv, k@, i as int);
            }
            return Some(p);
        }
        i = i + 1;
    }
    proof {
        lemma_lookup_none(hv, k@);
    }
    None
}

pub proof fn lemma_lookup_none(hs: Seq<(Seq<u8>, Seq<u8>)>, k: Seq<u8>)
    requires
        forall|j: int| 0 <= j < hs.len() ==> (#[trigger] hs[j]).0 != k,
    ensures
        lookup(hs, k) is None,
    decreases hs.len(),
{
    if hs.len() > 0 {
        assert(forall|j: int| 0 <= j < hs.skip(1).len() ==> hs.skip(1)[j] == hs[j + 1]);
        lemma_lookup_none(hs.skip(1), k);
    }
}

pub proof fn lemma_lookup_at(hs: Seq<(Seq<u8>, Seq<u8>)>, k: Seq<u8>, i: int)
    requires
        0 <= i < hs.len(),
        hs[i].0 == k,
        forall|j: int| 0 <= j < i ==> (#[trigger] hs[j]).0 != k,
    ensures
        lookup(hs, k) == Some(hs[i].1),
    decreases hs.len(),
{
    if i > 0 {
        assert(forall|j: int| 0 <= j < hs.skip(1).len() ==> hs.skip(1)[j] == hs[j + 1]);
        lemma_lookup_at(hs.skip(1), k, i - 1);
    }
}

} // verus!
