//! Small association lists keyed by strings.
//!
//! The reverse index, the content snapshot cache and the recency guard
//! are each a list of (key, value) pairs with pairwise distinct keys.
//! The helpers here look a key up, and insert or replace the pair for a
//! key, keeping the keys distinct.

use vstd::prelude::*;

verus! {

/// The list holds a pair whose key is `k`.
pub open spec fn assoc_has<V>(s: Seq<(String, V)>, k: Seq<char>) -> bool {
    exists|i: int| 0 <= i < s.len() && s[i].0@ == k
}

/// The keys of the pairs are pairwise distinct.
pub open spec fn assoc_keys_unique<V>(s: Seq<(String, V)>) -> bool {
    forall|i: int, j: int| 0 <= i < j < s.len() ==> s[i].0@ != s[j].0@
}

/// Index of the pair whose key is `k`; meaningful under
/// `assoc_has` and `assoc_keys_unique`.
pub open spec fn assoc_index_of<V>(s: Seq<(String, V)>, k: Seq<char>) -> int {
    choose|i: int| 0 <= i < s.len() && s[i].0@ == k
}

/// The value paired with key `k`; meaningful under `assoc_has` and
/// `assoc_keys_unique`.
pub open spec fn assoc_value<V>(s: Seq<(String, V)>, k: Seq<char>) -> V {
    s[assoc_index_of(s, k)].1
}

/// Under distinct keys, any index holding `k` is the index that
/// `assoc_index_of` denotes.
pub proof fn lemma_assoc_index<V>(s: Seq<(String, V)>, k: Seq<char>, i: int)
    requires
        assoc_keys_unique(s),
        0 <= i < s.len(),
        s[i].0@ == k,
    ensures
        assoc_has(s, k),
        assoc_index_of(s, k) == i,
        assoc_value(s, k) == s[i].1,
{
    assert(assoc_has(s, k));
    let j = assoc_index_of(s, k);
    assert(0 <= j < s.len() && s[j].0@ == k);
    if i != j {
        if i < j {
            assert(s[i].0@ != s[j].0@);
        } else {
            assert(s[j].0@ != s[i].0@);
        }
        assert(false);
    }
}

/// Index of the first pair whose key is `k`, if any.
pub fn assoc_find<V>(v: &Vec<(String, V)>, k: &String) -> (r: Option<usize>)
    ensures
        match r {
            Some(i) => {
                &&& i < v@.len()
                &&& v@[i as int].0@ == k@
                &&& forall|j: int| 0 <= j < i ==> v@[j].0@ != k@
            },
            None => !assoc_has(v@, k@),
        },
{
    let mut i: usize = 0;
    while i < v.len()
        invariant
            0 <= i <= v@.len(),
            forall|j: int| 0 <= j < i ==> v@[j].0@ != k@,
        decreases v@.len() - i,
    {
        if v[i].0 == *k {
            return Some(i);
        }
        i = i + 1;
    }
    None
}

/// Inserts the pair (`k`, `val`), replacing the pair for `k` when one
/// is present, appending otherwise. Keys stay pairwise distinct.
pub fn assoc_set<V>(v: &mut Vec<(String, V)>, k: String, val: V)
    requires
        assoc_keys_unique(old(v)@),
    ensures
        assoc_keys_unique(final(v)@),
        assoc_has(old(v)@, k@) ==> {
            exists|i: int|
                {
                    &&& 0 <= i < old(v)@.len()
                    &&& old(v)@[i].0@ == k@
                    &&& final(v)@ =~= old(v)@.update(i, (k, val))
                }
        },
        !assoc_has(old(v)@, k@) ==> final(v)@ =~= old(v)@.push((k, val)),
        assoc_has(final(v)@, k@),
        assoc_value(final(v)@, k@) == val,
        forall|q: Seq<char>|
            q != k@ ==> (#[trigger] assoc_has(final(v)@, q) <==> assoc_has(old(v)@, q)),
        forall|q: Seq<char>|
            q != k@ && assoc_has(old(v)@, q) ==> #[trigger] assoc_value(final(v)@, q)
                == assoc_value(old(v)@, q),
{
    let ghost v0 = v@;
    match assoc_find(v, &k) {
        Some(i) => {
            let ghost kv = k@;
            v.remove(i);
            v.insert(i, (k, val));
            proof {
                assert(v@ =~= v0.update(i as int, (k, val)));
                assert forall|a: int, b: int| 0 <= a < b < v@.len() implies v@[a].0@ != v@[
                    b
                ].0@ by {
                    assert(v0[a].0@ != v0[b].0@);
                    if a == i {
                        assert(v@[a].0@ == kv);
                    }
                    if b == i {
                        assert(v@[b].0@ == kv);
                    }
                }
                lemma_assoc_index(v@, kv, i as int);
                assert forall|q: Seq<char>| q != kv implies (assoc_has(v@, q) <==> assoc_has(
                    v0,
                    q,
                )) by {
                    if assoc_has(v@, q) {
                        let a = choose|a: int| 0 <= a < v@.len() && v@[a].0@ == q;
                        assert(a != i);
                        assert(v0[a].0@ == q);
                    }
                    if assoc_has(v0, q) {
                        let a = choose|a: int| 0 <= a < v0.len() && v0[a].0@ == q;
                        assert(a != i);
                        assert(v@[a].0@ == q);
                    }
                }
                assert forall|q: Seq<char>| q != kv && assoc_has(v0, q) implies assoc_value(
                    v@,
                    q,
                ) == assoc_value(v0, q) by {
                    let a = choose|a: int| 0 <= a < v0.len() && v0[a].0@ == q;
                    assert(a != i);
                    assert(v@[a].0@ == q);
                    lemma_assoc_index(v@, q, a);
                    lemma_assoc_index(v0, q, a);
                }
            }
        },
        None => {
            let ghost kv = k@;
            v.push((k, val));
            proof {
                assert(v@ =~= v0.push((k, val)));
                assert forall|a: int, b: int| 0 <= a < b < v@.len() implies v@[a].0@ != v@[
                    b
                ].0@ by {
                    if b < v0.len() {
                        assert(v0[a].0@ != v0[b].0@);
                    } else {
                        assert(v@[b].0@ == kv);
                        assert(v@[a].0@ == v0[a].0@);
                        assert(!assoc_has(v0, kv));
                    }
                }
                lemma_assoc_index(v@, kv, v0.len() as int);
                assert forall|q: Seq<char>| q != kv implies (assoc_has(v@, q) <==> assoc_has(
                    v0,
                    q,
                )) by {
                    if assoc_has(v@, q) {
                        let a = choose|a: int| 0 <= a < v@.len() && v@[a].0@ == q;
                        assert(a < v0.len());
                        assert(v0[a].0@ == q);
                    }
                    if assoc_has(v0, q) {
                        let a = choose|a: int| 0 <= a < v0.len() && v0[a].0@ == q;
                        assert(v@[a].0@ == q);
                    }
                }
                assert forall|q: Seq<char>| q != kv && assoc_has(v0, q) implies assoc_value(
                    v@,
                    q,
                ) == assoc_value(v0, q) by {
                    let a = choose|a: int| 0 <= a < v0.len() && v0[a].0@ == q;
                    lemma_assoc_index(v@, q, a);
                    lemma_assoc_index(v0, q, a);
                }
            }
        },
    }
}

/// A copy of a byte vector.
pub fn clone_bytes(v: &Vec<u8>) -> (r: Vec<u8>)
    ensures
        r@ == v@,
{
    let mut r: Vec<u8> = Vec::new();
    let mut i: usize = 0;
    while i < v.len()
        invariant
            0 <= i <= v@.len(),
            r@ =~= v@.take(i as int),
        decreases v@.len() - i,
    {
        r.push(v[i]);
        proof {
            assert(r@ =~= v@.take(i as int + 1));
        }
        i = i + 1;
    }
    proof {
        assert(v@.take(v@.len() as int) =~= v@);
    }
    r
}

} // verus!
