//! Small association lists keyed by `u32`, with unique keys.
//!
//! The reconstructors key their per-logical-stream state by stream
//! identifier.  A vector of key/value pairs with a uniqueness invariant
//! stands in for a hash map; its contracts speak of the finite map the
//! list denotes.

use vstd::prelude::*;

verus! {

/// No key occurs twice.
pub open spec fn assoc_unique<T>(s: Seq<(u32, T)>) -> bool {
    forall|i: int, j: int| 0 <= i < j < s.len() ==> s[i].0 != s[j].0
}

/// The finite map an association list denotes, its values taken at their
/// view.
pub open spec fn assoc_map<T: View>(s: Seq<(u32, T)>) -> Map<u32, T::V>
    decreases s.len(),
{
    if s.len() == 0 {
        Map::empty()
    } else {
        assoc_map(s.drop_last()).insert(s.last().0, s.last().1@)
    }
}

/// What the denoted map holds: a key is present exactly when some pair
/// carries it, and under uniqueness each pair's value is the map's value.
pub proof fn lemma_assoc_map_props<T: View>(s: Seq<(u32, T)>)
    ensures
        forall|k: u32|
            #[trigger] assoc_map(s).contains_key(k) <==> exists|j: int|
                0 <= j < s.len() && s[j].0 == k,
        assoc_unique(s) ==> forall|j: int|
            0 <= j < s.len() ==> assoc_map(s)[#[trigger] s[j].0] == s[j].1@,
    decreases s.len(),
{
    if s.len() > 0 {
        let inner = s.drop_last();
        lemma_assoc_map_props(inner);
        assert(forall|j: int| 0 <= j < s.len() - 1 ==> inner[j] == s[j]);
        assert forall|k: u32| #[trigger]
            assoc_map(s).contains_key(k) implies exists|j: int|
            0 <= j < s.len() && s[j].0 == k by {
            if k == s.last().0 {
                assert(s[s.len() - 1].0 == k);
            } else {
                assert(assoc_map(inner).contains_key(k));
                let j = choose|j: int| 0 <= j < inner.len() && inner[j].0 == k;
                assert(s[j].0 == k);
            }
        }
        assert forall|k: u32| (exists|j: int| 0 <= j < s.len() && s[j].0 == k) implies #[trigger]
            assoc_map(s).contains_key(k) by {
            let j = choose|j: int| 0 <= j < s.len() && s[j].0 == k;
            if j == s.len() - 1 {
            } else {
                assert(inner[j].0 == k);
                assert(assoc_map(inner).contains_key(k));
            }
        }
        if assoc_unique(s) {
            assert(assoc_unique(s.drop_last()));
            assert forall|j: int| 0 <= j < s.len() implies assoc_map(s)[#[trigger] s[j].0]
                == s[j].1@ by {
                if j < s.len() - 1 {
                    assert(s[j].0 != s.last().0);
                    assert(assoc_map(s.drop_last())[s.drop_last()[j].0] == s.drop_last()[j].1@);
                }
            }
        }
    }
}

/// Finds the position of the pair carrying `k`, if any.
pub fn assoc_find<T>(v: &Vec<(u32, T)>, k: u32) -> (r: Option<usize>)
    ensures
        match r {
            Some(i) => i < v@.len() && v@[i as int].0 == k,
            None => forall|j: int| 0 <= j < v@.len() ==> v@[j].0 != k,
        },
{
    let mut i: usize = 0;
    while i < v.len()
        invariant
            i <= v@.len(),
            forall|j: int| 0 <= j < i ==> v@[j].0 != k,
        decreases v@.len() - i,
    {
        if v[i].0 == k {
            return Some(i);
        }
        i = i + 1;
    }
    None
}

/// Removes the entry keyed `k`, returning its value; the denoted map loses
/// exactly that key.
pub fn assoc_remove<T: View>(v: &mut Vec<(u32, T)>, k: u32) -> (r: Option<T>)
    requires
        assoc_unique(old(v)@),
    ensures
        assoc_unique(final(v)@),
        assoc_map(final(v)@) == assoc_map(old(v)@).remove(k),
        match r {
            Some(t) => assoc_map(old(v)@).contains_key(k) && assoc_map(old(v)@)[k] == t@,
            None => !assoc_map(old(v)@).contains_key(k),
        },
{
    proof {
        lemma_assoc_map_props(v@);
    }
    match assoc_find(v, k) {
        None => {
            proof {
                assert(assoc_map(v@).remove(k) =~= assoc_map(v@));
            }
            None
        },
        Some(i) => {
            let ghost s0 = v@;
            let pair = v.swap_remove(i);
            proof {
                let s1 = v@;
                assert(forall|a: int|
                    0 <= a < s1.len() ==> s1[a] == (if a == i {
                        s0[s0.len() - 1]
                    } else {
                        s0[a]
                    }));
                assert forall|a: int, b: int| 0 <= a < b < s1.len() implies s1[a].0 != s1[b].0 by {
                    let a0: int = if a == i {
                        s0.len() - 1
                    } else {
                        a
                    };
                    let b0: int = if b == i {
                        s0.len() - 1
                    } else {
                        b
                    };
                    assert(s1[a] == s0[a0] && s1[b] == s0[b0]);
                }
                lemma_assoc_map_props(s1);
                assert forall|k2: u32| #[trigger]
                    assoc_map(s1).contains_key(k2) implies assoc_map(s0).remove(k).contains_key(
                    k2,
                ) by {
                    let j = choose|j: int| 0 <= j < s1.len() && s1[j].0 == k2;
                    let j0: int = if j == i {
                        s0.len() - 1
                    } else {
                        j
                    };
                    assert(s0[j0].0 == k2);
                    assert(k2 != k);
                }
                assert forall|k2: u32| #[trigger]
                    assoc_map(s0).remove(k).contains_key(k2) implies assoc_map(s1).contains_key(
                    k2,
                ) && assoc_map(s1)[k2] == assoc_map(s0).remove(k)[k2] by {
                    let j = choose|j: int| 0 <= j < s0.len() && s0[j].0 == k2;
                    assert(j != i);
                    let j1: int = if j == s0.len() - 1 {
                        i as int
                    } else {
                        j
                    };
                    assert(s1[j1] == s0[j]);
                    assert(assoc_map(s1)[s1[j1].0] == s1[j1].1@);
                    assert(assoc_map(s0)[s0[j].0] == s0[j].1@);
                }
                assert(assoc_map(v@) =~= assoc_map(s0).remove(k));
            }
            Some(pair.1)
        },
    }
}

/// Sets the entry keyed `k`, overwriting any previous one; the denoted map
/// gains exactly that binding.
pub fn assoc_insert<T: View>(v: &mut Vec<(u32, T)>, k: u32, t: T)
    requires
        assoc_unique(old(v)@),
    ensures
        assoc_unique(final(v)@),
        assoc_map(final(v)@) == assoc_map(old(v)@).insert(k, t@),
{
    let ghost s0 = v@;
    let _ = assoc_remove(v, k);
    let ghost s1 = v@;
    v.push((k, t));
    proof {
        assert(v@.drop_last() =~= s1);
        assert(v@.last() == (k, t));
        lemma_assoc_map_props(s1);
        assert(!assoc_map(s1).contains_key(k));
        assert(forall|j: int| 0 <= j < s1.len() ==> s1[j].0 != k);
        assert(assoc_map(v@) == assoc_map(s1).insert(k, t@));
        assert(assoc_map(s0).remove(k).insert(k, t@) =~= assoc_map(s0).insert(k, t@));
        assert forall|a: int, b: int| 0 <= a < b < v@.len() implies v@[a].0 != v@[b].0 by {
            if b == v@.len() - 1 {
                assert(s1[a].0 != k);
            }
        }
    }
}

} // verus!
