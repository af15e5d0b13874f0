//! An association list with byte-string keys, modelling a key-unique
//! mapping: a later entry for a key replaces the earlier one.

use crate::text::eq_bytes;
use vstd::prelude::*;

verus! {

/// Whether no key occurs twice.
pub open spec fn keys_unique<T>(s: Seq<(Vec<u8>, T)>) -> bool {
    forall|i: int, j: int| 0 <= i < j < s.len() ==> s[i].0@ != s[j].0@
}

/// The mapping an association list writes down.
pub open spec fn assoc_map<T: View>(s: Seq<(Vec<u8>, T)>) -> Map<Seq<u8>, T::V>
    decreases s.len(),
{
    if s.len() == 0 {
        Map::empty()
    } else {
        assoc_map(s.drop_last()).insert(s.last().0@, s.last().1@)
    }
}

/// A key is in the mapping exactly when some entry carries it.
pub proof fn lemma_assoc_contains<T: View>(s: Seq<(Vec<u8>, T)>, k: Seq<u8>)
    ensures
        assoc_map(s).contains_key(k) <==> exists|i: int| 0 <= i < s.len() && s[i].0@ == k,
    decreases s.len(),
{
    if s.len() > 0 {
        lemma_assoc_contains(s.drop_last(), k);
        if assoc_map(s).contains_key(k) {
            if s.last().0@ != k {
                let i = choose|i: int| 0 <= i < s.drop_last().len() && s.drop_last()[i].0@ == k;
                assert(s[i].0@ == k);
            } else {
                assert(s[s.len() - 1].0@ == k);
            }
        }
        if exists|i: int| 0 <= i < s.len() && s[i].0@ == k {
            let i = choose|i: int| 0 <= i < s.len() && s[i].0@ == k;
            if i < s.len() - 1 {
                assert(s.drop_last()[i].0@ == k);
            }
        }
    }
}

/// Removing the one entry that carries a key removes the key.
pub proof fn lemma_assoc_remove<T: View>(s: Seq<(Vec<u8>, T)>, i: int)
    requires
        keys_unique(s),
        0 <= i < s.len(),
    ensures
        assoc_map(s.remove(i)) == assoc_map(s).remove(s[i].0@),
    decreases s.len(),
{
    let k = s[i].0@;
    if i == s.len() - 1 {
        assert(s.remove(i) =~= s.drop_last());
        lemma_assoc_contains(s.drop_last(), k);
        assert forall|j: int| 0 <= j < s.drop_last().len() implies s.drop_last()[j].0@ != k by {
            assert(s[j].0@ != s[i].0@);
        }
        assert(assoc_map(s.drop_last()) =~= assoc_map(s).remove(k));
    } else {
        let d = s.drop_last();
        assert(keys_unique(d)) by {
            assert forall|a: int, b: int| 0 <= a < b < d.len() implies d[a].0@ != d[b].0@ by {
                assert(s[a].0@ != s[b].0@);
            }
        }
        lemma_assoc_remove(d, i);
        assert(s.remove(i).drop_last() =~= d.remove(i));
        assert(s.remove(i).last() == s.last());
        assert(s.last().0@ != k);
        assert(assoc_map(s.remove(i)) =~= assoc_map(s).remove(k));
    }
}

/// Records `value` under `key`, replacing any earlier entry for the key.
pub fn assoc_set<T: View>(m: &mut Vec<(Vec<u8>, T)>, key: Vec<u8>, value: T)
    requires
        keys_unique(old(m)@),
    ensures
        keys_unique(final(m)@),
        assoc_map(final(m)@) == assoc_map(old(m)@).insert(key@, value@),
        final(m)@.len() <= old(m)@.len() + 1,
        forall|i: int|
            0 <= i < final(m)@.len() ==> (final(m)@[i].1 == value || exists|j: int|
                0 <= j < old(m)@.len() && final(m)@[i] == old(m)@[j]),
{
    let ghost s0 = m@;
    let mut i: usize = 0;
    while i < m.len()
        invariant
            i <= m@.len(),
            m@ == s0,
            s0 == old(m)@,
            keys_unique(s0),
            forall|j: int| 0 <= j < i ==> s0[j].0@ != key@,
        decreases m@.len() - i,
    {
        if eq_bytes(m[i].0.as_slice(), key.as_slice()) {
            let ghost k = s0[i as int].0@;
            let _removed = m.remove(i);
            m.push((key, value));
            proof {
                lemma_assoc_remove(s0, i as int);
                let r = s0.remove(i as int);
                assert(keys_unique(r)) by {
                    assert forall|a: int, b: int| 0 <= a < b < r.len() implies r[a].0@ != r[b].0@ by {
                        if a < i && b < i {
                            assert(s0[a].0@ != s0[b].0@);
                        } else if a < i {
                            assert(s0[a].0@ != s0[b + 1].0@);
                        } else {
                            assert(s0[a + 1].0@ != s0[b + 1].0@);
                        }
                    }
                }
                assert forall|j: int| 0 <= j < r.len() implies r[j].0@ != key@ by {
                    if j < i {
                        assert(s0[j].0@ != s0[i as int].0@);
                    } else {
                        assert(s0[j + 1].0@ != s0[i as int].0@);
                    }
                }
                assert(m@.drop_last() =~= r);
                assert(assoc_map(m@) =~= assoc_map(s0).insert(key@, value@));
                assert(keys_unique(m@));
                assert forall|p: int| 0 <= p < m@.len() implies (m@[p].1 == value || exists|q: int|
                    0 <= q < s0.len() && m@[p] == s0[q]) by {
                    if p < m@.len() - 1 {
                        if p < i {
                            assert(m@[p] == s0[p]);
                        } else {
                            assert(m@[p] == s0[p + 1]);
                        }
                    }
                }
            }
            return;
        }
        i = i + 1;
    }
    m.push((key, value));
    proof {
        assert(m@.drop_last() =~= s0);
        assert(assoc_map(m@) =~= assoc_map(s0).insert(key@, value@));
        assert forall|a: int, b: int| 0 <= a < b < m@.len() implies m@[a].0@ != m@[b].0@ by {
            if b < m@.len() - 1 {
                assert(s0[a].0@ != s0[b].0@);
            } else {
                assert(s0[a].0@ != key@);
            }
        }
        assert forall|p: int| 0 <= p < m@.len() implies (m@[p].1 == value || exists|q: int|
            0 <= q < s0.len() && m@[p] == s0[q]) by {
            if p < m@.len() - 1 {
                assert(m@[p] == s0[p]);
            }
        }
    }
}

} // verus!
