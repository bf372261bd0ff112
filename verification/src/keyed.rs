//! Maps keyed by strings, kept as vectors of key/value pairs with distinct
//! keys in insertion order.

use vstd::prelude::*;
use crate::text::str_eq;

verus! {

/// No key occurs twice.
pub open spec fn keys_unique<V>(s: Seq<(String, V)>) -> bool {
    forall|i: int, j: int| 0 <= i < j < s.len() ==> s[i].0@ != s[j].0@
}

/// The map the pairs stand for (a later pair overrides an earlier one).
pub open spec fn kmap<V>(s: Seq<(String, V)>) -> Map<Seq<char>, V>
    decreases s.len(),
{
    if s.len() == 0 {
        Map::empty()
    } else {
        kmap(s.drop_last()).insert(s.last().0@, s.last().1)
    }
}

pub proof fn lemma_kmap_dom<V>(s: Seq<(String, V)>, k: Seq<char>)
    ensures
        kmap(s).contains_key(k) <==> exists|i: int| 0 <= i < s.len() && s[i].0@ == k,
    decreases s.len(),
{
    if s.len() > 0 {
        lemma_kmap_dom(s.drop_last(), k);
        if kmap(s).contains_key(k) && s.last().0@ != k {
            let i = choose|i: int| 0 <= i < s.drop_last().len() && s.drop_last()[i].0@ == k;
            assert(s[i].0@ == k);
        }
        if exists|i: int| 0 <= i < s.len() && s[i].0@ == k {
            let i = choose|i: int| 0 <= i < s.len() && s[i].0@ == k;
            if i < s.len() - 1 {
                assert(s.drop_last()[i].0@ == k);
            }
        }
    }
}

pub proof fn lemma_kmap_value<V>(s: Seq<(String, V)>, i: int)
    requires
        keys_unique(s),
        0 <= i < s.len(),
    ensures
        kmap(s).contains_key(s[i].0@),
        kmap(s)[s[i].0@] == s[i].1,
    decreases s.len(),
{
    if i < s.len() - 1 {
        lemma_kmap_value(s.drop_last(), i);
    }
}

pub proof fn lemma_kmap_update<V>(s: Seq<(String, V)>, i: int, p: (String, V))
    requires
        keys_unique(s),
        0 <= i < s.len(),
        p.0@ == s[i].0@,
    ensures
        kmap(s.update(i, p)) == kmap(s).insert(p.0@, p.1),
        keys_unique(s.update(i, p)),
    decreases s.len(),
{
    let t = s.update(i, p);
    if i == s.len() - 1 {
        assert(t.drop_last() =~= s.drop_last());
        assert(kmap(t) =~= kmap(s).insert(p.0@, p.1));
    } else {
        lemma_kmap_update(s.drop_last(), i, p);
        assert(t.drop_last() =~= s.drop_last().update(i, p));
        assert(s.last().0@ != p.0@);
        assert(kmap(t) =~= kmap(s).insert(p.0@, p.1));
    }
}

/// Index of the first pair whose key is `k`, if any.
pub open spec fn kindex<V>(s: Seq<(String, V)>, k: Seq<char>) -> Option<int>
    decreases s.len(),
{
    if s.len() == 0 {
        None
    } else if s[0].0@ == k {
        Some(0)
    } else {
        match kindex(s.drop_first(), k) {
            Some(i) => Some(i + 1),
            None => None,
        }
    }
}

pub proof fn lemma_kindex<V>(s: Seq<(String, V)>, k: Seq<char>)
    ensures
        kindex(s, k) matches Some(i) ==> 0 <= i < s.len() && s[i].0@ == k && forall|j: int|
            0 <= j < i ==> s[j].0@ != k,
        kindex(s, k) is None ==> forall|j: int| 0 <= j < s.len() ==> s[j].0@ != k,
    decreases s.len(),
{
    if s.len() > 0 {
        lemma_kindex(s.drop_first(), k);
        if s[0].0@ != k {
            assert forall|j: int| 1 <= j < s.len() implies s[j] == s.drop_first()[j - 1] by {}
        }
    }
}

/// Index of the pair whose key is `k`, if any.
pub fn kv_find<V>(m: &Vec<(String, V)>, k: &str) -> (r: Option<usize>)
    ensures
        r matches Some(i) ==> i < m.len() && m@[i as int].0@ == k@,
        r is None ==> !kmap(m@).contains_key(k@),
        r matches Some(i) ==> kindex(m@, k@) == Some(i as int),
        r is None ==> kindex(m@, k@) is None,
{
    proof {
        lemma_kindex(m@, k@);
    }
    let mut i: usize = 0;
    while i < m.len()
        invariant
            i <= m.len(),
            forall|j: int| 0 <= j < i ==> m@[j].0@ != k@,
        decreases m.len() - i,
    {
        if str_eq(m[i].0.as_str(), k) {
            proof {
                lemma_kindex(m@, k@);
            }
            return Some(i);
        }
        i += 1;
    }
    proof {
        lemma_kmap_dom(m@, k@);
    }
    None
}

/// Looks up the value stored under `k`.
pub fn kv_get<'a, V>(m: &'a Vec<(String, V)>, k: &str) -> (r: Option<&'a V>)
    requires
        keys_unique(m@),
    ensures
        r matches Some(v) ==> kmap(m@).contains_key(k@) && kmap(m@)[k@] == *v,
        r is None ==> !kmap(m@).contains_key(k@),
{
    match kv_find(m, k) {
        Some(i) => {
            proof {
                lemma_kmap_value(m@, i as int);
            }
            Some(&m[i].1)
        },
        None => None,
    }
}

/// Stores `v` under `k`, replacing what was stored there.
pub fn kv_insert<V>(m: &mut Vec<(String, V)>, k: String, v: V)
    requires
        keys_unique(old(m)@),
    ensures
        keys_unique(final(m)@),
        kmap(final(m)@) == kmap(old(m)@).insert(k@, v),
        match kindex(old(m)@, k@) {
            Some(i) => final(m)@ == old(m)@.update(i, (k, v)),
            None => final(m)@ == old(m)@.push((k, v)),
        },
{
    match kv_find(m, k.as_str()) {
        Some(i) => {
            let ghost p = (k, v);
            proof {
                lemma_kmap_update(m@, i as int, p);
            }
            m.set(i, (k, v));
        },
        None => {
            proof {
                lemma_kmap_dom(m@, k@);
            }
            let ghost kv = k@;
            m.push((k, v));
            assert(m@.drop_last() =~= old(m)@);
            assert forall|a: int, b: int| 0 <= a < b < m@.len() implies m@[a].0@ != m@[b].0@ by {
                if b == m@.len() - 1 {
                    assert(old(m)@[a].0@ != kv);
                }
            }
        },
    }
}

pub proof fn lemma_kmap_remove<V>(s: Seq<(String, V)>, i: int)
    requires
        keys_unique(s),
        0 <= i < s.len(),
    ensures
        kmap(s.remove(i)) == kmap(s).remove(s[i].0@),
        keys_unique(s.remove(i)),
    decreases s.len(),
{
    let k = s[i].0@;
    let t = s.remove(i);
    if i == s.len() - 1 {
        assert(t =~= s.drop_last());
        lemma_kmap_dom(s.drop_last(), k);
        assert(!kmap(s.drop_last()).contains_key(k));
        assert(kmap(t) =~= kmap(s).remove(k));
    } else {
        lemma_kmap_remove(s.drop_last(), i);
        assert(t.drop_last() =~= s.drop_last().remove(i));
        assert(s.last().0@ != k);
        assert(kmap(t) =~= kmap(s).remove(k));
    }
}

/// Removes the pair stored under `k`, if any.
pub fn kv_remove<V>(m: &mut Vec<(String, V)>, k: &str)
    requires
        keys_unique(old(m)@),
    ensures
        keys_unique(final(m)@),
        kmap(final(m)@) == kmap(old(m)@).remove(k@),
{
    match kv_find(m, k) {
        Some(i) => {
            proof {
                lemma_kmap_remove(m@, i as int);
            }
            m.remove(i);
        },
        None => {
            assert(kmap(m@) =~= kmap(old(m)@).remove(k@));
        },
    }
}

} // verus!
