//! Ordered sets of strings kept as sorted, duplicate-free vectors, ordered
//! the way `String`'s `Ord` orders them (character by character).

use vstd::prelude::*;
use crate::text::chars_of;
use crate::ast::sviews;

verus! {

/// `a` sorts strictly before `b` (lexicographic order on characters).
pub open spec fn lex_lt(a: Seq<char>, b: Seq<char>) -> bool
    decreases a.len(),
{
    if a.len() == 0 {
        b.len() > 0
    } else if b.len() == 0 {
        false
    } else if a[0] != b[0] {
        a[0] < b[0]
    } else {
        lex_lt(a.drop_first(), b.drop_first())
    }
}

pub proof fn lemma_lex_irreflexive(a: Seq<char>)
    ensures
        !lex_lt(a, a),
    decreases a.len(),
{
    if a.len() > 0 {
        lemma_lex_irreflexive(a.drop_first());
    }
}

pub proof fn lemma_lex_trichotomy(a: Seq<char>, b: Seq<char>)
    ensures
        lex_lt(a, b) || lex_lt(b, a) || a == b,
        !(lex_lt(a, b) && lex_lt(b, a)),
    decreases a.len(),
{
    if a.len() > 0 && b.len() > 0 {
        lemma_lex_trichotomy(a.drop_first(), b.drop_first());
        if a[0] == b[0] && a.drop_first() == b.drop_first() {
            assert(a =~= seq![a[0]] + a.drop_first());
            assert(b =~= seq![b[0]] + b.drop_first());
        }
    } else if a.len() == 0 && b.len() == 0 {
        assert(a =~= b);
    }
}

pub proof fn lemma_lex_transitive(a: Seq<char>, b: Seq<char>, c: Seq<char>)
    requires
        lex_lt(a, b),
        lex_lt(b, c),
    ensures
        lex_lt(a, c),
    decreases a.len(),
{
    if a.len() > 0 && b.len() > 0 && c.len() > 0 {
        if a[0] == b[0] && b[0] == c[0] {
            lemma_lex_transitive(a.drop_first(), b.drop_first(), c.drop_first());
        }
    }
}

/// Strictly increasing, hence duplicate-free.
pub open spec fn sorted(s: Seq<Seq<char>>) -> bool {
    forall|i: int, j: int| 0 <= i < j < s.len() ==> lex_lt(s[i], s[j])
}

/// The set of texts held by a vector of strings.
pub open spec fn set_of(v: Seq<String>) -> Set<Seq<char>> {
    sviews(v).to_set()
}

pub proof fn lemma_push_to_set(s: Seq<Seq<char>>, x: Seq<char>)
    ensures
        s.push(x).to_set() =~= s.to_set().insert(x),
{
    assert forall|t: Seq<char>| s.push(x).to_set().contains(t) <==> s.to_set().insert(x).contains(t) by {
        if s.push(x).contains(t) && t != x {
            let k = choose|k: int| 0 <= k < s.push(x).len() && s.push(x)[k] == t;
            assert(s[k] == t);
        }
        if s.contains(t) {
            let k = choose|k: int| 0 <= k < s.len() && s[k] == t;
            assert(s.push(x)[k] == t);
        }
        if t == x {
            assert(s.push(x)[s.len() as int] == t);
        }
    }
}

/// The names of a finite set in ascending order.
pub open spec fn sorted_names(s: Set<Seq<char>>) -> Seq<Seq<char>> {
    choose|l: Seq<Seq<char>>| sorted(l) && l.to_set() == s
}

/// Two ascending sequences with the same elements are equal.
pub proof fn lemma_sorted_unique(a: Seq<Seq<char>>, b: Seq<Seq<char>>)
    requires
        sorted(a),
        sorted(b),
        a.to_set() == b.to_set(),
    ensures
        a == b,
    decreases a.len(),
{
    if a.len() == 0 || b.len() == 0 {
        if a.len() > 0 {
            assert(a.contains(a[0]));
            assert(a.to_set().contains(a[0]));
        }
        if b.len() > 0 {
            assert(b.contains(b[0]));
            assert(b.to_set().contains(b[0]));
        }
        assert(a =~= b);
    } else {
        assert(a.contains(a[0]));
        assert(a.to_set().contains(a[0]));
        assert(b.contains(b[0]));
        assert(b.to_set().contains(b[0]));
        let k = choose|k: int| 0 <= k < b.len() && b[k] == a[0];
        let j = choose|j: int| 0 <= j < a.len() && a[j] == b[0];
        if a[0] != b[0] {
            lemma_lex_trichotomy(a[0], b[0]);
            assert(lex_lt(b[0], b[k]));
            assert(lex_lt(a[0], a[j]));
        }
        let a1 = a.drop_first();
        let b1 = b.drop_first();
        assert forall|x: Seq<char>| a1.to_set().contains(x) <==> b1.to_set().contains(x) by {
            if a1.contains(x) {
                let i = choose|i: int| 0 <= i < a1.len() && a1[i] == x;
                assert(a[i + 1] == x);
                assert(lex_lt(a[0], a[i + 1]));
                lemma_lex_irreflexive(x);
                assert(a.contains(x));
                assert(a.to_set().contains(x));
                assert(b.to_set().contains(x));
                let m = choose|m: int| 0 <= m < b.len() && b[m] == x;
                assert(m != 0);
                assert(b1[m - 1] == x);
                assert(b1.contains(x));
            }
            if b1.contains(x) {
                let i = choose|i: int| 0 <= i < b1.len() && b1[i] == x;
                assert(b[i + 1] == x);
                assert(lex_lt(b[0], b[i + 1]));
                lemma_lex_irreflexive(x);
                assert(b.contains(x));
                assert(b.to_set().contains(x));
                assert(a.to_set().contains(x));
                let m = choose|m: int| 0 <= m < a.len() && a[m] == x;
                assert(m != 0);
                assert(a1[m - 1] == x);
                assert(a1.contains(x));
            }
        }
        assert(a1.to_set() =~= b1.to_set());
        lemma_sorted_unique(a1, b1);
        assert(a[0] == b[0]);
        assert forall|i: int| 0 <= i < a.len() implies a[i] == b[i] by {
            if i > 0 {
                assert(a[i] == a1[i - 1]);
                assert(b[i] == b1[i - 1]);
            }
        }
        assert(a =~= b);
    }
}

/// An ascending vector holds exactly the names of its set, in order.
pub proof fn lemma_sorted_names(v: Seq<String>)
    requires
        sorted(sviews(v)),
    ensures
        sorted_names(set_of(v)) == sviews(v),
{
    let l = sorted_names(set_of(v));
    assert(sorted(sviews(v)) && sviews(v).to_set() == set_of(v));
    lemma_sorted_unique(l, sviews(v));
}

/// Whether `a` sorts strictly before `b`.
pub fn lex_less(a: &str, b: &str) -> (r: bool)
    ensures
        r == lex_lt(a@, b@),
{
    let va = chars_of(a);
    let vb = chars_of(b);
    let mut i: usize = 0;
    assert(va@.skip(0) =~= va@);
    assert(vb@.skip(0) =~= vb@);
    while i < va.len() && i < vb.len() && va[i] == vb[i]
        invariant
            i <= va.len(),
            i <= vb.len(),
            va@.take(i as int) == vb@.take(i as int),
            lex_lt(va@, vb@) == lex_lt(va@.skip(i as int), vb@.skip(i as int)),
        decreases va.len() - i,
    {
        assert(va@.skip(i as int).drop_first() =~= va@.skip(i + 1));
        assert(vb@.skip(i as int).drop_first() =~= vb@.skip(i + 1));
        assert(va@.take(i + 1) =~= va@.take(i as int).push(va@[i as int]));
        assert(vb@.take(i + 1) =~= vb@.take(i as int).push(vb@[i as int]));
        i += 1;
    }
    if i == va.len() {
        i < vb.len()
    } else if i == vb.len() {
        false
    } else {
        va[i] < vb[i]
    }
}

/// Whether the set contains `x`.
pub fn set_contains(v: &Vec<String>, x: &str) -> (r: bool)
    ensures
        r == set_of(v@).contains(x@),
{
    let mut i: usize = 0;
    while i < v.len()
        invariant
            i <= v.len(),
            forall|k: int| 0 <= k < i ==> v@[k]@ != x@,
        decreases v.len() - i,
    {
        if crate::text::str_eq(v[i].as_str(), x) {
            assert(sviews(v@)[i as int] == x@);
            return true;
        }
        i += 1;
    }
    assert forall|k: int| 0 <= k < sviews(v@).len() implies sviews(v@)[k] != x@ by {
        assert(v@[k]@ != x@);
    }
    false
}

/// Adds `x` to a sorted set, keeping it sorted.
pub fn set_insert(v: &mut Vec<String>, x: String)
    requires
        sorted(sviews(old(v)@)),
    ensures
        sorted(sviews(final(v)@)),
        set_of(final(v)@) == set_of(old(v)@).insert(x@),
{
    let ghost old_s = sviews(v@);
    let mut i: usize = 0;
    while i < v.len() && lex_less(v[i].as_str(), x.as_str())
        invariant
            i <= v.len(),
            v@ == old(v)@,
            old_s == sviews(old(v)@),
            forall|k: int| 0 <= k < i ==> lex_lt(v@[k]@, x@),
        decreases v.len() - i,
    {
        i += 1;
    }
    if i < v.len() && crate::text::str_eq(v[i].as_str(), x.as_str()) {
        assert(old_s[i as int] == x@);
        assert(set_of(v@) =~= set_of(old(v)@).insert(x@));
        return;
    }
    proof {
        if i < v.len() {
            lemma_lex_trichotomy(v@[i as int]@, x@);
        }
    }
    let ghost xv = x@;
    v.insert(i, x);
    let ghost new_s = sviews(v@);
    assert(new_s =~= old_s.insert(i as int, xv));
    assert forall|a: int, b: int| 0 <= a < b < new_s.len() implies lex_lt(new_s[a], new_s[b]) by {
        if b < i {
        } else if a < i && b == i {
        } else if a < i && b > i {
            assert(lex_lt(old_s[a], old_s[b - 1]));
        } else if a == i {
            assert(lex_lt(xv, old_s[i as int]));
            if b - 1 > i {
                lemma_lex_transitive(xv, old_s[i as int], old_s[b - 1]);
            }
        } else {
            assert(lex_lt(old_s[a - 1], old_s[b - 1]));
        }
    }
    assert forall|t: Seq<char>| new_s.to_set().contains(t) <==> old_s.to_set().insert(xv).contains(t) by {
        if new_s.contains(t) {
            let k = choose|k: int| 0 <= k < new_s.len() && new_s[k] == t;
            if k < i {
                assert(old_s[k] == t);
            } else if k > i {
                assert(old_s[k - 1] == t);
            }
        }
        if old_s.contains(t) {
            let k = choose|k: int| 0 <= k < old_s.len() && old_s[k] == t;
            if k < i {
                assert(new_s[k] == t);
            } else {
                assert(new_s[k + 1] == t);
            }
        }
        if t == xv {
            assert(new_s[i as int] == t);
        }
    }
    assert(set_of(v@) =~= set_of(old(v)@).insert(xv));
}

/// Adds every element of `w` to the sorted set `v`.
pub fn set_insert_all(v: &mut Vec<String>, w: &Vec<String>)
    requires
        sorted(sviews(old(v)@)),
    ensures
        sorted(sviews(final(v)@)),
        set_of(final(v)@) == set_of(old(v)@) + set_of(w@),
{
    let mut i: usize = 0;
    while i < w.len()
        invariant
            i <= w.len(),
            sorted(sviews(v@)),
            set_of(v@) == set_of(old(v)@) + set_of(w@.take(i as int)),
        decreases w.len() - i,
    {
        set_insert(v, w[i].clone());
        assert(set_of(w@.take(i + 1)) =~= set_of(w@.take(i as int)).insert(w@[i as int]@)) by {
            assert(sviews(w@.take(i + 1)) =~= sviews(w@.take(i as int)).push(w@[i as int]@));
            lemma_push_to_set(sviews(w@.take(i as int)), w@[i as int]@);
        }
        i += 1;
    }
    assert(w@.take(w.len() as int) =~= w@);
}

/// Removes `x` from a sorted set.
pub fn set_remove(v: &mut Vec<String>, x: &str)
    requires
        sorted(sviews(old(v)@)),
    ensures
        sorted(sviews(final(v)@)),
        set_of(final(v)@) == set_of(old(v)@).remove(x@),
{
    let ghost old_s = sviews(v@);
    let mut i: usize = 0;
    while i < v.len()
        invariant
            i <= v.len(),
            v@ == old(v)@,
            old_s == sviews(old(v)@),
            sorted(old_s),
            forall|k: int| 0 <= k < i ==> v@[k]@ != x@,
        decreases v.len() - i,
    {
        if crate::text::str_eq(v[i].as_str(), x) {
            v.remove(i);
            let ghost new_s = sviews(v@);
            assert(new_s =~= old_s.remove(i as int));
            assert forall|a: int, b: int| 0 <= a < b < new_s.len() implies lex_lt(new_s[a], new_s[b]) by {
                if b < i {
                } else if a < i {
                    assert(lex_lt(old_s[a], old_s[b + 1]));
                } else {
                    assert(lex_lt(old_s[a + 1], old_s[b + 1]));
                }
            }
            assert forall|t: Seq<char>| new_s.to_set().contains(t) <==> old_s.to_set().remove(x@).contains(t) by {
                if new_s.contains(t) {
                    let k = choose|k: int| 0 <= k < new_s.len() && new_s[k] == t;
                    if k < i {
                        assert(old_s[k] == t);
                        assert(lex_lt(old_s[k], old_s[i as int]));
                        lemma_lex_irreflexive(t);
                    } else {
                        assert(old_s[k + 1] == t);
                        assert(lex_lt(old_s[i as int], old_s[k + 1]));
                        lemma_lex_irreflexive(t);
                    }
                }
                if old_s.contains(t) && t != x@ {
                    let k = choose|k: int| 0 <= k < old_s.len() && old_s[k] == t;
                    if k < i {
                        assert(new_s[k] == t);
                    } else {
                        assert(new_s[k - 1] == t);
                    }
                }
            }
            assert(set_of(v@) =~= set_of(old(v)@).remove(x@));
            return;
        }
        i += 1;
    }
    assert forall|t: Seq<char>| old_s.to_set().contains(t) implies t != x@ by {
        let k = choose|k: int| 0 <= k < old_s.len() && old_s[k] == t;
        assert(v@[k]@ != x@);
    }
    assert(set_of(v@) =~= set_of(old(v)@).remove(x@));
}

} // verus!
