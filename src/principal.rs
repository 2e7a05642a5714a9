//! Sets of principals, kept as byte strings in the order principals sort in:
//! shorter first, then byte by byte.
use vstd::prelude::*;

use crate::hash::{
    lemma_lex_antisymmetric, lemma_lex_reflexive, lemma_lex_total, lemma_lex_transitive, lex_le,
    lex_le_exec, views,
};

verus! {

/// The longest principal, in bytes.
pub const MAX_PRINCIPAL_LEN: usize = 29;

/// Strict order of principals: by length, then lexicographically.
pub open spec fn principal_lt(a: Seq<u8>, b: Seq<u8>) -> bool {
    a.len() < b.len() || (a.len() == b.len() && lex_le(a, b) && !lex_le(b, a))
}

/// The principals of `s` are strictly increasing, hence distinct.
pub open spec fn strictly_ordered(s: Seq<Seq<u8>>) -> bool {
    forall|i: int, j: int| 0 <= i < j < s.len() ==> #[trigger] principal_lt(s[i], s[j])
}

/// The principals of a set kept in order.
pub open spec fn members(s: Seq<Vec<u8>>) -> Set<Seq<u8>> {
    views(s).to_set()
}

proof fn lemma_lt_transitive(a: Seq<u8>, b: Seq<u8>, c: Seq<u8>)
    requires
        principal_lt(a, b),
        principal_lt(b, c),
    ensures
        principal_lt(a, c),
{
    if a.len() == b.len() && b.len() == c.len() {
        lemma_lex_transitive(a, b, c);
        if lex_le(c, a) {
            lemma_lex_transitive(b, c, a);
        }
    }
}

proof fn lemma_lt_trichotomy(a: Seq<u8>, b: Seq<u8>)
    ensures
        principal_lt(a, b) || principal_lt(b, a) || a == b,
{
    lemma_lex_total(a, b);
    if lex_le(a, b) && lex_le(b, a) {
        lemma_lex_antisymmetric(a, b);
    }
}

proof fn lemma_lt_irreflexive(a: Seq<u8>)
    ensures
        !principal_lt(a, a),
{
    lemma_lex_reflexive(a);
}

/// The principals of a set, in order: the one strictly increasing list of them.
pub open spec fn ordered_principals(s: Set<Seq<u8>>) -> Seq<Seq<u8>> {
    choose|q: Seq<Seq<u8>>| strictly_ordered(q) && q.to_set() == s
}

proof fn lemma_lt_asymmetric(a: Seq<u8>, b: Seq<u8>)
    requires
        principal_lt(a, b),
    ensures
        !principal_lt(b, a),
{
    if principal_lt(b, a) {
        lemma_lt_transitive(a, b, a);
        lemma_lt_irreflexive(a);
    }
}

/// Two strictly increasing lists of the same principals are the same list.
pub proof fn lemma_ordered_unique(a: Seq<Seq<u8>>, b: Seq<Seq<u8>>)
    requires
        strictly_ordered(a),
        strictly_ordered(b),
        a.to_set() == b.to_set(),
    ensures
        a == b,
    decreases a.len(),
{
    if a.len() == 0 {
        if b.len() > 0 {
            assert(b.to_set().contains(b[0]));
        }
        assert(a =~= b);
    } else if b.len() == 0 {
        assert(a.to_set().contains(a[0]));
    } else {
        assert(a.to_set().contains(a[0]));
        assert(b.to_set().contains(b[0]));
        let j = choose|j: int| 0 <= j < b.len() && b[j] == a[0];
        let i = choose|i: int| 0 <= i < a.len() && a[i] == b[0];
        if j > 0 {
            assert(principal_lt(b[0], b[j]));
            if i > 0 {
                assert(principal_lt(a[0], a[i]));
                lemma_lt_asymmetric(a[0], a[i]);
            } else {
                lemma_lt_irreflexive(a[0]);
            }
        }
        assert(a[0] == b[0]);
        let a1 = a.drop_first();
        let b1 = b.drop_first();
        assert forall|x: Seq<u8>| a1.to_set().contains(x) <==> b1.to_set().contains(x) by {
            if a1.to_set().contains(x) {
                let k = choose|k: int| 0 <= k < a1.len() && a1[k] == x;
                assert(principal_lt(a[0], a[k + 1]));
                assert(a.to_set().contains(a[k + 1]));
                assert(b.to_set().contains(x));
                let m = choose|m: int| 0 <= m < b.len() && b[m] == x;
                if m == 0 {
                    lemma_lt_irreflexive(x);
                }
                assert(b1[m - 1] == x);
            }
            if b1.to_set().contains(x) {
                let k = choose|k: int| 0 <= k < b1.len() && b1[k] == x;
                assert(principal_lt(b[0], b[k + 1]));
                assert(b.to_set().contains(b[k + 1]));
                assert(a.to_set().contains(x));
                let m = choose|m: int| 0 <= m < a.len() && a[m] == x;
                if m == 0 {
                    lemma_lt_irreflexive(x);
                }
                assert(a1[m - 1] == x);
            }
        }
        assert(a1.to_set() =~= b1.to_set());
        lemma_ordered_unique(a1, b1);
        assert(a =~= seq![a[0]] + a1);
        assert(b =~= seq![b[0]] + b1);
    }
}

/// A strictly increasing list is the ordered list of its principals.
pub proof fn lemma_ordered_is_canonical(q: Seq<Seq<u8>>)
    requires
        strictly_ordered(q),
    ensures
        q == ordered_principals(q.to_set()),
{
    let c = ordered_principals(q.to_set());
    assert(strictly_ordered(c) && c.to_set() == q.to_set());
    lemma_ordered_unique(q, c);
}

/// Whether `a` sorts strictly before `b`.
pub fn principal_less(a: &Vec<u8>, b: &Vec<u8>) -> (r: bool)
    ensures
        r == principal_lt(a@, b@),
{
    if a.len() != b.len() {
        a.len() < b.len()
    } else {
        lex_le_exec(a, b) && !lex_le_exec(b, a)
    }
}

/// Adds a principal to an ordered set; a principal already there stays once.
pub fn insert_principal(set: &mut Vec<Vec<u8>>, p: Vec<u8>)
    requires
        strictly_ordered(views(old(set)@)),
    ensures
        strictly_ordered(views(final(set)@)),
        members(final(set)@) == members(old(set)@).insert(p@),
{
    let mut i: usize = 0;
    while i < set.len() && principal_less(&set[i], &p)
        invariant
            i <= set@.len(),
            forall|j: int| 0 <= j < i ==> principal_lt(#[trigger] set@[j]@, p@),
        decreases set@.len() - i,
    {
        i = i + 1;
    }
    let ghost old_views = views(set@);
    if i < set.len() && !principal_less(&p, &set[i]) {
        proof {
            lemma_lt_trichotomy(set@[i as int]@, p@);
            assert(old_views[i as int] == p@);
            assert(old_views.to_set().contains(p@));
            assert(members(set@) =~= members(set@).insert(p@));
        }
        return;
    }
    set.insert(i, p);
    proof {
        let v = views(set@);
        assert(v =~= old_views.insert(i as int, p@));
        if i < old_views.len() {
            lemma_lt_trichotomy(old_views[i as int], p@);
        }
        assert forall|a: int, b: int| 0 <= a < b < v.len() implies #[trigger] principal_lt(v[a], v[b]) by {
            if b == i {
                assert(v[a] == old_views[a]);
            } else if a == i {
                assert(v[b] == old_views[b - 1]);
                if b - 1 > i {
                    lemma_lt_transitive(p@, old_views[i as int], old_views[b - 1]);
                }
            } else {
                let a0 = if a < i { a } else { a - 1 };
                let b0 = if b < i { b } else { b - 1 };
                assert(v[a] == old_views[a0]);
                assert(v[b] == old_views[b0]);
                if a0 == b0 {
                    lemma_lt_transitive(old_views[a0], p@, old_views[i as int]);
                    lemma_lt_irreflexive(old_views[a0]);
                }
            }
        }
        assert forall|x: Seq<u8>| v.to_set().contains(x) <==> old_views.to_set().insert(p@).contains(x) by {
            if v.to_set().contains(x) {
                let k = choose|k: int| 0 <= k < v.len() && v[k] == x;
                if k != i {
                    let k0 = if k < i { k } else { k - 1 };
                    assert(old_views[k0] == x);
                }
            }
            if old_views.to_set().contains(x) && x != p@ {
                let k = choose|k: int| 0 <= k < old_views.len() && old_views[k] == x;
                let k1 = if k < i { k } else { k + 1 };
                assert(v[k1] == x);
            }
            if x == p@ {
                assert(v[i as int] == x);
            }
        }
        assert(members(set@) =~= members(old(set)@).insert(p@));
    }
}

/// Collects principals into an ordered set.
pub fn principal_set(items: &Vec<Vec<u8>>) -> (r: Vec<Vec<u8>>)
    ensures
        strictly_ordered(views(r@)),
        members(r@) == views(items@).to_set(),
{
    let mut out: Vec<Vec<u8>> = Vec::new();
    let mut i: usize = 0;
    assert(members(out@) =~= views(items@.take(0)).to_set());
    while i < items.len()
        invariant
            i <= items@.len(),
            strictly_ordered(views(out@)),
            members(out@) == views(items@.take(i as int)).to_set(),
        decreases items@.len() - i,
    {
        let p = items[i].clone();
        assert(p@ == items@[i as int]@);
        insert_principal(&mut out, p);
        proof {
            assert(items@.take(i as int + 1) =~= items@.take(i as int).push(items@[i as int]));
            assert(views(items@.take(i as int + 1)) =~= views(items@.take(i as int)).push(p@));
            views(items@.take(i as int)).lemma_push_to_set_commute(p@);
        }
        i = i + 1;
    }
    assert(items@.take(items@.len() as int) =~= items@);
    out
}

/// Adds every principal of `items` to an ordered set.
pub fn extend_principals(set: &mut Vec<Vec<u8>>, items: &Vec<Vec<u8>>)
    requires
        strictly_ordered(views(old(set)@)),
    ensures
        strictly_ordered(views(final(set)@)),
        members(final(set)@) == members(old(set)@).union(views(items@).to_set()),
{
    let ghost start = members(set@);
    let mut i: usize = 0;
    assert(start.union(views(items@.take(0)).to_set()) =~= start);
    while i < items.len()
        invariant
            i <= items@.len(),
            strictly_ordered(views(set@)),
            members(set@) == start.union(views(items@.take(i as int)).to_set()),
        decreases items@.len() - i,
    {
        let p = items[i].clone();
        assert(p@ == items@[i as int]@);
        insert_principal(set, p);
        proof {
            assert(items@.take(i as int + 1) =~= items@.take(i as int).push(items@[i as int]));
            assert(views(items@.take(i as int + 1)) =~= views(items@.take(i as int)).push(p@));
            views(items@.take(i as int)).lemma_push_to_set_commute(p@);
            assert(members(set@) =~= start.union(views(items@.take(i as int + 1)).to_set()));
        }
        i = i + 1;
    }
    assert(items@.take(items@.len() as int) =~= items@);
}

/// A copy of a list of principals.
pub fn copy_principals(items: &Vec<Vec<u8>>) -> (r: Vec<Vec<u8>>)
    ensures
        views(r@) == views(items@),
{
    let mut out: Vec<Vec<u8>> = Vec::new();
    let mut i: usize = 0;
    while i < items.len()
        invariant
            i <= items@.len(),
            views(out@) =~= views(items@).take(i as int),
        decreases items@.len() - i,
    {
        let p = items[i].clone();
        assert(p@ == items@[i as int]@);
        let ghost before = out@;
        out.push(p);
        assert(views(out@) =~= views(before).push(p@));
        i = i + 1;
    }
    assert(views(items@).take(items@.len() as int) =~= views(items@));
    out
}

} // verus!
