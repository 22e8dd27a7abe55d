//! Sorted lists of distinct ids, used to walk maps keyed by id in ascending order.
use std::collections::HashMap;
use vstd::prelude::*;
use vstd::std_specs::hash::spec_keys_iter;
use vstd::std_specs::iter::IteratorSpec;

verus! {

/// Every element is smaller than the ones after it.
pub open spec fn strictly_sorted(s: Seq<u32>) -> bool {
    forall|a: int, b: int| 0 <= a < b < s.len() ==> s[a] < s[b]
}

/// `s` lists exactly the ids of `ids`, in ascending order.
pub open spec fn lists_in_order(s: Seq<u32>, ids: Set<u32>) -> bool {
    &&& strictly_sorted(s)
    &&& forall|k: u32| ids.contains(k) <==> s.contains(k)
}

/// The elements of a finite set of ids in ascending order.
pub open spec fn in_order(ids: Set<u32>) -> Seq<u32> {
    choose|s: Seq<u32>| lists_in_order(s, ids)
}

/// Two ascending listings of the same ids agree on their first `i` places.
proof fn lemma_listings_agree_upto(s1: Seq<u32>, s2: Seq<u32>, ids: Set<u32>, i: int)
    requires
        lists_in_order(s1, ids),
        lists_in_order(s2, ids),
        0 <= i <= s1.len(),
        i <= s2.len(),
    ensures
        forall|j: int| 0 <= j < i ==> s1[j] == s2[j],
    decreases i,
{
    if i > 0 {
        lemma_listings_agree_upto(s1, s2, ids, i - 1);
        let k = i - 1;
        assert(s1.contains(s1[k]));
        assert(s2.contains(s1[k]));
        let q = choose|q: int| 0 <= q < s2.len() && s2[q] == s1[k];
        if q < k {
            assert(s1[q] == s2[q]);
        }
        assert(s2.contains(s2[k]));
        assert(s1.contains(s2[k]));
        let p = choose|p: int| 0 <= p < s1.len() && s1[p] == s2[k];
        if p < k {
            assert(s1[p] == s2[p]);
        }
    }
}

/// A set has one ascending listing at most.
pub proof fn lemma_listing_unique(s1: Seq<u32>, s2: Seq<u32>, ids: Set<u32>)
    requires
        lists_in_order(s1, ids),
        lists_in_order(s2, ids),
    ensures
        s1 == s2,
{
    if s1.len() > s2.len() {
        lemma_listings_agree_upto(s1, s2, ids, s2.len() as int);
        let x = s1[s2.len() as int];
        assert(s1.contains(x));
        let q = choose|q: int| 0 <= q < s2.len() && s2[q] == x;
        assert(s1[q] == s2[q]);
    } else if s2.len() > s1.len() {
        lemma_listings_agree_upto(s1, s2, ids, s1.len() as int);
        let x = s2[s1.len() as int];
        assert(s2.contains(x));
        let q = choose|q: int| 0 <= q < s1.len() && s1[q] == x;
        assert(s1[q] == s2[q]);
    } else {
        lemma_listings_agree_upto(s1, s2, ids, s1.len() as int);
    }
    assert(s1 =~= s2);
}

/// An ascending listing of `ids` is the listing `in_order(ids)`.
pub proof fn lemma_in_order(s: Seq<u32>, ids: Set<u32>)
    requires
        lists_in_order(s, ids),
    ensures
        in_order(ids) == s,
{
    let c = in_order(ids);
    assert(lists_in_order(c, ids));
    lemma_listing_unique(c, s, ids);
}

/// A finite set of ids has an ascending listing, which `in_order` gives.
pub proof fn lemma_in_order_lists(ids: Set<u32>)
    requires
        ids.finite(),
    ensures
        lists_in_order(in_order(ids), ids),
    decreases ids.len(),
{
    broadcast use vstd::set::group_set_axioms, vstd::set_lib::group_set_properties;

    if ids.len() == 0 {
        assert(ids =~= Set::<u32>::empty());
        assert(lists_in_order(Seq::<u32>::empty(), ids));
    } else {
        let leq = |a: u32, b: u32| a <= b;
        assert(vstd::relations::total_ordering(leq));
        ids.find_unique_maximal_ensures(leq);
        let x = ids.find_unique_maximal(leq);
        let rest = ids.remove(x);
        lemma_in_order_lists(rest);
        let l = in_order(rest);
        let l2 = l.push(x);
        assert forall|y: u32| rest.contains(y) implies y < x by {
            if leq(x, y) {
                assert(leq(y, x));
            }
        }
        assert forall|a: int, b: int| 0 <= a < b < l2.len() implies l2[a] < l2[b] by {
            if b == l.len() {
                assert(l.contains(l[a]));
            } else {
                assert(l2[a] == l[a] && l2[b] == l[b]);
            }
        }
        assert forall|k: u32| ids.contains(k) <==> l2.contains(k) by {
            if ids.contains(k) && k != x {
                assert(rest.contains(k));
                let j = choose|j: int| 0 <= j < l.len() && l[j] == k;
                assert(l2[j] == k);
            }
            if k == x {
                assert(l2[l.len() as int] == x);
            }
            if l2.contains(k) && k != x {
                let j = choose|j: int| 0 <= j < l2.len() && l2[j] == k;
                assert(j < l.len());
                assert(l[j] == k);
                assert(l.contains(k));
            }
        }
        assert(lists_in_order(l2, ids));
    }
}

/// The ascending listing of a finite set of ids has one entry per id.
pub proof fn lemma_in_order_len(ids: Set<u32>)
    requires
        ids.finite(),
    ensures
        in_order(ids).len() == ids.len(),
        lists_in_order(in_order(ids), ids),
{
    lemma_in_order_lists(ids);
    let s = in_order(ids);
    assert(s.no_duplicates()) by {
        assert forall|a: int, b: int| 0 <= a < s.len() && 0 <= b < s.len() && a != b implies s[a] != s[b] by {
            if a < b {
                assert(s[a] < s[b]);
            } else {
                assert(s[b] < s[a]);
            }
        }
    }
    assert(s.to_set() =~= ids);
    s.unique_seq_to_set();
}

/// The first place of `s` whose element satisfies `q`, when some place does.
pub proof fn lemma_first_index<A>(s: Seq<A>, q: spec_fn(A) -> bool) -> (i: int)
    requires
        exists|j: int| 0 <= j < s.len() && q(#[trigger] s[j]),
    ensures
        0 <= i < s.len(),
        q(s[i]),
        forall|j: int| 0 <= j < i ==> !q(#[trigger] s[j]),
    decreases s.len(),
{
    if q(s[0]) {
        0
    } else {
        let r = s.drop_first();
        let j = choose|j: int| 0 <= j < s.len() && q(#[trigger] s[j]);
        assert(r[j - 1] == s[j]);
        let i = lemma_first_index(r, q);
        assert forall|j: int| 0 <= j < i + 1 implies !q(#[trigger] s[j]) by {
            if j > 0 {
                assert(r[j - 1] == s[j]);
            }
        }
        assert(r[i] == s[i + 1]);
        i + 1
    }
}

/// Puts `x` into a strictly sorted list that does not hold it yet, keeping it sorted.
pub fn insert_sorted(v: &mut Vec<u32>, x: u32)
    requires
        strictly_sorted(old(v)@),
        !old(v)@.contains(x),
    ensures
        strictly_sorted(final(v)@),
        forall|k: u32| final(v)@.contains(k) <==> (old(v)@.contains(k) || k == x),
        final(v)@.len() == old(v)@.len() + 1,
{
    let mut pos: usize = 0;
    while pos < v.len() && v[pos] < x
        invariant
            pos <= v.len(),
            v@ == old(v)@,
            forall|j: int| 0 <= j < pos ==> v@[j] < x,
        decreases v.len() - pos,
    {
        pos = pos + 1;
    }
    let ghost before = v@;
    proof {
        if pos < before.len() {
            assert(before[pos as int] != x);
            assert(before[pos as int] > x);
        }
    }
    v.insert(pos, x);
    proof {
        let after = v@;
        assert(after =~= before.insert(pos as int, x));
        assert forall|a: int, b: int| 0 <= a < b < after.len() implies after[a] < after[b] by {
            if b < pos {
            } else if b == pos {
            } else if a < pos {
                assert(after[b] == before[b - 1]);
                if b - 1 > pos {
                    assert(before[pos as int] < before[b - 1]);
                }
            } else if a == pos {
                assert(after[b] == before[b - 1]);
                if b - 1 > pos {
                    assert(before[pos as int] < before[b - 1]);
                }
            } else {
                assert(after[a] == before[a - 1]);
                assert(after[b] == before[b - 1]);
            }
        }
        assert forall|k: u32| after.contains(k) <==> (before.contains(k) || k == x) by {
            if after.contains(k) {
                let j = choose|j: int| 0 <= j < after.len() && after[j] == k;
                if j < pos {
                    assert(before[j] == k);
                } else if j > pos {
                    assert(before[j - 1] == k);
                }
            }
            if before.contains(k) {
                let j = choose|j: int| 0 <= j < before.len() && before[j] == k;
                if j < pos {
                    assert(after[j] == k);
                } else {
                    assert(after[j + 1] == k);
                }
            }
            if k == x {
                assert(after[pos as int] == x);
            }
        }
    }
}

/// The keys of a map, in ascending order.
pub fn sorted_keys<V>(m: &HashMap<u32, V>) -> (r: Vec<u32>)
    ensures
        lists_in_order(r@, m@.dom()),
{
    let mut out: Vec<u32> = Vec::new();
    for k in it: m.keys()
        invariant
            strictly_sorted(out@),
            forall|x: u32| out@.contains(x) <==> (exists|j: int| 0 <= j < it.index() && *it.seq()[j] == x),
            it.seq().no_duplicates(),
    {
        proof {
            if out@.contains(*k) {
                let j = choose|j: int| 0 <= j < it.index() && *it.seq()[j] == *k;
                assert(it.seq()[j] == it.seq()[it.index()]);
            }
        }
        insert_sorted(&mut out, *k);
        proof {
            assert forall|x: u32| out@.contains(x) implies (exists|j: int| 0 <= j < it.index() + 1 && *it.seq()[j] == x) by {
                if x != *k {
                    let j = choose|j: int| 0 <= j < it.index() && *it.seq()[j] == x;
                    assert(0 <= j < it.index() + 1 && *it.seq()[j] == x);
                } else {
                    assert(*it.seq()[it.index() as int] == x);
                }
            }
            assert forall|x: u32| (exists|j: int| 0 <= j < it.index() + 1 && *it.seq()[j] == x) implies out@.contains(x) by {
                let j = choose|j: int| 0 <= j < it.index() + 1 && *it.seq()[j] == x;
                if j < it.index() {
                } else {
                    assert(x == *k);
                }
            }
        }
    }
    proof {
        let ks = spec_keys_iter(m).remaining();
        assert forall|x: u32| m@.dom().contains(x) <==> out@.contains(x) by {
            if m@.dom().contains(x) {
                assert(ks.unref().to_set().contains(x));
                let j = choose|j: int| 0 <= j < ks.unref().len() && ks.unref()[j] == x;
                assert(*ks[j] == x);
            }
            if out@.contains(x) {
                let j = choose|j: int| 0 <= j < ks.len() && *ks[j] == x;
                assert(ks.unref()[j] == x);
                assert(ks.unref().contains(x));
            }
        }
    }
    out
}

} // verus!
