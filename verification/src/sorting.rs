//! Insertion sort of `(key, payload)` pairs in descending key order.

use vstd::prelude::*;

verus! {

broadcast use vstd::seq_lib::group_seq_properties,
    vstd::multiset::group_multiset_axioms;

/// Pairs in descending order of key (the first component).
pub open spec fn sorted_desc(s: Seq<(u64, u64)>) -> bool {
    forall|i: int, j: int| #![trigger s[i], s[j]] 0 <= i < j < s.len() ==> s[i].0 >= s[j].0
}

/// Inserts `p` behind every pair whose key is at least `p`'s: the
/// stable insertion position.
pub open spec fn insert_desc(p: (u64, u64), s: Seq<(u64, u64)>) -> Seq<(u64, u64)>
    decreases s.len(),
{
    if s.len() == 0 {
        seq![p]
    } else if s[0].0 >= p.0 {
        seq![s[0]] + insert_desc(p, s.drop_first())
    } else {
        seq![p] + s
    }
}

/// Stable insertion sort by descending key: pairs are inserted left to
/// right, each behind the pairs of equal key already placed, so pairs
/// of equal key keep their relative order.
pub open spec fn sort_desc_spec(s: Seq<(u64, u64)>) -> Seq<(u64, u64)>
    decreases s.len(),
{
    if s.len() == 0 {
        s
    } else {
        insert_desc(s.last(), sort_desc_spec(s.drop_last()))
    }
}

/// Inserting at the first position whose key is below `p`'s is what
/// [`insert_desc`] does.
proof fn lemma_insert_desc_at(p: (u64, u64), s: Seq<(u64, u64)>, j: int)
    requires
        0 <= j <= s.len(),
        forall|k: int| #![trigger s[k]] 0 <= k < j ==> s[k].0 >= p.0,
        j < s.len() ==> s[j].0 < p.0,
    ensures
        insert_desc(p, s) =~= s.take(j) + seq![p] + s.skip(j),
    decreases j,
{
    if j == 0 {
        if s.len() == 0 {
            assert(insert_desc(p, s) =~= seq![p]);
        } else {
            assert(s[0].0 < p.0);
        }
    } else {
        assert(s[0].0 >= p.0);
        lemma_insert_desc_at(p, s.drop_first(), j - 1);
        assert(s.drop_first().take(j - 1) =~= s.take(j).drop_first());
        assert(s.drop_first().skip(j - 1) =~= s.skip(j));
        assert(insert_desc(p, s) =~= seq![s[0]] + insert_desc(p, s.drop_first()));
    }
}

/// Sorts pairs by descending key, stably: the result is exactly the
/// stable insertion sort [`sort_desc_spec`], so pairs of equal key keep
/// their relative order.
pub fn sort_pairs_desc(v: Vec<(u64, u64)>) -> (r: Vec<(u64, u64)>)
    ensures
        r@ == sort_desc_spec(v@),
        r@.len() == v@.len(),
        sorted_desc(r@),
        r@.to_multiset() == v@.to_multiset(),
{
    let mut r: Vec<(u64, u64)> = Vec::new();
    let mut i: usize = 0;
    while i < v.len()
        invariant
            i <= v@.len(),
            r@.len() == i,
            sorted_desc(r@),
            r@ == sort_desc_spec(v@.take(i as int)),
            r@.to_multiset() == v@.take(i as int).to_multiset(),
        decreases v@.len() - i,
    {
        let p = v[i];
        let mut j: usize = 0;
        while j < r.len() && r[j].0 >= p.0
            invariant
                j <= r@.len(),
                forall|k: int| #![trigger r@[k]] 0 <= k < j ==> r@[k].0 >= p.0,
            decreases r@.len() - j,
        {
            j = j + 1;
        }
        let ghost pre = r@;
        r.insert(j, p);
        proof {
            lemma_insert_desc_at(p, pre, j as int);
            assert(v@.take(i + 1).drop_last() =~= v@.take(i as int));
            assert(v@.take(i + 1).last() == p);
            assert(r@ =~= pre.take(j as int) + seq![p] + pre.skip(j as int));
            assert(r@ =~= insert_desc(p, pre));
            assert(r@ == sort_desc_spec(v@.take(i + 1)));
        }
        proof {
            assert(sorted_desc(r@)) by {
                assert forall|a: int, b: int| #![trigger r@[a], r@[b]]
                    0 <= a < b < r@.len() implies r@[a].0 >= r@[b].0 by {
                    if a < j && b > j {
                        assert(r@[a] == pre[a] && r@[b] == pre[b - 1]);
                    } else if a == j && b > j {
                        assert(r@[b] == pre[b - 1]);
                        assert(pre[b - 1].0 < p.0);
                    } else if b == j {
                        assert(r@[a] == pre[a]);
                    } else if b < j {
                        assert(r@[a] == pre[a] && r@[b] == pre[b]);
                    } else {
                        assert(r@[a] == pre[a - 1] && r@[b] == pre[b - 1]);
                    }
                }
            }
            // inserting anywhere adds exactly one copy to the multiset
            let s2 = pre.insert(j as int, p);
            assert(s2.remove(j as int) =~= pre);
            s2.to_multiset_ensures();
            assert(s2.remove(j as int).to_multiset() =~= s2.to_multiset().remove(s2[j as int]));
            assert(s2[j as int] == p);
            assert(s2.to_multiset().count(p) > 0) by {
                s2.to_multiset_ensures();
                assert(s2.contains(p));
            }
            assert(s2.to_multiset() =~= pre.to_multiset().insert(p));
            assert(v@.take(i + 1).drop_last() =~= v@.take(i as int));
            assert(v@.take(i + 1) =~= v@.take(i as int).push(p));
            v@.take(i as int).to_multiset_ensures();
            assert(v@.take(i + 1).to_multiset() =~= v@.take(i as int).to_multiset().insert(p));
        }
        i = i + 1;
    }
    proof {
        assert(v@.take(v@.len() as int) =~= v@);
    }
    r
}

} // verus!
