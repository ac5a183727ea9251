//! Ranking: sort (count, index) pairs by count descending, breaking ties by
//! the lower index. With pairwise-distinct indices the order is strict, so a
//! ranking is uniquely determined — this is the deterministic tie-break the
//! churn ranking and the peak histograms build on.

use vstd::prelude::*;

verus! {

broadcast use vstd::seq_lib::group_to_multiset_ensures;

/// Strict ranking order: higher count first, lower index first among equal
/// counts.
pub open spec fn pair_before(a: (usize, usize), b: (usize, usize)) -> bool {
    a.0 > b.0 || (a.0 == b.0 && a.1 < b.1)
}

/// Pairwise-distinct second components.
pub open spec fn distinct_snd(s: Seq<(usize, usize)>) -> bool {
    forall|i: int, j: int| 0 <= i < j < s.len() ==> (#[trigger] s[i]).1 != (#[trigger] s[j]).1
}

/// Strictly ranked by [`pair_before`].
pub open spec fn ranked(s: Seq<(usize, usize)>) -> bool {
    forall|i: int, j: int| 0 <= i < j < s.len() ==> pair_before(#[trigger] s[i], #[trigger] s[j])
}

fn pair_before_exec(a: (usize, usize), b: (usize, usize)) -> (r: bool)
    ensures
        r == pair_before(a, b),
{
    a.0 > b.0 || (a.0 == b.0 && a.1 < b.1)
}

/// Sort pairs into ranking order by insertion. The output is a permutation
/// of the input, strictly ranked; together these pin it down uniquely.
pub fn sort_pairs_desc(v: &Vec<(usize, usize)>) -> (r: Vec<(usize, usize)>)
    requires
        distinct_snd(v@),
    ensures
        r@.to_multiset() == v@.to_multiset(),
        ranked(r@),
        r@.len() == v@.len(),
{
    let mut out: Vec<(usize, usize)> = Vec::new();
    let mut i: usize = 0;
    proof {
        assert(v@.take(0) =~= Seq::<(usize, usize)>::empty());
        assert(out@.to_multiset() =~= v@.take(0).to_multiset());
    }
    while i < v.len()
        invariant
            i <= v@.len(),
            distinct_snd(v@),
            out@.to_multiset() == v@.take(i as int).to_multiset(),
            ranked(out@),
            out@.len() == i,
        decreases v@.len() - i,
    {
        let x = v[i];
        proof {
            assert forall|q: int| 0 <= q < out@.len() implies (#[trigger] out@[q]).1 != x.1 by {
                assert(out@.contains(out@[q])) by {
                    assert(0 <= q < out@.len() && out@[q] == out@[q]);
                }
                assert(out@.to_multiset().count(out@[q]) > 0);
                assert(v@.take(i as int).to_multiset().count(out@[q]) > 0);
                assert(v@.take(i as int).contains(out@[q]));
                let w = choose|w: int|
                    0 <= w < v@.take(i as int).len() && v@.take(i as int)[w] == out@[q];
                assert(v@[w] == out@[q]);
            }
        }
        let mut p: usize = 0;
        while p < out.len() && pair_before_exec(out[p], x)
            invariant
                p <= out@.len(),
                forall|q: int| 0 <= q < p ==> pair_before(#[trigger] out@[q], x),
            decreases out@.len() - p,
        {
            p = p + 1;
        }
        let ghost before = out@;
        out.insert(p, x);
        proof {
            before.insert_ensures(p as int, x);
            // permutation
            assert(v@.take(i + 1 as int) =~= v@.take(i as int).push(x));
            assert(out@.to_multiset() =~= v@.take(i + 1 as int).to_multiset());
            // strict order around the inserted element
            if p < before.len() {
                assert(!pair_before(before[p as int], x));
                assert(before[p as int].1 != x.1);
                assert(pair_before(x, before[p as int]));
            }
            assert forall|a: int, b: int| 0 <= a < b < out@.len() implies pair_before(
                #[trigger] out@[a],
                #[trigger] out@[b],
            ) by {
                if a < p && b == p {
                    assert(out@[a] == before[a]);
                    assert(out@[b] == x);
                } else if a == p && b > p {
                    assert(out@[a] == x);
                    assert(out@[b] == before[b - 1]);
                    if b - 1 > p {
                        assert(pair_before(before[p as int], before[b - 1]));
                    }
                } else if a < p && b > p {
                    assert(out@[a] == before[a]);
                    assert(out@[b] == before[b - 1]);
                    if a < b - 1 {
                        assert(pair_before(before[a], before[b - 1]));
                    }
                } else if a > p && b > p {
                    assert(out@[a] == before[a - 1]);
                    assert(out@[b] == before[b - 1]);
                    assert(pair_before(before[a - 1], before[b - 1]));
                } else if a < p && b < p {
                    assert(out@[a] == before[a]);
                    assert(out@[b] == before[b]);
                    assert(pair_before(before[a], before[b]));
                }
            }
        }
        i = i + 1;
    }
    proof {
        assert(v@.take(v@.len() as int) =~= v@);
    }
    out
}

/// The values of a usize sequence as mathematical integers.
pub open spec fn int_views(s: Seq<usize>) -> Seq<int> {
    s.map_values(|u: usize| u as int)
}

/// Sort values ascending by insertion. The output is a permutation of the
/// input in nondecreasing order.
pub fn sort_usizes(v: &Vec<usize>) -> (r: Vec<usize>)
    ensures
        int_views(r@).to_multiset() == int_views(v@).to_multiset(),
        forall|i: int, j: int| 0 <= i < j < r@.len() ==> r@[i] <= r@[j],
        r@.len() == v@.len(),
{
    let mut out: Vec<usize> = Vec::new();
    let mut i: usize = 0;
    proof {
        assert(int_views(v@.take(0)) =~= Seq::<int>::empty());
        assert(int_views(out@) =~= Seq::<int>::empty());
    }
    while i < v.len()
        invariant
            i <= v@.len(),
            int_views(out@).to_multiset() == int_views(v@.take(i as int)).to_multiset(),
            forall|a: int, b: int| 0 <= a < b < out@.len() ==> out@[a] <= out@[b],
            out@.len() == i,
        decreases v@.len() - i,
    {
        let x = v[i];
        let mut p: usize = 0;
        while p < out.len() && out[p] <= x
            invariant
                p <= out@.len(),
                forall|q: int| 0 <= q < p ==> out@[q] <= x,
            decreases out@.len() - p,
        {
            p = p + 1;
        }
        let ghost before = out@;
        out.insert(p, x);
        proof {
            before.insert_ensures(p as int, x);
            assert(int_views(out@) =~= int_views(before).insert(p as int, x as int));
            assert(int_views(v@.take(i + 1 as int)) =~= int_views(v@.take(i as int)).push(
                x as int,
            ));
            assert(int_views(out@).to_multiset() =~= int_views(v@.take(i + 1 as int)).to_multiset());
            assert forall|a: int, b: int| 0 <= a < b < out@.len() implies out@[a] <= out@[b] by {
                if b == p {
                    assert(out@[a] == before[a]);
                } else if a == p && b > p {
                    assert(out@[b] == before[b - 1]);
                    assert(!(before[p as int] <= x));
                } else if a < p && b > p {
                    assert(out@[a] == before[a]);
                    assert(out@[b] == before[b - 1]);
                    if a < b - 1 {
                        assert(before[a] <= before[b - 1]);
                    }
                } else if a > p && b > p {
                    assert(out@[a] == before[a - 1]);
                    assert(out@[b] == before[b - 1]);
                } else {
                    assert(out@[a] == before[a]);
                    assert(out@[b] == before[b]);
                }
            }
        }
        i = i + 1;
    }
    proof {
        assert(v@.take(v@.len() as int) =~= v@);
    }
    out
}

} // verus!
