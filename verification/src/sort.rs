use vstd::prelude::*;

verus! {

broadcast use vstd::seq_lib::group_to_multiset_ensures;

/// `a` comes before `b`: larger key first, and for equal keys the smaller position first.
pub open spec fn pair_before(a: (u64, usize), b: (u64, usize)) -> bool {
    a.0 > b.0 || (a.0 == b.0 && a.1 < b.1)
}

pub open spec fn pairs_sorted(s: Seq<(u64, usize)>) -> bool {
    forall|i: int, j: int| 0 <= i < j < s.len() ==> pair_before(#[trigger] s[i], #[trigger] s[j])
}

pub open spec fn distinct_positions(s: Seq<(u64, usize)>) -> bool {
    forall|i: int, j: int| 0 <= i < j < s.len() ==> (#[trigger] s[i]).1 != (#[trigger] s[j]).1
}

/// Sorts (key, position) pairs by key, largest first; equal keys keep the
/// order of their positions.  With distinct positions the result is unique.
pub fn sort_pairs_desc(v: &Vec<(u64, usize)>) -> (r: Vec<(u64, usize)>)
    requires
        distinct_positions(v@),
    ensures
        r@.to_multiset() == v@.to_multiset(),
        r@.len() == v@.len(),
        pairs_sorted(r@),
{
    let mut r: Vec<(u64, usize)> = Vec::new();
    let mut i: usize = 0;
    while i < v.len()
        invariant
            distinct_positions(v@),
            i <= v@.len(),
            r@.to_multiset() == v@.take(i as int).to_multiset(),
            r@.len() == i,
            pairs_sorted(r@),
            forall|k: int| #![trigger r@[k]] 0 <= k < r@.len() ==> exists|kk: int| 0 <= kk < i && #[trigger] v@[kk] == r@[k],
        decreases v@.len() - i,
    {
        let x = v[i];
        let mut p: usize = 0;
        while p < r.len() && !(x.0 > r[p].0 || (x.0 == r[p].0 && x.1 < r[p].1))
            invariant
                p <= r@.len(),
                forall|k: int| 0 <= k < p ==> !pair_before(x, #[trigger] r@[k]),
            decreases r@.len() - p,
        {
            p = p + 1;
        }
        let ghost r0 = r@;
        proof {
            // x is distinct from everything already placed
            assert forall|k: int| 0 <= k < r0.len() implies (#[trigger] r0[k]).1 != x.1 by {
                let kk = choose|kk: int| 0 <= kk < i && #[trigger] v@[kk] == r0[k];
                assert(v@[kk].1 != v@[i as int].1);
            }
            // every element after p comes after x
            assert forall|k: int| p <= k < r0.len() implies pair_before(x, #[trigger] r0[k]) by {
                if p < r0.len() {
                    assert(pair_before(x, r0[p as int]));
                    if k > p {
                        assert(pair_before(r0[p as int], r0[k]));
                    }
                }
            }
        }
        r.insert(p, x);
        proof {
            assert(v@.take(i + 1) =~= v@.take(i as int).push(x));
            vstd::seq_lib::to_multiset_insert(r0, p as int, x);
            assert(r@.to_multiset() == r0.to_multiset().insert(x));
            assert(v@.take(i as int).push(x).to_multiset() == v@.take(i as int).to_multiset().insert(x));
            assert forall|a: int, b: int| 0 <= a < b < r@.len() implies pair_before(#[trigger] r@[a], #[trigger] r@[b]) by {
                if a < p && b < p {
                    assert(r@[a] == r0[a] && r@[b] == r0[b]);
                } else if a < p && b == p {
                    assert(!pair_before(x, r0[a]));
                    assert(r0[a].1 != x.1);
                } else if a < p && b > p {
                    assert(r@[a] == r0[a] && r@[b] == r0[b - 1]);
                } else if a == p {
                    assert(r@[b] == r0[b - 1]);
                } else {
                    assert(r@[a] == r0[a - 1] && r@[b] == r0[b - 1]);
                }
            }
            assert forall|k: int| #![trigger r@[k]] 0 <= k < r@.len() implies exists|kk: int| 0 <= kk < i + 1 && #[trigger] v@[kk] == r@[k] by {
                if k < p {
                    assert(r@[k] == r0[k]);
                    let kk = choose|kk: int| 0 <= kk < i && #[trigger] v@[kk] == r0[k];
                    assert(v@[kk] == r@[k]);
                } else if k == p {
                    assert(v@[i as int] == r@[k]);
                } else {
                    assert(r@[k] == r0[k - 1]);
                    let kk = choose|kk: int| 0 <= kk < i && #[trigger] v@[kk] == r0[k - 1];
                    assert(v@[kk] == r@[k]);
                }
            }
        }
        i = i + 1;
    }
    proof {
        assert(v@.take(i as int) =~= v@);
    }
    r
}

} // verus!
