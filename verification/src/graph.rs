use vstd::prelude::*;
use std::collections::HashMap;

verus! {

broadcast use vstd::std_specs::hash::group_hash_axioms;

// ── The object graph model ───────────────────────────────────────────────────
//
// Objects are numbered 0..n by the order in which they were added; `oids[i]`
// is the heap id of object i.  `refs` lists every reference found in object
// fields as (index of the referring object, referenced heap id); ids that name
// no object of the table are ignored.

/// Number of entries of `refs` that point at object `v`.  The object table
/// lists each (referring object, referenced id) pair once, however many
/// fields hold the reference, so this counts the objects that refer to `v`.
pub open spec fn in_degree(oids: Seq<u64>, refs: Seq<(u32, u64)>, v: int) -> nat {
    refs.filter(|e: (u32, u64)| e.1 == oids[v]).len()
}

/// Object `u` holds a reference to object `v`.
pub open spec fn has_ref(oids: Seq<u64>, refs: Seq<(u32, u64)>, u: int, v: int) -> bool {
    &&& 0 <= v < oids.len()
    &&& exists|k: int| 0 <= k < refs.len() && #[trigger] refs[k] == (u as u32, oids[v])
}

/// `v` is exclusively owned through `u`: `u` refers to `v` and nothing else does.
pub open spec fn owned_step(oids: Seq<u64>, refs: Seq<(u32, u64)>, u: int, v: int) -> bool {
    has_ref(oids, refs, u, v) && in_degree(oids, refs, v) == 1
}

/// A chain of objects, each exclusively owned by the one before it.
pub open spec fn is_owner_path(oids: Seq<u64>, refs: Seq<(u32, u64)>, p: Seq<int>) -> bool {
    &&& p.len() >= 1
    &&& forall|k: int| 0 <= k < p.len() ==> 0 <= #[trigger] p[k] < oids.len()
    &&& forall|k: int|
        0 <= k < p.len() - 1 ==> #[trigger] owned_step(oids, refs, p[k], p[k + 1])
}

/// Object `v` is kept alive by `r` alone: `v == r`, or a chain of exclusive
/// references leads from `r` to `v`.
pub open spec fn owns(oids: Seq<u64>, refs: Seq<(u32, u64)>, r: int, v: int) -> bool {
    exists|p: Seq<int>| #[trigger] is_owner_path(oids, refs, p) && p[0] == r && p.last() == v
}

// ── Sums ─────────────────────────────────────────────────────────────────────

/// `f(0) + ... + f(n - 1)`.
pub open spec fn sum_upto(n: int, f: spec_fn(int) -> nat) -> nat
    decreases n,
{
    if n <= 0 {
        0
    } else {
        sum_upto(n - 1, f) + f(n - 1)
    }
}

/// `f(s[0]) + ... + f(s[len - 1])`.
pub open spec fn seq_sum(s: Seq<u32>, f: spec_fn(int) -> nat) -> nat
    decreases s.len(),
{
    if s.len() == 0 {
        0
    } else {
        seq_sum(s.drop_last(), f) + f(s.last() as int)
    }
}

pub proof fn lemma_sum_ext(n: int, f: spec_fn(int) -> nat, g: spec_fn(int) -> nat)
    requires
        forall|i: int| 0 <= i < n ==> #[trigger] f(i) == g(i),
    ensures
        sum_upto(n, f) == sum_upto(n, g),
    decreases n,
{
    if n > 0 {
        lemma_sum_ext(n - 1, f, g);
    }
}

pub proof fn lemma_sum_add(n: int, f: spec_fn(int) -> nat, g: spec_fn(int) -> nat, h: spec_fn(int) -> nat)
    requires
        forall|i: int| 0 <= i < n ==> #[trigger] h(i) == f(i) + g(i),
    ensures
        sum_upto(n, h) == sum_upto(n, f) + sum_upto(n, g),
    decreases n,
{
    if n > 0 {
        lemma_sum_add(n - 1, f, g, h);
    }
}

pub proof fn lemma_sum_point(n: int, x: int, c: nat, f: spec_fn(int) -> nat)
    requires
        forall|i: int| 0 <= i < n ==> #[trigger] f(i) == if i == x { c } else { 0 },
    ensures
        sum_upto(n, f) == if 0 <= x < n { c } else { 0 },
    decreases n,
{
    if n > 0 {
        lemma_sum_point(n - 1, x, c, f);
    }
}

pub proof fn lemma_sum_le(n: int, f: spec_fn(int) -> nat, g: spec_fn(int) -> nat)
    requires
        forall|i: int| 0 <= i < n ==> #[trigger] f(i) <= g(i),
    ensures
        sum_upto(n, f) <= sum_upto(n, g),
    decreases n,
{
    if n > 0 {
        lemma_sum_le(n - 1, f, g);
    }
}

/// Summing over a duplicate-free list of objects is summing over the objects it holds.
pub proof fn lemma_seq_sum_as_sum(s: Seq<u32>, n: int, f: spec_fn(int) -> nat)
    requires
        s.no_duplicates(),
        n <= u32::MAX,
        forall|k: int| 0 <= k < s.len() ==> s[k] < n,
    ensures
        seq_sum(s, f) == sum_upto(n, |v: int| if s.contains(v as u32) { f(v) } else { 0 }),
    decreases s.len(),
{
    let ind = |v: int| if s.contains(v as u32) { f(v) } else { 0nat };
    if s.len() == 0 {
        lemma_sum_ext(n, ind, |v: int| 0nat);
        lemma_sum_point(n, -1, 0, |v: int| 0nat);
    } else {
        let t = s.drop_last();
        let x = s.last();
        assert(t.no_duplicates()) by {
            assert forall|i: int, j: int| 0 <= i < j < t.len() implies t[i] != t[j] by {
                assert(s[i] == t[i] && s[j] == t[j]);
            }
        }
        lemma_seq_sum_as_sum(t, n, f);
        let ind_t = |v: int| if t.contains(v as u32) { f(v) } else { 0nat };
        let pt = |v: int| if v == x as int { f(x as int) } else { 0nat };
        assert forall|v: int| 0 <= v < n implies #[trigger] ind(v) == ind_t(v) + pt(v) by {
            if v == x as int {
                assert(s.contains(x)) by {
                    assert(s[s.len() - 1] == x);
                }
                assert(!t.contains(x)) by {
                    if t.contains(x) {
                        let i = choose|i: int| 0 <= i < t.len() && t[i] == x;
                        assert(s[i] == s[s.len() - 1]);
                    }
                }
            } else {
                assert(v >= 0);
                if s.contains(v as u32) {
                    let i = choose|i: int| 0 <= i < s.len() && s[i] == v as u32;
                    assert(i != s.len() - 1);
                    assert(t[i] == v as u32);
                }
                if t.contains(v as u32) {
                    let i = choose|i: int| 0 <= i < t.len() && t[i] == v as u32;
                    assert(s[i] == v as u32);
                }
            }
        }
        lemma_sum_add(n, ind_t, pt, ind);
        lemma_sum_point(n, x as int, f(x as int), pt);
        assert(s[s.len() - 1] < n);
    }
}

// ── Building the adjacency lists ─────────────────────────────────────────────

pub open spec fn graph_ok(
    adj: Seq<Vec<u32>>,
    rc: Seq<u32>,
    oids: Seq<u64>,
    refs: Seq<(u32, u64)>,
) -> bool {
    let n = oids.len();
    &&& adj.len() == n
    &&& rc.len() == n
    &&& forall|u: int, j: int|
        0 <= u < n && 0 <= j < adj[u]@.len() ==> #[trigger] adj[u]@[j] < n
    &&& forall|u: int, v: int|
        0 <= u < n && 0 <= v < n ==> (#[trigger] adj[u]@.contains(v as u32) <==> has_ref(
            oids,
            refs,
            u,
            v,
        ))
    &&& forall|v: int| 0 <= v < n ==> #[trigger] rc[v] as nat == in_degree(oids, refs, v)
}

/// Builds, for every object, the list of objects it refers to, and counts the
/// references that point at each object.
pub fn build_graph(
    id_to_idx: &HashMap<u64, u32>,
    n: usize,
    pending: &Vec<(u32, u64)>,
    oids: Ghost<Seq<u64>>,
) -> (res: (Vec<Vec<u32>>, Vec<u32>))
    requires
        oids@.len() == n,
        n <= u32::MAX,
        oids@.no_duplicates(),
        id_to_idx@.dom() == oids@.to_set(),
        forall|i: int| 0 <= i < n ==> id_to_idx@[#[trigger] oids@[i]] == i,
        forall|k: int| 0 <= k < pending@.len() ==> (#[trigger] pending@[k]).0 < n,
        pending@.len() < u32::MAX,
    ensures
        graph_ok(res.0@, res.1@, oids@, pending@),
{
    let ghost o = oids@;
    let mut adj: Vec<Vec<u32>> = Vec::new();
    let mut rc: Vec<u32> = Vec::new();
    let mut i: usize = 0;
    while i < n
        invariant
            i <= n,
            adj@.len() == i,
            rc@.len() == i,
            forall|u: int| 0 <= u < i ==> (#[trigger] adj@[u])@ == Seq::<u32>::empty(),
            forall|u: int| 0 <= u < i ==> #[trigger] rc@[u] == 0,
        decreases n - i,
    {
        adj.push(Vec::new());
        rc.push(0);
        i = i + 1;
    }
    let mut k: usize = 0;
    while k < pending.len()
        invariant
            n == o.len(),
            n <= u32::MAX,
            o == oids@,
            o.no_duplicates(),
            id_to_idx@.dom() == o.to_set(),
            forall|i: int| 0 <= i < n ==> id_to_idx@[#[trigger] o[i]] == i,
            forall|kk: int| 0 <= kk < pending@.len() ==> (#[trigger] pending@[kk]).0 < n,
            pending@.len() < u32::MAX,
            k <= pending@.len(),
            adj@.len() == n,
            rc@.len() == n,
            forall|u: int, j: int|
                0 <= u < n && 0 <= j < adj@[u]@.len() ==> #[trigger] adj@[u]@[j] < n,
            forall|u: int, v: int|
                0 <= u < n && 0 <= v < n ==> (#[trigger] adj@[u]@.contains(v as u32) <==> has_ref(
                    o,
                    pending@.take(k as int),
                    u,
                    v,
                )),
            forall|v: int|
                0 <= v < n ==> #[trigger] rc@[v] as nat == in_degree(o, pending@.take(k as int), v),
            forall|v: int| 0 <= v < n ==> #[trigger] rc@[v] as nat <= k,
        decreases pending@.len() - k,
    {
        let (from, to) = pending[k];
        let ghost pre = pending@.take(k as int);
        let ghost post = pending@.take(k + 1);
        proof {
            assert(post =~= pre.push((from, to)));
            assert forall|v: int| 0 <= v < n implies in_degree(o, post, v) == in_degree(o, pre, v)
                + (if to == o[v] { 1nat } else { 0nat }) by {
                pre.lemma_filter_push((from, to), |e: (u32, u64)| e.1 == o[v]);
            }
        }
        match id_to_idx.get(&to) {
            Some(t) => {
                let t = *t;
                proof {
                    assert(o.to_set().contains(to));
                    let w = choose|w: int| 0 <= w < n && o[w] == to;
                    assert(t == w);
                }
                let ghost adj0 = adj@;
                adj[from as usize].push(t);
                rc[t as usize] = rc[t as usize] + 1;
                proof {
                    assert forall|u: int, v: int|
                        0 <= u < n && 0 <= v < n implies (#[trigger] adj@[u]@.contains(v as u32)
                        <==> has_ref(o, post, u, v)) by {
                        if has_ref(o, post, u, v) {
                            let kk = choose|kk: int| 0 <= kk < post.len() && #[trigger] post[kk] == (u as u32, o[v]);
                            if kk < pre.len() {
                                assert(pre[kk] == post[kk]);
                                assert(adj0[u]@.contains(v as u32));
                                if u == from as int {
                                    assert(adj@[u]@ == adj0[u]@.push(t));
                                    let j = choose|j: int| 0 <= j < adj0[u]@.len() && adj0[u]@[j] == v as u32;
                                    assert(adj@[u]@[j] == v as u32);
                                }
                            } else {
                                assert(u as u32 == from && o[v] == to);
                                assert(v == t as int) by {
                                    if v != t as int {
                                        assert(o[v] != o[t as int]);
                                    }
                                }
                                assert(kk == k as int);
                                assert(post[kk] == (from, to));
                                assert(u == from as int);
                                assert(adj@[u]@ == adj0[u]@.push(t));
                                assert(adj@[u]@[adj0[u]@.len() as int] == t);
                            }
                        }
                        if adj@[u]@.contains(v as u32) {
                            if u == from as int {
                                assert(adj@[u]@ == adj0[u]@.push(t));
                                let j = choose|j: int| 0 <= j < adj@[u]@.len() && adj@[u]@[j] == v as u32;
                                if j < adj0[u]@.len() {
                                    assert(adj0[u]@[j] == v as u32);
                                    assert(adj0[u]@.contains(v as u32));
                                    assert(has_ref(o, pre, u, v));
                                    let kk = choose|kk: int| 0 <= kk < pre.len() && #[trigger] pre[kk] == (u as u32, o[v]);
                                    assert(post[kk] == pre[kk]);
                                } else {
                                    assert(v as u32 == t);
                                    assert(post[k as int] == (u as u32, o[v]));
                                }
                            } else {
                                assert(adj@[u] == adj0[u]);
                                assert(adj0[u]@.contains(v as u32));
                                assert(has_ref(o, pre, u, v));
                                let kk = choose|kk: int| 0 <= kk < pre.len() && #[trigger] pre[kk] == (u as u32, o[v]);
                                assert(post[kk] == pre[kk]);
                            }
                        }
                    }
                    assert forall|u: int, j: int|
                        0 <= u < n && 0 <= j < adj@[u]@.len() implies #[trigger] adj@[u]@[j] < n by {
                        if u == from as int {
                            assert(adj@[u]@ == adj0[u]@.push(t));
                            if j < adj0[u]@.len() {
                                assert(adj@[u]@[j] == adj0[u]@[j]);
                            }
                        } else {
                            assert(adj@[u] == adj0[u]);
                        }
                    }
                    assert forall|v: int| 0 <= v < n implies #[trigger] rc@[v] as nat == in_degree(o, post, v) by {
                        if v != t as int {
                            assert(o[v] != to) by {
                                assert(o[v] != o[t as int]);
                            }
                        }
                    }
                }
            },
            None => {
                proof {
                    assert forall|v: int| 0 <= v < n implies o[v] != to by {
                        assert(o.to_set().contains(o[v]));
                    }
                    assert forall|u: int, v: int|
                        0 <= u < n && 0 <= v < n implies (#[trigger] adj@[u]@.contains(v as u32)
                        <==> has_ref(o, post, u, v)) by {
                        if has_ref(o, post, u, v) {
                            let kk = choose|kk: int| 0 <= kk < post.len() && #[trigger] post[kk] == (u as u32, o[v]);
                            if kk < pre.len() {
                                assert(pre[kk] == post[kk]);
                            } else {
                                assert(o[v] == to);
                            }
                        }
                        if has_ref(o, pre, u, v) {
                            let kk = choose|kk: int| 0 <= kk < pre.len() && #[trigger] pre[kk] == (u as u32, o[v]);
                            assert(post[kk] == pre[kk]);
                        }
                    }
                }
            },
        }
        k = k + 1;
    }
    proof {
        assert(pending@.take(k as int) =~= pending@);
    }
    (adj, rc)
}

} // verus!

verus! {

// ── Exclusive-ownership walk ─────────────────────────────────────────────────

pub open spec fn below(n: nat) -> Set<u32> {
    Set::new(|x: u32| (x as nat) < n)
}

proof fn lemma_below_finite(n: nat)
    requires
        n <= u32::MAX + 1,
    ensures
        below(n).finite(),
        below(n).len() == n,
    decreases n,
{
    if n == 0 {
        assert(below(n) =~= Set::<u32>::empty());
    } else {
        lemma_below_finite((n - 1) as nat);
        assert(below(n) =~= below((n - 1) as nat).insert((n - 1) as u32));
    }
}

/// A duplicate-free list of objects below `n` has at most `n` entries.
pub proof fn lemma_distinct_below(s: Seq<u32>, n: nat)
    requires
        s.no_duplicates(),
        n <= u32::MAX,
        forall|k: int| 0 <= k < s.len() ==> (s[k] as nat) < n,
    ensures
        s.len() <= n,
{
    s.unique_seq_to_set();
    lemma_below_finite(n);
    assert(s.to_set().subset_of(below(n)));
    vstd::set_lib::lemma_len_subset(s.to_set(), below(n));
}

/// A set of objects closed under exclusive ownership contains everything its
/// members own.
proof fn lemma_closed_owns(
    order: Seq<u32>,
    oids: Seq<u64>,
    refs: Seq<(u32, u64)>,
    p: Seq<int>,
)
    requires
        is_owner_path(oids, refs, p),
        order.contains(p[0] as u32),
        oids.len() <= u32::MAX,
        forall|u: int, v: int|
            0 <= u < oids.len() && 0 <= v < oids.len() && order.contains(u as u32)
                && #[trigger] owned_step(oids, refs, u, v) ==> order.contains(v as u32),
    ensures
        order.contains(p.last() as u32),
    decreases p.len(),
{
    if p.len() > 1 {
        let q = p.drop_last();
        assert(is_owner_path(oids, refs, q)) by {
            assert forall|k: int| 0 <= k < q.len() - 1 implies #[trigger] owned_step(
                oids,
                refs,
                q[k],
                q[k + 1],
            ) by {
                assert(owned_step(oids, refs, p[k], p[k + 1]));
            }
            assert forall|k: int| 0 <= k < q.len() implies 0 <= #[trigger] q[k] < oids.len() by {
                assert(0 <= p[k] < oids.len());
            }
        }
        lemma_closed_owns(order, oids, refs, q);
        let k = p.len() - 2;
        assert(owned_step(oids, refs, p[k], p[k + 1]));
        assert(0 <= p[k] < oids.len() && 0 <= p[k + 1] < oids.len());
    }
}

/// Walks from `root` along exclusively-owned references (targets whose
/// reference count is 1) and returns every object reached, `root` first.
pub fn owned_from(
    adj: &Vec<Vec<u32>>,
    rc: &Vec<u32>,
    root: u32,
    mark: &mut Vec<u32>,
    stamp: u32,
    oids: Ghost<Seq<u64>>,
    refs: Ghost<Seq<(u32, u64)>>,
) -> (order: Vec<u32>)
    requires
        graph_ok(adj@, rc@, oids@, refs@),
        oids@.len() <= u32::MAX,
        (root as int) < oids@.len(),
        old(mark)@.len() == oids@.len(),
        forall|v: int| 0 <= v < old(mark)@.len() ==> #[trigger] old(mark)@[v] < stamp,
    ensures
        final(mark)@.len() == oids@.len(),
        forall|v: int| 0 <= v < final(mark)@.len() ==> #[trigger] final(mark)@[v] <= stamp,
        order@.no_duplicates(),
        order@.len() >= 1,
        order@[0] == root,
        forall|k: int| 0 <= k < order@.len() ==> (#[trigger] order@[k] as int) < oids@.len(),
        forall|v: int|
            0 <= v < oids@.len() ==> (#[trigger] order@.contains(v as u32) <==> owns(
                oids@,
                refs@,
                root as int,
                v,
            )),
{
    let ghost o = oids@;
    let ghost r = refs@;
    let ghost n = o.len();
    let mut order: Vec<u32> = Vec::new();
    order.push(root);
    mark.set(root as usize, stamp);
    proof {
        let p = seq![root as int];
        assert(is_owner_path(o, r, p));
        assert(order@.no_duplicates());
        assert forall|v: int| 0 <= v < n implies (#[trigger] mark@[v] == stamp <==> order@.contains(v as u32)) by {
            if v == root as int {
                assert(order@[0] == root);
            } else {
                assert(mark@[v] == old(mark)@[v]);
                if order@.contains(v as u32) {
                    let k = choose|k: int| 0 <= k < order@.len() && order@[k] == v as u32;
                    assert(k == 0);
                }
            }
        }
        assert(owns(o, r, root as int, order@[0] as int));
    }
    let mut head: usize = 0;
    while head < order.len()
        invariant
            graph_ok(adj@, rc@, o, r),
            n <= u32::MAX,
            n == o.len(),
            (root as int) < n,
            mark@.len() == n,
            forall|v: int| 0 <= v < n ==> #[trigger] mark@[v] <= stamp,
            forall|v: int| 0 <= v < n ==> (#[trigger] mark@[v] == stamp <==> order@.contains(v as u32)),
            order@.no_duplicates(),
            order@.len() >= 1,
            order@[0] == root,
            order@.len() <= n,
            head <= order@.len(),
            forall|k: int| 0 <= k < order@.len() ==> (#[trigger] order@[k] as int) < n,
            forall|k: int| 0 <= k < order@.len() ==> owns(o, r, root as int, #[trigger] order@[k] as int),
            forall|k: int, v: int|
                0 <= k < head && 0 <= v < n && #[trigger] owned_step(o, r, order@[k] as int, v)
                    ==> order@.contains(v as u32),
        decreases n - head,
    {
        let cur = order[head];
        let row = &adj[cur as usize];
        let mut j: usize = 0;
        while j < row.len()
            invariant
                graph_ok(adj@, rc@, o, r),
                n <= u32::MAX,
                n == o.len(),
                (root as int) < n,
                row == adj@[cur as int],
                (cur as int) < n,
                cur == order@[head as int],
                mark@.len() == n,
                forall|v: int| 0 <= v < n ==> #[trigger] mark@[v] <= stamp,
                forall|v: int| 0 <= v < n ==> (#[trigger] mark@[v] == stamp <==> order@.contains(v as u32)),
                order@.no_duplicates(),
                order@.len() >= 1,
                order@[0] == root,
                order@.len() <= n,
                head < order@.len(),
                j <= row@.len(),
                forall|k: int| 0 <= k < order@.len() ==> (#[trigger] order@[k] as int) < n,
                forall|k: int| 0 <= k < order@.len() ==> owns(o, r, root as int, #[trigger] order@[k] as int),
                forall|k: int, v: int|
                    0 <= k < head && 0 <= v < n && #[trigger] owned_step(o, r, order@[k] as int, v)
                        ==> order@.contains(v as u32),
                forall|jj: int|
                    0 <= jj < j && rc@[row@[jj] as int] == 1 ==> order@.contains(#[trigger] row@[jj]),
            decreases row@.len() - j,
        {
            let child = row[j];
            assert(child < n);
            if mark[child as usize] != stamp && rc[child as usize] == 1 {
                let ghost old_order = order@;
                proof {
                    assert(!order@.contains(child));
                    assert forall|k: int| 0 <= k < order@.len() implies (#[trigger] order@[k] as nat) < n by {}
                    assert(order@.push(child).no_duplicates()) by {
                        assert forall|a: int, b: int| 0 <= a < b < order@.len() + 1 implies order@.push(child)[a] != order@.push(child)[b] by {
                            if b == order@.len() {
                                assert(order@.contains(order@[a]));
                            }
                        }
                    }
                    lemma_distinct_below(order@.push(child), n);
                    // the child is owned by root through cur
                    let p = choose|p: Seq<int>| #[trigger] is_owner_path(o, r, p) && p[0] == root as int && p.last() == cur as int;
                    assert(owns(o, r, root as int, order@[head as int] as int));
                    assert(adj@[cur as int]@.contains(child)) by {
                        assert(row@[j as int] == child);
                    }
                    assert(has_ref(o, r, cur as int, child as int));
                    assert(in_degree(o, r, child as int) == 1);
                    let q = p.push(child as int);
                    assert(is_owner_path(o, r, q)) by {
                        assert forall|k: int| 0 <= k < q.len() - 1 implies #[trigger] owned_step(o, r, q[k], q[k + 1]) by {
                            if k < p.len() - 1 {
                                assert(q[k] == p[k] && q[k + 1] == p[k + 1]);
                            } else {
                                assert(q[k] == cur as int && q[k + 1] == child as int);
                            }
                        }
                        assert forall|k: int| 0 <= k < q.len() implies 0 <= #[trigger] q[k] < o.len() by {
                            if k < p.len() {
                                assert(q[k] == p[k]);
                            }
                        }
                    }
                    assert(owns(o, r, root as int, child as int));
                }
                mark.set(child as usize, stamp);
                order.push(child);
                proof {
                    assert forall|v: int| 0 <= v < n implies (#[trigger] mark@[v] == stamp <==> order@.contains(v as u32)) by {
                        if v == child as int {
                            assert(order@[order@.len() - 1] == child);
                        } else {
                            if order@.contains(v as u32) {
                                let k = choose|k: int| 0 <= k < order@.len() && order@[k] == v as u32;
                                assert(k < old_order.len());
                                assert(old_order.contains(v as u32));
                            }
                            if old_order.contains(v as u32) {
                                let k = choose|k: int| 0 <= k < old_order.len() && old_order[k] == v as u32;
                                assert(order@[k] == v as u32);
                            }
                        }
                    }
                    assert forall|k: int, v: int|
                        0 <= k < head && 0 <= v < n && #[trigger] owned_step(o, r, order@[k] as int, v)
                            implies order@.contains(v as u32) by {
                        assert(order@[k] == old_order[k]);
                        assert(old_order.contains(v as u32));
                        let i = choose|i: int| 0 <= i < old_order.len() && old_order[i] == v as u32;
                        assert(order@[i] == v as u32);
                    }
                    assert forall|jj: int|
                        0 <= jj < j + 1 && rc@[row@[jj] as int] == 1 implies order@.contains(#[trigger] row@[jj]) by {
                        if jj < j {
                            assert(old_order.contains(row@[jj]));
                            let i = choose|i: int| 0 <= i < old_order.len() && old_order[i] == row@[jj];
                            assert(order@[i] == row@[jj]);
                        } else {
                            assert(order@[order@.len() - 1] == child);
                        }
                    }
                    assert(order@.no_duplicates()) by {
                        assert forall|a: int, b: int| 0 <= a < b < order@.len() implies order@[a] != order@[b] by {
                            if b == old_order.len() {
                                assert(old_order.contains(old_order[a]));
                            }
                        }
                    }
                }
            } else {
                proof {
                    if rc@[child as int] == 1 {
                        assert(mark@[child as int] == stamp);
                        assert(order@.contains(child));
                    }
                }
            }
            j = j + 1;
        }
        proof {
            assert forall|k: int, v: int|
                0 <= k < head + 1 && 0 <= v < n && #[trigger] owned_step(o, r, order@[k] as int, v)
                    implies order@.contains(v as u32) by {
                if k == head as int {
                    assert(has_ref(o, r, cur as int, v));
                    assert(adj@[cur as int]@.contains(v as u32));
                    let jj = choose|jj: int| 0 <= jj < row@.len() && row@[jj] == v as u32;
                    assert(rc@[v] as nat == in_degree(o, r, v));
                    assert(order@.contains(row@[jj]));
                }
            }
        }
        head = head + 1;
    }
    proof {
        assert forall|v: int| 0 <= v < n implies (#[trigger] order@.contains(v as u32) <==> owns(o, r, root as int, v)) by {
            if order@.contains(v as u32) {
                let k = choose|k: int| 0 <= k < order@.len() && order@[k] == v as u32;
                assert(owns(o, r, root as int, order@[k] as int));
            }
            if owns(o, r, root as int, v) {
                let p = choose|p: Seq<int>| #[trigger] is_owner_path(o, r, p) && p[0] == root as int && p.last() == v;
                assert(order@.contains(root)) by {
                    assert(order@[0] == root);
                }
                assert forall|u: int, w: int|
                    0 <= u < o.len() && 0 <= w < o.len() && order@.contains(u as u32)
                        && #[trigger] owned_step(o, r, u, w) implies order@.contains(w as u32) by {
                    let k = choose|k: int| 0 <= k < order@.len() && order@[k] == u as u32;
                    assert(order@[k] as int == u);
                }
                lemma_closed_owns(order@, o, r, p);
            }
        }
    }
    order
}

} // verus!
