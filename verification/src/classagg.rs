use vstd::prelude::*;
use std::collections::HashMap;
use crate::graph::{owns, sum_upto, seq_sum, owned_from, graph_ok, lemma_sum_ext, lemma_sum_add, lemma_sum_point, lemma_sum_le, lemma_seq_sum_as_sum, is_owner_path};

verus! {

broadcast use vstd::std_specs::hash::group_hash_axioms;

// ── Per-class totals over the object graph ───────────────────────────────────
//
// `o`, `c`, `z`: object ids, class ids and shallow sizes, indexed by object;
// `r`: the references found in object fields.

/// Shallow size of `v` if `root` owns it, else 0.
pub open spec fn owned_size(o: Seq<u64>, z: Seq<u64>, r: Seq<(u32, u64)>, root: int) -> spec_fn(int) -> nat {
    |v: int| if owns(o, r, root, v) { z[v] as nat } else { 0 }
}

/// Shallow size of `v` if `root` owns it and it is of class `cc`, else 0.
pub open spec fn owned_size_of(
    o: Seq<u64>,
    c: Seq<u64>,
    z: Seq<u64>,
    r: Seq<(u32, u64)>,
    root: int,
    cc: u64,
) -> spec_fn(int) -> nat {
    |v: int| if owns(o, r, root, v) && c[v] == cc { z[v] as nat } else { 0 }
}

/// 1 if `root` owns `v` and it is of class `cc`, else 0.
pub open spec fn owned_one_of(o: Seq<u64>, c: Seq<u64>, r: Seq<(u32, u64)>, root: int, cc: u64) -> spec_fn(int) -> nat {
    |v: int| if owns(o, r, root, v) && c[v] == cc { 1 } else { 0 }
}

/// Bytes kept alive by `root` alone: the shallow sizes of every object it owns
/// (itself included).
pub open spec fn own_bytes(o: Seq<u64>, z: Seq<u64>, r: Seq<(u32, u64)>, root: int) -> nat {
    sum_upto(o.len() as int, owned_size(o, z, r, root))
}

/// Bytes of class `cc` objects owned by `root`.
pub open spec fn own_bytes_of(
    o: Seq<u64>,
    c: Seq<u64>,
    z: Seq<u64>,
    r: Seq<(u32, u64)>,
    root: int,
    cc: u64,
) -> nat {
    sum_upto(o.len() as int, owned_size_of(o, c, z, r, root, cc))
}

/// Number of class `cc` objects owned by `root`.
pub open spec fn own_count_of(o: Seq<u64>, c: Seq<u64>, r: Seq<(u32, u64)>, root: int, cc: u64) -> nat {
    sum_upto(o.len() as int, owned_one_of(o, c, r, root, cc))
}

pub open spec fn count_fn(c: Seq<u64>, cls: u64) -> spec_fn(int) -> nat {
    |i: int| if c[i] == cls { 1 } else { 0 }
}

pub open spec fn shallow_fn(c: Seq<u64>, z: Seq<u64>, cls: u64) -> spec_fn(int) -> nat {
    |i: int| if c[i] == cls { z[i] as nat } else { 0 }
}

pub open spec fn retained_fn(o: Seq<u64>, c: Seq<u64>, z: Seq<u64>, r: Seq<(u32, u64)>, cls: u64) -> spec_fn(int) -> nat {
    |i: int| if c[i] == cls { own_bytes(o, z, r, i) } else { 0 }
}

pub open spec fn contrib_bytes_fn(
    o: Seq<u64>,
    c: Seq<u64>,
    z: Seq<u64>,
    r: Seq<(u32, u64)>,
    cls: u64,
    cc: u64,
) -> spec_fn(int) -> nat {
    |i: int| if c[i] == cls { own_bytes_of(o, c, z, r, i, cc) } else { 0 }
}

pub open spec fn contrib_count_fn(o: Seq<u64>, c: Seq<u64>, r: Seq<(u32, u64)>, cls: u64, cc: u64) -> spec_fn(int) -> nat {
    |i: int| if c[i] == cls { own_count_of(o, c, r, i, cc) } else { 0 }
}

/// Number of the first `m` objects that belong to class `cls`.
pub open spec fn class_count(c: Seq<u64>, m: int, cls: u64) -> nat {
    sum_upto(m, count_fn(c, cls))
}

/// Total shallow size of the first `m` objects of class `cls`.
pub open spec fn class_shallow(c: Seq<u64>, z: Seq<u64>, m: int, cls: u64) -> nat {
    sum_upto(m, shallow_fn(c, z, cls))
}

/// Bytes kept alive by the first `m` objects of class `cls`, each counted from
/// every instance that owns it.
pub open spec fn class_retained(
    o: Seq<u64>,
    c: Seq<u64>,
    z: Seq<u64>,
    r: Seq<(u32, u64)>,
    m: int,
    cls: u64,
) -> nat {
    sum_upto(m, retained_fn(o, c, z, r, cls))
}

/// Bytes of class `cc` kept alive by the first `m` objects of class `cls`.
pub open spec fn contrib_bytes(
    o: Seq<u64>,
    c: Seq<u64>,
    z: Seq<u64>,
    r: Seq<(u32, u64)>,
    m: int,
    cls: u64,
    cc: u64,
) -> nat {
    sum_upto(m, contrib_bytes_fn(o, c, z, r, cls, cc))
}

/// Number of class `cc` objects kept alive by the first `m` objects of class `cls`.
pub open spec fn contrib_count(
    o: Seq<u64>,
    c: Seq<u64>,
    r: Seq<(u32, u64)>,
    m: int,
    cls: u64,
    cc: u64,
) -> nat {
    sum_upto(m, contrib_count_fn(o, c, r, cls, cc))
}

/// Running totals for one class.
pub struct ClassAcc {
    pub cid: u64,
    pub count: u64,
    pub shallow: u64,
    pub retained: u64,
    pub contrib_index: HashMap<u64, usize>,
    /// (class id, bytes, object count) of every class seen among owned objects.
    pub contribs: Vec<(u64, u64, u64)>,
}

pub open spec fn contrib_ok(idx: Map<u64, usize>, list: Seq<(u64, u64, u64)>) -> bool {
    &&& forall|cc: u64| #[trigger] idx.contains_key(cc) ==> idx[cc] < list.len() && list[idx[cc] as int].0 == cc
    &&& forall|k: int| 0 <= k < list.len() ==> idx.contains_key(#[trigger] list[k].0) && idx[list[k].0] == k
    &&& forall|k: int| 0 <= k < list.len() ==> #[trigger] list[k].2 >= 1
}

/// (bytes, count) recorded for class `cc`; zero when not listed.
pub open spec fn contrib_val(idx: Map<u64, usize>, list: Seq<(u64, u64, u64)>, cc: u64) -> (nat, nat) {
    if idx.contains_key(cc) {
        (list[idx[cc] as int].1 as nat, list[idx[cc] as int].2 as nat)
    } else {
        (0, 0)
    }
}

/// The totals in `a` are those of class `a.cid` over the first `m` objects.
pub open spec fn acc_ok(
    a: ClassAcc,
    o: Seq<u64>,
    c: Seq<u64>,
    z: Seq<u64>,
    r: Seq<(u32, u64)>,
    m: int,
) -> bool {
    &&& a.count as nat == class_count(c, m, a.cid)
    &&& a.shallow as nat == class_shallow(c, z, m, a.cid)
    &&& a.retained as nat == class_retained(o, c, z, r, m, a.cid)
    &&& contrib_ok(a.contrib_index@, a.contribs@)
    &&& forall|cc: u64|
        #[trigger] contrib_val(a.contrib_index@, a.contribs@, cc) == (
            contrib_bytes(o, c, z, r, m, a.cid, cc),
            contrib_count(o, c, r, m, a.cid, cc),
        )
}

} // verus!

verus! {

// ── Bounds used to rule out overflow ─────────────────────────────────────────

pub proof fn lemma_sum_bound(m: int, f: spec_fn(int) -> nat, b: nat)
    requires
        m >= 0,
        forall|i: int| 0 <= i < m ==> #[trigger] f(i) <= b,
    ensures
        sum_upto(m, f) <= m * b,
    decreases m,
{
    if m > 0 {
        lemma_sum_bound(m - 1, f, b);
        assert((m - 1) * b + b == m * b) by (nonlinear_arith);
    }
}

pub proof fn lemma_sum_mono(m1: int, m2: int, f: spec_fn(int) -> nat)
    requires
        m1 <= m2,
    ensures
        sum_upto(m1, f) <= sum_upto(m2, f),
    decreases m2 - m1,
{
    if m1 < m2 {
        lemma_sum_mono(m1, m2 - 1, f);
    }
}

pub proof fn lemma_seq_sum_prefix(s: Seq<u32>, j: int, f: spec_fn(int) -> nat)
    requires
        0 <= j < s.len(),
    ensures
        seq_sum(s.take(j + 1), f) == seq_sum(s.take(j), f) + f(s[j] as int),
{
    assert(s.take(j + 1).drop_last() =~= s.take(j));
}

pub proof fn lemma_seq_sum_prefix_le(s: Seq<u32>, j: int, f: spec_fn(int) -> nat)
    requires
        0 <= j <= s.len(),
    ensures
        seq_sum(s.take(j), f) <= seq_sum(s, f),
    decreases s.len() - j,
{
    if j < s.len() {
        lemma_seq_sum_prefix(s, j, f);
        lemma_seq_sum_prefix_le(s, j + 1, f);
    } else {
        assert(s.take(j) =~= s);
    }
}

pub proof fn lemma_seq_sum_le(s: Seq<u32>, f: spec_fn(int) -> nat, g: spec_fn(int) -> nat)
    requires
        forall|v: int| #[trigger] f(v) <= g(v),
    ensures
        seq_sum(s, f) <= seq_sum(s, g),
    decreases s.len(),
{
    if s.len() > 0 {
        lemma_seq_sum_le(s.drop_last(), f, g);
    }
}

/// An object owns itself, so it keeps at least its own bytes alive.
pub proof fn lemma_own_self(o: Seq<u64>, z: Seq<u64>, r: Seq<(u32, u64)>, i: int)
    requires
        0 <= i < o.len(),
    ensures
        owns(o, r, i, i),
        z[i] as nat <= own_bytes(o, z, r, i),
{
    let p = seq![i];
    assert(is_owner_path(o, r, p));
    let f = owned_size(o, z, r, i);
    let pt = |v: int| if v == i { z[i] as nat } else { 0nat };
    lemma_sum_point(o.len() as int, i, z[i] as nat, pt);
    assert forall|v: int| 0 <= v < o.len() implies #[trigger] pt(v) <= f(v) by {}
    lemma_sum_le(o.len() as int, pt, f);
}

/// The bytes that instances of `cls` keep alive in objects of class `cc`
/// are part of what the class retains.
pub proof fn lemma_contrib_le_retained(
    o: Seq<u64>,
    c: Seq<u64>,
    z: Seq<u64>,
    r: Seq<(u32, u64)>,
    m: int,
    cls: u64,
    cc: u64,
)
    ensures
        contrib_bytes(o, c, z, r, m, cls, cc) <= class_retained(o, c, z, r, m, cls),
{
    let n = o.len() as int;
    let f = contrib_bytes_fn(o, c, z, r, cls, cc);
    let g = retained_fn(o, c, z, r, cls);
    assert forall|i: int| 0 <= i < m implies #[trigger] f(i) <= g(i) by {
        let fi = owned_size_of(o, c, z, r, i, cc);
        let gi = owned_size(o, z, r, i);
        assert forall|v: int| 0 <= v < n implies #[trigger] fi(v) <= gi(v) by {}
        lemma_sum_le(n, fi, gi);
    }
    lemma_sum_le(m, f, g);
}

pub proof fn lemma_contrib_count_bound(
    o: Seq<u64>,
    c: Seq<u64>,
    r: Seq<(u32, u64)>,
    m: int,
    cls: u64,
    cc: u64,
)
    requires
        m >= 0,
    ensures
        contrib_count(o, c, r, m, cls, cc) <= m * o.len(),
{
    let n = o.len() as int;
    let f = contrib_count_fn(o, c, r, cls, cc);
    assert forall|i: int| 0 <= i < m implies #[trigger] f(i) <= n as nat by {
        let fi = owned_one_of(o, c, r, i, cc);
        assert forall|v: int| 0 <= v < n implies #[trigger] fi(v) <= 1 by {}
        lemma_sum_bound(n, fi, 1);
    }
    lemma_sum_bound(m, f, n as nat);
}

/// What a class retains is at most the number of objects times their total
/// shallow size: each instance keeps alive a set of objects, at most all of them.
pub proof fn lemma_class_retained_bound(o: Seq<u64>, c: Seq<u64>, z: Seq<u64>, r: Seq<(u32, u64)>, cls: u64)
    ensures
        class_retained(o, c, z, r, o.len() as int, cls) <= o.len() * sum_upto(o.len() as int, size_fn(z)),
{
    let n = o.len() as int;
    let total = sum_upto(n, size_fn(z));
    let g = retained_fn(o, c, z, r, cls);
    assert forall|i: int| 0 <= i < n implies #[trigger] g(i) <= total by {
        let f = owned_size(o, z, r, i);
        assert forall|v: int| 0 <= v < n implies #[trigger] f(v) <= size_fn(z)(v) by {}
        lemma_sum_le(n, f, size_fn(z));
    }
    lemma_sum_bound(n, g, total);
}

/// A class retains at least its own instances' bytes: retained size is the
/// shallow size plus what the instances alone keep alive.
pub proof fn lemma_shallow_le_retained(
    o: Seq<u64>,
    c: Seq<u64>,
    z: Seq<u64>,
    r: Seq<(u32, u64)>,
    m: int,
    cls: u64,
)
    requires
        m <= o.len(),
    ensures
        class_shallow(c, z, m, cls) <= class_retained(o, c, z, r, m, cls),
{
    let f = shallow_fn(c, z, cls);
    let g = retained_fn(o, c, z, r, cls);
    assert forall|i: int| 0 <= i < m implies #[trigger] f(i) <= g(i) by {
        if 0 <= i < o.len() && c[i] == cls {
            lemma_own_self(o, z, r, i);
        }
    }
    lemma_sum_le(m, f, g);
}

} // verus!

verus! {

pub open spec fn size_fn(z: Seq<u64>) -> spec_fn(int) -> nat {
    |v: int| z[v] as nat
}

pub open spec fn size_of_fn(c: Seq<u64>, z: Seq<u64>, cc: u64) -> spec_fn(int) -> nat {
    |v: int| if c[v] == cc { z[v] as nat } else { 0 }
}

pub open spec fn one_of_fn(c: Seq<u64>, cc: u64) -> spec_fn(int) -> nat {
    |v: int| if c[v] == cc { 1 } else { 0 }
}

/// Sums over the objects that a walk from `root` reached are the owned totals of `root`.
pub proof fn lemma_order_sums(
    order: Seq<u32>,
    o: Seq<u64>,
    c: Seq<u64>,
    z: Seq<u64>,
    r: Seq<(u32, u64)>,
    root: int,
    cc: u64,
)
    requires
        o.len() <= u32::MAX,
        order.no_duplicates(),
        forall|k: int| 0 <= k < order.len() ==> (#[trigger] order[k] as int) < o.len(),
        forall|v: int| 0 <= v < o.len() ==> (#[trigger] order.contains(v as u32) <==> owns(o, r, root, v)),
    ensures
        seq_sum(order, size_fn(z)) == own_bytes(o, z, r, root),
        seq_sum(order, size_of_fn(c, z, cc)) == own_bytes_of(o, c, z, r, root, cc),
        seq_sum(order, one_of_fn(c, cc)) == own_count_of(o, c, r, root, cc),
{
    let n = o.len() as int;
    lemma_seq_sum_as_sum(order, n, size_fn(z));
    lemma_seq_sum_as_sum(order, n, size_of_fn(c, z, cc));
    lemma_seq_sum_as_sum(order, n, one_of_fn(c, cc));
    let a1 = |v: int| if order.contains(v as u32) { size_fn(z)(v) } else { 0 };
    let a2 = |v: int| if order.contains(v as u32) { size_of_fn(c, z, cc)(v) } else { 0 };
    let a3 = |v: int| if order.contains(v as u32) { one_of_fn(c, cc)(v) } else { 0 };
    assert forall|v: int| 0 <= v < n implies #[trigger] a1(v) == owned_size(o, z, r, root)(v) by {
        assert(order.contains(v as u32) <==> owns(o, r, root, v));
    }
    assert forall|v: int| 0 <= v < n implies #[trigger] a2(v) == owned_size_of(o, c, z, r, root, cc)(v) by {
        assert(order.contains(v as u32) <==> owns(o, r, root, v));
    }
    assert forall|v: int| 0 <= v < n implies #[trigger] a3(v) == owned_one_of(o, c, r, root, cc)(v) by {
        assert(order.contains(v as u32) <==> owns(o, r, root, v));
    }
    lemma_sum_ext(n, a1, owned_size(o, z, r, root));
    lemma_sum_ext(n, a2, owned_size_of(o, c, z, r, root, cc));
    lemma_sum_ext(n, a3, owned_one_of(o, c, r, root, cc));
}

/// A class that none of the first `m` objects belongs to has all totals zero.
pub proof fn lemma_absent_class(
    o: Seq<u64>,
    c: Seq<u64>,
    z: Seq<u64>,
    r: Seq<(u32, u64)>,
    m: int,
    cls: u64,
    cc: u64,
)
    requires
        forall|i: int| 0 <= i < m ==> c[i] != cls,
    ensures
        class_count(c, m, cls) == 0,
        class_shallow(c, z, m, cls) == 0,
        class_retained(o, c, z, r, m, cls) == 0,
        contrib_bytes(o, c, z, r, m, cls, cc) == 0,
        contrib_count(o, c, r, m, cls, cc) == 0,
{
    let zero = |i: int| 0nat;
    lemma_sum_point(m, -1, 0, zero);
    assert forall|i: int| 0 <= i < m implies #[trigger] count_fn(c, cls)(i) == zero(i) by {}
    assert forall|i: int| 0 <= i < m implies #[trigger] shallow_fn(c, z, cls)(i) == zero(i) by {}
    assert forall|i: int| 0 <= i < m implies #[trigger] retained_fn(o, c, z, r, cls)(i) == zero(i) by {}
    assert forall|i: int| 0 <= i < m implies #[trigger] contrib_bytes_fn(o, c, z, r, cls, cc)(i) == zero(i) by {}
    assert forall|i: int| 0 <= i < m implies #[trigger] contrib_count_fn(o, c, r, cls, cc)(i) == zero(i) by {}
    lemma_sum_ext(m, count_fn(c, cls), zero);
    lemma_sum_ext(m, shallow_fn(c, z, cls), zero);
    lemma_sum_ext(m, retained_fn(o, c, z, r, cls), zero);
    lemma_sum_ext(m, contrib_bytes_fn(o, c, z, r, cls, cc), zero);
    lemma_sum_ext(m, contrib_count_fn(o, c, r, cls, cc), zero);
}

} // verus!

verus! {

/// Adds the objects of one owner walk to a class's running totals.
fn add_owned(acc: &mut ClassAcc, order: &Vec<u32>, cids: &Vec<u64>, sizes: &Vec<u64>)
    requires
        contrib_ok(old(acc).contrib_index@, old(acc).contribs@),
        cids@.len() == sizes@.len(),
        forall|k: int| 0 <= k < order@.len() ==> (#[trigger] order@[k] as int) < cids@.len(),
        old(acc).retained + seq_sum(order@, size_fn(sizes@)) <= u64::MAX,
        forall|cc: u64|
            #[trigger] contrib_val(old(acc).contrib_index@, old(acc).contribs@, cc).0 + seq_sum(
                order@,
                size_of_fn(cids@, sizes@, cc),
            ) <= u64::MAX,
        forall|cc: u64|
            #[trigger] contrib_val(old(acc).contrib_index@, old(acc).contribs@, cc).1 + seq_sum(
                order@,
                one_of_fn(cids@, cc),
            ) <= u64::MAX,
    ensures
        final(acc).cid == old(acc).cid,
        final(acc).count == old(acc).count,
        final(acc).shallow == old(acc).shallow,
        final(acc).retained == old(acc).retained + seq_sum(order@, size_fn(sizes@)),
        contrib_ok(final(acc).contrib_index@, final(acc).contribs@),
        forall|cc: u64|
            #[trigger] contrib_val(final(acc).contrib_index@, final(acc).contribs@, cc) == (
                contrib_val(old(acc).contrib_index@, old(acc).contribs@, cc).0 + seq_sum(
                    order@,
                    size_of_fn(cids@, sizes@, cc),
                ),
                contrib_val(old(acc).contrib_index@, old(acc).contribs@, cc).1 + seq_sum(
                    order@,
                    one_of_fn(cids@, cc),
                ),
            ),
{
    let ghost c = cids@;
    let ghost z = sizes@;
    let ghost s = order@;
    let ghost idx0 = acc.contrib_index@;
    let ghost list0 = acc.contribs@;
    let mut j: usize = 0;
    while j < order.len()
        invariant
            c == cids@,
            z == sizes@,
            s == order@,
            c.len() == z.len(),
            j <= s.len(),
            forall|k: int| 0 <= k < s.len() ==> (#[trigger] s[k] as int) < c.len(),
            acc.cid == old(acc).cid,
            acc.count == old(acc).count,
            acc.shallow == old(acc).shallow,
            old(acc).retained + seq_sum(s, size_fn(z)) <= u64::MAX,
            forall|cc: u64|
                #[trigger] contrib_val(idx0, list0, cc).0 + seq_sum(s, size_of_fn(c, z, cc)) <= u64::MAX,
            forall|cc: u64|
                #[trigger] contrib_val(idx0, list0, cc).1 + seq_sum(s, one_of_fn(c, cc)) <= u64::MAX,
            idx0 == old(acc).contrib_index@,
            list0 == old(acc).contribs@,
            acc.retained == old(acc).retained + seq_sum(s.take(j as int), size_fn(z)),
            contrib_ok(acc.contrib_index@, acc.contribs@),
            forall|cc: u64|
                #[trigger] contrib_val(acc.contrib_index@, acc.contribs@, cc) == (
                    contrib_val(idx0, list0, cc).0 + seq_sum(s.take(j as int), size_of_fn(c, z, cc)),
                    contrib_val(idx0, list0, cc).1 + seq_sum(s.take(j as int), one_of_fn(c, cc)),
                ),
        decreases s.len() - j,
    {
        let v = order[j] as usize;
        let sz = sizes[v];
        let cv = cids[v];
        proof {
            lemma_seq_sum_prefix(s, j as int, size_fn(z));
            lemma_seq_sum_prefix_le(s, j + 1, size_fn(z));
            lemma_seq_sum_prefix(s, j as int, size_of_fn(c, z, cv));
            lemma_seq_sum_prefix_le(s, j + 1, size_of_fn(c, z, cv));
            lemma_seq_sum_prefix(s, j as int, one_of_fn(c, cv));
            lemma_seq_sum_prefix_le(s, j + 1, one_of_fn(c, cv));
            assert forall|cc: u64| cc != cv implies #[trigger] seq_sum(s.take(j + 1), size_of_fn(c, z, cc)) == seq_sum(s.take(j as int), size_of_fn(c, z, cc)) by {
                lemma_seq_sum_prefix(s, j as int, size_of_fn(c, z, cc));
            }
            assert forall|cc: u64| cc != cv implies #[trigger] seq_sum(s.take(j + 1), one_of_fn(c, cc)) == seq_sum(s.take(j as int), one_of_fn(c, cc)) by {
                lemma_seq_sum_prefix(s, j as int, one_of_fn(c, cc));
            }
            assert(contrib_val(idx0, list0, cv).0 + seq_sum(s, size_of_fn(c, z, cv)) <= u64::MAX);
            assert(contrib_val(idx0, list0, cv).1 + seq_sum(s, one_of_fn(c, cv)) <= u64::MAX);
        }
        acc.retained = acc.retained + sz;
        let ghost idx1 = acc.contrib_index@;
        let ghost list1 = acc.contribs@;
        match acc.contrib_index.get(&cv) {
            Some(k) => {
                let k = *k;
                let e = acc.contribs[k];
                proof {
                    assert(idx1.contains_key(cv) && idx1[cv] == k);
                    assert(contrib_val(idx1, list1, cv) == (e.1 as nat, e.2 as nat));
                    assert(size_of_fn(c, z, cv)(s[j as int] as int) == sz as nat);
                    assert(one_of_fn(c, cv)(s[j as int] as int) == 1);
                    assert(contrib_val(idx1, list1, cv) == (
                        contrib_val(idx0, list0, cv).0 + seq_sum(s.take(j as int), size_of_fn(c, z, cv)),
                        contrib_val(idx0, list0, cv).1 + seq_sum(s.take(j as int), one_of_fn(c, cv)),
                    ));
                }
                acc.contribs.set(k, (e.0, e.1 + sz, e.2 + 1));
                proof {
                    assert forall|cc: u64| #[trigger] acc.contrib_index@.contains_key(cc) implies acc.contrib_index@[cc] < acc.contribs@.len() && acc.contribs@[acc.contrib_index@[cc] as int].0 == cc by {
                        assert(idx1.contains_key(cc));
                    }
                    assert forall|kk: int| 0 <= kk < acc.contribs@.len() implies acc.contrib_index@.contains_key(#[trigger] acc.contribs@[kk].0) && acc.contrib_index@[acc.contribs@[kk].0] == kk by {
                        assert(list1[kk].0 == acc.contribs@[kk].0);
                    }
                    assert forall|kk: int| 0 <= kk < acc.contribs@.len() implies #[trigger] acc.contribs@[kk].2 >= 1 by {
                        assert(list1[kk].2 >= 1);
                    }
                    assert forall|cc: u64| #[trigger] contrib_val(acc.contrib_index@, acc.contribs@, cc) == (
                        contrib_val(idx0, list0, cc).0 + seq_sum(s.take(j + 1), size_of_fn(c, z, cc)),
                        contrib_val(idx0, list0, cc).1 + seq_sum(s.take(j + 1), one_of_fn(c, cc)),
                    ) by {
                        assert(contrib_val(idx1, list1, cc) == (
                            contrib_val(idx0, list0, cc).0 + seq_sum(s.take(j as int), size_of_fn(c, z, cc)),
                            contrib_val(idx0, list0, cc).1 + seq_sum(s.take(j as int), one_of_fn(c, cc)),
                        ));
                        if cc == cv {
                        } else {
                            if idx1.contains_key(cc) {
                                assert(idx1[cc] != k);
                            }
                        }
                    }
                }
            },
            None => {
                let k = acc.contribs.len();
                acc.contribs.push((cv, sz, 1));
                acc.contrib_index.insert(cv, k);
                proof {
                    assert forall|cc: u64| #[trigger] acc.contrib_index@.contains_key(cc) implies acc.contrib_index@[cc] < acc.contribs@.len() && acc.contribs@[acc.contrib_index@[cc] as int].0 == cc by {
                        if cc != cv {
                            assert(idx1.contains_key(cc));
                        }
                    }
                    assert forall|kk: int| 0 <= kk < acc.contribs@.len() implies acc.contrib_index@.contains_key(#[trigger] acc.contribs@[kk].0) && acc.contrib_index@[acc.contribs@[kk].0] == kk by {
                        if kk < list1.len() {
                            assert(acc.contribs@[kk] == list1[kk]);
                            assert(idx1.contains_key(list1[kk].0));
                            assert(list1[kk].0 != cv);
                        }
                    }
                    assert forall|kk: int| 0 <= kk < acc.contribs@.len() implies #[trigger] acc.contribs@[kk].2 >= 1 by {
                        if kk < list1.len() {
                            assert(acc.contribs@[kk] == list1[kk]);
                        }
                    }
                    assert forall|cc: u64| #[trigger] contrib_val(acc.contrib_index@, acc.contribs@, cc) == (
                        contrib_val(idx0, list0, cc).0 + seq_sum(s.take(j + 1), size_of_fn(c, z, cc)),
                        contrib_val(idx0, list0, cc).1 + seq_sum(s.take(j + 1), one_of_fn(c, cc)),
                    ) by {
                        assert(contrib_val(idx1, list1, cc) == (
                            contrib_val(idx0, list0, cc).0 + seq_sum(s.take(j as int), size_of_fn(c, z, cc)),
                            contrib_val(idx0, list0, cc).1 + seq_sum(s.take(j as int), one_of_fn(c, cc)),
                        ));
                        if cc != cv {
                            if idx1.contains_key(cc) {
                                assert(acc.contribs@[idx1[cc] as int] == list1[idx1[cc] as int]);
                            }
                        }
                    }
                }
            },
        }
        j = j + 1;
    }
    proof {
        assert(s.take(j as int) =~= s);
    }
}

} // verus!

verus! {

/// Every class among the first `m` objects has exactly one slot in `accs`, and
/// each slot holds that class's totals over the first `m` objects.
pub open spec fn accs_ok(
    accs: Seq<ClassAcc>,
    slot: Map<u64, usize>,
    o: Seq<u64>,
    c: Seq<u64>,
    z: Seq<u64>,
    r: Seq<(u32, u64)>,
    m: int,
) -> bool {
    &&& forall|s: int| 0 <= s < accs.len() ==> acc_ok(#[trigger] accs[s], o, c, z, r, m)
    &&& forall|s: int| 0 <= s < accs.len() ==> slot.contains_key(#[trigger] accs[s].cid) && slot[accs[s].cid] == s
    &&& forall|cls: u64| #[trigger] slot.contains_key(cls) ==> slot[cls] < accs.len() && accs[slot[cls] as int].cid == cls
    &&& forall|i: int| 0 <= i < m ==> slot.contains_key(#[trigger] c[i])
    &&& forall|s: int| #![trigger accs[s]] 0 <= s < accs.len() ==> exists|i: int| 0 <= i < m && #[trigger] c[i] == accs[s].cid
}

/// Some slot holds class `cls`.
pub open spec fn has_class(a: Seq<ClassAcc>, cls: u64) -> bool {
    exists|s: int| 0 <= s < a.len() && a[s].cid == cls
}

proof fn lemma_slots_cover(
    a: Seq<ClassAcc>,
    slot: Map<u64, usize>,
    o: Seq<u64>,
    c: Seq<u64>,
    z: Seq<u64>,
    r: Seq<(u32, u64)>,
)
    requires
        accs_ok(a, slot, o, c, z, r, c.len() as int),
    ensures
        forall|s: int, t: int| 0 <= s < t < a.len() ==> a[s].cid != a[t].cid,
        forall|i: int| 0 <= i < c.len() ==> has_class(a, #[trigger] c[i]),
        forall|s: int| 0 <= s < a.len() ==> c.contains(#[trigger] a[s].cid),
{
    assert forall|s: int, t: int| 0 <= s < t < a.len() implies a[s].cid != a[t].cid by {
        assert(slot[a[s].cid] == s);
        assert(slot[a[t].cid] == t);
    }
    assert forall|i: int| 0 <= i < c.len() implies has_class(a, #[trigger] c[i]) by {
        assert(slot.contains_key(c[i]));
        let s = slot[c[i]] as int;
        assert(a[s].cid == c[i]);
    }
    assert forall|s: int| 0 <= s < a.len() implies c.contains(#[trigger] a[s].cid) by {
        let i = choose|i: int| 0 <= i < c.len() && #[trigger] c[i] == a[s].cid;
    }
}

/// Walks from every object along exclusive references and adds up, per class,
/// instance counts, shallow sizes, retained bytes and the classes of the owned
/// objects.
pub fn aggregate_classes(
    adj: &Vec<Vec<u32>>,
    rc: &Vec<u32>,
    cids: &Vec<u64>,
    sizes: &Vec<u64>,
    oids: Ghost<Seq<u64>>,
    refs: Ghost<Seq<(u32, u64)>>,
) -> (accs: Vec<ClassAcc>)
    requires
        graph_ok(adj@, rc@, oids@, refs@),
        oids@.len() <= 5_000_000,
        cids@.len() == oids@.len(),
        sizes@.len() == oids@.len(),
        forall|cls: u64| #[trigger] class_retained(oids@, cids@, sizes@, refs@, oids@.len() as int, cls) <= u64::MAX,
    ensures
        forall|s: int| 0 <= s < accs@.len() ==> acc_ok(#[trigger] accs@[s], oids@, cids@, sizes@, refs@, oids@.len() as int),
        forall|s: int, t: int| 0 <= s < t < accs@.len() ==> accs@[s].cid != accs@[t].cid,
        forall|i: int| 0 <= i < oids@.len() ==> has_class(accs@, #[trigger] cids@[i]),
        forall|s: int| 0 <= s < accs@.len() ==> cids@.contains(#[trigger] accs@[s].cid),
{
    let ghost o = oids@;
    let ghost c = cids@;
    let ghost z = sizes@;
    let ghost r = refs@;
    let n = cids.len();
    let mut mark: Vec<u32> = Vec::new();
    let mut i: usize = 0;
    while i < n
        invariant
            i <= n,
            mark@.len() == i,
            forall|v: int| 0 <= v < i ==> #[trigger] mark@[v] == 0,
        decreases n - i,
    {
        mark.push(0);
        i = i + 1;
    }
    let mut accs: Vec<ClassAcc> = Vec::new();
    let mut slot: HashMap<u64, usize> = HashMap::new();
    let mut i: usize = 0;
    while i < n
        invariant
            graph_ok(adj@, rc@, o, r),
            o == oids@,
            r == refs@,
            c == cids@,
            z == sizes@,
            n == o.len(),
            n <= 5_000_000,
            c.len() == n,
            z.len() == n,
            forall|cls: u64| #[trigger] class_retained(o, c, z, r, n as int, cls) <= u64::MAX,
            i <= n,
            mark@.len() == n,
            forall|v: int| 0 <= v < n ==> #[trigger] mark@[v] <= i,
            accs_ok(accs@, slot@, o, c, z, r, i as int),
        decreases n - i,
    {
        let cls = cids[i];
        let s: usize = match slot.get(&cls) {
            Some(s) => *s,
            None => {
                let s = accs.len();
                proof {
                    assert forall|ii: int| 0 <= ii < i implies c[ii] != cls by {
                        assert(slot@.contains_key(c[ii]));
                    }
                    assert forall|cc: u64| #[trigger] contrib_val(Map::<u64, usize>::empty(), Seq::<(u64, u64, u64)>::empty(), cc) == (
                        contrib_bytes(o, c, z, r, i as int, cls, cc),
                        contrib_count(o, c, r, i as int, cls, cc),
                    ) by {
                        lemma_absent_class(o, c, z, r, i as int, cls, cc);
                    }
                    lemma_absent_class(o, c, z, r, i as int, cls, 0);
                }
                let acc = ClassAcc {
                    cid: cls,
                    count: 0,
                    shallow: 0,
                    retained: 0,
                    contrib_index: HashMap::new(),
                    contribs: Vec::new(),
                };
                assert(acc.contrib_index@ == Map::<u64, usize>::empty());
                assert(acc.contribs@ == Seq::<(u64, u64, u64)>::empty());
                accs.push(acc);
                slot.insert(cls, s);
                proof {
                    let a = accs@;
                    assert(acc_ok(a[s as int], o, c, z, r, i as int));
                    assert forall|t: int| 0 <= t < a.len() implies slot@.contains_key(#[trigger] a[t].cid) && slot@[a[t].cid] == t by {
                        if t < s {
                            assert(a[t].cid != cls);
                        }
                    }
                    assert forall|t: int| #![trigger a[t]] 0 <= t < a.len() implies exists|ii: int| 0 <= ii < i + 1 && #[trigger] c[ii] == a[t].cid by {
                        if t < s {
                            let ii = choose|ii: int| 0 <= ii < i && #[trigger] c[ii] == a[t].cid;
                            assert(c[ii] == a[t].cid);
                        } else {
                            assert(c[i as int] == a[t].cid);
                        }
                    }
                }
                s
            },
        };
        let ghost accs0 = accs@;
        proof {
            assert(accs0[s as int].cid == cls);
            assert(acc_ok(accs0[s as int], o, c, z, r, i as int));
        }
        // the walk from object i
        let order = owned_from(adj, rc, i as u32, &mut mark, (i + 1) as u32, Ghost(o), Ghost(r));
        proof {
            let a = accs0[s as int];
            lemma_order_sums(order@, o, c, z, r, i as int, 0);
            lemma_sum_mono(i + 1, n as int, retained_fn(o, c, z, r, cls));
            assert(class_retained(o, c, z, r, n as int, cls) <= u64::MAX);
            assert(a.retained == class_retained(o, c, z, r, i as int, cls));
            assert(class_retained(o, c, z, r, i + 1, cls) == a.retained + own_bytes(o, z, r, i as int));
            assert(a.retained + seq_sum(order@, size_fn(z)) <= u64::MAX);
            assert forall|cc: u64| #[trigger] contrib_val(a.contrib_index@, a.contribs@, cc).0 + seq_sum(order@, size_of_fn(c, z, cc)) <= u64::MAX by {
                lemma_order_sums(order@, o, c, z, r, i as int, cc);
                lemma_contrib_le_retained(o, c, z, r, i + 1, cls, cc);
                assert(contrib_bytes(o, c, z, r, i + 1, cls, cc) == contrib_bytes(o, c, z, r, i as int, cls, cc) + own_bytes_of(o, c, z, r, i as int, cc));
                assert(contrib_val(a.contrib_index@, a.contribs@, cc).0 == contrib_bytes(o, c, z, r, i as int, cls, cc));
            }
            assert forall|cc: u64| #[trigger] contrib_val(a.contrib_index@, a.contribs@, cc).1 + seq_sum(order@, one_of_fn(c, cc)) <= u64::MAX by {
                lemma_order_sums(order@, o, c, z, r, i as int, cc);
                lemma_contrib_count_bound(o, c, r, i + 1, cls, cc);
                assert(contrib_count(o, c, r, i + 1, cls, cc) == contrib_count(o, c, r, i as int, cls, cc) + own_count_of(o, c, r, i as int, cc));
                assert((i + 1) * n <= 5_000_000 * 5_000_000) by (nonlinear_arith)
                    requires i + 1 <= n, n <= 5_000_000;
                assert(contrib_val(a.contrib_index@, a.contribs@, cc).1 == contrib_count(o, c, r, i as int, cls, cc));
            }
            lemma_shallow_le_retained(o, c, z, r, i + 1, cls);
            lemma_sum_mono(i + 1, n as int, retained_fn(o, c, z, r, cls));
            assert forall|ii: int| 0 <= ii < i implies #[trigger] count_fn(c, cls)(ii) <= 1 by {}
            lemma_sum_bound(i as int, count_fn(c, cls), 1);
            assert(a.count <= i);
            assert(class_count(c, i + 1, cls) == a.count + 1);
            assert(class_shallow(c, z, i + 1, cls) == a.shallow + z[i as int]);
        }
        add_owned(&mut accs[s], &order, cids, sizes);
        accs[s].count = accs[s].count + 1;
        accs[s].shallow = accs[s].shallow + sizes[i];
        proof {
            let a0 = accs0[s as int];
            let a = accs@[s as int];
            assert forall|cc: u64| #[trigger] contrib_val(a.contrib_index@, a.contribs@, cc) == (
                contrib_bytes(o, c, z, r, i + 1, cls, cc),
                contrib_count(o, c, r, i + 1, cls, cc),
            ) by {
                lemma_order_sums(order@, o, c, z, r, i as int, cc);
                assert(contrib_val(a0.contrib_index@, a0.contribs@, cc) == (
                    contrib_bytes(o, c, z, r, i as int, cls, cc),
                    contrib_count(o, c, r, i as int, cls, cc),
                ));
            }
            assert(acc_ok(a, o, c, z, r, i + 1));
            assert forall|t: int| 0 <= t < accs@.len() implies acc_ok(#[trigger] accs@[t], o, c, z, r, i + 1) by {
                if t != s as int {
                    let b = accs@[t];
                    assert(b == accs0[t]);
                    assert(acc_ok(b, o, c, z, r, i as int));
                    assert(b.cid != cls) by {
                        assert(slot@[b.cid] == t);
                    }
                    assert forall|cc: u64| #[trigger] contrib_val(b.contrib_index@, b.contribs@, cc) == (
                        contrib_bytes(o, c, z, r, i + 1, b.cid, cc),
                        contrib_count(o, c, r, i + 1, b.cid, cc),
                    ) by {
                        assert(contrib_val(b.contrib_index@, b.contribs@, cc) == (
                            contrib_bytes(o, c, z, r, i as int, b.cid, cc),
                            contrib_count(o, c, r, i as int, b.cid, cc),
                        ));
                    }
                }
            }
            assert forall|t: int| 0 <= t < accs@.len() implies slot@.contains_key(#[trigger] accs@[t].cid) && slot@[accs@[t].cid] == t by {
                assert(accs@[t].cid == accs0[t].cid);
            }
            assert forall|t: int| #![trigger accs@[t]] 0 <= t < accs@.len() implies exists|ii: int| 0 <= ii < i + 1 && #[trigger] c[ii] == accs@[t].cid by {
                assert(accs@[t].cid == accs0[t].cid);
                assert(exists|ii: int| 0 <= ii < i + 1 && #[trigger] c[ii] == accs0[t].cid);
            }
            assert forall|cls2: u64| #[trigger] slot@.contains_key(cls2) implies slot@[cls2] < accs@.len() && accs@[slot@[cls2] as int].cid == cls2 by {
                assert(accs0[slot@[cls2] as int].cid == cls2);
            }
        }
        i = i + 1;
    }
    proof {
        assert(i == n);
        lemma_slots_cover(accs@, slot@, o, c, z, r);
    }
    accs
}

} // verus!
