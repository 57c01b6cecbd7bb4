use vstd::prelude::*;
use std::collections::{HashMap, HashSet};
use crate::heap::{HeapItem, PrimitiveKind};
use crate::names::ClassNames;
use crate::text::{push_radix, hex_text, dotted, dotted_string};
use crate::classagg::{ClassAcc, has_class, acc_ok, contrib_ok, contrib_val, class_count, class_shallow, class_retained, contrib_bytes, contrib_count, aggregate_classes, size_fn, lemma_sum_mono};
use crate::graph::{build_graph, graph_ok, sum_upto};
use crate::sort::{sort_pairs_desc, pairs_sorted, pair_before, distinct_positions};
use crate::classagg::lemma_class_retained_bound;
use crate::dump::{
    header_id_ok, header_complete, starts_with, parse_dump, parse_failure, dump_id_size, id_size_bytes,
    dump_readable, dump_items, dump_texts, dump_classes, dump_frames, header_id_field, frames,
    frame_items, records_left, records_width, record_tag, record_body, tags_known, id_size_num,
    segment_items, sub_records_left, sub_records_width, sub_bytes_left, is_segment_tag,
    dump_class_names, dump_records, next_record, record_kind, RecordKind, record_segment,
    segment_sub_records, next_sub_record, sub_record_item,
};
use crate::segment::{segments_ok, segment_readable};

verus! {

broadcast use {vstd::std_specs::hash::group_hash_axioms, vstd::seq_lib::group_to_multiset_ensures};

// ── Reading references out of instance field bytes ──────────────────────────

/// Value of a big-endian unsigned number.
pub open spec fn be_value(b: Seq<u8>) -> nat
    decreases b.len(),
{
    if b.len() == 0 {
        0
    } else {
        be_value(b.drop_last()) * 256 + (b.last() as nat)
    }
}

pub open spec fn pow256(n: nat) -> nat
    decreases n,
{
    if n == 0 {
        1
    } else {
        256 * pow256((n - 1) as nat)
    }
}

pub proof fn lemma_be_value_bound(b: Seq<u8>)
    ensures
        be_value(b) < pow256(b.len()),
    decreases b.len(),
{
    if b.len() > 0 {
        lemma_be_value_bound(b.drop_last());
        assert(be_value(b.drop_last()) + 1 <= pow256((b.len() - 1) as nat));
        assert(be_value(b) == be_value(b.drop_last()) * 256 + b.last());
        assert(be_value(b.drop_last()) * 256 + 256 <= pow256((b.len() - 1) as nat) * 256)
            by (nonlinear_arith)
            requires
                be_value(b.drop_last()) + 1 <= pow256((b.len() - 1) as nat),
        ;
    }
}

/// Number of bytes read for one object id when ids take `id_bytes` bytes.
pub open spec fn id_read_width(id_bytes: int) -> int {
    if id_bytes == 4 {
        4
    } else {
        8
    }
}

/// The object id stored in the `k`-th id-sized slot of `fields`.
pub open spec fn id_slot(fields: Seq<u8>, id_bytes: int, k: int) -> u64 {
    be_value(fields.subrange(k * id_bytes, k * id_bytes + id_read_width(id_bytes))) as u64
}

/// All id-sized slots of `fields` that fit completely, read as big-endian ids.
pub open spec fn id_slots(fields: Seq<u8>, id_bytes: int) -> Seq<u64> {
    Seq::new(((fields.len() as int) / id_bytes) as nat, |k: int| id_slot(fields, id_bytes, k))
}

/// The non-null references that `scan_refs` finds in `fields`.
pub open spec fn scan_refs_spec(fields: Seq<u8>, id_bytes: int) -> Seq<u64> {
    id_slots(fields, id_bytes).filter(|x: u64| x != 0)
}

/// Reads `width` bytes at `start` as a big-endian number.
pub(crate) fn read_be(fields: &[u8], start: usize, width: usize) -> (v: u64)
    requires
        width <= 8,
        start + width <= fields@.len(),
    ensures
        v as nat == be_value(fields@.subrange(start as int, start + width)),
{
    let mut acc: u64 = 0;
    let mut j: usize = 0;
    while j < width
        invariant
            j <= width <= 8,
            start + width <= fields.len(),
            acc as nat == be_value(fields@.subrange(start as int, start + j)),
        decreases width - j,
    {
        let ghost prev = fields@.subrange(start as int, start + j);
        let ghost next = fields@.subrange(start as int, start + j + 1);
        proof {
            assert(next.drop_last() =~= prev);
            lemma_be_value_bound(next);
            lemma_pow256_le8(j as nat + 1);
        }
        acc = acc * 256 + fields[start + j] as u64;
        j = j + 1;
    }
    acc
}

proof fn lemma_pow256_le8(n: nat)
    requires
        n <= 8,
    ensures
        pow256(n) <= 0x1_0000_0000_0000_0000,
{
    reveal_with_fuel(pow256, 9);
    if n == 0 {
    } else if n == 1 {
    } else if n == 2 {
    } else if n == 3 {
    } else if n == 4 {
    } else if n == 5 {
    } else if n == 6 {
    } else if n == 7 {
    } else {
    }
}

/// Scans raw instance field bytes for object references: every complete
/// id-sized slot is read as a big-endian id, and the non-zero ones are kept.
pub fn scan_refs(fields: &[u8], id_bytes: usize) -> (refs: Vec<u64>)
    requires
        id_bytes == 4 || id_bytes >= 8,
    ensures
        refs@ == scan_refs_spec(fields@, id_bytes as int),
{
    let mut refs: Vec<u64> = Vec::new();
    let mut i: usize = 0;
    let ghost mut k: int = 0;
    let ghost w = id_bytes as int;
    let ghost slots = id_slots(fields@, w);
    while id_bytes <= fields.len() - i
        invariant
            id_bytes == 4 || id_bytes >= 8,
            w == id_bytes,
            slots == id_slots(fields@, w),
            i as int == k * w,
            0 <= k,
            i <= fields@.len(),
            k * w <= fields@.len(),
            k <= slots.len(),
            refs@ == slots.take(k).filter(|x: u64| x != 0),
        decreases fields@.len() - i,
    {
        proof {
            assert((k + 1) * w == k * w + w) by (nonlinear_arith);
            assert(k + 1 <= (fields@.len() as int) / w) by (nonlinear_arith)
                requires
                    (k + 1) * w <= fields@.len(),
                    w > 0,
                    k >= 0,
            ;
            assert(slots.take(k + 1) =~= slots.take(k).push(slots[k]));
            slots.take(k).lemma_filter_push(slots[k], |x: u64| x != 0);
        }
        let id: u64 = if id_bytes == 4 {
            read_be(fields, i, 4)
        } else {
            read_be(fields, i, 8)
        };
        assert(id == id_slot(fields@, w, k));
        if id != 0 {
            refs.push(id);
        }
        i = i + id_bytes;
        proof {
            k = k + 1;
        }
    }
    proof {
        assert(k == slots.len()) by (nonlinear_arith)
            requires
                k * w <= fields@.len(),
                fields@.len() < k * w + w,
                w > 0,
                k >= 0,
                slots.len() == (fields@.len() as int) / w,
        ;
        assert(slots.take(k) =~= slots);
    }
    refs
}

} // verus!

verus! {

// ── Object table (pass 2) ─────────────────────────────────────────────────────

/// Upper bound on the number of objects kept in the graph.
pub const CAP: usize = 5_000_000;

/// Synthetic class id given to arrays of the given primitive type.
pub open spec fn primitive_array_cid_spec(kind: PrimitiveKind) -> u64 {
    match kind {
        PrimitiveKind::Boolean => 0xFFFF_FFFF_0000_0001,
        PrimitiveKind::Char => 0xFFFF_FFFF_0000_0002,
        PrimitiveKind::Float => 0xFFFF_FFFF_0000_0003,
        PrimitiveKind::Double => 0xFFFF_FFFF_0000_0004,
        PrimitiveKind::Byte => 0xFFFF_FFFF_0000_0005,
        PrimitiveKind::Short => 0xFFFF_FFFF_0000_0006,
        PrimitiveKind::Int => 0xFFFF_FFFF_0000_0007,
        PrimitiveKind::Long => 0xFFFF_FFFF_0000_0008,
    }
}

/// Stable synthetic class ids for primitive array types.
pub fn primitive_array_cid(kind: PrimitiveKind) -> (cid: u64)
    ensures
        cid == primitive_array_cid_spec(kind),
{
    match kind {
        PrimitiveKind::Boolean => 0xFFFF_FFFF_0000_0001,
        PrimitiveKind::Char => 0xFFFF_FFFF_0000_0002,
        PrimitiveKind::Float => 0xFFFF_FFFF_0000_0003,
        PrimitiveKind::Double => 0xFFFF_FFFF_0000_0004,
        PrimitiveKind::Byte => 0xFFFF_FFFF_0000_0005,
        PrimitiveKind::Short => 0xFFFF_FFFF_0000_0006,
        PrimitiveKind::Int => 0xFFFF_FFFF_0000_0007,
        PrimitiveKind::Long => 0xFFFF_FFFF_0000_0008,
    }
}

/// Registers an object under the next free local index (the current number of
/// distinct ids) and returns that index.
pub fn alloc_obj(
    id_to_idx: &mut HashMap<u64, u32>,
    class_ids: &mut Vec<u64>,
    shallows: &mut Vec<u64>,
    ref_count: &mut Vec<u32>,
    oid: u64,
    cid: u64,
    sz: u64,
) -> (idx: u32)
    requires
        old(id_to_idx)@.len() < u32::MAX,
    ensures
        idx as nat == old(id_to_idx)@.len(),
        final(id_to_idx)@ == old(id_to_idx)@.insert(oid, idx),
        final(class_ids)@ == old(class_ids)@.push(cid),
        final(shallows)@ == old(shallows)@.push(sz),
        final(ref_count)@ == old(ref_count)@.push(0),
{
    let idx = id_to_idx.len() as u32;
    id_to_idx.insert(oid, idx);
    class_ids.push(cid);
    shallows.push(sz);
    ref_count.push(0);
    idx
}

/// Size in bytes that a sub-record occupies in the heap, with its class id, for
/// the sub-records that become graph nodes.
pub open spec fn item_node(item: HeapItem, id_bytes: int) -> Option<(u64, u64, int)> {
    match item {
        HeapItem::Instance { object_id, class_id, fields } => Some(
            (object_id, class_id, fields@.len() + id_bytes * 2 + 4),
        ),
        HeapItem::PrimitiveArray { object_id, element_kind, content_len } => Some(
            (object_id, primitive_array_cid_spec(element_kind), content_len + id_bytes + 9),
        ),
        HeapItem::ObjectArray { object_id, array_class_id, num_elements } => Some(
            (object_id, array_class_id, num_elements * id_bytes + id_bytes + 12),
        ),
        _ => None,
    }
}

/// `s` with each value kept at its first occurrence only.
pub open spec fn distinct(s: Seq<u64>) -> Seq<u64>
    decreases s.len(),
{
    if s.len() == 0 {
        Seq::empty()
    } else {
        let d = distinct(s.drop_last());
        if d.contains(s.last()) {
            d
        } else {
            d.push(s.last())
        }
    }
}

/// References that a sub-record contributes to the graph: each object it
/// refers to, once, however many of its fields refer to it.
pub open spec fn item_refs(item: HeapItem, id_bytes: int) -> Seq<u64> {
    match item {
        HeapItem::Instance { fields, .. } => distinct(scan_refs_spec(fields@, id_bytes)),
        _ => Seq::empty(),
    }
}

/// Accumulates the object graph from heap dump sub-records.
pub struct GraphBuilder {
    id_to_idx: HashMap<u64, u32>,
    class_ids: Vec<u64>,
    shallows: Vec<u64>,
    ref_count: Vec<u32>,
    pending: Vec<(u32, u64)>,
    truncated: bool,
    oids: Ghost<Seq<u64>>,
}

impl GraphBuilder {
    /// Object ids, in the order the objects were added.
    pub closed spec fn object_ids(&self) -> Seq<u64> {
        self.oids@
    }

    /// Class id of each object.
    pub closed spec fn class_ids(&self) -> Seq<u64> {
        self.class_ids@
    }

    /// Shallow size of each object.
    pub closed spec fn sizes(&self) -> Seq<u64> {
        self.shallows@
    }

    /// Outgoing references found so far: (index of the referring object, referenced id).
    pub closed spec fn refs(&self) -> Seq<(u32, u64)> {
        self.pending@
    }

    /// True once an item arrived while the table was full.
    pub closed spec fn is_truncated(&self) -> bool {
        self.truncated
    }

    pub closed spec fn wf(&self) -> bool {
        let n = self.oids@.len();
        &&& n <= CAP
        &&& self.class_ids@.len() == n
        &&& self.shallows@.len() == n
        &&& self.ref_count@.len() == n
        &&& self.id_to_idx@.len() == n
        &&& self.id_to_idx@.dom() == self.oids@.to_set()
        &&& forall|i: int| 0 <= i < n ==> self.id_to_idx@[#[trigger] self.oids@[i]] == i
        &&& self.oids@.no_duplicates()
        &&& forall|k: int| 0 <= k < self.pending@.len() ==> (#[trigger] self.pending@[k]).0 < n
        &&& self.pending@.no_duplicates()
        &&& self.truncated ==> n == CAP
    }

    /// An empty table.
    pub fn new() -> (b: Self)
        ensures
            b.wf(),
            b.object_ids() == Seq::<u64>::empty(),
            b.class_ids() == Seq::<u64>::empty(),
            b.sizes() == Seq::<u64>::empty(),
            b.refs() == Seq::<(u32, u64)>::empty(),
            !b.is_truncated(),
    {
        let b = GraphBuilder {
            id_to_idx: HashMap::new(),
            class_ids: Vec::new(),
            shallows: Vec::new(),
            ref_count: Vec::new(),
            pending: Vec::new(),
            truncated: false,
            oids: Ghost(Seq::empty()),
        };
        proof {
            assert(b.id_to_idx@.dom() =~= b.oids@.to_set());
        }
        b
    }

    /// Whether an object with this id was already added.
    pub fn contains_object(&self, oid: u64) -> (r: bool)
        requires
            self.wf(),
        ensures
            r == self.object_ids().contains(oid),
    {
        proof {
            if self.oids@.contains(oid) {
                assert(self.oids@.to_set().contains(oid));
            }
        }
        self.id_to_idx.contains_key(&oid)
    }

    /// Number of references found so far.
    pub fn refs_len(&self) -> (n: usize)
        ensures
            n == self.refs().len(),
    {
        self.pending.len()
    }

    /// Total shallow size of the objects added so far, `None` when it does
    /// not fit in 64 bits.
    pub fn total_size(&self) -> (t: Option<u64>)
        requires
            self.wf(),
        ensures
            match t {
                Some(t) => t as nat == sum_upto(self.object_ids().len() as int, size_fn(self.sizes())),
                None => sum_upto(self.object_ids().len() as int, size_fn(self.sizes())) > u64::MAX,
            },
    {
        let ghost z = self.shallows@;
        let mut t: u64 = 0;
        let mut i: usize = 0;
        while i < self.shallows.len()
            invariant
                z == self.shallows@,
                z == self.sizes(),
                z.len() == self.object_ids().len(),
                i <= z.len(),
                t as nat == sum_upto(i as int, size_fn(z)),
            decreases z.len() - i,
        {
            if t > u64::MAX - self.shallows[i] {
                proof {
                    assert(sum_upto(i as int + 1, size_fn(z)) == t + z[i as int]);
                    lemma_sum_mono(i as int + 1, z.len() as int, size_fn(z));
                }
                return None;
            }
            t = t + self.shallows[i];
            i = i + 1;
        }
        Some(t)
    }

    /// Number of objects added so far.
    pub fn len(&self) -> (n: usize)
        requires
            self.wf(),
        ensures
            n == self.object_ids().len(),
    {
        self.id_to_idx.len()
    }

    /// Feeds one heap dump sub-record. Returns `false`, and marks the table as
    /// truncated, when the table already holds `CAP` objects; the caller then
    /// stops feeding.
    pub fn add_item(&mut self, item: &HeapItem, id_bytes: usize) -> (go_on: bool)
        requires
            old(self).wf(),
            id_bytes == 4 || id_bytes == 8,
            item_node(*item, id_bytes as int) matches Some(t) ==> {
                &&& !old(self).object_ids().contains(t.0)
                &&& t.2 <= u64::MAX
            },
        ensures
            final(self).wf(),
            go_on == (old(self).object_ids().len() < CAP),
            !go_on ==> {
                &&& final(self).is_truncated()
                &&& final(self).object_ids() == old(self).object_ids()
                &&& final(self).class_ids() == old(self).class_ids()
                &&& final(self).sizes() == old(self).sizes()
                &&& final(self).refs() == old(self).refs()
            },
            go_on ==> final(self).is_truncated() == old(self).is_truncated(),
            go_on ==> match item_node(*item, id_bytes as int) {
                Some(t) => {
                    &&& final(self).object_ids() == old(self).object_ids().push(t.0)
                    &&& final(self).class_ids() == old(self).class_ids().push(t.1)
                    &&& final(self).sizes() == old(self).sizes().push(t.2 as u64)
                    &&& final(self).refs() == old(self).refs() + item_refs(
                        *item,
                        id_bytes as int,
                    ).map_values(|r: u64| (old(self).object_ids().len() as u32, r))
                },
                None => {
                    &&& final(self).object_ids() == old(self).object_ids()
                    &&& final(self).class_ids() == old(self).class_ids()
                    &&& final(self).sizes() == old(self).sizes()
                    &&& final(self).refs() == old(self).refs()
                },
            },
    {
        if self.id_to_idx.len() >= CAP {
            self.truncated = true;
            return false;
        }
        let ghost n = self.oids@.len();
        match item {
            HeapItem::Instance { object_id, class_id, fields } => {
                let sz = fields.len() as u64 + id_bytes as u64 * 2 + 4;
                let idx = self.add_object(*object_id, *class_id, sz);
                let refs = scan_refs(fields.as_slice(), id_bytes);
                let ghost base = self.pending@;
                let mut seen: HashSet<u64> = HashSet::new();
                let ghost mut kept: Seq<u64> = Seq::empty();
                let mut j: usize = 0;
                proof {
                    assert(refs@.take(0) =~= Seq::<u64>::empty());
                    assert(seen@ =~= kept.to_set());
                    assert(self.pending@ =~= base + kept.map_values(|r: u64| (n as u32, r)));
                }
                while j < refs.len()
                    invariant
                        self.wf(),
                        idx == n,
                        n < self.oids@.len(),
                        j <= refs.len(),
                        kept == distinct(refs@.take(j as int)),
                        kept.no_duplicates(),
                        seen@ == kept.to_set(),
                        self.pending@ == base + kept.map_values(|r: u64| (n as u32, r)),
                        self.oids@ == old(self).oids@.push(*object_id),
                        self.class_ids@ == old(self).class_ids@.push(*class_id),
                        self.shallows@ == old(self).shallows@.push(sz),
                        self.truncated == old(self).truncated,
                        base == old(self).pending@,
                        forall|k: int| 0 <= k < base.len() ==> (#[trigger] base[k]).0 < n,
                    decreases refs.len() - j,
                {
                    let r = refs[j];
                    proof {
                        assert(refs@.take(j + 1).drop_last() =~= refs@.take(j as int));
                        assert(refs@.take(j + 1).last() == r);
                    }
                    if !seen.contains(&r) {
                        let ghost before = self.pending@;
                        proof {
                            assert(!kept.contains(r)) by {
                                if kept.contains(r) {
                                    assert(kept.to_set().contains(r));
                                }
                            }
                            assert forall|k: int| 0 <= k < before.len() implies before[k] != (n as u32, r) by {
                                if k < base.len() {
                                    assert(base[k].0 < n);
                                } else {
                                    assert(before[k] == (n as u32, kept[k - base.len()]));
                                }
                            }
                        }
                        seen.insert(r);
                        self.pending.push((idx, r));
                        proof {
                            let k0 = kept;
                            kept = kept.push(r);
                            assert(kept.map_values(|x: u64| (n as u32, x)) =~= k0.map_values(|x: u64| (n as u32, x)).push((n as u32, r)));
                            assert(self.pending@ =~= base + kept.map_values(|x: u64| (n as u32, x)));
                            assert forall|x: u64| #[trigger] kept.to_set().contains(x) <==> seen@.contains(x) by {
                                if kept.contains(x) {
                                    let i = choose|i: int| 0 <= i < kept.len() && kept[i] == x;
                                    if i < k0.len() {
                                        assert(k0[i] == x);
                                        assert(k0.to_set().contains(x));
                                    }
                                }
                                if k0.contains(x) {
                                    let i = choose|i: int| 0 <= i < k0.len() && k0[i] == x;
                                    assert(kept[i] == x);
                                }
                                if seen@.contains(x) && x != r {
                                    assert(k0.to_set().contains(x));
                                    assert(k0.contains(x));
                                    let i = choose|i: int| 0 <= i < k0.len() && k0[i] == x;
                                    assert(kept[i] == x);
                                }
                                if x == r {
                                    assert(kept[kept.len() - 1] == r);
                                }
                            }
                            assert(seen@ =~= kept.to_set());
                            assert(kept.no_duplicates()) by {
                                assert forall|a: int, b: int| 0 <= a < b < kept.len() implies kept[a] != kept[b] by {
                                    if b == kept.len() - 1 {
                                        assert(k0.contains(kept[a]) || a == b);
                                    }
                                }
                            }
                            assert(self.pending@ == before.push((n as u32, r)));
                        }
                    } else {
                        proof {
                            assert(kept.to_set().contains(r));
                        }
                    }
                    j = j + 1;
                }
                proof {
                    assert(refs@.take(j as int) =~= refs@);
                }
            },
            HeapItem::PrimitiveArray { object_id, element_kind, content_len } => {
                let cid = primitive_array_cid(*element_kind);
                let sz = *content_len as u64 + id_bytes as u64 + 9;
                self.add_object(*object_id, cid, sz);
                assert(item_refs(*item, id_bytes as int) =~= Seq::<u64>::empty());
                assert(self.pending@ =~= old(self).pending@ + item_refs(*item, id_bytes as int).map_values(|r: u64| (n as u32, r)));
            },
            HeapItem::ObjectArray { object_id, array_class_id, num_elements } => {
                let sz = *num_elements as u64 * id_bytes as u64 + id_bytes as u64 + 12;
                self.add_object(*object_id, *array_class_id, sz);
                assert(item_refs(*item, id_bytes as int) =~= Seq::<u64>::empty());
                assert(self.pending@ =~= old(self).pending@ + item_refs(*item, id_bytes as int).map_values(|r: u64| (n as u32, r)));
            },
            _ => {},
        }
        true
    }

    fn add_object(&mut self, oid: u64, cid: u64, sz: u64) -> (idx: u32)
        requires
            old(self).wf(),
            old(self).oids@.len() < CAP,
            !old(self).oids@.contains(oid),
        ensures
            final(self).wf(),
            idx as nat == old(self).oids@.len(),
            final(self).oids@ == old(self).oids@.push(oid),
            final(self).class_ids@ == old(self).class_ids@.push(cid),
            final(self).shallows@ == old(self).shallows@.push(sz),
            final(self).pending@ == old(self).pending@,
            final(self).truncated == old(self).truncated,
    {
        let idx = alloc_obj(
            &mut self.id_to_idx,
            &mut self.class_ids,
            &mut self.shallows,
            &mut self.ref_count,
            oid,
            cid,
            sz,
        );
        proof {
            let old_oids = self.oids@;
            self.oids@ = old_oids.push(oid);
            assert(self.id_to_idx@.dom() =~= self.oids@.to_set()) by {
                assert forall|x: u64| self.oids@.to_set().contains(x) implies self.id_to_idx@.dom().contains(x) by {
                    let i = choose|i: int| 0 <= i < self.oids@.len() && self.oids@[i] == x;
                    if i < old_oids.len() {
                        assert(old_oids.to_set().contains(x));
                    }
                }
                assert forall|x: u64| self.id_to_idx@.dom().contains(x) implies self.oids@.to_set().contains(x) by {
                    if x != oid {
                        assert(old_oids.to_set().contains(x));
                        let i = choose|i: int| 0 <= i < old_oids.len() && old_oids[i] == x;
                        assert(self.oids@[i] == x);
                    } else {
                        assert(self.oids@[old_oids.len() as int] == oid);
                    }
                }
            }
            assert forall|i: int| 0 <= i < self.oids@.len() implies self.id_to_idx@[#[trigger] self.oids@[i]] == i by {
                if i < old_oids.len() {
                    assert(self.oids@[i] == old_oids[i]);
                    assert(old_oids.contains(old_oids[i]));
                }
            }
            assert(self.oids@.no_duplicates()) by {
                assert forall|i: int, j: int| 0 <= i < j < self.oids@.len() implies self.oids@[i] != self.oids@[j] by {
                    if j == old_oids.len() {
                        assert(old_oids.contains(old_oids[i]));
                    }
                }
            }
            assert(self.id_to_idx@.len() == self.oids@.len()) by {
                assert(!old(self).id_to_idx@.dom().contains(oid)) by {
                    if old(self).id_to_idx@.dom().contains(oid) {
                        assert(old_oids.to_set().contains(oid));
                    }
                }
            }
        }
        idx
    }
}

} // verus!

verus! {

// ── Names ────────────────────────────────────────────────────────────────────

/// Name shown for a class id that has no recorded name.
pub open spec fn synthetic_name_spec(cid: u64) -> Seq<char> {
    if cid == 0xFFFF_FFFF_0000_0001 {
        "boolean[]"@
    } else if cid == 0xFFFF_FFFF_0000_0002 {
        "char[]"@
    } else if cid == 0xFFFF_FFFF_0000_0003 {
        "float[]"@
    } else if cid == 0xFFFF_FFFF_0000_0004 {
        "double[]"@
    } else if cid == 0xFFFF_FFFF_0000_0005 {
        "byte[]"@
    } else if cid == 0xFFFF_FFFF_0000_0006 {
        "short[]"@
    } else if cid == 0xFFFF_FFFF_0000_0007 {
        "int[]"@
    } else if cid == 0xFFFF_FFFF_0000_0008 {
        "long[]"@
    } else {
        "?@0x"@ + hex_text(cid as nat)
    }
}

/// Name of a class id without a recorded name: the Java name of a primitive
/// array type, or `?@0x` and the id in hex.
pub fn synthetic_name(cid: u64) -> (s: String)
    ensures
        s@ == synthetic_name_spec(cid),
{
    if cid == 0xFFFF_FFFF_0000_0001 {
        String::from_str("boolean[]")
    } else if cid == 0xFFFF_FFFF_0000_0002 {
        String::from_str("char[]")
    } else if cid == 0xFFFF_FFFF_0000_0003 {
        String::from_str("float[]")
    } else if cid == 0xFFFF_FFFF_0000_0004 {
        String::from_str("double[]")
    } else if cid == 0xFFFF_FFFF_0000_0005 {
        String::from_str("byte[]")
    } else if cid == 0xFFFF_FFFF_0000_0006 {
        String::from_str("short[]")
    } else if cid == 0xFFFF_FFFF_0000_0007 {
        String::from_str("int[]")
    } else if cid == 0xFFFF_FFFF_0000_0008 {
        String::from_str("long[]")
    } else {
        let mut s = String::from_str("?@0x");
        push_radix(&mut s, cid, 16);
        s
    }
}

/// The Java keyword of a primitive element type.
pub open spec fn java_keyword(k: PrimitiveKind) -> Seq<char> {
    match k {
        PrimitiveKind::Boolean => "boolean"@,
        PrimitiveKind::Char => "char"@,
        PrimitiveKind::Float => "float"@,
        PrimitiveKind::Double => "double"@,
        PrimitiveKind::Byte => "byte"@,
        PrimitiveKind::Short => "short"@,
        PrimitiveKind::Int => "int"@,
        PrimitiveKind::Long => "long"@,
    }
}

/// An array of primitives is shown under the Java name of its type: the
/// keyword of its element type followed by `[]` (so `char` arrays, the
/// contents of strings, are `char[]`), and arrays of different element types
/// are shown under different names.
pub proof fn lemma_primitive_array_named_by_element(k: PrimitiveKind, k2: PrimitiveKind)
    ensures
        synthetic_name_spec(primitive_array_cid_spec(k)) == java_keyword(k) + "[]"@,
        k != k2 ==> synthetic_name_spec(primitive_array_cid_spec(k)) != synthetic_name_spec(
            primitive_array_cid_spec(k2),
        ),
{
    reveal_strlit("[]");
    reveal_strlit("boolean");
    reveal_strlit("char");
    reveal_strlit("float");
    reveal_strlit("double");
    reveal_strlit("byte");
    reveal_strlit("short");
    reveal_strlit("int");
    reveal_strlit("long");
    reveal_strlit("boolean[]");
    reveal_strlit("char[]");
    reveal_strlit("float[]");
    reveal_strlit("double[]");
    reveal_strlit("byte[]");
    reveal_strlit("short[]");
    reveal_strlit("int[]");
    reveal_strlit("long[]");
    assert(synthetic_name_spec(primitive_array_cid_spec(k)) =~= java_keyword(k) + "[]"@);
    assert(synthetic_name_spec(primitive_array_cid_spec(k2)) =~= java_keyword(k2) + "[]"@);
    if k != k2 {
        let a = synthetic_name_spec(primitive_array_cid_spec(k));
        let b = synthetic_name_spec(primitive_array_cid_spec(k2));
        assert(a.len() != b.len() || a[0] != b[0] || a[1] != b[1]);
    }
}

/// Display name of a class: its recorded name with '/' turned into '.', or the synthetic name.
pub open spec fn retained_class_name(texts: Map<u64, Seq<char>>, classes: Map<u64, u64>, cid: u64) -> Seq<char> {
    if classes.contains_key(cid) && texts.contains_key(classes[cid]) {
        dotted(texts[classes[cid]])
    } else {
        synthetic_name_spec(cid)
    }
}

fn class_name_of(names: &ClassNames, cid: u64) -> (s: String)
    ensures
        s@ == retained_class_name(names.texts(), names.classes(), cid),
{
    match names.class_text(cid) {
        Some(t) => dotted_string(t.as_str()),
        None => synthetic_name(cid),
    }
}

// ── Result types ─────────────────────────────────────────────────────────────

/// How many bytes of one class another class keeps alive.
#[derive(Debug, Clone)]
pub struct Contributor {
    pub class_name: String,
    pub total_bytes: u64,
    pub object_count: u64,
}

/// Retained-size totals of one class.  The overhead ratio (retained / shallow)
/// is derived from `retained_size` and `shallow_size` by the caller.
#[derive(Debug, Clone)]
pub struct RetainedClassEntry {
    pub class_name: String,
    pub instance_count: u64,
    pub shallow_size: u64,
    pub retained_size: u64,
    pub avg_retained: u64,
    pub top_contributors: Vec<Contributor>,
}

pub struct RetainedAnalysis {
    pub entries: Vec<RetainedClassEntry>,
    /// true if the object table filled up before the dump ended
    pub truncated: bool,
}

/// `list` holds the classes `ccs` other than `cls` whose objects instances of
/// `cls` keep alive, largest byte total first, at most eight of them, and no
/// class left out keeps more bytes than one listed.
pub open spec fn contributors_ok(
    list: Seq<Contributor>,
    ccs: Seq<u64>,
    o: Seq<u64>,
    c: Seq<u64>,
    z: Seq<u64>,
    r: Seq<(u32, u64)>,
    texts: Map<u64, Seq<char>>,
    classes: Map<u64, u64>,
    cls: u64,
) -> bool {
    let n = o.len() as int;
    &&& list.len() == ccs.len()
    &&& list.len() <= 8
    &&& ccs.no_duplicates()
    &&& forall|i: int|
        0 <= i < list.len() ==> {
            &&& ccs[i] != cls
            &&& contrib_count(o, c, r, n, cls, ccs[i]) > 0
            &&& (#[trigger] list[i]).class_name@ == retained_class_name(texts, classes, ccs[i])
            &&& list[i].total_bytes as nat == contrib_bytes(o, c, z, r, n, cls, ccs[i])
            &&& list[i].object_count as nat == contrib_count(o, c, r, n, cls, ccs[i])
        }
    &&& forall|i: int, j: int|
        0 <= i < j < list.len() ==> (#[trigger] list[i]).total_bytes >= (#[trigger] list[j]).total_bytes
    &&& forall|cc: u64|
        cc != cls && #[trigger] contrib_count(o, c, r, n, cls, cc) > 0 && !ccs.contains(cc) ==> {
            &&& list.len() == 8
            &&& forall|i: int| 0 <= i < list.len() ==> contrib_bytes(o, c, z, r, n, cls, cc) <= (#[trigger] list[i]).total_bytes
        }
}

/// `e` holds the totals of class `cls` over the whole table.
pub open spec fn entry_ok(
    e: RetainedClassEntry,
    o: Seq<u64>,
    c: Seq<u64>,
    z: Seq<u64>,
    r: Seq<(u32, u64)>,
    texts: Map<u64, Seq<char>>,
    classes: Map<u64, u64>,
    cls: u64,
) -> bool {
    let n = o.len() as int;
    &&& e.class_name@ == retained_class_name(texts, classes, cls)
    &&& e.instance_count as nat == class_count(c, n, cls)
    &&& e.shallow_size as nat == class_shallow(c, z, n, cls)
    &&& e.retained_size as nat == class_retained(o, c, z, r, n, cls)
    &&& e.avg_retained == (if e.instance_count > 0 { e.retained_size / e.instance_count } else { 0 })
    &&& exists|ccs: Seq<u64>| contributors_ok(e.top_contributors@, ccs, o, c, z, r, texts, classes, cls)
}

/// `entries` holds one entry per class present among the objects (`cs`),
/// largest retained size first.
pub open spec fn entries_ok(
    entries: Seq<RetainedClassEntry>,
    cs: Seq<u64>,
    o: Seq<u64>,
    c: Seq<u64>,
    z: Seq<u64>,
    r: Seq<(u32, u64)>,
    texts: Map<u64, Seq<char>>,
    classes: Map<u64, u64>,
) -> bool {
    &&& entries.len() == cs.len()
    &&& cs.no_duplicates()
    &&& forall|i: int| 0 <= i < c.len() ==> cs.contains(#[trigger] c[i])
    &&& forall|k: int| 0 <= k < cs.len() ==> c.contains(#[trigger] cs[k])
    &&& forall|k: int| 0 <= k < entries.len() ==> entry_ok(#[trigger] entries[k], o, c, z, r, texts, classes, cs[k])
    &&& forall|i: int, j: int|
        0 <= i < j < entries.len() ==> (#[trigger] entries[i]).retained_size >= (#[trigger] entries[j]).retained_size
}

/// Every class retains at least its instances' own bytes: in each entry the
/// retained size is at least the shallow size, so the overhead ratio
/// (retained / shallow) is at least 1.
pub proof fn lemma_entry_retained_ge_shallow(
    entries: Seq<RetainedClassEntry>,
    cs: Seq<u64>,
    o: Seq<u64>,
    c: Seq<u64>,
    z: Seq<u64>,
    r: Seq<(u32, u64)>,
    texts: Map<u64, Seq<char>>,
    classes: Map<u64, u64>,
    k: int,
)
    requires
        entries_ok(entries, cs, o, c, z, r, texts, classes),
        0 <= k < entries.len(),
    ensures
        entries[k].retained_size >= entries[k].shallow_size,
{
    assert(entry_ok(entries[k], o, c, z, r, texts, classes, cs[k]));
    crate::classagg::lemma_shallow_le_retained(o, c, z, r, o.len() as int, cs[k]);
}

} // verus!

verus! {


/// The largest contributions of other classes to class `acc.cid`, at most eight.
fn top_contributors(
    acc: &ClassAcc,
    names: &ClassNames,
    o: Ghost<Seq<u64>>,
    c: Ghost<Seq<u64>>,
    z: Ghost<Seq<u64>>,
    r: Ghost<Seq<(u32, u64)>>,
) -> (res: (Vec<Contributor>, Ghost<Seq<u64>>))
    requires
        acc_ok(*acc, o@, c@, z@, r@, o@.len() as int),
    ensures
        contributors_ok(res.0@, res.1@, o@, c@, z@, r@, names.texts(), names.classes(), acc.cid),
{
    let ghost n = o@.len() as int;
    let ghost list = acc.contribs@;
    let ghost idx = acc.contrib_index@;
    let mut pairs: Vec<(u64, usize)> = Vec::new();
    let mut k: usize = 0;
    while k < acc.contribs.len()
        invariant
            list == acc.contribs@,
            k <= list.len(),
            forall|q: int| 0 <= q < pairs@.len() ==> (#[trigger] pairs@[q]).1 < k,
            forall|a: int, b: int| 0 <= a < b < pairs@.len() ==> (#[trigger] pairs@[a]).1 < (#[trigger] pairs@[b]).1,
            forall|q: int|
                0 <= q < pairs@.len() ==> list[(#[trigger] pairs@[q]).1 as int].0 != acc.cid
                    && pairs@[q].0 == list[pairs@[q].1 as int].1,
            forall|kk: int|
                0 <= kk < k && list[kk].0 != acc.cid ==> pairs@.contains((#[trigger] list[kk].1, kk as usize)),
        decreases list.len() - k,
    {
        let e = acc.contribs[k];
        if e.0 != acc.cid {
            let ghost p0 = pairs@;
            pairs.push((e.1, k));
            proof {
                assert forall|kk: int|
                    0 <= kk < k + 1 && list[kk].0 != acc.cid implies pairs@.contains((#[trigger] list[kk].1, kk as usize)) by {
                    if kk < k {
                        let q = choose|q: int| 0 <= q < p0.len() && p0[q] == (list[kk].1, kk as usize);
                        assert(pairs@[q] == p0[q]);
                    } else {
                        assert(pairs@[p0.len() as int] == (e.1, k));
                    }
                }
            }
        }
        k = k + 1;
    }
    proof {
        assert forall|a: int, b: int| 0 <= a < b < pairs@.len() implies (#[trigger] pairs@[a]).1 != (#[trigger] pairs@[b]).1 by {}
    }
    let sorted = sort_pairs_desc(&pairs);
    let m: usize = if sorted.len() < 8 { sorted.len() } else { 8 };
    let mut out: Vec<Contributor> = Vec::new();
    let ghost mut ccs: Seq<u64> = Seq::empty();
    let mut q: usize = 0;
    proof {
        assert forall|q: int| 0 <= q < sorted@.len() implies pairs@.contains(#[trigger] sorted@[q]) by {
            assert(sorted@.to_multiset().count(sorted@[q]) > 0);
        }
    }
    while q < m
        invariant
            list == acc.contribs@,
            idx == acc.contrib_index@,
            acc_ok(*acc, o@, c@, z@, r@, n),
            n == o@.len(),
            m <= sorted@.len(),
            m <= 8,
            q <= m,
            pairs_sorted(sorted@),
            forall|qq: int| 0 <= qq < sorted@.len() ==> pairs@.contains(#[trigger] sorted@[qq]),
            forall|qq: int|
                0 <= qq < pairs@.len() ==> list[(#[trigger] pairs@[qq]).1 as int].0 != acc.cid
                    && pairs@[qq].0 == list[pairs@[qq].1 as int].1 && (pairs@[qq].1 as int) < list.len(),
            out@.len() == q,
            ccs.len() == q,
            forall|i: int| 0 <= i < q ==> ccs[i] == list[(#[trigger] sorted@[i]).1 as int].0,
            forall|i: int| 0 <= i < q ==> #[trigger] ccs[i] != acc.cid,
            forall|i: int| 0 <= i < q ==> contrib_count(o@, c@, r@, n, acc.cid, #[trigger] ccs[i]) > 0,
            forall|i: int| 0 <= i < q ==> (#[trigger] out@[i]).class_name@ == retained_class_name(names.texts(), names.classes(), ccs[i]),
            forall|i: int| 0 <= i < q ==> (#[trigger] out@[i]).total_bytes as nat == contrib_bytes(o@, c@, z@, r@, n, acc.cid, ccs[i]),
            forall|i: int| 0 <= i < q ==> (#[trigger] out@[i]).object_count as nat == contrib_count(o@, c@, r@, n, acc.cid, ccs[i]),
            forall|i: int| 0 <= i < q ==> (#[trigger] out@[i]).total_bytes == sorted@[i].0,
        decreases m - q,
    {
        let (b, kk) = sorted[q];
        proof {
            assert(pairs@.contains(sorted@[q as int]));
            let qq = choose|qq: int| 0 <= qq < pairs@.len() && pairs@[qq] == sorted@[q as int];
            assert(list[pairs@[qq].1 as int].0 != acc.cid);
            assert(pairs@[qq].0 == list[pairs@[qq].1 as int].1);
            assert(b == list[kk as int].1);
        }
        let e = acc.contribs[kk];
        proof {
            assert(idx.contains_key(e.0) && idx[e.0] == kk);
            assert(contrib_val(idx, list, e.0) == (e.1 as nat, e.2 as nat));
            assert(contrib_val(idx, list, e.0) == (
                contrib_bytes(o@, c@, z@, r@, n, acc.cid, e.0),
                contrib_count(o@, c@, r@, n, acc.cid, e.0),
            ));
            assert(list[kk as int].2 >= 1);
        }
        let name = class_name_of(names, e.0);
        let ghost out0 = out@;
        let ghost ccs0 = ccs;
        out.push(Contributor { class_name: name, total_bytes: e.1, object_count: e.2 });
        proof {
            ccs = ccs.push(e.0);
            assert(ccs[q as int] == e.0);
            assert(out@[q as int].class_name@ == retained_class_name(names.texts(), names.classes(), e.0));
            assert(contrib_count(o@, c@, r@, n, acc.cid, e.0) > 0);
            assert(out@[q as int].total_bytes as nat == contrib_bytes(o@, c@, z@, r@, n, acc.cid, e.0));
            assert(out@[q as int].total_bytes == sorted@[q as int].0);
            assert forall|i: int| 0 <= i < q + 1 implies {
                &&& ccs[i] != acc.cid
                &&& contrib_count(o@, c@, r@, n, acc.cid, ccs[i]) > 0
                &&& (#[trigger] out@[i]).class_name@ == retained_class_name(names.texts(), names.classes(), ccs[i])
                &&& out@[i].total_bytes as nat == contrib_bytes(o@, c@, z@, r@, n, acc.cid, ccs[i])
                &&& out@[i].object_count as nat == contrib_count(o@, c@, r@, n, acc.cid, ccs[i])
                &&& out@[i].total_bytes == sorted@[i].0
            } by {
                if i < q {
                    assert(out@[i] == out0[i]);
                    assert(ccs[i] == ccs0[i]);
                }
            }
            assert forall|i: int| 0 <= i < q + 1 implies ccs[i] == list[(#[trigger] sorted@[i]).1 as int].0 by {
                if i < q {
                    assert(ccs[i] == ccs0[i]);
                }
            }
        }
        q = q + 1;
    }
    proof {
        let ts = names.texts();
        let cl = names.classes();
        assert(ccs.no_duplicates()) by {
            assert forall|a: int, b: int| 0 <= a < b < ccs.len() implies ccs[a] != ccs[b] by {
                assert(pair_before(sorted@[a], sorted@[b]));
                let ka = sorted@[a].1;
                let kb = sorted@[b].1;
                assert(ka != kb);
                assert(pairs@.contains(sorted@[a]));
                assert(pairs@.contains(sorted@[b]));
                let qa = choose|qa: int| 0 <= qa < pairs@.len() && pairs@[qa] == sorted@[a];
                let qb = choose|qb: int| 0 <= qb < pairs@.len() && pairs@[qb] == sorted@[b];
                assert((ka as int) < list.len() && (kb as int) < list.len());
                assert(idx[list[ka as int].0] == ka);
                assert(idx[list[kb as int].0] == kb);
            }
        }
        assert forall|i: int, j: int| 0 <= i < j < out@.len() implies (#[trigger] out@[i]).total_bytes >= (#[trigger] out@[j]).total_bytes by {
            assert(pair_before(sorted@[i], sorted@[j]));
        }
        assert forall|cc: u64|
            cc != acc.cid && #[trigger] contrib_count(o@, c@, r@, n, acc.cid, cc) > 0 && !ccs.contains(cc) implies {
                &&& out@.len() == 8
                &&& forall|i: int| 0 <= i < out@.len() ==> contrib_bytes(o@, c@, z@, r@, n, acc.cid, cc) <= (#[trigger] out@[i]).total_bytes
            } by {
            assert(contrib_val(idx, list, cc).1 > 0);
            assert(idx.contains_key(cc));
            let kc = idx[cc];
            assert(list[kc as int].0 == cc);
            assert(pairs@.contains((list[kc as int].1, kc)));
            assert(pairs@.to_multiset().count((list[kc as int].1, kc)) > 0);
            assert(sorted@.contains((list[kc as int].1, kc)));
            let qc = choose|qc: int| 0 <= qc < sorted@.len() && sorted@[qc] == (list[kc as int].1, kc);
            if qc < m {
                assert(ccs[qc] == cc);
            }
            assert(contrib_val(idx, list, cc).0 == list[kc as int].1);
            assert forall|i: int| 0 <= i < out@.len() implies contrib_bytes(o@, c@, z@, r@, n, acc.cid, cc) <= (#[trigger] out@[i]).total_bytes by {
                assert(pair_before(sorted@[i], sorted@[qc]));
            }
        }
        assert forall|i: int| 0 <= i < out@.len() implies {
            &&& ccs[i] != acc.cid
            &&& contrib_count(o@, c@, r@, n, acc.cid, ccs[i]) > 0
            &&& (#[trigger] out@[i]).class_name@ == retained_class_name(ts, cl, ccs[i])
            &&& out@[i].total_bytes as nat == contrib_bytes(o@, c@, z@, r@, n, acc.cid, ccs[i])
            &&& out@[i].object_count as nat == contrib_count(o@, c@, r@, n, acc.cid, ccs[i])
        } by {}
        assert(contributors_ok(out@, ccs, o@, c@, z@, r@, ts, cl, acc.cid));
    }
    (out, Ghost(ccs))
}

} // verus!

verus! {

/// One entry per class slot, largest retained size first.
fn build_entries(
    accs: &Vec<ClassAcc>,
    names: &ClassNames,
    o: Ghost<Seq<u64>>,
    c: Ghost<Seq<u64>>,
    z: Ghost<Seq<u64>>,
    r: Ghost<Seq<(u32, u64)>>,
) -> (entries: Vec<RetainedClassEntry>)
    requires
        forall|s: int| 0 <= s < accs@.len() ==> acc_ok(#[trigger] accs@[s], o@, c@, z@, r@, o@.len() as int),
        forall|s: int, t: int| 0 <= s < t < accs@.len() ==> accs@[s].cid != accs@[t].cid,
        forall|i: int| 0 <= i < c@.len() ==> has_class(accs@, #[trigger] c@[i]),
        forall|s: int| 0 <= s < accs@.len() ==> c@.contains(#[trigger] accs@[s].cid),
    ensures
        exists|cs: Seq<u64>| entries_ok(entries@, cs, o@, c@, z@, r@, names.texts(), names.classes()),
{
    let ghost n = o@.len() as int;
    let mut pairs: Vec<(u64, usize)> = Vec::new();
    let mut s: usize = 0;
    while s < accs.len()
        invariant
            s <= accs@.len(),
            pairs@.len() == s,
            forall|q: int| 0 <= q < s ==> #[trigger] pairs@[q] == (accs@[q].retained, q as usize),
        decreases accs@.len() - s,
    {
        pairs.push((accs[s].retained, s));
        s = s + 1;
    }
    let sorted = sort_pairs_desc(&pairs);
    proof {
        assert forall|q: int| 0 <= q < sorted@.len() implies pairs@.contains(#[trigger] sorted@[q]) by {
            assert(sorted@.to_multiset().count(sorted@[q]) > 0);
        }
    }
    let mut entries: Vec<RetainedClassEntry> = Vec::new();
    let ghost mut cs: Seq<u64> = Seq::empty();
    let mut q: usize = 0;
    while q < sorted.len()
        invariant
            forall|s: int| 0 <= s < accs@.len() ==> acc_ok(#[trigger] accs@[s], o@, c@, z@, r@, n),
            n == o@.len(),
            pairs@.len() == accs@.len(),
            forall|q: int| 0 <= q < pairs@.len() ==> #[trigger] pairs@[q] == (accs@[q].retained, q as usize),
            forall|qq: int| 0 <= qq < sorted@.len() ==> pairs@.contains(#[trigger] sorted@[qq]),
            pairs_sorted(sorted@),
            q <= sorted@.len(),
            entries@.len() == q,
            cs.len() == q,
            forall|i: int| 0 <= i < q ==> cs[i] == accs@[(#[trigger] sorted@[i]).1 as int].cid,
            forall|i: int| 0 <= i < q ==> entry_ok(#[trigger] entries@[i], o@, c@, z@, r@, names.texts(), names.classes(), cs[i]),
            forall|i: int| 0 <= i < q ==> (#[trigger] entries@[i]).retained_size == sorted@[i].0,
        decreases sorted@.len() - q,
    {
        let si = sorted[q].1;
        proof {
            let w = choose|w: int| 0 <= w < pairs@.len() && pairs@[w] == sorted@[q as int];
            assert(pairs@[w] == (accs@[w].retained, w as usize));
            assert(sorted@[q as int] == (accs@[w].retained, w as usize));
            assert(si == w as usize);
            assert(w < accs.len());
            assert(si as int == w);
            assert(sorted@[q as int].0 == accs@[si as int].retained);
        }
        let acc = &accs[si];
        let (tops, ccs) = top_contributors(acc, names, o, c, z, r);
        let name = class_name_of(names, acc.cid);
        let avg = if acc.count > 0 { acc.retained / acc.count } else { 0 };
        let e = RetainedClassEntry {
            class_name: name,
            instance_count: acc.count,
            shallow_size: acc.shallow,
            retained_size: acc.retained,
            avg_retained: avg,
            top_contributors: tops,
        };
        let ghost e0 = entries@;
        let ghost cs0 = cs;
        proof {
            assert(contributors_ok(e.top_contributors@, ccs@, o@, c@, z@, r@, names.texts(), names.classes(), acc.cid));
            assert(entry_ok(e, o@, c@, z@, r@, names.texts(), names.classes(), acc.cid));
        }
        entries.push(e);
        proof {
            cs = cs.push(acc.cid);
            assert forall|i: int| 0 <= i < q + 1 implies entry_ok(#[trigger] entries@[i], o@, c@, z@, r@, names.texts(), names.classes(), cs[i]) by {
                if i < q {
                    assert(entries@[i] == e0[i]);
                    assert(cs[i] == cs0[i]);
                }
            }
            assert forall|i: int| 0 <= i < q + 1 implies cs[i] == accs@[(#[trigger] sorted@[i]).1 as int].cid by {
                if i < q {
                    assert(cs[i] == cs0[i]);
                }
            }
            assert forall|i: int| 0 <= i < q + 1 implies (#[trigger] entries@[i]).retained_size == sorted@[i].0 by {
                if i < q {
                    assert(entries@[i] == e0[i]);
                }
            }
        }
        q = q + 1;
    }
    proof {
        let ts = names.texts();
        let cl = names.classes();
        assert(cs.no_duplicates()) by {
            assert forall|a: int, b: int| 0 <= a < b < cs.len() implies cs[a] != cs[b] by {
                assert(pair_before(sorted@[a], sorted@[b]));
                let wa = choose|w: int| 0 <= w < pairs@.len() && pairs@[w] == sorted@[a];
                let wb = choose|w: int| 0 <= w < pairs@.len() && pairs@[w] == sorted@[b];
                assert(pairs@[wa] == (accs@[wa].retained, wa as usize));
                assert(pairs@[wb] == (accs@[wb].retained, wb as usize));
            }
        }
        assert forall|i: int| 0 <= i < c@.len() implies cs.contains(#[trigger] c@[i]) by {
            assert(has_class(accs@, c@[i]));
            let s = choose|s: int| 0 <= s < accs@.len() && accs@[s].cid == c@[i];
            assert(pairs@[s] == (accs@[s].retained, s as usize));
            assert(pairs@.contains(pairs@[s]));
            assert(pairs@.to_multiset().count(pairs@[s]) > 0);
            assert(sorted@.contains(pairs@[s]));
            let qq = choose|qq: int| 0 <= qq < sorted@.len() && sorted@[qq] == pairs@[s];
            assert(cs[qq] == c@[i]);
        }
        assert forall|k: int| 0 <= k < cs.len() implies c@.contains(#[trigger] cs[k]) by {
            let w = choose|w: int| 0 <= w < pairs@.len() && pairs@[w] == sorted@[k];
            assert(pairs@[w] == (accs@[w].retained, w as usize));
            assert(c@.contains(accs@[w].cid));
        }
        assert forall|i: int, j: int| 0 <= i < j < entries@.len() implies (#[trigger] entries@[i]).retained_size >= (#[trigger] entries@[j]).retained_size by {
            assert(pair_before(sorted@[i], sorted@[j]));
        }
        assert(entries_ok(entries@, cs, o@, c@, z@, r@, ts, cl));
    }
    entries
}

} // verus!

verus! {

impl GraphBuilder {
    /// Retained sizes per class for the objects added so far.
    ///
    /// For every object, the objects reachable from it through references to
    /// objects that have exactly one referrer are counted as retained by it;
    /// a class retains what its instances retain.  Entries come largest
    /// retained size first; each lists at most eight other classes whose
    /// objects its instances retain, largest byte total first.
    pub fn finish(self, names: &ClassNames) -> (res: RetainedAnalysis)
        requires
            self.wf(),
            self.refs().len() < u32::MAX,
            forall|cls: u64|
                #[trigger] class_retained(
                    self.object_ids(),
                    self.class_ids(),
                    self.sizes(),
                    self.refs(),
                    self.object_ids().len() as int,
                    cls,
                ) <= u64::MAX,
        ensures
            res.truncated == self.is_truncated(),
            self.object_ids().len() <= CAP,
            res.truncated ==> self.object_ids().len() == CAP,
            exists|cs: Seq<u64>|
                entries_ok(
                    res.entries@,
                    cs,
                    self.object_ids(),
                    self.class_ids(),
                    self.sizes(),
                    self.refs(),
                    names.texts(),
                    names.classes(),
                ),
    {
        let n = self.id_to_idx.len();
        let ghost o = self.oids@;
        let ghost c = self.class_ids@;
        let ghost z = self.shallows@;
        let ghost r = self.pending@;
        let (adj, rc) = build_graph(&self.id_to_idx, n, &self.pending, self.oids);
        proof {
            assert forall|cls: u64| #[trigger] class_retained(o, c, z, r, o.len() as int, cls) <= u64::MAX by {
                assert(class_retained(self.object_ids(), self.class_ids(), self.sizes(), self.refs(), self.object_ids().len() as int, cls) <= u64::MAX);
            }
        }
        let accs = aggregate_classes(&adj, &rc, &self.class_ids, &self.shallows, Ghost(o), Ghost(r));
        let entries = build_entries(&accs, names, Ghost(o), Ghost(c), Ghost(z), Ghost(r));
        let ghost cs = choose|cs: Seq<u64>| entries_ok(entries@, cs, o, c, z, r, names.texts(), names.classes());
        let res = RetainedAnalysis { entries, truncated: self.truncated };
        assert(entries_ok(res.entries@, cs, self.object_ids(), self.class_ids(), self.sizes(), self.refs(), names.texts(), names.classes()));
        res
    }
}

} // verus!

verus! {

// ── Reading a dump ───────────────────────────────────────────────────────────

/// The object table after reading `items` (object ids, class ids, shallow
/// sizes, references, and whether it filled up), when object ids take `w`
/// bytes: once it holds `CAP` objects the next sub-record fills it up and the
/// rest are ignored; an object whose id is already in the table is skipped.
pub open spec fn table_of(items: Seq<HeapItem>, w: int) -> (Seq<u64>, Seq<u64>, Seq<u64>, Seq<(u32, u64)>, bool)
    decreases items.len(),
{
    if items.len() == 0 {
        (Seq::empty(), Seq::empty(), Seq::empty(), Seq::empty(), false)
    } else {
        let t = table_of(items.drop_last(), w);
        table_step(t, items.last(), w)
    }
}

/// The table after one more sub-record.
pub open spec fn table_step(
    t: (Seq<u64>, Seq<u64>, Seq<u64>, Seq<(u32, u64)>, bool),
    item: HeapItem,
    w: int,
) -> (Seq<u64>, Seq<u64>, Seq<u64>, Seq<(u32, u64)>, bool) {
    if t.4 {
        t
    } else if t.0.len() >= CAP {
        (t.0, t.1, t.2, t.3, true)
    } else {
        match item_node(item, w) {
            Some(n) => if t.0.contains(n.0) {
                t
            } else {
                (
                    t.0.push(n.0),
                    t.1.push(n.1),
                    t.2.push(n.2 as u64),
                    t.3 + item_refs(item, w).map_values(|r: u64| (t.0.len() as u32, r)),
                    false,
                )
            },
            None => t,
        }
    }
}

/// The shallow size of the object that `item` adds after `prev` fits in 64 bits.
pub open spec fn node_fits_at(prev: Seq<HeapItem>, item: HeapItem, w: int) -> bool {
    let t = table_of(prev, w);
    match item_node(item, w) {
        Some(n) => (!t.4 && t.0.len() < CAP && !t.0.contains(n.0)) ==> n.2 <= u64::MAX,
        None => true,
    }
}

/// Every size and count of the table of `items` fits the integers that hold
/// it: each shallow size and the total shallow size in 64 bits, the number of
/// references in 32 bits, and the object count times the total size in 64
/// bits (a bound on what any class retains).
pub open spec fn table_fits(items: Seq<HeapItem>, w: int) -> bool {
    let t = table_of(items, w);
    let total = sum_upto(t.0.len() as int, size_fn(t.2));
    &&& forall|k: int| 0 <= k < items.len() ==> #[trigger] node_fits_at(items.take(k), items[k], w)
    &&& t.3.len() < u32::MAX
    &&& total <= u64::MAX
    &&& t.0.len() * total <= u64::MAX
}

/// Once the table is full, further sub-records change nothing.
proof fn lemma_table_full(a: Seq<HeapItem>, b: Seq<HeapItem>, w: int)
    requires
        table_of(a, w).4,
    ensures
        table_of(a + b, w) == table_of(a, w),
    decreases b.len(),
{
    if b.len() == 0 {
        assert(a + b =~= a);
    } else {
        lemma_table_full(a, b.drop_last(), w);
        assert((a + b).drop_last() =~= a + b.drop_last());
    }
}

/// The shallow size that the object table records for `item` fits in 64 bits.
fn node_size_fits(item: &HeapItem, id_bytes: u64) -> (r: bool)
    requires
        id_bytes == 4 || id_bytes == 8,
        item matches HeapItem::ObjectArray { num_elements, .. } ==> num_elements <= u32::MAX,
    ensures
        r == (item_node(*item, id_bytes as int) matches Some(t) ==> t.2 <= u64::MAX),
{
    match item {
        HeapItem::Instance { fields, .. } => fields.len() as u64 <= u64::MAX - 2 * id_bytes - 4,
        HeapItem::PrimitiveArray { content_len, .. } => *content_len as u64 <= u64::MAX - id_bytes - 9,
        HeapItem::ObjectArray { num_elements, .. } => {
            assert(*num_elements * id_bytes + id_bytes + 12 <= u64::MAX) by (nonlinear_arith)
                requires
                    *num_elements <= u32::MAX,
                    id_bytes <= 8,
            ;
            true
        },
        _ => true,
    }
}

/// `res` lists the retained sizes per class (see `entries_ok`) of the object
/// table `t` with the class names `texts`/`classes`, and says whether the
/// table filled up.
pub open spec fn retained_of_table(
    res: RetainedAnalysis,
    t: (Seq<u64>, Seq<u64>, Seq<u64>, Seq<(u32, u64)>, bool),
    texts: Map<u64, Seq<char>>,
    classes: Map<u64, u64>,
) -> bool {
    &&& res.truncated == t.4
    &&& exists|cs: Seq<u64>| #[trigger] entries_ok(res.entries@, cs, t.0, t.1, t.2, t.3, texts, classes)
}

/// Retained sizes per class for the objects of a heap dump held in `bytes`
/// (see `GraphBuilder::finish`): the objects, references and class names of
/// the dump's heap dump segments and name records (`table_of`).  Objects
/// whose id was already seen are skipped; at most `CAP` objects are read, and
/// `truncated` says when the table filled up.
///
/// Fails when the header is incomplete, and when a size or a count does not
/// fit the table's integers (`table_fits`), or, on a machine whose `usize`
/// is narrower than 35 bits, when a primitive array's byte length does not
/// fit in `usize`.
pub fn compute_retained(bytes: &[u8]) -> (r: Result<RetainedAnalysis, String>)
    requires
        dump_readable(bytes@),
    ensures
        !header_complete(bytes@) ==> (r matches Err(e) && starts_with(e@, "parse: "@)),
        header_complete(bytes@) ==> match r {
            Ok(res) => retained_of_table(
                res,
                table_of(dump_items(bytes@), header_id_field(bytes@) as int),
                dump_texts(bytes@),
                dump_classes(bytes@),
            ),
            Err(e) => e@ == "object sizes do not fit in 64 bits"@ && (!table_fits(
                dump_items(bytes@),
                header_id_field(bytes@) as int,
            ) || usize::MAX < 8 * u32::MAX),
        },
{
    let h = match parse_dump(bytes) {
        Ok(h) => h,
        Err(e) => return Err(parse_failure("parse: ", e)),
    };
    let ghost src = bytes@;
    let ghost wn = header_id_field(src);
    let ghost wi = wn as int;
    let ghost all_frames = dump_frames(src);
    let ghost all = dump_items(src);
    let size = dump_id_size(&h);
    let w = id_size_bytes(size);
    let overflow = "object sizes do not fit in 64 bits";
    let mut graph = GraphBuilder::new();
    let mut recs = dump_records(&h);
    let mut fuel: usize = bytes.len();
    let mut stop = false;
    let mut full = false;
    let ghost mut done: Seq<(u8, Seq<u8>)> = Seq::empty();
    let ghost mut pos: int = 0;
    proof {
        crate::dump::lemma_header_within(src);
        assert(all_frames =~= done + frames(records_left(recs)));
        crate::dump::lemma_frame_items_append(done, frames(records_left(recs)), wn);
        assert(all.take(0) =~= Seq::<HeapItem>::empty());
    }
    while fuel > 0 && !stop && !full
        invariant
            src == bytes@,
            wn == header_id_field(src),
            wi == wn as int,
            header_complete(src),
            w == wn,
            w == 4 || w == 8,
            id_size_num(size) == wn,
            all == dump_items(src),
            all_frames == dump_frames(src),
            overflow@ == "object sizes do not fit in 64 bits"@,
            graph.wf(),
            records_left(recs).len() <= fuel,
            all_frames == done + frames(records_left(recs)),
            all == frame_items(done, wn) + frame_items(frames(records_left(recs)), wn),
            !full ==> pos == frame_items(done, wn).len(),
            stop ==> frames(records_left(recs)).len() == 0,
            tags_known(records_left(recs)),
            records_width(recs) == wn,
            segments_ok(all_frames, wn),
            full ==> table_of(all.take(pos), wi).4,
            !full ==> !graph.is_truncated(),
            0 <= pos <= all.len(),
            (graph.object_ids(), graph.class_ids(), graph.sizes(), graph.refs(), graph.is_truncated()) == table_of(
                all.take(pos),
                wi,
            ),
            forall|k: int| 0 <= k < pos ==> #[trigger] node_fits_at(all.take(k), all[k], wi),
        decreases fuel + if stop || full { 0int } else { 1int },
    {
        let ghost rest = records_left(recs);
        let rec = match next_record(&mut recs) {
            Some(r) => r,
            None => {
                stop = true;
                continue;
            },
        };
        fuel = fuel - 1;
        let ghost f = (record_tag(rec), record_body(rec));
        let ghost later = frames(records_left(recs));
        let ghost d1 = done.push(f);
        proof {
            crate::dump::lemma_frames_step(rest);
            assert(all_frames =~= d1 + later);
            crate::dump::lemma_frame_items_append(d1, later, wn);
            assert(d1.drop_last() =~= done);
            assert(d1.last() == f);
        }
        if record_kind(&rec) == RecordKind::HeapDump {
            let seg = match record_segment(&rec) {
                Some(s) => s,
                None => {
                    proof {
                        assert(false);
                    }
                    return Err(String::from_str(overflow));
                },
            };
            proof {
                assert(all_frames[done.len() as int] == f);
                assert(is_segment_tag(f.0));
            }
            let mut subs = segment_sub_records(&seg, size);
            let ghost items_seg = segment_items(f.1, wn);
            let ghost base = frame_items(done, wn);
            let mut inner_stop = false;
            let ghost mut k: int = 0;
            let ghost f0 = fuel;
            proof {
                assert(frame_items(d1, wn) == base + items_seg);
                assert(items_seg.skip(0) =~= items_seg);
            }
            while fuel > 0 && !inner_stop && !full
                invariant
                    src == bytes@,
                    wn == header_id_field(src),
                    wi == wn as int,
                    header_complete(src),
                    w == wn,
                    w == 4 || w == 8,
                    id_size_num(size) == wn,
                    all == dump_items(src),
                    all == base + items_seg + frame_items(later, wn),
                    overflow@ == "object sizes do not fit in 64 bits"@,
                    graph.wf(),
                    0 <= k <= items_seg.len(),
                    pos == base.len() + k,
                    sub_records_left(subs) == items_seg.skip(k),
                    sub_records_width(subs) == wn,
                    segment_readable(sub_bytes_left(subs), wn),
                    records_left(recs).len() + sub_records_left(subs).len() <= fuel,
                    inner_stop ==> sub_records_left(subs).len() == 0,
                    fuel <= f0,
                    full ==> table_of(all.take(pos), wi).4,
                    !full ==> !graph.is_truncated(),
                    (graph.object_ids(), graph.class_ids(), graph.sizes(), graph.refs(), graph.is_truncated())
                        == table_of(all.take(pos), wi),
                    forall|j: int| 0 <= j < pos ==> #[trigger] node_fits_at(all.take(j), all[j], wi),
                decreases fuel + if inner_stop || full { 0int } else { 1int },
            {
                let ghost left_bytes = sub_bytes_left(subs);
                let sub = match next_sub_record(&mut subs) {
                    Some(s) => s,
                    None => {
                        inner_stop = true;
                        continue;
                    },
                };
                fuel = fuel - 1;
                let item = match sub_record_item(&sub) {
                    Some(i) => i,
                    None => return Err(String::from_str(overflow)),
                };
                let ghost prev = all.take(pos);
                proof {
                    assert(item == items_seg[k]);
                    assert(all[pos] == item);
                    assert(all.take(pos + 1).drop_last() =~= prev);
                    assert(all.take(pos + 1).last() == item);
                    assert(items_seg.skip(k).drop_first() =~= items_seg.skip(k + 1));
                }
                if graph.len() >= CAP {
                    let go_on = graph.add_item(&HeapItem::Other, w as usize);
                    full = true;
                } else {
                    let seen = match &item {
                        HeapItem::Instance { object_id, .. }
                        | HeapItem::ObjectArray { object_id, .. }
                        | HeapItem::PrimitiveArray { object_id, .. } => graph.contains_object(*object_id),
                        _ => false,
                    };
                    if !seen {
                        if !node_size_fits(&item, w) {
                            proof {
                                assert(!node_fits_at(prev, item, wi));
                                assert(!node_fits_at(all.take(pos), all[pos], wi));
                                assert(!table_fits(all, wi));
                            }
                            return Err(String::from_str(overflow));
                        }
                        let go_on = graph.add_item(&item, w as usize);
                    }
                }
                proof {
                    assert(node_fits_at(all.take(pos), all[pos], wi));
                    pos = pos + 1;
                    k = k + 1;
                }
            }
            proof {
                if !full {
                    assert(k == items_seg.len());
                }
            }
        } else {
            proof {
                assert(frame_items(d1, wn) == frame_items(done, wn) + Seq::<HeapItem>::empty());
                assert(frame_items(done, wn) + Seq::<HeapItem>::empty() =~= frame_items(done, wn));
            }
        }
        proof {
            done = d1;
        }
    }
    proof {
        if full {
            lemma_table_full(all.take(pos), all.skip(pos), wi);
            assert(all.take(pos) + all.skip(pos) =~= all);
        } else {
            assert(frames(records_left(recs)) =~= Seq::<(u8, Seq<u8>)>::empty());
            assert(frame_items(frames(records_left(recs)), wn) =~= Seq::<HeapItem>::empty());
            assert(all.take(pos) =~= all);
        }
    }
    let ghost t = table_of(all, wi);
    if graph.refs_len() >= u32::MAX as usize {
        return Err(String::from_str(overflow));
    }
    let total = match graph.total_size() {
        Some(t) => t,
        None => return Err(String::from_str(overflow)),
    };
    let n = graph.len() as u64;
    if n > 0 && total > u64::MAX / n {
        proof {
            assert(n * total > u64::MAX) by (nonlinear_arith)
                requires
                    n > 0,
                    total > u64::MAX / n,
            ;
        }
        return Err(String::from_str(overflow));
    }
    proof {
        let o = graph.object_ids();
        let c = graph.class_ids();
        let z = graph.sizes();
        let rs = graph.refs();
        assert(n * total <= u64::MAX) by (nonlinear_arith)
            requires
                n == 0 || total <= u64::MAX / n,
        ;
        assert forall|cls: u64| #[trigger] class_retained(o, c, z, rs, o.len() as int, cls) <= u64::MAX by {
            lemma_class_retained_bound(o, c, z, rs, cls);
        }
    }
    let names = dump_class_names(&h, bytes.len());
    let ghost o = graph.object_ids();
    let ghost c = graph.class_ids();
    let ghost z = graph.sizes();
    let ghost rs = graph.refs();
    let res = graph.finish(&names);
    proof {
        let cs = choose|cs: Seq<u64>| entries_ok(res.entries@, cs, o, c, z, rs, names.texts(), names.classes());
        assert(entries_ok(res.entries@, cs, o, c, z, rs, dump_texts(src), dump_classes(src)));
        assert((o, c, z, rs, res.truncated) == t);
        assert(res.truncated == t.4);
        assert(entries_ok(res.entries@, cs, t.0, t.1, t.2, t.3, dump_texts(src), dump_classes(src)));
        assert(retained_of_table(res, t, dump_texts(src), dump_classes(src)));
    }
    Ok(res)
}

} // verus!
