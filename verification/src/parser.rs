use vstd::prelude::*;
use std::collections::HashMap;
use crate::heap::{GcRootKind, HeapItem};
use crate::names::{ClassNames, text_map};
use crate::text::{digit, digit_char, dotted, dotted_string, hex_text, push_char, push_radix, push_str, str_chars};
use crate::retained::{be_value, read_be};
use crate::sort::{sort_pairs_desc, pairs_sorted, pair_before};
use crate::ui::fmt_bytes_spec;
use crate::dump::{
    header_id_ok, header_complete, starts_with, parse_dump, parse_failure, dump_id_size, id_size_bytes, dump_label,
    dump_readable, dump_items, dump_texts, dump_classes, dump_frames, label_text, header_id_field, frames,
    frame_items, records_left, records_width, record_tag, record_body, tags_known, id_size_num,
    segment_items, sub_records_left, sub_records_width, sub_bytes_left, is_segment_tag,
    dump_class_names, dump_records, next_record, record_kind, RecordKind, record_segment,
    segment_sub_records, next_sub_record, sub_record_item,
};
use crate::segment::{segments_ok, segment_readable};

verus! {

broadcast use {vstd::std_specs::hash::group_hash_axioms, vstd::seq_lib::group_to_multiset_ensures};

// ── Result types ─────────────────────────────────────────────────────────────

pub struct HeapSummary {
    pub file_path: String,
    pub file_size_bytes: u64,
    pub hprof_version: String,
    pub total_instances: u64,
    pub total_classes: u64,
    pub total_arrays: u64,
    pub total_gc_roots: u64,
    pub total_heap_size: u64,
}

#[derive(Debug, Clone)]
pub struct ClassEntry {
    pub class_name: String,
    pub instance_count: u64,
    pub shallow_size: u64,
}

#[derive(Debug, Clone)]
pub struct GcRoot {
    pub object_id: u64,
    pub root_type: String,
}

#[derive(Debug, Clone)]
pub struct DuplicateString {
    pub value_preview: String,
    pub count: u64,
    pub wasted_bytes: u64,
}

#[derive(Debug, Clone, Copy, PartialEq, Eq, Structural)]
pub enum SuspectSeverity {
    High,
    Medium,
    Low,
}

impl SuspectSeverity {
    /// Short label shown in tables.
    pub fn label(&self) -> (s: &'static str)
        ensures
            s@ == match *self {
                SuspectSeverity::High => "HIGH"@,
                SuspectSeverity::Medium => "MED"@,
                SuspectSeverity::Low => "LOW"@,
            },
    {
        match self {
            SuspectSeverity::High => "HIGH",
            SuspectSeverity::Medium => "MED",
            SuspectSeverity::Low => "LOW",
        }
    }
}

/// Everything the heap scan computes; leak suspects are derived from
/// `class_histogram` and `summary.total_heap_size` by the caller.
pub struct HprofAnalysis {
    pub summary: HeapSummary,
    pub class_histogram: Vec<ClassEntry>,
    pub gc_roots: Vec<GcRoot>,
    pub duplicate_strings: Vec<DuplicateString>,
}

// ── Names ────────────────────────────────────────────────────────────────────

/// Display name of a class in the histogram: its recorded name with '/'
/// turned into '.', or `unknown@0x` and the class id in hex.
pub open spec fn parser_class_name(texts: Map<u64, Seq<char>>, classes: Map<u64, u64>, cid: u64) -> Seq<char> {
    if classes.contains_key(cid) && texts.contains_key(classes[cid]) {
        dotted(texts[classes[cid]])
    } else {
        "unknown@0x"@ + hex_text(cid as nat)
    }
}

/// Resolves a class id to its display name through the LOAD CLASS and UTF-8 maps.
pub fn resolve_name(cid: u64, cls_name: &HashMap<u64, u64>, utf8: &HashMap<u64, String>) -> (s: String)
    ensures
        s@ == parser_class_name(text_map(utf8@), cls_name@, cid),
{
    let ghost texts = text_map(utf8@);
    match cls_name.get(&cid) {
        Some(nid) => match utf8.get(nid) {
            Some(t) => {
                assert(texts.contains_key(*nid) && texts[*nid] == t@);
                dotted_string(t.as_str())
            },
            None => {
                let mut s = String::from_str("unknown@0x");
                push_radix(&mut s, cid, 16);
                s
            },
        },
        None => {
            let mut s = String::from_str("unknown@0x");
            push_radix(&mut s, cid, 16);
            s
        },
    }
}

/// Label of each kind of GC root.
pub open spec fn root_type_text(kind: GcRootKind) -> Seq<char> {
    match kind {
        GcRootKind::Unknown => "Unknown"@,
        GcRootKind::ThreadObj => "ThreadObj"@,
        GcRootKind::JniGlobal => "JniGlobal"@,
        GcRootKind::JniLocalRef => "JniLocalRef"@,
        GcRootKind::StackFrame => "StackFrame"@,
        GcRootKind::NativeStack => "NativeStack"@,
        GcRootKind::SystemClass => "SystemClass"@,
        GcRootKind::ThreadBlock => "ThreadBlock"@,
        GcRootKind::BusyMonitor => "BusyMonitor"@,
    }
}

/// Each GC root is labelled with the name of its own kind, and roots of
/// different kinds get different labels.
pub proof fn lemma_root_label_names_kind(k: GcRootKind, k2: GcRootKind)
    ensures
        k == GcRootKind::Unknown ==> root_type_text(k) == "Unknown"@,
        k == GcRootKind::ThreadObj ==> root_type_text(k) == "ThreadObj"@,
        k == GcRootKind::JniGlobal ==> root_type_text(k) == "JniGlobal"@,
        k == GcRootKind::JniLocalRef ==> root_type_text(k) == "JniLocalRef"@,
        k == GcRootKind::StackFrame ==> root_type_text(k) == "StackFrame"@,
        k == GcRootKind::NativeStack ==> root_type_text(k) == "NativeStack"@,
        k == GcRootKind::SystemClass ==> root_type_text(k) == "SystemClass"@,
        k == GcRootKind::ThreadBlock ==> root_type_text(k) == "ThreadBlock"@,
        k == GcRootKind::BusyMonitor ==> root_type_text(k) == "BusyMonitor"@,
        k != k2 ==> root_type_text(k) != root_type_text(k2),
{
    reveal_strlit("Unknown");
    reveal_strlit("ThreadObj");
    reveal_strlit("JniGlobal");
    reveal_strlit("JniLocalRef");
    reveal_strlit("StackFrame");
    reveal_strlit("NativeStack");
    reveal_strlit("SystemClass");
    reveal_strlit("ThreadBlock");
    reveal_strlit("BusyMonitor");
    if k != k2 {
        let a = root_type_text(k);
        let b = root_type_text(k2);
        assert(a.len() != b.len() || a[0] != b[0] || a[1] != b[1] || a[6] != b[6]);
    }
}

fn root_type_name(kind: GcRootKind) -> (s: String)
    ensures
        s@ == root_type_text(kind),
{
    match kind {
        GcRootKind::Unknown => String::from_str("Unknown"),
        GcRootKind::ThreadObj => String::from_str("ThreadObj"),
        GcRootKind::JniGlobal => String::from_str("JniGlobal"),
        GcRootKind::JniLocalRef => String::from_str("JniLocalRef"),
        GcRootKind::StackFrame => String::from_str("StackFrame"),
        GcRootKind::NativeStack => String::from_str("NativeStack"),
        GcRootKind::SystemClass => String::from_str("SystemClass"),
        GcRootKind::ThreadBlock => String::from_str("ThreadBlock"),
        GcRootKind::BusyMonitor => String::from_str("BusyMonitor"),
    }
}

/// `s` without its trailing NUL characters.
pub open spec fn trim_nuls(s: Seq<char>) -> Seq<char>
    decreases s.len(),
{
    if s.len() > 0 && s.last() == '\0' {
        trim_nuls(s.drop_last())
    } else {
        s
    }
}

/// The dump's version label with trailing NULs removed, or "unknown" when the
/// label is not valid UTF-8.
pub fn hprof_version(label: Option<&str>) -> (s: String)
    ensures
        s@ == trim_nuls(
            match label {
                Some(l) => l@,
                None => "unknown"@,
            },
        ),
{
    let t: &str = match label {
        Some(l) => l,
        None => "unknown",
    };
    let cs = crate::text::str_chars(t);
    let mut end: usize = cs.len();
    assert(cs@.take(end as int) =~= cs@);
    while end > 0 && cs[end - 1] == '\0'
        invariant
            end <= cs@.len(),
            trim_nuls(cs@.take(end as int)) == trim_nuls(cs@),
        decreases end,
    {
        proof {
            assert(cs@.take(end as int).drop_last() =~= cs@.take(end - 1));
        }
        end = end - 1;
    }
    proof {
        assert(trim_nuls(cs@.take(end as int)) == cs@.take(end as int));
    }
    crate::text::string_from_chars(&cs.as_slice()[0..end])
}


// ── What one pass over the heap dump records counts ────────────────────────

/// Bytes a record adds to the heap total when object ids take `ib` bytes.
pub open spec fn item_size(item: HeapItem, ib: int) -> int {
    match item {
        HeapItem::Instance { fields, .. } => fields@.len() + 2 * ib + 4,
        HeapItem::ObjectArray { num_elements, .. } => num_elements * ib + ib + 12,
        HeapItem::PrimitiveArray { content_len, .. } => content_len + ib + 9,
        _ => 0,
    }
}

pub open spec fn heap_total(items: Seq<HeapItem>, ib: int) -> int
    decreases items.len(),
{
    if items.len() == 0 {
        0
    } else {
        heap_total(items.drop_last(), ib) + item_size(items.last(), ib)
    }
}

pub open spec fn instance_total(items: Seq<HeapItem>) -> nat
    decreases items.len(),
{
    if items.len() == 0 {
        0
    } else {
        instance_total(items.drop_last()) + if items.last() is Instance { 1nat } else { 0nat }
    }
}

pub open spec fn array_total(items: Seq<HeapItem>) -> nat
    decreases items.len(),
{
    if items.len() == 0 {
        0
    } else {
        array_total(items.drop_last()) + if items.last() is ObjectArray || items.last() is PrimitiveArray {
            1nat
        } else {
            0nat
        }
    }
}

/// The GC roots in the order they were met.
pub open spec fn root_list(items: Seq<HeapItem>) -> Seq<(GcRootKind, u64)>
    decreases items.len(),
{
    if items.len() == 0 {
        seq![]
    } else {
        match items.last() {
            HeapItem::GcRoot { kind, object_id } => root_list(items.drop_last()).push((kind, object_id)),
            _ => root_list(items.drop_last()),
        }
    }
}

/// Number of instances of class `cid`.
pub open spec fn scan_class_count(items: Seq<HeapItem>, cid: u64) -> nat
    decreases items.len(),
{
    if items.len() == 0 {
        0
    } else {
        scan_class_count(items.drop_last(), cid) + match items.last() {
            HeapItem::Instance { class_id, .. } => if class_id == cid { 1nat } else { 0nat },
            _ => 0nat,
        }
    }
}

/// Shallow bytes of the instances of class `cid`.
pub open spec fn scan_class_size(items: Seq<HeapItem>, ib: int, cid: u64) -> int
    decreases items.len(),
{
    if items.len() == 0 {
        0
    } else {
        scan_class_size(items.drop_last(), ib, cid) + match items.last() {
            HeapItem::Instance { class_id, .. } => if class_id == cid { item_size(items.last(), ib) } else { 0 },
            _ => 0,
        }
    }
}

/// Whether the class displays as `java.lang.String`.
pub open spec fn string_class(texts: Map<u64, Seq<char>>, classes: Map<u64, u64>, cid: u64) -> bool {
    parser_class_name(texts, classes, cid) == "java.lang.String"@
}

/// The first 24 field bytes of a string instance, its fingerprint.
pub open spec fn fp_key(fields: Seq<u8>) -> Seq<u8> {
    if fields.len() <= 24 {
        fields
    } else {
        fields.take(24)
    }
}

/// Whether counting `item` after `items` keeps every total within 64 bits.
pub open spec fn item_fits(
    items: Seq<HeapItem>,
    ib: int,
    texts: Map<u64, Seq<char>>,
    classes: Map<u64, u64>,
    item: HeapItem,
) -> bool {
    &&& heap_total(items, ib) + item_size(item, ib) <= u64::MAX
    &&& match item {
        HeapItem::GcRoot { .. } => root_list(items).len() + 1 <= u64::MAX,
        HeapItem::Instance { class_id, fields, .. } => {
            &&& instance_total(items) + 1 <= u64::MAX
            &&& (string_class(texts, classes, class_id) && fields@.len() > 0 ==> key_count(
                string_keys(items, texts, classes),
                fp_key(fields@),
            ) * 40 <= u64::MAX)
        },
        HeapItem::ObjectArray { .. } => array_total(items) + 1 <= u64::MAX,
        HeapItem::PrimitiveArray { .. } => array_total(items) + 1 <= u64::MAX,
        HeapItem::Other => true,
    }
}

/// Counting all of `items`, in order, keeps every total within 64 bits.
pub open spec fn items_fit(items: Seq<HeapItem>, ib: int, texts: Map<u64, Seq<char>>, classes: Map<u64, u64>) -> bool {
    forall|k: int| 0 <= k < items.len() ==> #[trigger] item_fits(items.take(k), ib, texts, classes, items[k])
}

/// Fingerprints of the string instances with at least one field byte, in order.
pub open spec fn string_keys(items: Seq<HeapItem>, texts: Map<u64, Seq<char>>, classes: Map<u64, u64>) -> Seq<Seq<u8>>
    decreases items.len(),
{
    if items.len() == 0 {
        seq![]
    } else {
        let rest = string_keys(items.drop_last(), texts, classes);
        match items.last() {
            HeapItem::Instance { class_id, fields, .. } => if string_class(texts, classes, class_id) && fields@.len() > 0 {
                rest.push(fp_key(fields@))
            } else {
                rest
            },
            _ => rest,
        }
    }
}

/// How often `k` occurs in `keys`.
pub open spec fn key_count(keys: Seq<Seq<u8>>, k: Seq<u8>) -> nat
    decreases keys.len(),
{
    if keys.len() == 0 {
        0
    } else {
        key_count(keys.drop_last(), k) + if keys.last() == k { 1nat } else { 0nat }
    }
}

pub proof fn lemma_key_count_contains(keys: Seq<Seq<u8>>, k: Seq<u8>)
    requires
        key_count(keys, k) > 0,
    ensures
        keys.contains(k),
    decreases keys.len(),
{
    if keys.last() != k {
        lemma_key_count_contains(keys.drop_last(), k);
        let i = choose|i: int| 0 <= i < keys.drop_last().len() && keys.drop_last()[i] == k;
        assert(keys[i] == k);
    } else {
        assert(keys[keys.len() - 1] == k);
    }
}

/// Two lower-case hex digits of a byte.
pub open spec fn hex_byte(b: u8) -> Seq<char> {
    seq![digit_char((b / 16) as nat), digit_char((b % 16) as nat)]
}

pub open spec fn hex_bytes(bs: Seq<u8>) -> Seq<char>
    decreases bs.len(),
{
    if bs.len() == 0 {
        seq![]
    } else {
        hex_bytes(bs.drop_last()) + hex_byte(bs.last())
    }
}

/// How a duplicated string is shown: "fp:" and its first six bytes in hex.
pub open spec fn fp_preview(key: Seq<u8>) -> Seq<char> {
    "fp:"@ + hex_bytes(if key.len() <= 6 { key } else { key.take(6) })
}

/// Bucket of a fingerprint in the lookup table: its first eight bytes, big-endian.
pub open spec fn fp_hash_spec(key: Seq<u8>) -> u64 {
    be_value(if key.len() <= 8 { key } else { key.take(8) }) as u64
}

/// `list` holds the first 2000 roots of `rl`.
pub open spec fn roots_ok(list: Seq<GcRoot>, rl: Seq<(GcRootKind, u64)>) -> bool {
    &&& list.len() == if rl.len() <= 2000 { rl.len() } else { 2000 }
    &&& forall|i: int|
        0 <= i < list.len() ==> (#[trigger] list[i]).object_id == rl[i].1 && list[i].root_type@ == root_type_text(
            rl[i].0,
        )
}

/// `list` has one entry per class with instances (`cs` lists them), largest
/// shallow size first.
pub open spec fn histogram_ok(
    list: Seq<ClassEntry>,
    cs: Seq<u64>,
    items: Seq<HeapItem>,
    ib: int,
    texts: Map<u64, Seq<char>>,
    classes: Map<u64, u64>,
) -> bool {
    &&& list.len() == cs.len()
    &&& cs.no_duplicates()
    &&& forall|i: int| 0 <= i < list.len() ==> scan_class_count(items, #[trigger] cs[i]) > 0
    &&& forall|i: int|
        0 <= i < list.len() ==> {
            &&& (#[trigger] list[i]).class_name@ == parser_class_name(texts, classes, cs[i])
            &&& list[i].instance_count as nat == scan_class_count(items, cs[i])
            &&& list[i].shallow_size as int == scan_class_size(items, ib, cs[i])
        }
    &&& forall|cid: u64| #[trigger] scan_class_count(items, cid) > 0 ==> cs.contains(cid)
    &&& forall|i: int, j: int|
        0 <= i < j < list.len() ==> (#[trigger] list[i]).shallow_size >= (#[trigger] list[j]).shallow_size
}

/// `list` holds fingerprints met more than once (`ks` lists them), most bytes
/// wasted first, at most 200; none left out wastes more than one listed.
pub open spec fn duplicates_ok(list: Seq<DuplicateString>, ks: Seq<Seq<u8>>, keys: Seq<Seq<u8>>) -> bool {
    &&& list.len() == ks.len()
    &&& list.len() <= 200
    &&& ks.no_duplicates()
    &&& forall|i: int| 0 <= i < list.len() ==> key_count(keys, #[trigger] ks[i]) > 1
    &&& forall|i: int|
        0 <= i < list.len() ==> {
            &&& (#[trigger] list[i]).count as nat == key_count(keys, ks[i])
            &&& list[i].wasted_bytes as int == (key_count(keys, ks[i]) - 1) * 40
            &&& list[i].value_preview@ == fp_preview(ks[i])
        }
    &&& forall|i: int, j: int|
        0 <= i < j < list.len() ==> (#[trigger] list[i]).wasted_bytes >= (#[trigger] list[j]).wasted_bytes
    &&& forall|k: Seq<u8>|
        #[trigger] key_count(keys, k) > 1 && !ks.contains(k) ==> {
            &&& list.len() == 200
            &&& forall|i: int| 0 <= i < list.len() ==> (key_count(keys, k) - 1) * 40 <= (#[trigger] list[i]).wasted_bytes
        }
}

spec fn slots_inv(
    slots: Seq<ClassSlot>,
    slot_of: Map<u64, usize>,
    items: Seq<HeapItem>,
    ib: int,
    texts: Map<u64, Seq<char>>,
    classes: Map<u64, u64>,
    total_heap: u64,
    total_inst: u64,
) -> bool {
    &&& forall|s: int|
        0 <= s < slots.len() ==> #[trigger] slot_of.contains_key(slots[s].cid) && slot_of[slots[s].cid] == s
    &&& forall|cid: u64|
        #[trigger] slot_of.contains_key(cid) ==> slot_of[cid] < slots.len() && slots[slot_of[cid] as int].cid == cid
    &&& forall|s: int|
        0 <= s < slots.len() ==> {
            &&& (#[trigger] slots[s]).count as nat == scan_class_count(items, slots[s].cid)
            &&& slots[s].count > 0
            &&& slots[s].size as int == scan_class_size(items, ib, slots[s].cid)
            &&& slots[s].size <= total_heap
            &&& slots[s].count <= total_inst
            &&& slots[s].is_string == string_class(texts, classes, slots[s].cid)
        }
    &&& forall|cid: u64| #[trigger] scan_class_count(items, cid) > 0 ==> slot_of.contains_key(cid)
}

spec fn entry_keys(fps: Seq<FpEntry>) -> Seq<Seq<u8>> {
    fps.map_values(|f: FpEntry| f.key@)
}

spec fn fps_inv(fps: Seq<FpEntry>, index: Map<u64, Vec<usize>>, keys: Seq<Seq<u8>>, total_inst: u64) -> bool {
    &&& fps.len() <= usize::MAX
    &&& forall|e: int|
        0 <= e < fps.len() ==> {
            &&& (#[trigger] fps[e]).count as nat == key_count(keys, fps[e].key@)
            &&& fps[e].count <= total_inst
            &&& (fps[e].count - 1) * 40 <= u64::MAX
            &&& index.contains_key(fp_hash_spec(fps[e].key@))
            &&& index[fp_hash_spec(fps[e].key@)]@.contains(e as usize)
        }
    &&& forall|e1: int, e2: int| 0 <= e1 < e2 < fps.len() ==> (#[trigger] fps[e1]).key@ != (#[trigger] fps[e2]).key@
    &&& forall|i: int| 0 <= i < keys.len() ==> entry_keys(fps).contains(#[trigger] keys[i])
    &&& forall|h: u64, j: int|
        #[trigger] index.contains_key(h) && 0 <= j < index[h]@.len() ==> (#[trigger] index[h]@[j]) < fps.len()
}

struct FpEntry {
    key: Vec<u8>,
    count: u64,
}

struct ClassSlot {
    cid: u64,
    count: u64,
    size: u64,
    is_string: bool,
}

/// Accumulates the heap-dump statistics record by record.
pub struct HeapScan {
    names: ClassNames,
    id_bytes: u64,
    slot_of: HashMap<u64, usize>,
    slots: Vec<ClassSlot>,
    roots: Vec<GcRoot>,
    fp_index: HashMap<u64, Vec<usize>>,
    fps: Vec<FpEntry>,
    total_heap_size: u64,
    total_gc_roots: u64,
    total_arrays: u64,
    total_instances: u64,
    items: Ghost<Seq<HeapItem>>,
}

impl HeapScan {
    /// The records counted so far.
    pub closed spec fn items(&self) -> Seq<HeapItem> {
        self.items@
    }

    pub closed spec fn id_bytes(&self) -> int {
        self.id_bytes as int
    }

    pub closed spec fn texts(&self) -> Map<u64, Seq<char>> {
        self.names.texts()
    }

    pub closed spec fn classes(&self) -> Map<u64, u64> {
        self.names.classes()
    }

    pub closed spec fn keys(&self) -> Seq<Seq<u8>> {
        string_keys(self.items@, self.names.texts(), self.names.classes())
    }

    /// Whether counting `item` keeps every total within 64 bits.
    pub open spec fn fits(&self, item: HeapItem) -> bool {
        item_fits(self.items(), self.id_bytes(), self.texts(), self.classes(), item)
    }

    closed spec fn slots_ok(&self) -> bool {
        slots_inv(
            self.slots@,
            self.slot_of@,
            self.items@,
            self.id_bytes as int,
            self.names.texts(),
            self.names.classes(),
            self.total_heap_size,
            self.total_instances,
        )
    }

    closed spec fn entry_keys(&self) -> Seq<Seq<u8>> {
        entry_keys(self.fps@)
    }

    closed spec fn fps_ok(&self) -> bool {
        fps_inv(self.fps@, self.fp_index@, self.keys(), self.total_instances)
    }

    /// The scan's invariant.
    pub closed spec fn wf(&self) -> bool {
        let items = self.items@;
        &&& (self.id_bytes == 4 || self.id_bytes == 8)
        &&& self.total_heap_size as int == heap_total(items, self.id_bytes as int)
        &&& self.total_instances as nat == instance_total(items)
        &&& self.total_arrays as nat == array_total(items)
        &&& self.total_gc_roots as nat == root_list(items).len()
        &&& roots_ok(self.roots@, root_list(items))
        &&& self.slots_ok()
        &&& self.fps_ok()
    }

    /// An empty scan over a dump whose object ids take `id_bytes` bytes.
    pub fn new(names: ClassNames, id_bytes: u64) -> (r: Self)
        requires
            id_bytes == 4 || id_bytes == 8,
        ensures
            r.wf(),
            r.items() == Seq::<HeapItem>::empty(),
            r.id_bytes() == id_bytes,
            r.texts() == names.texts(),
            r.classes() == names.classes(),
    {
        let r = HeapScan {
            names,
            id_bytes,
            slot_of: HashMap::new(),
            slots: Vec::new(),
            roots: Vec::new(),
            fp_index: HashMap::new(),
            fps: Vec::new(),
            total_heap_size: 0,
            total_gc_roots: 0,
            total_arrays: 0,
            total_instances: 0,
            items: Ghost(Seq::empty()),
        };
        proof {
            assert(string_keys(r.items@, r.names.texts(), r.names.classes()) =~= Seq::<Seq<u8>>::empty());
        }
        r
    }
}


/// Whether `a` and `b` hold the same bytes.
fn bytes_eq(a: &[u8], b: &[u8]) -> (r: bool)
    ensures
        r == (a@ == b@),
{
    if a.len() != b.len() {
        return false;
    }
    let mut i: usize = 0;
    while i < a.len()
        invariant
            a@.len() == b@.len(),
            i <= a@.len(),
            forall|k: int| 0 <= k < i ==> a@[k] == b@[k],
        decreases a@.len() - i,
    {
        if a[i] != b[i] {
            return false;
        }
        i = i + 1;
    }
    assert(a@ =~= b@);
    true
}

/// The first `k` bytes of `v`.
fn take_bytes(v: &[u8], k: usize) -> (r: Vec<u8>)
    requires
        k <= v@.len(),
    ensures
        r@ == v@.take(k as int),
{
    let mut r: Vec<u8> = Vec::new();
    let mut i: usize = 0;
    while i < k
        invariant
            k <= v@.len(),
            i <= k,
            r@ == v@.take(i as int),
        decreases k - i,
    {
        r.push(v[i]);
        i = i + 1;
        assert(r@ =~= v@.take(i as int));
    }
    r
}

fn fp_hash(key: &[u8]) -> (h: u64)
    ensures
        h == fp_hash_spec(key@),
{
    let w: usize = if key.len() < 8 { key.len() } else { 8 };
    let v = read_be(key, 0, w);
    assert(key@.subrange(0, w as int) =~= (if key@.len() <= 8 { key@ } else { key@.take(8) }));
    v
}

/// Whether `t`, with '/' read as '.', is `java.lang.String`.
fn dotted_is_java_lang_string(t: &str) -> (r: bool)
    ensures
        r == (dotted(t@) == "java.lang.String"@),
{
    let lit = "java.lang.String";
    proof {
        reveal_strlit("java.lang.String");
        assert(lit@ =~= "java.lang.String"@);
    }
    let a = str_chars(t);
    let b = str_chars(lit);
    if a.len() != b.len() {
        assert(dotted(t@).len() != lit@.len());
        return false;
    }
    let mut i: usize = 0;
    while i < a.len()
        invariant
            a@ == t@,
            b@ == lit@,
            lit@ == "java.lang.String"@,
            a@.len() == b@.len(),
            i <= a@.len(),
            forall|k: int| 0 <= k < i ==> #[trigger] dotted(t@)[k] == b@[k],
        decreases a@.len() - i,
    {
        let ch = a[i];
        let d = if ch == '/' { '.' } else { ch };
        if d != b[i] {
            assert(dotted(t@)[i as int] == d);
            assert(dotted(t@)[i as int] != lit@[i as int]);
            assert(dotted(t@) != lit@);
            return false;
        }
        i = i + 1;
    }
    assert(dotted(t@) =~= lit@);
    true
}

/// Whether class `cid` displays as `java.lang.String`.
fn is_string_class(names: &ClassNames, cid: u64) -> (r: bool)
    ensures
        r == string_class(names.texts(), names.classes(), cid),
{
    match names.class_text(cid) {
        Some(t) => dotted_is_java_lang_string(t.as_str()),
        None => {
            proof {
                reveal_strlit("unknown@0x");
                reveal_strlit("java.lang.String");
                let s = parser_class_name(names.texts(), names.classes(), cid);
                assert(s[0] == 'u');
                assert("java.lang.String"@[0] == 'j');
            }
            false
        },
    }
}

impl HeapScan {
    /// Position of the entry holding fingerprint `key`, if any.
    fn find_fp(&self, key: &Vec<u8>) -> (r: Option<usize>)
        requires
            self.fps_ok(),
        ensures
            match r {
                Some(e) => e < self.fps@.len() && self.fps@[e as int].key@ == key@,
                None => forall|e: int| 0 <= e < self.fps@.len() ==> self.fps@[e].key@ != key@,
            },
    {
        let h = fp_hash(key.as_slice());
        match self.fp_index.get(&h) {
            None => {
                proof {
                    assert forall|e: int| 0 <= e < self.fps@.len() implies self.fps@[e].key@ != key@ by {
                        let f = self.fps@[e];
                        assert(self.fp_index@.contains_key(fp_hash_spec(f.key@)));
                    }
                }
                None
            },
            Some(b) => {
                let mut j: usize = 0;
                while j < b.len()
                    invariant
                        self.fps_ok(),
                        self.fp_index@.contains_key(h),
                        self.fp_index@[h] == *b,
                        j <= b@.len(),
                        forall|jj: int| 0 <= jj < j ==> self.fps@[#[trigger] b@[jj] as int].key@ != key@,
                    decreases b@.len() - j,
                {
                    let e = b[j];
                    assert(e < self.fps@.len());
                    if bytes_eq(self.fps[e].key.as_slice(), key.as_slice()) {
                        return Some(e);
                    }
                    j = j + 1;
                }
                proof {
                    assert forall|e: int| 0 <= e < self.fps@.len() implies self.fps@[e].key@ != key@ by {
                        if self.fps@[e].key@ == key@ {
                            assert(e < self.fps.len());
                            assert(fp_hash_spec(self.fps@[e].key@) == h);
                            assert(self.fp_index@[h]@.contains(e as usize));
                            assert(b@.contains(e as usize));
                            let jj = choose|jj: int| 0 <= jj < b@.len() && b@[jj] == e as usize;
                            assert(0 <= jj < j);
                            assert(self.fps@[b@[jj] as int].key@ != key@);
                        }
                    }
                }
                None
            },
        }
    }
}


impl HeapScan {
    proof fn lemma_push_other(&self, old_items: Seq<HeapItem>, x: HeapItem)
        requires
            self.items@ == old_items.push(x),
            !(x is Instance),
        ensures
            instance_total(self.items@) == instance_total(old_items),
            forall|cid: u64| #[trigger] scan_class_count(self.items@, cid) == scan_class_count(old_items, cid),
            forall|cid: u64| #[trigger] scan_class_size(self.items@, self.id_bytes as int, cid) == scan_class_size(old_items, self.id_bytes as int, cid),
            string_keys(self.items@, self.names.texts(), self.names.classes()) == string_keys(old_items, self.names.texts(), self.names.classes()),
    {
        assert(self.items@.drop_last() =~= old_items);
    }

    fn add_root(&mut self, item: &HeapItem, kind: GcRootKind, object_id: u64) -> (ok: bool)
        requires
            old(self).wf(),
            *item == (HeapItem::GcRoot { kind, object_id }),
        ensures
            final(self).wf(),
            final(self).id_bytes() == old(self).id_bytes(),
            final(self).texts() == old(self).texts(),
            final(self).classes() == old(self).classes(),
            ok == old(self).fits(*item),
            final(self).items() == if ok { old(self).items().push(*item) } else { old(self).items() },
    {
        if self.total_gc_roots == u64::MAX {
            return false;
        }
        let ghost old_items = self.items@;
        let ghost old_roots = self.roots@;
        if self.roots.len() < 2000 {
            let name = root_type_name(kind);
            self.roots.push(GcRoot { object_id, root_type: name });
        }
        self.total_gc_roots = self.total_gc_roots + 1;
        self.items = Ghost(self.items@.push(*item));
        proof {
            let items = self.items@;
            assert(items.drop_last() =~= old_items);
            self.lemma_push_other(old_items, *item);
            assert(root_list(items) == root_list(old_items).push((kind, object_id)));
            assert forall|i: int| 0 <= i < self.roots@.len() implies (#[trigger] self.roots@[i]).object_id == root_list(items)[i].1
                && self.roots@[i].root_type@ == root_type_text(root_list(items)[i].0) by {
                if i < old_roots.len() {
                    assert(self.roots@[i] == old_roots[i]);
                }
            }
            assert(self.keys() == string_keys(old_items, self.names.texts(), self.names.classes()));
            assert(self.slots_ok());
            assert(self.keys() == old(self).keys());
            assert(self.entry_keys() == old(self).entry_keys());
            assert(self.fps_ok());
            assert(roots_ok(self.roots@, root_list(items)));
            assert(self.total_heap_size as int == heap_total(items, self.id_bytes as int));
        }
        true
    }

    fn add_array(&mut self, item: &HeapItem, sz: u64) -> (ok: bool)
        requires
            old(self).wf(),
            item is ObjectArray || item is PrimitiveArray,
            sz as int == item_size(*item, old(self).id_bytes()),
        ensures
            final(self).wf(),
            final(self).id_bytes() == old(self).id_bytes(),
            final(self).texts() == old(self).texts(),
            final(self).classes() == old(self).classes(),
            ok == old(self).fits(*item),
            final(self).items() == if ok { old(self).items().push(*item) } else { old(self).items() },
    {
        if self.total_heap_size > u64::MAX - sz || self.total_arrays == u64::MAX {
            return false;
        }
        let ghost old_items = self.items@;
        self.total_heap_size = self.total_heap_size + sz;
        self.total_arrays = self.total_arrays + 1;
        self.items = Ghost(self.items@.push(*item));
        proof {
            let items = self.items@;
            assert(items.drop_last() =~= old_items);
            self.lemma_push_other(old_items, *item);
            assert(root_list(items) == root_list(old_items));
            assert(self.keys() == string_keys(old_items, self.names.texts(), self.names.classes()));
            assert(self.slots_ok());
            assert(self.keys() == old(self).keys());
            assert(self.entry_keys() == old(self).entry_keys());
            assert(self.fps_ok());
            assert(roots_ok(self.roots@, root_list(items)));
            assert(self.total_heap_size as int == heap_total(items, self.id_bytes as int));
        }
        true
    }
}


proof fn lemma_push_instance(
    old_items: Seq<HeapItem>,
    items: Seq<HeapItem>,
    x: HeapItem,
    cid: u64,
    fields: Seq<u8>,
    ib: int,
    texts: Map<u64, Seq<char>>,
    classes: Map<u64, u64>,
)
    requires
        items == old_items.push(x),
        x is Instance,
        x->class_id == cid,
        x->fields@ == fields,
    ensures
        instance_total(items) == instance_total(old_items) + 1,
        heap_total(items, ib) == heap_total(old_items, ib) + fields.len() + 2 * ib + 4,
        array_total(items) == array_total(old_items),
        root_list(items) == root_list(old_items),
        forall|c: u64| #[trigger] scan_class_count(items, c) == scan_class_count(old_items, c) + if c == cid { 1nat } else { 0nat },
        forall|c: u64|
            #[trigger] scan_class_size(items, ib, c) == scan_class_size(old_items, ib, c) + if c == cid {
                fields.len() + 2 * ib + 4
            } else {
                0
            },
        string_keys(items, texts, classes) == if string_class(texts, classes, cid) && fields.len() > 0 {
            string_keys(old_items, texts, classes).push(fp_key(fields))
        } else {
            string_keys(old_items, texts, classes)
        },
{
    assert(items.drop_last() =~= old_items);
}

proof fn lemma_absent_key(fps: Seq<FpEntry>, index: Map<u64, Vec<usize>>, keys: Seq<Seq<u8>>, ti: u64, k: Seq<u8>)
    requires
        fps_inv(fps, index, keys, ti),
        forall|e: int| 0 <= e < fps.len() ==> (#[trigger] fps[e]).key@ != k,
    ensures
        key_count(keys, k) == 0,
{
    if key_count(keys, k) > 0 {
        lemma_key_count_contains(keys, k);
        let i = choose|i: int| 0 <= i < keys.len() && keys[i] == k;
        assert(entry_keys(fps).contains(keys[i]));
        let e = choose|e: int| 0 <= e < fps.len() && entry_keys(fps)[e] == keys[i];
        assert(fps[e].key@ == k);
    }
}

/// Adds one instance of `cid` with `sz` bytes to its class slot.
fn bump_slot(
    slots: &mut Vec<ClassSlot>,
    slot_of: &mut HashMap<u64, usize>,
    slot: Option<usize>,
    cid: u64,
    sz: u64,
    is_string: bool,
)
    requires
        match slot {
            Some(s) => s < old(slots)@.len() && old(slots)@[s as int].cid == cid && old(slots)@[s as int].count < u64::MAX
                && old(slots)@[s as int].size + sz <= u64::MAX,
            None => !old(slot_of)@.contains_key(cid),
        },
    ensures
        match slot {
            Some(s) => {
                &&& final(slots)@ == old(slots)@.update(
                    s as int,
                    ClassSlot {
                        cid,
                        count: (old(slots)@[s as int].count + 1) as u64,
                        size: (old(slots)@[s as int].size + sz) as u64,
                        is_string: old(slots)@[s as int].is_string,
                    },
                )
                &&& final(slot_of)@ == old(slot_of)@
            },
            None => {
                &&& final(slots)@ == old(slots)@.push(ClassSlot { cid, count: 1, size: sz, is_string })
                &&& final(slot_of)@ == old(slot_of)@.insert(cid, old(slots)@.len() as usize)
            },
        },
{
    match slot {
        Some(s) => {
            slots[s].count = slots[s].count + 1;
            slots[s].size = slots[s].size + sz;
        },
        None => {
            let s = slots.len();
            slots.push(ClassSlot { cid, count: 1, size: sz, is_string });
            slot_of.insert(cid, s);
        },
    }
}

/// Counts one more occurrence of a fingerprint: entry `found` if it holds
/// `key`, else a new entry filed under the key's bucket.
fn bump_fp(fps: &mut Vec<FpEntry>, index: &mut HashMap<u64, Vec<usize>>, key: Vec<u8>, found: Option<usize>)
    requires
        match found {
            Some(e) => e < old(fps)@.len() && old(fps)@[e as int].count < u64::MAX,
            None => true,
        },
    ensures
        match found {
            Some(e) => {
                &&& final(fps)@.len() == old(fps)@.len()
                &&& forall|e2: int| 0 <= e2 < old(fps)@.len() && e2 != e ==> #[trigger] final(fps)@[e2] == old(fps)@[e2]
                &&& final(fps)@[e as int].key@ == old(fps)@[e as int].key@
                &&& final(fps)@[e as int].count == old(fps)@[e as int].count + 1
                &&& final(index)@ == old(index)@
            },
            None => {
                let h = fp_hash_spec(key@);
                &&& final(fps)@.len() == old(fps)@.len() + 1
                &&& forall|e2: int| 0 <= e2 < old(fps)@.len() ==> #[trigger] final(fps)@[e2] == old(fps)@[e2]
                &&& final(fps)@[old(fps)@.len() as int].key@ == key@
                &&& final(fps)@[old(fps)@.len() as int].count == 1
                &&& final(index)@.contains_key(h)
                &&& final(index)@[h]@ == (if old(index)@.contains_key(h) { old(index)@[h]@ } else { Seq::<usize>::empty() }).push(
                    old(fps)@.len() as usize,
                )
                &&& forall|hh: u64| hh != h ==> (#[trigger] final(index)@.contains_key(hh) == old(index)@.contains_key(hh))
                &&& forall|hh: u64| hh != h && old(index)@.contains_key(hh) ==> #[trigger] final(index)@[hh] == old(index)@[hh]
            },
        },
{
    match found {
        Some(e) => {
            fps[e].count = fps[e].count + 1;
        },
        None => {
            let e = fps.len();
            let h = fp_hash(key.as_slice());
            fps.push(FpEntry { key, count: 1 });
            match index.remove(&h) {
                Some(b) => {
                    let mut b = b;
                    b.push(e);
                    index.insert(h, b);
                },
                None => {
                    let mut b: Vec<usize> = Vec::new();
                    b.push(e);
                    index.insert(h, b);
                },
            }
        },
    }
}

proof fn lemma_slots_step(
    old_slots: Seq<ClassSlot>,
    old_slot_of: Map<u64, usize>,
    slots: Seq<ClassSlot>,
    slot_of: Map<u64, usize>,
    old_items: Seq<HeapItem>,
    items: Seq<HeapItem>,
    x: HeapItem,
    ib: int,
    texts: Map<u64, Seq<char>>,
    classes: Map<u64, u64>,
    oth: u64,
    oti: u64,
    sz: u64,
    cid: u64,
    slot: Option<usize>,
    is_string: bool,
)
    requires
        slots_inv(old_slots, old_slot_of, old_items, ib, texts, classes, oth, oti),
        items == old_items.push(x),
        x is Instance,
        x->class_id == cid,
        sz == x->fields@.len() + 2 * ib + 4,
        oth + sz <= u64::MAX,
        oti + 1 <= u64::MAX,
        is_string == string_class(texts, classes, cid),
        match slot {
            Some(s) => old_slot_of.contains_key(cid) && old_slot_of[cid] == s,
            None => !old_slot_of.contains_key(cid),
        },
        match slot {
            Some(s) => {
                &&& slots == old_slots.update(
                    s as int,
                    ClassSlot {
                        cid,
                        count: (old_slots[s as int].count + 1) as u64,
                        size: (old_slots[s as int].size + sz) as u64,
                        is_string: old_slots[s as int].is_string,
                    },
                )
                &&& slot_of == old_slot_of
            },
            None => {
                &&& slots == old_slots.push(ClassSlot { cid, count: 1, size: sz, is_string })
                &&& slot_of == old_slot_of.insert(cid, old_slots.len() as usize)
            },
        },
        slots.len() <= usize::MAX,
    ensures
        slots_inv(slots, slot_of, items, ib, texts, classes, (oth + sz) as u64, (oti + 1) as u64),
{
    lemma_push_instance(old_items, items, x, cid, x->fields@, ib, texts, classes);
    let th = (oth + sz) as u64;
    let ti = (oti + 1) as u64;
    assert forall|c: u64| #[trigger] scan_class_count(items, c) > 0 implies slot_of.contains_key(c) by {
        if c != cid {
            assert(scan_class_count(old_items, c) > 0);
        }
    }
    assert forall|q: int| 0 <= q < slots.len() implies #[trigger] slot_of.contains_key(slots[q].cid) && slot_of[slots[q].cid] == q by {
        if q < old_slots.len() {
            assert(old_slot_of.contains_key(old_slots[q].cid));
            assert(slots[q].cid == old_slots[q].cid);
            if slot is None {
                assert(old_slots[q].cid != cid);
            }
        } else {
            assert(slots[q].cid == cid);
        }
    }
    assert forall|c: u64| #[trigger] slot_of.contains_key(c) implies slot_of[c] < slots.len() && slots[slot_of[c] as int].cid == c by {
        if c != cid {
            assert(old_slot_of.contains_key(c));
            let idx = old_slot_of[c];
            assert(slot_of[c] == idx);
            assert(old_slots[idx as int].cid == c);
            assert(slots[idx as int].cid == c);
        } else {
            match slot {
                Some(s) => {
                    assert(slots[s as int].cid == cid);
                },
                None => {
                    assert(slots[old_slots.len() as int].cid == cid);
                },
            }
        }
    }
    assert forall|q: int| 0 <= q < slots.len() implies {
        &&& (#[trigger] slots[q]).count as nat == scan_class_count(items, slots[q].cid)
        &&& slots[q].count > 0
        &&& slots[q].size as int == scan_class_size(items, ib, slots[q].cid)
        &&& slots[q].size <= th
        &&& slots[q].count <= ti
        &&& slots[q].is_string == string_class(texts, classes, slots[q].cid)
    } by {
        if q < old_slots.len() {
            let sl = old_slots[q];
            assert(old_slot_of.contains_key(sl.cid));
            if sl.cid == cid {
                assert(slot == Some(q as usize));
            } else {
                assert(slots[q] == sl);
            }
        } else {
            assert(slot is None);
            assert(scan_class_count(old_items, cid) == 0);
            lemma_class_size_zero(old_items, ib, cid);
        }
    }
}

proof fn lemma_fps_step(
    old_fps: Seq<FpEntry>,
    old_index: Map<u64, Vec<usize>>,
    fps: Seq<FpEntry>,
    index: Map<u64, Vec<usize>>,
    old_keys: Seq<Seq<u8>>,
    keys: Seq<Seq<u8>>,
    oti: u64,
    tracks: bool,
    key: Seq<u8>,
    found: Option<usize>,
)
    requires
        fps_inv(old_fps, old_index, old_keys, oti),
        oti + 1 <= u64::MAX,
        fps.len() <= usize::MAX,
        keys == if tracks { old_keys.push(key) } else { old_keys },
        !tracks ==> fps == old_fps && index == old_index,
        tracks ==> match found {
            Some(e) => {
                &&& e < old_fps.len()
                &&& old_fps[e as int].count <= u64::MAX / 40
                &&& old_fps[e as int].key@ == key
                &&& fps.len() == old_fps.len()
                &&& forall|e2: int| 0 <= e2 < old_fps.len() && e2 != e ==> #[trigger] fps[e2] == old_fps[e2]
                &&& fps[e as int].key@ == old_fps[e as int].key@
                &&& fps[e as int].count == old_fps[e as int].count + 1
                &&& index == old_index
            },
            None => {
                let h = fp_hash_spec(key);
                &&& forall|e: int| 0 <= e < old_fps.len() ==> (#[trigger] old_fps[e]).key@ != key
                &&& fps.len() == old_fps.len() + 1
                &&& forall|e2: int| 0 <= e2 < old_fps.len() ==> #[trigger] fps[e2] == old_fps[e2]
                &&& fps[old_fps.len() as int].key@ == key
                &&& fps[old_fps.len() as int].count == 1
                &&& index.contains_key(h)
                &&& index[h]@ == (if old_index.contains_key(h) { old_index[h]@ } else { Seq::<usize>::empty() }).push(
                    old_fps.len() as usize,
                )
                &&& forall|hh: u64| hh != h ==> (#[trigger] index.contains_key(hh) == old_index.contains_key(hh))
                &&& forall|hh: u64| hh != h && old_index.contains_key(hh) ==> #[trigger] index[hh] == old_index[hh]
            },
        },
    ensures
        fps_inv(fps, index, keys, (oti + 1) as u64),
{
    let ti = (oti + 1) as u64;
    assert forall|kk: Seq<u8>| #[trigger] key_count(keys, kk) == key_count(old_keys, kk) + if tracks && kk == key { 1nat } else { 0nat } by {
        if tracks {
            assert(keys.drop_last() =~= old_keys);
        }
    }
    if tracks && found is None {
        lemma_absent_key(old_fps, old_index, old_keys, oti, key);
    }
    assert forall|e: int| 0 <= e < fps.len() implies {
        &&& (#[trigger] fps[e]).count as nat == key_count(keys, fps[e].key@)
        &&& fps[e].count <= ti
        &&& index.contains_key(fp_hash_spec(fps[e].key@))
        &&& index[fp_hash_spec(fps[e].key@)]@.contains(e as usize)
    } by {
        if e < old_fps.len() {
            let f = old_fps[e];
            let hh = fp_hash_spec(f.key@);
            assert(old_index.contains_key(hh));
            assert(old_index[hh]@.contains(e as usize));
            if tracks && found is None && hh == fp_hash_spec(key) {
                let jj = choose|jj: int| 0 <= jj < old_index[hh]@.len() && old_index[hh]@[jj] == e as usize;
                assert(index[hh]@[jj] == e as usize);
            }
            if tracks && found == Some(e as usize) {
                assert(f.key@ == key);
            } else {
                assert(fps[e] == f);
            }
        } else {
            assert(fps[e].key@ == key);
            assert(index[fp_hash_spec(key)]@.last() == e as usize);
        }
    }
    assert forall|e1: int, e2: int| 0 <= e1 < e2 < fps.len() implies (#[trigger] fps[e1]).key@ != (#[trigger] fps[e2]).key@ by {
        if e2 < old_fps.len() {
            assert(old_fps[e1].key@ != old_fps[e2].key@);
            if tracks {
                if let Some(e) = found {
                    if e1 == e {
                        assert(fps[e2] == old_fps[e2]);
                    } else if e2 == e {
                        assert(fps[e1] == old_fps[e1]);
                    } else {
                        assert(fps[e1] == old_fps[e1]);
                        assert(fps[e2] == old_fps[e2]);
                    }
                } else {
                    assert(fps[e1] == old_fps[e1]);
                    assert(fps[e2] == old_fps[e2]);
                }
            }
        } else {
            assert(fps[e1] == old_fps[e1]);
            assert(old_fps[e1].key@ != key);
        }
    }
    assert forall|i: int| 0 <= i < keys.len() implies entry_keys(fps).contains(#[trigger] keys[i]) by {
        if i < old_keys.len() {
            assert(keys[i] == old_keys[i]);
            assert(entry_keys(old_fps).contains(old_keys[i]));
            let e = choose|e: int| 0 <= e < old_fps.len() && entry_keys(old_fps)[e] == old_keys[i];
            assert(fps[e].key@ == old_fps[e].key@);
            assert(entry_keys(fps)[e] == old_keys[i]);
        } else {
            match found {
                Some(e) => {
                    assert(entry_keys(fps)[e as int] == key);
                },
                None => {
                    assert(entry_keys(fps)[old_fps.len() as int] == key);
                },
            }
        }
    }
    assert forall|hh: u64, j: int| #[trigger] index.contains_key(hh) && 0 <= j < index[hh]@.len() implies (
    #[trigger] index[hh]@[j]) < fps.len() by {
        if tracks && found is None && hh == fp_hash_spec(key) {
            if j < index[hh]@.len() - 1 {
                assert(old_index.contains_key(hh));
                assert(index[hh]@[j] == old_index[hh]@[j]);
            }
        } else {
            assert(old_index.contains_key(hh));
        }
    }
}

impl HeapScan {
    fn add_instance(&mut self, item: &HeapItem, cid: u64, fields: &Vec<u8>) -> (ok: bool)
        requires
            old(self).wf(),
            item is Instance,
            item->class_id == cid,
            item->fields@ == fields@,
        ensures
            final(self).wf(),
            final(self).id_bytes() == old(self).id_bytes(),
            final(self).texts() == old(self).texts(),
            final(self).classes() == old(self).classes(),
            ok == old(self).fits(*item),
            final(self).items() == if ok { old(self).items().push(*item) } else { old(self).items() },
    {
        let ghost old_items = self.items@;
        let ghost texts = self.names.texts();
        let ghost classes = self.names.classes();
        let ghost old_keys = self.keys();
        let ib = self.id_bytes;
        let n = fields.len() as u64;
        if n > u64::MAX - 2 * ib - 4 {
            return false;
        }
        let sz = n + 2 * ib + 4;
        if self.total_heap_size > u64::MAX - sz || self.total_instances == u64::MAX {
            return false;
        }
        let slot: Option<usize> = match self.slot_of.get(&cid) {
            Some(s) => Some(*s),
            None => None,
        };
        let is_string = match slot {
            Some(s) => self.slots[s].is_string,
            None => is_string_class(&self.names, cid),
        };
        let tracks = is_string && fields.len() > 0;
        let mut found: Option<usize> = None;
        let mut key: Vec<u8> = Vec::new();
        if tracks {
            let k: usize = if fields.len() < 24 { fields.len() } else { 24 };
            key = take_bytes(fields.as_slice(), k);
            proof {
                assert(key@ =~= fp_key(fields@));
            }
            found = self.find_fp(&key);
            match found {
                Some(e) => {
                    if self.fps[e].count > u64::MAX / 40 {
                        return false;
                    }
                },
                None => {
                    proof {
                        lemma_absent_key(self.fps@, self.fp_index@, old_keys, self.total_instances, key@);
                    }
                },
            }
        }
        assert(tracks ==> match found {
            Some(e) => e < self.fps@.len() && self.fps@[e as int].count <= u64::MAX / 40,
            None => true,
        });
        let ghost old_slots = self.slots@;
        let ghost old_slot_of = self.slot_of@;
        let ghost old_fps = self.fps@;
        let ghost old_index = self.fp_index@;
        let ghost oth = self.total_heap_size;
        let ghost oti = self.total_instances;
        let ghost k = key@;
        bump_slot(&mut self.slots, &mut self.slot_of, slot, cid, sz, is_string);
        if tracks {
            bump_fp(&mut self.fps, &mut self.fp_index, key, found);
        }
        self.total_heap_size = self.total_heap_size + sz;
        self.total_instances = self.total_instances + 1;
        self.items = Ghost(self.items@.push(*item));
        proof {
            lemma_push_instance(old_items, self.items@, *item, cid, fields@, ib as int, texts, classes);
            assert(self.slots@.len() == self.slots.len());
            lemma_slots_step(
                old_slots,
                old_slot_of,
                self.slots@,
                self.slot_of@,
                old_items,
                self.items@,
                *item,
                ib as int,
                texts,
                classes,
                oth,
                oti,
                sz,
                cid,
                slot,
                is_string,
            );
            assert(self.fps@.len() == self.fps.len());
            lemma_fps_step(old_fps, old_index, self.fps@, self.fp_index@, old_keys, self.keys(), oti, tracks, k, found);
        }
        true
    }
}

impl HeapScan {
    /// Counts one record of a heap dump segment.  Returns false, counting
    /// nothing, when a total would no longer fit in 64 bits.
    pub fn add_item(&mut self, item: &HeapItem) -> (ok: bool)
        requires
            old(self).wf(),
        ensures
            final(self).wf(),
            final(self).id_bytes() == old(self).id_bytes(),
            final(self).texts() == old(self).texts(),
            final(self).classes() == old(self).classes(),
            ok == old(self).fits(*item),
            final(self).items() == if ok { old(self).items().push(*item) } else { old(self).items() },
    {
        match item {
            HeapItem::GcRoot { kind, object_id } => self.add_root(item, *kind, *object_id),
            HeapItem::Instance { class_id, fields, .. } => self.add_instance(item, *class_id, fields),
            HeapItem::ObjectArray { num_elements, .. } => {
                let sz = (*num_elements as u64) * self.id_bytes + self.id_bytes + 12;
                self.add_array(item, sz)
            },
            HeapItem::PrimitiveArray { content_len, .. } => {
                let n = *content_len as u64;
                if n > u64::MAX - self.id_bytes - 9 {
                    return false;
                }
                let sz = n + self.id_bytes + 9;
                self.add_array(item, sz)
            },
            HeapItem::Other => {
                let ghost old_items = self.items@;
                self.items = Ghost(self.items@.push(*item));
                proof {
                    assert(self.items@.drop_last() =~= old_items);
                    self.lemma_push_other(old_items, *item);
                    assert(self.keys() == old(self).keys());
                    assert(self.entry_keys() == old(self).entry_keys());
                }
                true
            },
        }
    }
}

proof fn lemma_class_size_zero(items: Seq<HeapItem>, ib: int, cid: u64)
    requires
        scan_class_count(items, cid) == 0,
    ensures
        scan_class_size(items, ib, cid) == 0,
    decreases items.len(),
{
    if items.len() > 0 {
        lemma_class_size_zero(items.drop_last(), ib, cid);
    }
}


/// "fp:" and the first six bytes of `key` in hex.
fn fp_preview_string(key: &Vec<u8>) -> (s: String)
    ensures
        s@ == fp_preview(key@),
{
    let mut s = String::from_str("fp:");
    let m: usize = if key.len() < 6 { key.len() } else { 6 };
    let ghost shown = if key@.len() <= 6 { key@ } else { key@.take(6) };
    proof {
        reveal_strlit("fp:");
        assert(shown.len() == m);
        assert(shown.take(0) =~= Seq::<u8>::empty());
        assert(s@ =~= "fp:"@ + hex_bytes(shown.take(0)));
    }
    let mut i: usize = 0;
    while i < m
        invariant
            m <= key@.len(),
            shown.len() == m,
            forall|k: int| 0 <= k < m ==> shown[k] == key@[k],
            i <= m,
            s@ == "fp:"@ + hex_bytes(shown.take(i as int)),
        decreases m - i,
    {
        let b = key[i];
        push_char(&mut s, digit((b / 16) as u64));
        push_char(&mut s, digit((b % 16) as u64));
        proof {
            assert(shown.take(i + 1).drop_last() =~= shown.take(i as int));
            assert(shown.take(i + 1).last() == b);
            assert(hex_bytes(shown.take(i + 1)) == hex_bytes(shown.take(i as int)) + hex_byte(b));
            assert(s@ =~= "fp:"@ + hex_bytes(shown.take(i + 1)));
        }
        i = i + 1;
    }
    proof {
        assert(shown.take(m as int) =~= shown);
    }
    s
}

impl HeapScan {
    fn histogram(&self) -> (list: Vec<ClassEntry>)
        requires
            self.wf(),
        ensures
            exists|cs: Seq<u64>| histogram_ok(list@, cs, self.items(), self.id_bytes(), self.texts(), self.classes()),
    {
        let ghost items = self.items@;
        let ghost ib = self.id_bytes as int;
        let ghost texts = self.names.texts();
        let ghost classes = self.names.classes();
        let mut pairs: Vec<(u64, usize)> = Vec::new();
        let mut s: usize = 0;
        while s < self.slots.len()
            invariant
                s <= self.slots@.len(),
                pairs@.len() == s,
                forall|q: int| 0 <= q < s ==> #[trigger] pairs@[q] == (self.slots@[q].size, q as usize),
            decreases self.slots@.len() - s,
        {
            pairs.push((self.slots[s].size, s));
            s = s + 1;
        }
        let sorted = sort_pairs_desc(&pairs);
        proof {
            assert forall|q: int| 0 <= q < sorted@.len() implies pairs@.contains(#[trigger] sorted@[q]) by {
                assert(sorted@.to_multiset().count(sorted@[q]) > 0);
            }
        }
        let mut list: Vec<ClassEntry> = Vec::new();
        let ghost mut cs: Seq<u64> = Seq::empty();
        let mut q: usize = 0;
        while q < sorted.len()
            invariant
                self.wf(),
                items == self.items@,
                ib == self.id_bytes as int,
                texts == self.names.texts(),
                classes == self.names.classes(),
                pairs@.len() == self.slots@.len(),
                forall|q: int| 0 <= q < pairs@.len() ==> #[trigger] pairs@[q] == (self.slots@[q].size, q as usize),
                forall|qq: int| 0 <= qq < sorted@.len() ==> pairs@.contains(#[trigger] sorted@[qq]),
                pairs_sorted(sorted@),
                q <= sorted@.len(),
                list@.len() == q,
                cs.len() == q,
                forall|i: int| 0 <= i < q ==> cs[i] == self.slots@[(#[trigger] sorted@[i]).1 as int].cid,
                forall|i: int| 0 <= i < q ==> scan_class_count(items, #[trigger] cs[i]) > 0,
                forall|i: int|
                    0 <= i < q ==> {
                        &&& (#[trigger] list@[i]).class_name@ == parser_class_name(texts, classes, cs[i])
                        &&& list@[i].instance_count as nat == scan_class_count(items, cs[i])
                        &&& list@[i].shallow_size as int == scan_class_size(items, ib, cs[i])
                        &&& list@[i].shallow_size == sorted@[i].0
                    },
            decreases sorted@.len() - q,
        {
            let si = sorted[q].1;
            proof {
                let w = choose|w: int| 0 <= w < pairs@.len() && pairs@[w] == sorted@[q as int];
                assert(pairs@[w] == (self.slots@[w].size, w as usize));
                assert(si as int == w);
            }
            let sl = &self.slots[si];
            let name = resolve_name(sl.cid, &self.names.cls_name, &self.names.utf8);
            let ghost l0 = list@;
            let ghost cs0 = cs;
            list.push(ClassEntry { class_name: name, instance_count: sl.count, shallow_size: sl.size });
            proof {
                cs = cs.push(sl.cid);
                assert forall|i: int| 0 <= i < q + 1 implies scan_class_count(items, #[trigger] cs[i]) > 0 by {
                    if i < q {
                        assert(cs[i] == cs0[i]);
                    } else {
                        assert(self.slots@[si as int] == *sl);
                    }
                }
                assert forall|i: int| 0 <= i < q + 1 implies {
                    &&& (#[trigger] list@[i]).class_name@ == parser_class_name(texts, classes, cs[i])
                    &&& list@[i].instance_count as nat == scan_class_count(items, cs[i])
                    &&& list@[i].shallow_size as int == scan_class_size(items, ib, cs[i])
                    &&& list@[i].shallow_size == sorted@[i].0
                } by {
                    if i < q {
                        assert(list@[i] == l0[i]);
                        assert(cs[i] == cs0[i]);
                    } else {
                        assert(self.slots@[si as int] == *sl);
                        assert(cs[i] == sl.cid);
                        assert(sl.count > 0);
                        assert(sl.count as nat == scan_class_count(items, sl.cid));
                        assert(list@[i].class_name@ == parser_class_name(texts, classes, cs[i]));
                        assert(list@[i].shallow_size as int == scan_class_size(items, ib, cs[i]));
                        assert(list@[i].shallow_size == sorted@[i].0);
                    }
                }
                assert forall|i: int| 0 <= i < q + 1 implies cs[i] == self.slots@[(#[trigger] sorted@[i]).1 as int].cid by {
                    if i < q {
                        assert(cs[i] == cs0[i]);
                    }
                }
            }
            q = q + 1;
        }
        proof {
            assert(cs.no_duplicates()) by {
                assert forall|a: int, b: int| 0 <= a < b < cs.len() implies cs[a] != cs[b] by {
                    assert(pair_before(sorted@[a], sorted@[b]));
                    let wa = choose|w: int| 0 <= w < pairs@.len() && pairs@[w] == sorted@[a];
                    let wb = choose|w: int| 0 <= w < pairs@.len() && pairs@[w] == sorted@[b];
                    assert(pairs@[wa] == (self.slots@[wa].size, wa as usize));
                    assert(pairs@[wb] == (self.slots@[wb].size, wb as usize));
                    assert(self.slot_of@.contains_key(self.slots@[wa].cid));
                    assert(self.slot_of@.contains_key(self.slots@[wb].cid));
                }
            }
            assert forall|cid: u64| #[trigger] scan_class_count(items, cid) > 0 implies cs.contains(cid) by {
                assert(self.slot_of@.contains_key(cid));
                let sidx = self.slot_of@[cid] as int;
                assert(self.slots@[sidx].cid == cid);
                assert(pairs@[sidx] == (self.slots@[sidx].size, sidx as usize));
                assert(pairs@.contains(pairs@[sidx]));
                assert(pairs@.to_multiset().count(pairs@[sidx]) > 0);
                assert(sorted@.contains(pairs@[sidx]));
                let qq = choose|qq: int| 0 <= qq < sorted@.len() && sorted@[qq] == pairs@[sidx];
                assert(cs[qq] == cid);
            }
            assert forall|i: int, j: int| 0 <= i < j < list@.len() implies (#[trigger] list@[i]).shallow_size >= (#[trigger] list@[j]).shallow_size by {
                assert(pair_before(sorted@[i], sorted@[j]));
            }
            assert(histogram_ok(list@, cs, items, ib, texts, classes));
            assert(histogram_ok(list@, cs, self.items(), self.id_bytes(), self.texts(), self.classes()));
        }
        list
    }
}


impl HeapScan {
    fn duplicates(&self) -> (list: Vec<DuplicateString>)
        requires
            self.wf(),
        ensures
            exists|ks: Seq<Seq<u8>>| duplicates_ok(list@, ks, self.keys()),
    {
        let ghost keys = self.keys();
        let mut pairs: Vec<(u64, usize)> = Vec::new();
        let mut e: usize = 0;
        while e < self.fps.len()
            invariant
                self.wf(),
                keys == self.keys(),
                e <= self.fps@.len(),
                forall|q: int| 0 <= q < pairs@.len() ==> (#[trigger] pairs@[q]).1 < e,
                forall|a: int, b: int| 0 <= a < b < pairs@.len() ==> (#[trigger] pairs@[a]).1 < (#[trigger] pairs@[b]).1,
                forall|q: int|
                    0 <= q < pairs@.len() ==> self.fps@[(#[trigger] pairs@[q]).1 as int].count > 1
                        && pairs@[q].0 as int == (self.fps@[pairs@[q].1 as int].count - 1) * 40,
                forall|ee: int|
                    0 <= ee < e && #[trigger] self.fps@[ee].count > 1 ==> pairs@.contains(
                        (((self.fps@[ee].count - 1) * 40) as u64, ee as usize),
                    ),
            decreases self.fps@.len() - e,
        {
            let c = self.fps[e].count;
            if c > 1 {
                let ghost p0 = pairs@;
                proof {
                    assert((c - 1) * 40 <= u64::MAX);
                }
                pairs.push(((c - 1) * 40, e));
                proof {
                    assert forall|ee: int| 0 <= ee < e + 1 && #[trigger] self.fps@[ee].count > 1 implies pairs@.contains(
                        (((self.fps@[ee].count - 1) * 40) as u64, ee as usize),
                    ) by {
                        if ee < e {
                            let q = choose|q: int| 0 <= q < p0.len() && p0[q] == (((self.fps@[ee].count - 1) * 40) as u64, ee as usize);
                            assert(pairs@[q] == p0[q]);
                        } else {
                            assert(pairs@[p0.len() as int] == (((c - 1) * 40) as u64, e));
                        }
                    }
                }
            }
            e = e + 1;
        }
        proof {
            assert forall|a: int, b: int| 0 <= a < b < pairs@.len() implies (#[trigger] pairs@[a]).1 != (#[trigger] pairs@[b]).1 by {}
        }
        let sorted = sort_pairs_desc(&pairs);
        proof {
            assert forall|q: int| 0 <= q < sorted@.len() implies pairs@.contains(#[trigger] sorted@[q]) by {
                assert(sorted@.to_multiset().count(sorted@[q]) > 0);
            }
        }
        let m: usize = if sorted.len() < 200 { sorted.len() } else { 200 };
        let mut list: Vec<DuplicateString> = Vec::new();
        let ghost mut ks: Seq<Seq<u8>> = Seq::empty();
        let mut q: usize = 0;
        while q < m
            invariant
                self.wf(),
                keys == self.keys(),
                m <= sorted@.len(),
                m <= 200,
                q <= m,
                pairs_sorted(sorted@),
                forall|qq: int| 0 <= qq < sorted@.len() ==> pairs@.contains(#[trigger] sorted@[qq]),
                forall|qq: int|
                    0 <= qq < pairs@.len() ==> ((#[trigger] pairs@[qq]).1 as int) < self.fps@.len() && self.fps@[pairs@[qq].1 as int].count > 1
                        && pairs@[qq].0 as int == (self.fps@[pairs@[qq].1 as int].count - 1) * 40,
                list@.len() == q,
                ks.len() == q,
                forall|i: int| 0 <= i < q ==> ks[i] == self.fps@[(#[trigger] sorted@[i]).1 as int].key@,
                forall|i: int| 0 <= i < q ==> key_count(keys, #[trigger] ks[i]) > 1,
                forall|i: int|
                    0 <= i < q ==> {
                        &&& (#[trigger] list@[i]).count as nat == key_count(keys, ks[i])
                        &&& list@[i].wasted_bytes as int == (key_count(keys, ks[i]) - 1) * 40
                        &&& list@[i].value_preview@ == fp_preview(ks[i])
                        &&& list@[i].wasted_bytes == sorted@[i].0
                    },
            decreases m - q,
        {
            let (w, ei) = sorted[q];
            proof {
                assert(pairs@.contains(sorted@[q as int]));
                let qq = choose|qq: int| 0 <= qq < pairs@.len() && pairs@[qq] == sorted@[q as int];
                assert(pairs@[qq].1 == ei);
            }
            let f = &self.fps[ei];
            proof {
                assert(f.count as nat == key_count(keys, f.key@));
            }
            let preview = fp_preview_string(&f.key);
            let ghost l0 = list@;
            let ghost ks0 = ks;
            list.push(DuplicateString { value_preview: preview, count: f.count, wasted_bytes: w });
            proof {
                ks = ks.push(f.key@);
                assert forall|i: int| 0 <= i < q + 1 implies ks[i] == self.fps@[(#[trigger] sorted@[i]).1 as int].key@ by {
                    if i < q {
                        assert(ks[i] == ks0[i]);
                    }
                }
                assert forall|i: int| 0 <= i < q + 1 implies key_count(keys, #[trigger] ks[i]) > 1 by {
                    if i < q {
                        assert(ks[i] == ks0[i]);
                    }
                }
                assert forall|i: int| 0 <= i < q + 1 implies {
                    &&& (#[trigger] list@[i]).count as nat == key_count(keys, ks[i])
                    &&& list@[i].wasted_bytes as int == (key_count(keys, ks[i]) - 1) * 40
                    &&& list@[i].value_preview@ == fp_preview(ks[i])
                    &&& list@[i].wasted_bytes == sorted@[i].0
                } by {
                    if i < q {
                        assert(list@[i] == l0[i]);
                        assert(ks[i] == ks0[i]);
                    }
                }
            }
            q = q + 1;
        }
        proof {
            assert(ks.no_duplicates()) by {
                assert forall|a: int, b: int| 0 <= a < b < ks.len() implies ks[a] != ks[b] by {
                    assert(pair_before(sorted@[a], sorted@[b]));
                    assert(pairs@.contains(sorted@[a]));
                    assert(pairs@.contains(sorted@[b]));
                    let qa = choose|qa: int| 0 <= qa < pairs@.len() && pairs@[qa] == sorted@[a];
                    let qb = choose|qb: int| 0 <= qb < pairs@.len() && pairs@[qb] == sorted@[b];
                    let ea = sorted@[a].1 as int;
                    let eb = sorted@[b].1 as int;
                    assert(ea != eb);
                    if ea < eb {
                        assert(self.fps@[ea].key@ != self.fps@[eb].key@);
                    } else {
                        assert(self.fps@[eb].key@ != self.fps@[ea].key@);
                    }
                }
            }
            assert forall|i: int, j: int| 0 <= i < j < list@.len() implies (#[trigger] list@[i]).wasted_bytes >= (#[trigger] list@[j]).wasted_bytes by {
                assert(pair_before(sorted@[i], sorted@[j]));
            }
            assert forall|k: Seq<u8>| #[trigger] key_count(keys, k) > 1 && !ks.contains(k) implies {
                &&& list@.len() == 200
                &&& forall|i: int| 0 <= i < list@.len() ==> (key_count(keys, k) - 1) * 40 <= (#[trigger] list@[i]).wasted_bytes
            } by {
                lemma_key_count_contains(keys, k);
                let i0 = choose|i0: int| 0 <= i0 < keys.len() && keys[i0] == k;
                assert(entry_keys(self.fps@).contains(keys[i0]));
                let ec = choose|ec: int| 0 <= ec < self.fps@.len() && entry_keys(self.fps@)[ec] == keys[i0];
                assert(self.fps@[ec].key@ == k);
                assert(self.fps@[ec].count as nat == key_count(keys, k));
                let pc = (((self.fps@[ec].count - 1) * 40) as u64, ec as usize);
                assert(pairs@.contains(pc));
                assert(pairs@.to_multiset().count(pc) > 0);
                assert(sorted@.contains(pc));
                let qc = choose|qc: int| 0 <= qc < sorted@.len() && sorted@[qc] == pc;
                if qc < m {
                    assert(ks[qc] == k);
                }
                assert forall|i: int| 0 <= i < list@.len() implies (key_count(keys, k) - 1) * 40 <= (#[trigger] list@[i]).wasted_bytes by {
                    assert(pair_before(sorted@[i], sorted@[qc]));
                }
            }
            assert(duplicates_ok(list@, ks, keys));
        }
        list
    }
}


/// `a` is the analysis of the heap dump records `items`, read from a dump
/// whose object ids take `id_bytes` bytes and whose class names are
/// `texts`/`classes`: the summary names the file `file_path` of
/// `file_size_bytes` bytes and the version `label` (trailing NULs removed),
/// and holds the totals; the GC roots are the first 2000 roots; the histogram
/// and the duplicated strings are as `histogram_ok` and `duplicates_ok` say.
pub open spec fn analysis_of(
    a: HprofAnalysis,
    items: Seq<HeapItem>,
    id_bytes: int,
    texts: Map<u64, Seq<char>>,
    classes: Map<u64, u64>,
    file_path: String,
    file_size_bytes: u64,
    label: Seq<char>,
) -> bool {
    &&& a.summary.file_path == file_path
    &&& a.summary.file_size_bytes == file_size_bytes
    &&& a.summary.hprof_version@ == trim_nuls(label)
    &&& a.summary.total_instances as nat == instance_total(items)
    &&& a.summary.total_classes as nat == classes.dom().len()
    &&& a.summary.total_arrays as nat == array_total(items)
    &&& a.summary.total_gc_roots as nat == root_list(items).len()
    &&& a.summary.total_heap_size as int == heap_total(items, id_bytes)
    &&& roots_ok(a.gc_roots@, root_list(items))
    &&& exists|cs: Seq<u64>| histogram_ok(a.class_histogram@, cs, items, id_bytes, texts, classes)
    &&& exists|ks: Seq<Seq<u8>>| duplicates_ok(a.duplicate_strings@, ks, string_keys(items, texts, classes))
}

impl HeapScan {
    /// The statistics of the records counted so far.  `file_path` and
    /// `file_size_bytes` describe the dump file and `label` is the version
    /// label of its header (`None` when it is not valid UTF-8).  At most the
    /// first 2000 GC roots are kept, and at most 200 duplicated strings.
    pub fn finish(self, file_path: String, file_size_bytes: u64, label: Option<&str>) -> (a: HprofAnalysis)
        requires
            self.wf(),
        ensures
            analysis_of(
                a,
                self.items(),
                self.id_bytes(),
                self.texts(),
                self.classes(),
                file_path,
                file_size_bytes,
                match label {
                    Some(l) => l@,
                    None => "unknown"@,
                },
            ),
    {
        let class_histogram = self.histogram();
        let duplicate_strings = self.duplicates();
        let hprof_version = hprof_version(label);
        let total_classes = self.names.cls_name.len() as u64;
        let summary = HeapSummary {
            file_path,
            file_size_bytes,
            hprof_version,
            total_instances: self.total_instances,
            total_classes,
            total_arrays: self.total_arrays,
            total_gc_roots: self.total_gc_roots,
            total_heap_size: self.total_heap_size,
        };
        let ghost cs = choose|cs: Seq<u64>| histogram_ok(class_histogram@, cs, self.items(), self.id_bytes(), self.texts(), self.classes());
        let ghost ks = choose|ks: Seq<Seq<u8>>| duplicates_ok(duplicate_strings@, ks, self.keys());
        let a = HprofAnalysis { summary, class_histogram, gc_roots: self.roots, duplicate_strings };
        assert(histogram_ok(a.class_histogram@, cs, self.items(), self.id_bytes(), self.texts(), self.classes()));
        assert(duplicates_ok(a.duplicate_strings@, ks, string_keys(self.items(), self.texts(), self.classes())));
        a
    }
}


/// Human-readable byte count, rendered as in the tables (see `ui::fmt_bytes`).
pub fn fmt_bytes(bytes: u64) -> (s: String)
    ensures
        s@ == fmt_bytes_spec(bytes),
{
    crate::ui::fmt_bytes(bytes)
}


// ── Laws ────────────────────────────────────────────────────────────────────

/// Sum of the instance counts of the classes `cs`.
pub open spec fn count_sum(items: Seq<HeapItem>, cs: Seq<u64>) -> nat
    decreases cs.len(),
{
    if cs.len() == 0 {
        0
    } else {
        count_sum(items, cs.drop_last()) + scan_class_count(items, cs.last())
    }
}

/// Sum of the instance counts of histogram rows.
pub open spec fn row_count_sum(rows: Seq<ClassEntry>) -> nat
    decreases rows.len(),
{
    if rows.len() == 0 {
        0
    } else {
        row_count_sum(rows.drop_last()) + rows.last().instance_count as nat
    }
}

proof fn lemma_count_sum_same(a: Seq<HeapItem>, b: Seq<HeapItem>, cs: Seq<u64>)
    requires
        forall|c: u64| #[trigger] scan_class_count(a, c) == scan_class_count(b, c),
    ensures
        count_sum(a, cs) == count_sum(b, cs),
    decreases cs.len(),
{
    if cs.len() > 0 {
        lemma_count_sum_same(a, b, cs.drop_last());
    }
}

proof fn lemma_count_sum_bump(a: Seq<HeapItem>, b: Seq<HeapItem>, cs: Seq<u64>, cid: u64)
    requires
        forall|c: u64| #[trigger] scan_class_count(b, c) == scan_class_count(a, c) + if c == cid { 1nat } else { 0nat },
        cs.no_duplicates(),
    ensures
        count_sum(b, cs) == count_sum(a, cs) + if cs.contains(cid) { 1nat } else { 0nat },
    decreases cs.len(),
{
    if cs.len() > 0 {
        let init = cs.drop_last();
        assert(init.no_duplicates());
        lemma_count_sum_bump(a, b, init, cid);
        if cs.last() == cid {
            assert(!init.contains(cid)) by {
                if init.contains(cid) {
                    let i = choose|i: int| 0 <= i < init.len() && init[i] == cid;
                    assert(cs[i] == cs[cs.len() - 1]);
                }
            }
        } else {
            assert(cs.contains(cid) == init.contains(cid)) by {
                if cs.contains(cid) {
                    let i = choose|i: int| 0 <= i < cs.len() && cs[i] == cid;
                    assert(init[i] == cid);
                }
                if init.contains(cid) {
                    let i = choose|i: int| 0 <= i < init.len() && init[i] == cid;
                    assert(cs[i] == cid);
                }
            }
        }
    }
}

proof fn lemma_count_sum_items(items: Seq<HeapItem>, cs: Seq<u64>)
    requires
        cs.no_duplicates(),
        forall|cid: u64| #[trigger] scan_class_count(items, cid) > 0 ==> cs.contains(cid),
    ensures
        count_sum(items, cs) == instance_total(items),
    decreases items.len(),
{
    if items.len() == 0 {
        lemma_count_sum_zero(items, cs);
    } else {
        let prev = items.drop_last();
        let x = items.last();
        assert forall|c: u64| #[trigger] scan_class_count(prev, c) > 0 implies cs.contains(c) by {
            assert(scan_class_count(items, c) >= scan_class_count(prev, c));
        }
        lemma_count_sum_items(prev, cs);
        match x {
            HeapItem::Instance { class_id, .. } => {
                assert(scan_class_count(items, class_id) > 0);
                lemma_count_sum_bump(prev, items, cs, class_id);
            },
            _ => {
                lemma_count_sum_same(items, prev, cs);
            },
        }
    }
}

proof fn lemma_count_sum_zero(items: Seq<HeapItem>, cs: Seq<u64>)
    requires
        items.len() == 0,
    ensures
        count_sum(items, cs) == 0,
    decreases cs.len(),
{
    if cs.len() > 0 {
        lemma_count_sum_zero(items, cs.drop_last());
    }
}

proof fn lemma_row_sum(rows: Seq<ClassEntry>, cs: Seq<u64>, items: Seq<HeapItem>)
    requires
        rows.len() == cs.len(),
        forall|i: int| 0 <= i < rows.len() ==> (#[trigger] rows[i]).instance_count as nat == scan_class_count(items, cs[i]),
    ensures
        row_count_sum(rows) == count_sum(items, cs),
    decreases rows.len(),
{
    if rows.len() > 0 {
        lemma_row_sum(rows.drop_last(), cs.drop_last(), items);
        assert(rows.last() == rows[rows.len() - 1]);
    }
}

/// Every instance is counted in exactly one histogram row: the rows' instance
/// counts add up to the number of instances.
pub proof fn lemma_histogram_counts_instances(
    rows: Seq<ClassEntry>,
    cs: Seq<u64>,
    items: Seq<HeapItem>,
    ib: int,
    texts: Map<u64, Seq<char>>,
    classes: Map<u64, u64>,
)
    requires
        histogram_ok(rows, cs, items, ib, texts, classes),
    ensures
        row_count_sum(rows) == instance_total(items),
{
    lemma_row_sum(rows, cs, items);
    lemma_count_sum_items(items, cs);
}

/// Bytes of all instances.
pub open spec fn instance_bytes(items: Seq<HeapItem>, ib: int) -> int
    decreases items.len(),
{
    if items.len() == 0 {
        0
    } else {
        instance_bytes(items.drop_last(), ib) + if items.last() is Instance { item_size(items.last(), ib) } else { 0 }
    }
}

/// Sum of the instance bytes of the classes `cs`.
pub open spec fn size_sum(items: Seq<HeapItem>, ib: int, cs: Seq<u64>) -> int
    decreases cs.len(),
{
    if cs.len() == 0 {
        0
    } else {
        size_sum(items, ib, cs.drop_last()) + scan_class_size(items, ib, cs.last())
    }
}

/// Sum of the shallow sizes of histogram rows.
pub open spec fn row_size_sum(rows: Seq<ClassEntry>) -> int
    decreases rows.len(),
{
    if rows.len() == 0 {
        0
    } else {
        row_size_sum(rows.drop_last()) + rows.last().shallow_size as int
    }
}

proof fn lemma_size_sum_same(a: Seq<HeapItem>, b: Seq<HeapItem>, ib: int, cs: Seq<u64>)
    requires
        forall|c: u64| #[trigger] scan_class_size(a, ib, c) == scan_class_size(b, ib, c),
    ensures
        size_sum(a, ib, cs) == size_sum(b, ib, cs),
    decreases cs.len(),
{
    if cs.len() > 0 {
        lemma_size_sum_same(a, b, ib, cs.drop_last());
    }
}

proof fn lemma_size_sum_bump(a: Seq<HeapItem>, b: Seq<HeapItem>, ib: int, cs: Seq<u64>, cid: u64, d: int)
    requires
        forall|c: u64| #[trigger] scan_class_size(b, ib, c) == scan_class_size(a, ib, c) + if c == cid { d } else { 0 },
        cs.no_duplicates(),
    ensures
        size_sum(b, ib, cs) == size_sum(a, ib, cs) + if cs.contains(cid) { d } else { 0 },
    decreases cs.len(),
{
    if cs.len() > 0 {
        let init = cs.drop_last();
        assert(init.no_duplicates());
        lemma_size_sum_bump(a, b, ib, init, cid, d);
        if cs.last() == cid {
            assert(!init.contains(cid)) by {
                if init.contains(cid) {
                    let i = choose|i: int| 0 <= i < init.len() && init[i] == cid;
                    assert(cs[i] == cs[cs.len() - 1]);
                }
            }
        } else {
            assert(cs.contains(cid) == init.contains(cid)) by {
                if cs.contains(cid) {
                    let i = choose|i: int| 0 <= i < cs.len() && cs[i] == cid;
                    assert(init[i] == cid);
                }
                if init.contains(cid) {
                    let i = choose|i: int| 0 <= i < init.len() && init[i] == cid;
                    assert(cs[i] == cid);
                }
            }
        }
    }
}

proof fn lemma_size_sum_zero(items: Seq<HeapItem>, ib: int, cs: Seq<u64>)
    requires
        items.len() == 0,
    ensures
        size_sum(items, ib, cs) == 0,
    decreases cs.len(),
{
    if cs.len() > 0 {
        lemma_size_sum_zero(items, ib, cs.drop_last());
    }
}

proof fn lemma_size_sum_items(items: Seq<HeapItem>, ib: int, cs: Seq<u64>)
    requires
        cs.no_duplicates(),
        forall|cid: u64| #[trigger] scan_class_count(items, cid) > 0 ==> cs.contains(cid),
    ensures
        size_sum(items, ib, cs) == instance_bytes(items, ib),
    decreases items.len(),
{
    if items.len() == 0 {
        lemma_size_sum_zero(items, ib, cs);
    } else {
        let prev = items.drop_last();
        let x = items.last();
        assert forall|c: u64| #[trigger] scan_class_count(prev, c) > 0 implies cs.contains(c) by {
            assert(scan_class_count(items, c) >= scan_class_count(prev, c));
        }
        lemma_size_sum_items(prev, ib, cs);
        match x {
            HeapItem::Instance { class_id, .. } => {
                assert(scan_class_count(items, class_id) > 0);
                lemma_size_sum_bump(prev, items, ib, cs, class_id, item_size(x, ib));
            },
            _ => {
                lemma_size_sum_same(items, prev, ib, cs);
            },
        }
    }
}

proof fn lemma_row_size_sum(rows: Seq<ClassEntry>, cs: Seq<u64>, items: Seq<HeapItem>, ib: int)
    requires
        rows.len() == cs.len(),
        forall|i: int| 0 <= i < rows.len() ==> (#[trigger] rows[i]).shallow_size as int == scan_class_size(items, ib, cs[i]),
    ensures
        row_size_sum(rows) == size_sum(items, ib, cs),
    decreases rows.len(),
{
    if rows.len() > 0 {
        lemma_row_size_sum(rows.drop_last(), cs.drop_last(), items, ib);
        assert(rows.last() == rows[rows.len() - 1]);
    }
}

/// Every instance's bytes are counted in exactly one histogram row: the rows'
/// shallow sizes add up to the bytes of all instances.
pub proof fn lemma_histogram_sizes_instances(
    rows: Seq<ClassEntry>,
    cs: Seq<u64>,
    items: Seq<HeapItem>,
    ib: int,
    texts: Map<u64, Seq<char>>,
    classes: Map<u64, u64>,
)
    requires
        histogram_ok(rows, cs, items, ib, texts, classes),
    ensures
        row_size_sum(rows) == instance_bytes(items, ib),
{
    lemma_row_size_sum(rows, cs, items, ib);
    lemma_size_sum_items(items, ib, cs);
}

/// The histogram holds every class with instances exactly once, whichever
/// order equal sizes came in: two valid histograms list the same classes.
pub proof fn lemma_histogram_classes(
    rows: Seq<ClassEntry>,
    cs: Seq<u64>,
    items: Seq<HeapItem>,
    ib: int,
    texts: Map<u64, Seq<char>>,
    classes: Map<u64, u64>,
    cid: u64,
)
    requires
        histogram_ok(rows, cs, items, ib, texts, classes),
    ensures
        cs.contains(cid) <==> scan_class_count(items, cid) > 0,
{
    if cs.contains(cid) {
        let i = choose|i: int| 0 <= i < cs.len() && cs[i] == cid;
        assert(scan_class_count(items, cs[i]) > 0);
    }
}

} // verus!

verus! {

// ── Reading a dump ───────────────────────────────────────────────────────────

/// Reads a heap dump held in `bytes` and gathers its statistics: totals,
/// GC roots, the class histogram and duplicated strings (see `HeapScan`).
/// `file_path` and `file_size_bytes` describe the file the bytes came from.
///
/// The analysis is that of the sub-records of every heap dump segment
/// (`dump_items`), with the class names of the dump's UTF-8 and LOAD CLASS
/// records, its id size and its version label.  It fails when the header is
/// incomplete, and when a total does not fit in 64 bits (or, on a machine
/// whose `usize` is narrower than 35 bits, when a primitive array's byte
/// length does not fit in `usize`).
pub fn analyze_hprof(bytes: &[u8], file_path: String, file_size_bytes: u64) -> (r: Result<HprofAnalysis, String>)
    requires
        dump_readable(bytes@),
    ensures
        !header_complete(bytes@) ==> (r matches Err(e) && starts_with(e@, "HPROF parse failed: "@)),
        header_complete(bytes@) ==> match r {
            Ok(a) => analysis_of(
                a,
                dump_items(bytes@),
                header_id_field(bytes@) as int,
                dump_texts(bytes@),
                dump_classes(bytes@),
                file_path,
                file_size_bytes,
                label_text(bytes@),
            ),
            Err(e) => e@ == "heap totals do not fit in 64 bits"@ && (!items_fit(
                dump_items(bytes@),
                header_id_field(bytes@) as int,
                dump_texts(bytes@),
                dump_classes(bytes@),
            ) || usize::MAX < 8 * u32::MAX),
        },
{
    let h = match parse_dump(bytes) {
        Ok(h) => h,
        Err(e) => return Err(parse_failure("HPROF parse failed: ", e)),
    };
    let ghost src = bytes@;
    let ghost wn = header_id_field(src);
    let ghost all_frames = dump_frames(src);
    let ghost all = dump_items(src);
    let ghost texts = dump_texts(src);
    let ghost classes = dump_classes(src);
    let size = dump_id_size(&h);
    let w = id_size_bytes(size);
    let names = dump_class_names(&h, bytes.len());
    let mut scan = HeapScan::new(names, w);
    let mut recs = dump_records(&h);
    let mut fuel: usize = bytes.len();
    let mut stop = false;
    let ghost mut done: Seq<(u8, Seq<u8>)> = Seq::empty();
    proof {
        crate::dump::lemma_header_within(src);
        assert(all_frames =~= done + frames(records_left(recs)));
        crate::dump::lemma_frame_items_append(done, frames(records_left(recs)), wn);
    }
    while fuel > 0 && !stop
        invariant
            src == bytes@,
            wn == header_id_field(src),
            header_complete(src),
            w == wn,
            w == 4 || w == 8,
            id_size_num(size) == wn,
            all == dump_items(src),
            all_frames == dump_frames(src),
            texts == dump_texts(src),
            classes == dump_classes(src),
            scan.wf(),
            scan.id_bytes() == wn,
            scan.texts() == texts,
            scan.classes() == classes,
            records_left(recs).len() <= fuel,
            all_frames == done + frames(records_left(recs)),
            all == frame_items(done, wn) + frame_items(frames(records_left(recs)), wn),
            stop ==> frames(records_left(recs)).len() == 0,
            tags_known(records_left(recs)),
            records_width(recs) == wn,
            segments_ok(all_frames, wn),
            scan.items() == frame_items(done, wn),
        decreases fuel + if stop { 0int } else { 1int },
    {
        let ghost rest = records_left(recs);
        let rec = match next_record(&mut recs) {
            Some(r) => r,
            None => {
                stop = true;
                continue;
            },
        };
        fuel = fuel - 1;
        let ghost f = (record_tag(rec), record_body(rec));
        let ghost later = frames(records_left(recs));
        let ghost d1 = done.push(f);
        proof {
            crate::dump::lemma_frames_step(rest);
            assert(all_frames =~= d1 + later);
            crate::dump::lemma_frame_items_append(d1, later, wn);
            assert(d1.drop_last() =~= done);
            assert(d1.last() == f);
        }
        if record_kind(&rec) == RecordKind::HeapDump {
            let seg = match record_segment(&rec) {
                Some(s) => s,
                None => {
                    proof {
                        assert(false);
                    }
                    return Err(String::from_str("heap totals do not fit in 64 bits"));
                },
            };
            proof {
                assert(all_frames[done.len() as int] == f);
                assert(is_segment_tag(f.0));
            }
            let mut subs = segment_sub_records(&seg, size);
            let ghost items_seg = segment_items(f.1, wn);
            let ghost base = frame_items(done, wn);
            let mut inner_stop = false;
            let ghost mut k: int = 0;
            let ghost f0 = fuel;
            proof {
                assert(frame_items(d1, wn) == base + items_seg);
                assert(items_seg.skip(0) =~= items_seg);
                assert(items_seg.take(0) =~= Seq::<HeapItem>::empty());
                assert(scan.items() =~= base + items_seg.take(0));
            }
            while fuel > 0 && !inner_stop
                invariant
                    src == bytes@,
                    wn == header_id_field(src),
                    header_complete(src),
                    w == wn,
                    w == 4 || w == 8,
                    id_size_num(size) == wn,
                    all == base + items_seg + frame_items(later, wn),
                    all == dump_items(src),
                    texts == dump_texts(src),
                    classes == dump_classes(src),
                    scan.wf(),
                    scan.id_bytes() == wn,
                    scan.texts() == texts,
                    scan.classes() == classes,
                    0 <= k <= items_seg.len(),
                    sub_records_left(subs) == items_seg.skip(k),
                    sub_records_width(subs) == wn,
                    segment_readable(sub_bytes_left(subs), wn),
                    records_left(recs).len() + sub_records_left(subs).len() <= fuel,
                    inner_stop ==> sub_records_left(subs).len() == 0,
                    scan.items() == base + items_seg.take(k),
                    fuel <= f0,
                decreases fuel + if inner_stop { 0int } else { 1int },
            {
                let ghost left_bytes = sub_bytes_left(subs);
                let sub = match next_sub_record(&mut subs) {
                    Some(s) => s,
                    None => {
                        inner_stop = true;
                        continue;
                    },
                };
                fuel = fuel - 1;
                let item = match sub_record_item(&sub) {
                    Some(i) => i,
                    None => return Err(String::from_str("heap totals do not fit in 64 bits")),
                };
                proof {
                    assert(item == items_seg[k]);
                    let p = base.len() + k;
                    assert(all.take(p) =~= scan.items());
                    assert(all[p] == item);
                }
                if !scan.add_item(&item) {
                    proof {
                        let p = base.len() + k;
                        assert(!item_fits(all.take(p), wn as int, texts, classes, all[p]));
                        assert(!items_fit(all, wn as int, texts, classes));
                    }
                    return Err(String::from_str("heap totals do not fit in 64 bits"));
                }
                proof {
                    assert(items_seg.take(k + 1) =~= items_seg.take(k).push(items_seg[k]));
                    assert(items_seg.skip(k).drop_first() =~= items_seg.skip(k + 1));
                    k = k + 1;
                }
            }
            proof {
                assert(k == items_seg.len());
                assert(items_seg.take(k) =~= items_seg);
            }
        } else {
            proof {
                assert(frame_items(d1, wn) == frame_items(done, wn) + Seq::<HeapItem>::empty());
                assert(frame_items(done, wn) + Seq::<HeapItem>::empty() =~= frame_items(done, wn));
            }
        }
        proof {
            done = d1;
        }
    }
    proof {
        assert(frames(records_left(recs)) =~= Seq::<(u8, Seq<u8>)>::empty());
        assert(frame_items(frames(records_left(recs)), wn) =~= Seq::<HeapItem>::empty());
        assert(all =~= scan.items());
    }
    let label = dump_label(&h);
    let ghost path = file_path;
    let a = scan.finish(file_path, file_size_bytes, label);
    proof {
        assert(label_text(src) == match label {
            Some(l) => l@,
            None => "unknown"@,
        });
    }
    Ok(a)
}

} // verus!
