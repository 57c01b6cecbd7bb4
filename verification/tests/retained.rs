use hprof_tui::heap::{HeapItem, PrimitiveKind};
use hprof_tui::names::ClassNames;
use hprof_tui::retained::{primitive_array_cid, scan_refs, synthetic_name, GraphBuilder, RetainedAnalysis};

fn names() -> ClassNames {
    let mut n = ClassNames::new();
    n.add_utf8(1, b"com/app/Owner");
    n.add_utf8(2, b"com/app/Child");
    n.add_load_class(100, 1);
    n.add_load_class(200, 2);
    n
}

/// A owns B; B and D both point at the byte array C, which no one owns alone.
fn sample() -> Vec<HeapItem> {
    vec![
        HeapItem::Instance { object_id: 1, class_id: 100, fields: vec![0, 0, 0, 2] },
        HeapItem::Instance { object_id: 2, class_id: 200, fields: vec![0, 0, 0, 3] },
        HeapItem::PrimitiveArray { object_id: 3, element_kind: PrimitiveKind::Byte, content_len: 10 },
        HeapItem::Instance { object_id: 4, class_id: 200, fields: vec![0, 0, 0, 3] },
        HeapItem::Other,
    ]
}

fn analyse(items: &[HeapItem]) -> RetainedAnalysis {
    let mut b = GraphBuilder::new();
    for it in items {
        assert!(b.add_item(it, 4));
    }
    b.finish(&names())
}

#[test]
fn scan_refs_four_byte_ids() {
    assert_eq!(scan_refs(&[0, 0, 0, 5, 0, 0, 0, 0, 0, 0, 1, 0, 9], 4), vec![5, 256]);
    assert_eq!(scan_refs(&[1, 2, 3], 4), Vec::<u64>::new());
}

#[test]
fn scan_refs_eight_byte_ids() {
    let mut f = vec![0u8; 8];
    f[7] = 7;
    f.extend_from_slice(&[0xff; 8]);
    f.extend_from_slice(&[0; 8]);
    assert_eq!(scan_refs(&f, 8), vec![7, u64::MAX]);
}

#[test]
fn synthetic_names() {
    assert_eq!(synthetic_name(primitive_array_cid(PrimitiveKind::Byte)), "byte[]");
    assert_eq!(synthetic_name(primitive_array_cid(PrimitiveKind::Long)), "long[]");
    assert_eq!(synthetic_name(primitive_array_cid(PrimitiveKind::Boolean)), "boolean[]");
    assert_eq!(synthetic_name(0x2a), "?@0x2a");
    assert_eq!(primitive_array_cid(PrimitiveKind::Char), 0xFFFF_FFFF_0000_0002);
}

#[test]
fn retained_sizes_per_class() {
    let r = analyse(&sample());
    assert!(!r.truncated);
    assert_eq!(r.entries.len(), 3);
    let owner = r.entries.iter().find(|e| e.class_name == "com.app.Owner").unwrap();
    assert_eq!(owner.instance_count, 1);
    assert_eq!(owner.shallow_size, 16);
    assert_eq!(owner.retained_size, 32);
    assert_eq!(owner.avg_retained, 32);
    assert_eq!(owner.top_contributors.len(), 1);
    assert_eq!(owner.top_contributors[0].class_name, "com.app.Child");
    assert_eq!(owner.top_contributors[0].total_bytes, 16);
    assert_eq!(owner.top_contributors[0].object_count, 1);
    let child = r.entries.iter().find(|e| e.class_name == "com.app.Child").unwrap();
    assert_eq!(child.instance_count, 2);
    assert_eq!(child.shallow_size, 32);
    assert_eq!(child.retained_size, 32);
    assert_eq!(child.avg_retained, 16);
    assert!(child.top_contributors.is_empty());
    let bytes = r.entries.iter().find(|e| e.class_name == "byte[]").unwrap();
    assert_eq!(bytes.retained_size, 23);
    assert_eq!(r.entries[2].class_name, "byte[]");
}

#[test]
fn retained_entries_largest_first() {
    let r = analyse(&sample());
    for w in r.entries.windows(2) {
        assert!(w[0].retained_size >= w[1].retained_size);
    }
    for e in &r.entries {
        assert!(e.shallow_size <= e.retained_size);
        for c in &e.top_contributors {
            assert!(c.total_bytes <= e.retained_size);
        }
    }
}

#[test]
fn retained_exclusive_chain() {
    // 1 -> 2 -> 3 -> 4, each referenced once: the head keeps the whole chain
    let items = vec![
        HeapItem::Instance { object_id: 1, class_id: 100, fields: vec![0, 0, 0, 2] },
        HeapItem::Instance { object_id: 2, class_id: 200, fields: vec![0, 0, 0, 3] },
        HeapItem::Instance { object_id: 3, class_id: 200, fields: vec![0, 0, 0, 4] },
        HeapItem::ObjectArray { object_id: 4, array_class_id: 300, num_elements: 2 },
    ];
    let r = analyse(&items);
    let owner = r.entries.iter().find(|e| e.class_name == "com.app.Owner").unwrap();
    // 16 + 16 + 16 + (2 * 4 + 4 + 12)
    assert_eq!(owner.retained_size, 72);
    assert_eq!(r.entries[0].class_name, "com.app.Child");
    let child = r.entries.iter().find(|e| e.class_name == "com.app.Child").unwrap();
    // the two children retain each other's tails: 2 keeps 3 and 4, 3 keeps 4
    assert_eq!(child.retained_size, (16 + 16 + 24) + (16 + 24));
    let arr = r.entries.iter().find(|e| e.class_name == "?@0x12c").unwrap();
    assert_eq!(arr.retained_size, 24);
}

#[test]
fn retained_cycle_counts_each_object_once() {
    let items = vec![
        HeapItem::Instance { object_id: 1, class_id: 100, fields: vec![0, 0, 0, 2] },
        HeapItem::Instance { object_id: 2, class_id: 200, fields: vec![0, 0, 0, 1] },
    ];
    let r = analyse(&items);
    let owner = r.entries.iter().find(|e| e.class_name == "com.app.Owner").unwrap();
    assert_eq!(owner.retained_size, 32);
}

#[test]
fn builder_tracks_objects() {
    let mut b = GraphBuilder::new();
    assert_eq!(b.len(), 0);
    assert!(b.add_item(&sample()[0], 4));
    assert!(b.contains_object(1));
    assert!(!b.contains_object(2));
    assert_eq!(b.len(), 1);
}

#[test]
fn many_contributors_are_cut_to_eight() {
    // one owner pointing at ten objects of ten different classes
    let mut fields = Vec::new();
    for k in 0..10u8 {
        fields.extend_from_slice(&[0, 0, 0, 10 + k]);
    }
    let mut items = vec![HeapItem::Instance { object_id: 1, class_id: 100, fields }];
    for k in 0..10u64 {
        items.push(HeapItem::ObjectArray { object_id: 10 + k, array_class_id: 1000 + k, num_elements: k as u32 });
    }
    let r = analyse(&items);
    let owner = r.entries.iter().find(|e| e.class_name == "com.app.Owner").unwrap();
    assert_eq!(owner.top_contributors.len(), 8);
    for w in owner.top_contributors.windows(2) {
        assert!(w[0].total_bytes >= w[1].total_bytes);
    }
    // the two smallest arrays (0 and 1 elements) are left out
    assert_eq!(owner.top_contributors[7].total_bytes, 2 * 4 + 4 + 12);
}

#[test]
fn two_fields_to_one_object_still_own_it() {
    // A refers to B from two fields; B has no other referrer, so A owns it.
    let items = vec![
        HeapItem::Instance { object_id: 1, class_id: 100, fields: vec![0, 0, 0, 2, 0, 0, 0, 2] },
        HeapItem::Instance { object_id: 2, class_id: 200, fields: vec![] },
    ];
    let r = analyse(&items);
    let owner = r.entries.iter().find(|e| e.class_name == "com.app.Owner").unwrap();
    // A: 8 + 12 bytes; B: 0 + 12 bytes
    assert_eq!(owner.shallow_size, 20);
    assert_eq!(owner.retained_size, 32);
}
