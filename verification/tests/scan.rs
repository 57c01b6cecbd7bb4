use hprof_tui::heap::{GcRootKind, HeapItem, PrimitiveKind};
use hprof_tui::names::ClassNames;
use hprof_tui::parser::{hprof_version, resolve_name, HeapScan};
use std::collections::HashMap;

fn names() -> ClassNames {
    let mut n = ClassNames::new();
    n.add_utf8(1, b"java/lang/String");
    n.add_utf8(2, b"com/app/Owner");
    n.add_load_class(500, 1);
    n.add_load_class(100, 2);
    n
}

fn string_fields(tag: u8) -> Vec<u8> {
    let mut f: Vec<u8> = (0..24u8).collect();
    f.push(tag);
    f.extend_from_slice(&[9, 9, 9]);
    f
}

fn sample_items() -> Vec<HeapItem> {
    vec![
        HeapItem::GcRoot { kind: GcRootKind::Unknown, object_id: 1 },
        HeapItem::GcRoot { kind: GcRootKind::ThreadObj, object_id: 0 },
        HeapItem::Instance { object_id: 1, class_id: 100, fields: vec![0, 0, 0, 2] },
        HeapItem::Instance { object_id: 10, class_id: 500, fields: string_fields(1) },
        HeapItem::Instance { object_id: 11, class_id: 500, fields: string_fields(2) },
        HeapItem::Instance { object_id: 12, class_id: 500, fields: vec![7; 28] },
        HeapItem::ObjectArray { object_id: 20, array_class_id: 100, num_elements: 3 },
        HeapItem::PrimitiveArray { object_id: 21, element_kind: PrimitiveKind::Byte, content_len: 10 },
        HeapItem::Other,
    ]
}

#[test]
fn scan_totals() {
    let mut scan = HeapScan::new(names(), 4);
    for item in sample_items() {
        assert!(scan.add_item(&item));
    }
    let a = scan.finish("dump.hprof".to_string(), 4096, Some("JAVA PROFILE 1.0.2\0\0"));
    assert_eq!(a.summary.file_path, "dump.hprof");
    assert_eq!(a.summary.file_size_bytes, 4096);
    assert_eq!(a.summary.hprof_version, "JAVA PROFILE 1.0.2");
    assert_eq!(a.summary.total_instances, 4);
    assert_eq!(a.summary.total_arrays, 2);
    assert_eq!(a.summary.total_gc_roots, 2);
    assert_eq!(a.summary.total_classes, 2);
    // 16 + 3 * 40 + (3 * 4 + 4 + 12) + (10 + 4 + 9)
    assert_eq!(a.summary.total_heap_size, 187);
}

#[test]
fn scan_histogram_largest_first() {
    let mut scan = HeapScan::new(names(), 4);
    for item in sample_items() {
        scan.add_item(&item);
    }
    let a = scan.finish(String::new(), 0, None);
    assert_eq!(a.class_histogram.len(), 2);
    assert_eq!(a.class_histogram[0].class_name, "java.lang.String");
    assert_eq!(a.class_histogram[0].instance_count, 3);
    assert_eq!(a.class_histogram[0].shallow_size, 120);
    assert_eq!(a.class_histogram[1].class_name, "com.app.Owner");
    assert_eq!(a.class_histogram[1].instance_count, 1);
    assert_eq!(a.class_histogram[1].shallow_size, 16);
    let counted: u64 = a.class_histogram.iter().map(|e| e.instance_count).sum();
    assert_eq!(counted, a.summary.total_instances);
}

#[test]
fn scan_roots_in_order() {
    let mut scan = HeapScan::new(names(), 4);
    for item in sample_items() {
        scan.add_item(&item);
    }
    let a = scan.finish(String::new(), 0, None);
    assert_eq!(a.gc_roots.len(), 2);
    assert_eq!(a.gc_roots[0].object_id, 1);
    assert_eq!(a.gc_roots[0].root_type, "Unknown");
    assert_eq!(a.gc_roots[1].object_id, 0);
    assert_eq!(a.gc_roots[1].root_type, "ThreadObj");
    assert_eq!(a.summary.hprof_version, "unknown");
}

#[test]
fn scan_keeps_first_2000_roots() {
    let mut scan = HeapScan::new(ClassNames::new(), 8);
    for i in 0..2500u64 {
        assert!(scan.add_item(&HeapItem::GcRoot { kind: GcRootKind::StackFrame, object_id: i }));
    }
    let a = scan.finish(String::new(), 0, None);
    assert_eq!(a.summary.total_gc_roots, 2500);
    assert_eq!(a.gc_roots.len(), 2000);
    assert_eq!(a.gc_roots[1999].object_id, 1999);
    assert_eq!(a.gc_roots[0].root_type, "StackFrame");
}

#[test]
fn scan_duplicate_strings() {
    let mut scan = HeapScan::new(names(), 4);
    for item in sample_items() {
        scan.add_item(&item);
    }
    let a = scan.finish(String::new(), 0, None);
    assert_eq!(a.duplicate_strings.len(), 1);
    let d = &a.duplicate_strings[0];
    assert_eq!(d.count, 2);
    assert_eq!(d.wasted_bytes, 40);
    assert_eq!(d.value_preview, "fp:000102030405");
}

#[test]
fn scan_duplicates_most_wasteful_first() {
    let mut scan = HeapScan::new(names(), 8);
    let mut oid = 1000u64;
    for (tag, copies) in [(1u8, 2usize), (2, 5), (3, 1), (4, 3)] {
        for _ in 0..copies {
            let fields = vec![tag; 30];
            assert!(scan.add_item(&HeapItem::Instance { object_id: oid, class_id: 500, fields }));
            oid += 1;
        }
    }
    let a = scan.finish(String::new(), 0, None);
    let counts: Vec<u64> = a.duplicate_strings.iter().map(|d| d.count).collect();
    assert_eq!(counts, vec![5, 3, 2]);
    assert_eq!(a.duplicate_strings[0].wasted_bytes, 160);
    assert_eq!(a.duplicate_strings[0].value_preview, "fp:020202020202");
    // short fingerprints show all their bytes
    let mut scan = HeapScan::new(names(), 8);
    for i in 0..2u64 {
        scan.add_item(&HeapItem::Instance { object_id: i, class_id: 500, fields: vec![0xab, 0x01] });
    }
    let a = scan.finish(String::new(), 0, None);
    assert_eq!(a.duplicate_strings[0].value_preview, "fp:ab01");
}

#[test]
fn scan_ignores_empty_strings_and_other_classes() {
    let mut scan = HeapScan::new(names(), 4);
    for i in 0..3u64 {
        scan.add_item(&HeapItem::Instance { object_id: i, class_id: 500, fields: vec![] });
        scan.add_item(&HeapItem::Instance { object_id: 10 + i, class_id: 100, fields: vec![1, 2, 3] });
    }
    let a = scan.finish(String::new(), 0, None);
    assert!(a.duplicate_strings.is_empty());
}

#[test]
fn scan_refuses_overflowing_records() {
    let mut scan = HeapScan::new(names(), 8);
    assert!(scan.add_item(&HeapItem::PrimitiveArray {
        object_id: 1,
        element_kind: PrimitiveKind::Long,
        content_len: 100,
    }));
    let huge = HeapItem::PrimitiveArray { object_id: 2, element_kind: PrimitiveKind::Byte, content_len: usize::MAX };
    assert!(!scan.add_item(&huge));
    let a = scan.finish(String::new(), 0, None);
    assert_eq!(a.summary.total_arrays, 1);
    assert_eq!(a.summary.total_heap_size, 100 + 8 + 9);
}

#[test]
fn scan_unknown_classes() {
    let mut scan = HeapScan::new(ClassNames::new(), 4);
    scan.add_item(&HeapItem::Instance { object_id: 1, class_id: 0x1a2b, fields: vec![0; 4] });
    let a = scan.finish(String::new(), 0, None);
    assert_eq!(a.class_histogram[0].class_name, "unknown@0x1a2b");
}

#[test]
fn resolve_names() {
    let mut utf8: HashMap<u64, String> = HashMap::new();
    let mut cls: HashMap<u64, u64> = HashMap::new();
    utf8.insert(7, "java/util/HashMap$Node".to_string());
    cls.insert(70, 7);
    cls.insert(71, 8);
    assert_eq!(resolve_name(70, &cls, &utf8), "java.util.HashMap$Node");
    assert_eq!(resolve_name(71, &cls, &utf8), "unknown@0x47");
    assert_eq!(resolve_name(72, &cls, &utf8), "unknown@0x48");
}

#[test]
fn versions() {
    assert_eq!(hprof_version(Some("JAVA PROFILE 1.0.1\0")), "JAVA PROFILE 1.0.1");
    assert_eq!(hprof_version(Some("plain")), "plain");
    assert_eq!(hprof_version(None), "unknown");
    assert_eq!(hprof_version(Some("\0\0")), "");
}

#[test]
fn names_later_records_replace_earlier() {
    let mut n = ClassNames::new();
    n.add_utf8(1, b"first");
    n.add_utf8(1, b"second");
    n.add_load_class(9, 1);
    assert_eq!(n.class_text(9).map(|s| s.as_str()), Some("second"));
    n.add_utf8(2, &[0x66, 0xff, 0x67]);
    n.add_load_class(9, 2);
    assert_eq!(n.class_text(9).map(|s| s.as_str()), Some("f\u{FFFD}g"));
    assert_eq!(n.class_text(10), None);
}
