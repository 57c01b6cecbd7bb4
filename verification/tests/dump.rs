use hprof_tui::dump::{header_id_size, unknown_record_tag};
use hprof_tui::parser::analyze_hprof;
use hprof_tui::retained::compute_retained;
use hprof_tui::segment::segments_readable;

fn be32(out: &mut Vec<u8>, v: u32) {
    out.extend_from_slice(&v.to_be_bytes());
}

fn header(out: &mut Vec<u8>, id_size: u32) {
    out.extend_from_slice(b"JAVA PROFILE 1.0.2\0");
    be32(out, id_size);
    be32(out, 0);
    be32(out, 0);
}

fn record(out: &mut Vec<u8>, tag: u8, body: &[u8]) {
    out.push(tag);
    be32(out, 0);
    be32(out, body.len() as u32);
    out.extend_from_slice(body);
}

fn utf8(out: &mut Vec<u8>, id: u32, text: &str) {
    let mut body = Vec::new();
    be32(&mut body, id);
    body.extend_from_slice(text.as_bytes());
    record(out, 0x01, &body);
}

fn load_class(out: &mut Vec<u8>, class_id: u32, name_id: u32) {
    let mut body = Vec::new();
    be32(&mut body, 1);
    be32(&mut body, class_id);
    be32(&mut body, 0);
    be32(&mut body, name_id);
    record(out, 0x02, &body);
}

fn instance(seg: &mut Vec<u8>, id: u32, class_id: u32, fields: &[u8]) {
    seg.push(0x21);
    be32(seg, id);
    be32(seg, 0);
    be32(seg, class_id);
    be32(seg, fields.len() as u32);
    seg.extend_from_slice(fields);
}

fn string_fields(tag: u8) -> Vec<u8> {
    let mut f: Vec<u8> = (1..25u8).collect();
    f.push(tag);
    f
}

/// A small dump with 4-byte ids: two named classes, an owner object that
/// refers to an object array (of a class with no name), three strings (two alike in their first 24 bytes),
/// an int array and two GC roots.
fn sample_dump() -> Vec<u8> {
    let mut out = Vec::new();
    header(&mut out, 4);
    utf8(&mut out, 1, "java/lang/String");
    utf8(&mut out, 2, "com/app/Owner");
    load_class(&mut out, 500, 1);
    load_class(&mut out, 100, 2);
    let mut seg = Vec::new();
    // GC root (unknown) naming the owner
    seg.push(0xFF);
    be32(&mut seg, 1000);
    // GC root (thread object)
    seg.push(0x08);
    be32(&mut seg, 7);
    be32(&mut seg, 1);
    be32(&mut seg, 2);
    // the owner: one field referring to the object array
    instance(&mut seg, 1000, 100, &[0, 0, 0x0B, 0xB8]);
    instance(&mut seg, 1001, 500, &string_fields(1));
    instance(&mut seg, 1002, 500, &string_fields(2));
    instance(&mut seg, 1004, 500, &[9; 30]);
    // object array 3000 of two elements
    seg.push(0x22);
    be32(&mut seg, 3000);
    be32(&mut seg, 0);
    be32(&mut seg, 2);
    be32(&mut seg, 600);
    be32(&mut seg, 1001);
    be32(&mut seg, 0);
    // int array of three elements
    seg.push(0x23);
    be32(&mut seg, 4000);
    be32(&mut seg, 0);
    be32(&mut seg, 3);
    seg.push(0x0A);
    seg.extend_from_slice(&[0; 12]);
    record(&mut out, 0x1C, &seg);
    record(&mut out, 0x2C, &[]);
    out
}

#[test]
fn header_id_size_read() {
    let mut b = Vec::new();
    header(&mut b, 8);
    assert_eq!(header_id_size(&b), Some(8));
    assert_eq!(header_id_size(&b[..b.len() - 1]), None);
    assert_eq!(header_id_size(b"no terminator"), None);
}

#[test]
fn analyze_hprof_totals() {
    let bytes = sample_dump();
    let a = analyze_hprof(&bytes, "heap.hprof".to_string(), bytes.len() as u64).unwrap();
    assert_eq!(a.summary.file_path, "heap.hprof");
    assert_eq!(a.summary.file_size_bytes, bytes.len() as u64);
    assert_eq!(a.summary.hprof_version, "JAVA PROFILE 1.0.2");
    assert_eq!(a.summary.total_instances, 4);
    assert_eq!(a.summary.total_arrays, 2);
    assert_eq!(a.summary.total_gc_roots, 2);
    assert_eq!(a.summary.total_classes, 2);
    // instances: (4 + 12) + 2 * (25 + 12) + (30 + 12);
    // object array: 2 * 4 + 4 + 12; int array: 12 + 4 + 9
    assert_eq!(a.summary.total_heap_size, 16 + 74 + 42 + 24 + 25);
    assert_eq!(a.gc_roots.len(), 2);
    assert_eq!(a.gc_roots[0].object_id, 1000);
    assert_eq!(a.gc_roots[0].root_type, "Unknown");
    assert_eq!(a.gc_roots[1].object_id, 7);
    assert_eq!(a.gc_roots[1].root_type, "ThreadObj");
}

#[test]
fn analyze_hprof_histogram_and_duplicates() {
    let bytes = sample_dump();
    let a = analyze_hprof(&bytes, String::new(), 0).unwrap();
    assert_eq!(a.class_histogram.len(), 2);
    assert_eq!(a.class_histogram[0].class_name, "java.lang.String");
    assert_eq!(a.class_histogram[0].instance_count, 3);
    assert_eq!(a.class_histogram[0].shallow_size, 116);
    assert_eq!(a.class_histogram[1].class_name, "com.app.Owner");
    assert_eq!(a.class_histogram[1].shallow_size, 16);
    assert_eq!(a.duplicate_strings.len(), 1);
    assert_eq!(a.duplicate_strings[0].count, 2);
    assert_eq!(a.duplicate_strings[0].wasted_bytes, 40);
    assert_eq!(a.duplicate_strings[0].value_preview, "fp:010203040506");
}

#[test]
fn analyze_hprof_incomplete_header_fails() {
    let mut b = Vec::new();
    header(&mut b, 4);
    match analyze_hprof(&b[..10], String::new(), 10) {
        Ok(_) => panic!("an incomplete header was accepted"),
        Err(e) => assert!(e.starts_with("HPROF parse failed: ")),
    }
}

#[test]
fn analyze_hprof_empty_dump() {
    let mut b = Vec::new();
    header(&mut b, 8);
    let a = analyze_hprof(&b, String::new(), 0).unwrap();
    assert_eq!(a.summary.total_instances, 0);
    assert_eq!(a.summary.total_heap_size, 0);
    assert!(a.class_histogram.is_empty());
}

#[test]
fn compute_retained_owner_keeps_array() {
    let bytes = sample_dump();
    let res = compute_retained(&bytes).unwrap();
    assert!(!res.truncated);
    let owner = res.entries.iter().find(|e| e.class_name == "com.app.Owner").unwrap();
    assert_eq!(owner.instance_count, 1);
    assert_eq!(owner.shallow_size, 16);
    // the owner holds the only reference to the object array (24 bytes);
    // array elements are not followed
    assert_eq!(owner.retained_size, 40);
    // strings keep only themselves: 2 * 37 + 42 bytes, the largest total
    assert_eq!(res.entries[0].class_name, "java.lang.String");
    assert_eq!(res.entries[0].retained_size, 116);
    assert_eq!(res.entries[1].class_name, "com.app.Owner");
    assert_eq!(res.entries.len(), 4);
}

#[test]
fn compute_retained_incomplete_header_fails() {
    match compute_retained(b"JAVA") {
        Ok(_) => panic!("an incomplete header was accepted"),
        Err(e) => assert!(e.starts_with("parse: ")),
    }
}

#[test]
fn analyze_hprof_eight_byte_ids() {
    let mut out = Vec::new();
    header(&mut out, 8);
    let mut seg = Vec::new();
    // GC root (unknown) naming object 5
    seg.push(0xFF);
    seg.extend_from_slice(&5u64.to_be_bytes());
    // instance 5 of class 9 with 8 field bytes
    seg.push(0x21);
    seg.extend_from_slice(&5u64.to_be_bytes());
    be32(&mut seg, 0);
    seg.extend_from_slice(&9u64.to_be_bytes());
    be32(&mut seg, 8);
    seg.extend_from_slice(&[0; 8]);
    // object array of one element
    seg.push(0x22);
    seg.extend_from_slice(&6u64.to_be_bytes());
    be32(&mut seg, 0);
    be32(&mut seg, 1);
    seg.extend_from_slice(&9u64.to_be_bytes());
    seg.extend_from_slice(&5u64.to_be_bytes());
    record(&mut out, 0x0C, &seg);
    let a = analyze_hprof(&out, String::new(), 0).unwrap();
    assert_eq!(a.summary.total_gc_roots, 1);
    assert_eq!(a.gc_roots[0].object_id, 5);
    assert_eq!(a.summary.total_instances, 1);
    assert_eq!(a.summary.total_arrays, 1);
    // instance: 8 + 2 * 8 + 4; array: 1 * 8 + 8 + 12
    assert_eq!(a.summary.total_heap_size, 28 + 28);
    // the class has no name record: it is named by its id
    assert_eq!(a.class_histogram.len(), 1);
    assert_eq!(a.class_histogram[0].instance_count, 1);
    assert_eq!(a.class_histogram[0].class_name, "unknown@0x9");
}

#[test]
fn histogram_rows_add_up_to_instances() {
    let bytes = sample_dump();
    let a = analyze_hprof(&bytes, String::new(), 0).unwrap();
    let count: u64 = a.class_histogram.iter().map(|e| e.instance_count).sum();
    let size: u64 = a.class_histogram.iter().map(|e| e.shallow_size).sum();
    assert_eq!(count, a.summary.total_instances);
    // instance bytes: the heap total without the two arrays (24 + 25)
    assert_eq!(size, a.summary.total_heap_size - 24 - 25);
}

#[test]
fn unknown_record_tags_found() {
    let bytes = sample_dump();
    assert_eq!(unknown_record_tag(&bytes), None);
    let mut bad = Vec::new();
    header(&mut bad, 4);
    utf8(&mut bad, 1, "x");
    record(&mut bad, 0x42, &[]);
    assert_eq!(unknown_record_tag(&bad), Some(0x42));
    // a record cut short ends the reading before its tag matters
    let mut cut = Vec::new();
    header(&mut cut, 4);
    cut.extend_from_slice(&[0x01, 0, 0, 0, 0, 0, 0, 0, 9]);
    assert_eq!(unknown_record_tag(&cut), None);
}

fn dump_with_segment(seg: &[u8]) -> Vec<u8> {
    let mut out = Vec::new();
    header(&mut out, 4);
    record(&mut out, 0x0C, seg);
    out
}

/// A class dump with 4-byte ids, the given constant pool length and static
/// fields (name id, type byte, value), and one instance field.
fn class_dump(seg: &mut Vec<u8>, pool: u16, statics: &[(u32, u8, &[u8])]) {
    seg.push(0x20);
    be32(seg, 100);
    be32(seg, 0);
    for _ in 0..6 {
        be32(seg, 0);
    }
    be32(seg, 16);
    seg.extend_from_slice(&pool.to_be_bytes());
    seg.extend_from_slice(&(statics.len() as u16).to_be_bytes());
    for (name, ty, value) in statics {
        be32(seg, *name);
        seg.push(*ty);
        seg.extend_from_slice(value);
    }
    seg.extend_from_slice(&1u16.to_be_bytes());
    be32(seg, 7);
    seg.push(0x0A);
}

#[test]
fn segments_readable_sample_and_class_dumps() {
    assert!(segments_readable(&sample_dump()));
    let mut seg = Vec::new();
    class_dump(&mut seg, 0, &[(1, 0x0A, &[0, 0, 0, 5]), (2, 0x02, &[0, 0, 0, 9]), (3, 0x04, &[1])]);
    instance(&mut seg, 1000, 100, &[0, 0, 0, 1]);
    let bytes = dump_with_segment(&seg);
    assert!(segments_readable(&bytes));
    let a = analyze_hprof(&bytes, "x.hprof".to_string(), bytes.len() as u64).unwrap();
    assert_eq!(a.summary.total_instances, 1);
}

#[test]
fn segments_unreadable_sub_records_found() {
    // an unknown sub-record tag
    assert!(!segments_readable(&dump_with_segment(&[0x99, 0, 0, 0, 1])));
    // a class dump with a constant pool
    let mut seg = Vec::new();
    class_dump(&mut seg, 1, &[]);
    assert!(!segments_readable(&dump_with_segment(&seg)));
    // a static field of an unknown type
    let mut seg = Vec::new();
    class_dump(&mut seg, 0, &[(1, 0x03, &[0])]);
    assert!(!segments_readable(&dump_with_segment(&seg)));
    // a primitive array of an unknown element type
    let mut seg = Vec::new();
    seg.push(0x23);
    be32(&mut seg, 4000);
    be32(&mut seg, 0);
    be32(&mut seg, 1);
    seg.push(0x02);
    be32(&mut seg, 0);
    assert!(!segments_readable(&dump_with_segment(&seg)));
    // a primitive array whose byte length overflows 32 bits
    let mut seg = Vec::new();
    seg.push(0x23);
    be32(&mut seg, 4000);
    be32(&mut seg, 0);
    be32(&mut seg, 0x8000_0000);
    seg.push(0x0B);
    assert!(!segments_readable(&dump_with_segment(&seg)));
}

#[test]
fn segments_cut_short_stay_readable() {
    // a sub-record cut short ends the reading before what follows matters
    let bytes = dump_with_segment(&[0x21, 0, 0, 0, 1, 0, 0, 0, 0, 0x99]);
    assert!(segments_readable(&bytes));
    let a = analyze_hprof(&bytes, "x.hprof".to_string(), bytes.len() as u64).unwrap();
    assert_eq!(a.summary.total_instances, 0);
    // the unknown tag after a complete root is reached
    assert!(!segments_readable(&dump_with_segment(&[0xFF, 0, 0, 0, 1, 0x99])));
}
