//! Reading a heap dump's records with `jvm_hprof`.
use vstd::prelude::*;
use jvm_hprof::{parse_hprof, Hprof, Records, Record, RecordTag, HeapDumpSegment, SubRecords, IdSize};
use jvm_hprof::heap_dump::{SubRecord, PrimitiveArray, PrimitiveArrayType};
use crate::retained::{be_value, read_be};
use crate::heap::{HeapItem, GcRootKind, PrimitiveKind};
use crate::names::ClassNames;
use crate::text::{push_str, utf8_lossy};
use crate::segment::{segments_ok, segment_readable, sub_step};

verus! {

// ── The dump header ──────────────────────────────────────────────────────────
//
// A dump opens with a NUL-terminated version label, followed by three
// big-endian 4-byte fields: the size of object ids, then a timestamp.

/// Position of the first NUL byte of `b` at or after `i` (`b.len()` if none).
pub open spec fn nul_from(b: Seq<u8>, i: int) -> int
    decreases b.len() - i,
{
    if i < 0 {
        0
    } else if i >= b.len() {
        b.len() as int
    } else if b[i] == 0 {
        i
    } else {
        nul_from(b, i + 1)
    }
}

proof fn lemma_nul_from_bounds(b: Seq<u8>, i: int)
    requires
        0 <= i <= b.len(),
    ensures
        i <= nul_from(b, i) <= b.len(),
    decreases b.len() - i,
{
    if i < b.len() && b[i] != 0 {
        lemma_nul_from_bounds(b, i + 1);
    }
}

/// Length of the version label: the bytes before the first NUL.
pub open spec fn label_len(b: Seq<u8>) -> int {
    nul_from(b, 0)
}

/// The header is complete: the label's NUL and the three fields are present.
pub open spec fn header_complete(b: Seq<u8>) -> bool {
    label_len(b) + 13 <= b.len()
}

/// The id-size field of a complete header.
pub open spec fn header_id_field(b: Seq<u8>) -> nat {
    be_value(b.subrange(label_len(b) + 1, label_len(b) + 5))
}

/// A complete header names ids of 4 or 8 bytes, the two sizes `jvm_hprof` reads.
pub open spec fn header_id_ok(b: Seq<u8>) -> bool {
    header_complete(b) ==> (header_id_field(b) == 4 || header_id_field(b) == 8)
}

#[verifier::external_type_specification]
#[verifier::external_body]
pub struct ExHprof<'a>(Hprof<'a>);

/// The bytes that a parsed dump was read from.
pub uninterp spec fn dump_source(h: Hprof) -> Seq<u8>;

/// `jvm_hprof::parse_hprof`: reads the header and keeps the rest of the
/// bytes as records.  It fails, with its error rendered as text, exactly when
/// the header is incomplete; it panics on a complete header whose id size is
/// neither 4 nor 8, which `requires` leaves out.
#[verifier::external_body]
pub(crate) fn parse_dump<'a>(bytes: &'a [u8]) -> (r: Result<Hprof<'a>, String>)
    requires
        header_id_ok(bytes@),
    ensures
        r is Ok <==> header_complete(bytes@),
        r matches Ok(h) ==> dump_source(h) == bytes@,
{
    match parse_hprof(bytes) {
        Ok(h) => Ok(h),
        Err(e) => Err(format!("{:?}", e)),
    }
}

/// The id-size field of the header, or `None` when the header is incomplete.
pub fn header_id_size(bytes: &[u8]) -> (r: Option<u64>)
    ensures
        r == if header_complete(bytes@) { Some(header_id_field(bytes@) as u64) } else { None::<u64> },
{
    let mut i: usize = 0;
    while i < bytes.len() && bytes[i] != 0
        invariant
            i <= bytes@.len(),
            nul_from(bytes@, i as int) == label_len(bytes@),
        decreases bytes.len() - i,
    {
        i = i + 1;
    }
    assert(nul_from(bytes@, i as int) == i);
    if i >= bytes.len() || bytes.len() - i < 13 {
        None
    } else {
        proof {
            crate::retained::lemma_be_value_bound(bytes@.subrange(i + 1, i + 5));
            reveal_with_fuel(crate::retained::pow256, 5);
        }
        Some(read_be(bytes, i + 1, 4))
    }
}

// ── Records ──────────────────────────────────────────────────────────────────
//
// After the header come records: a tag byte, a 4-byte time offset, a 4-byte
// big-endian body length, then the body.  `jvm_hprof` reads them in order; it
// stops (with an error) at a record that is cut short, and panics on a tag
// byte it does not know.

/// Length of the header: the label, its NUL and the three 4-byte fields.
pub open spec fn header_len(b: Seq<u8>) -> int {
    label_len(b) + 13
}

/// The version label's bytes.
pub open spec fn label_bytes(b: Seq<u8>) -> Seq<u8> {
    b.take(label_len(b))
}

/// The version label as text, or "unknown" when it is not valid UTF-8.
pub open spec fn label_text(b: Seq<u8>) -> Seq<char> {
    if vstd::utf8::valid_utf8(label_bytes(b)) {
        vstd::utf8::decode_utf8(label_bytes(b))
    } else {
        "unknown"@
    }
}

/// The tag bytes of the records that `jvm_hprof` knows.
pub open spec fn known_tag(t: u8) -> bool {
    (0x01 <= t && t <= 0x07) || (0x0A <= t && t <= 0x0E) || t == 0x1C || t == 0x2C
}

/// Length of the record at the start of `rest` (header and body).
pub open spec fn frame_len(rest: Seq<u8>) -> int {
    9 + be_value(rest.subrange(5, 9)) as int
}

/// The record at the start of `rest` is complete.
pub open spec fn frame_ok(rest: Seq<u8>) -> bool {
    rest.len() >= 9 && rest.len() >= frame_len(rest)
}

/// The records (tag byte, body) at the start of `rest`, up to its end or to
/// the first record that is cut short.
pub open spec fn frames(rest: Seq<u8>) -> Seq<(u8, Seq<u8>)>
    decreases rest.len(),
{
    if rest.len() == 0 || !frame_ok(rest) {
        Seq::empty()
    } else {
        seq![(rest[0], rest.subrange(9, frame_len(rest)))] + frames(rest.skip(frame_len(rest)))
    }
}

/// Every record that `jvm_hprof` reaches in `rest` has a tag byte it knows.
pub open spec fn tags_known(rest: Seq<u8>) -> bool
    decreases rest.len(),
{
    rest.len() == 0 || (known_tag(rest[0]) && (frame_ok(rest) ==> tags_known(rest.skip(frame_len(rest)))))
}

/// The records of a dump.
pub open spec fn dump_frames(b: Seq<u8>) -> Seq<(u8, Seq<u8>)> {
    frames(b.skip(header_len(b)))
}

/// `jvm_hprof` reads the header of `b`, knows the tag of each record, and
/// reads the sub-records of each heap dump segment without panicking.
pub open spec fn dump_readable(b: Seq<u8>) -> bool {
    header_id_ok(b) && (header_complete(b) ==> tags_known(b.skip(header_len(b))) && segments_ok(
        dump_frames(b),
        header_id_field(b),
    ))
}

/// The object id read from `w` bytes at `at` of `body`.
pub open spec fn id_at(body: Seq<u8>, at: int, w: nat) -> u64 {
    be_value(body.subrange(at, at + w)) as u64
}

/// A UTF-8 record's body: its name id, then the text.
pub open spec fn utf8_of(body: Seq<u8>, w: nat) -> Option<(u64, Seq<u8>)> {
    if body.len() >= w {
        Some((id_at(body, 0, w), body.skip(w as int)))
    } else {
        None
    }
}

/// A LOAD CLASS record's body: a serial number, the class object id, a stack
/// trace serial number and the name id.
pub open spec fn load_of(body: Seq<u8>, w: nat) -> Option<(u64, u64)> {
    if body.len() >= 8 + 2 * w {
        Some((id_at(body, 4, w), id_at(body, 8 + w as int, w)))
    } else {
        None
    }
}

/// The tags of heap dump and heap dump segment records.
pub open spec fn is_segment_tag(t: u8) -> bool {
    t == 0x0C || t == 0x1C
}

/// The (name id, bytes) of the UTF-8 records among `fr`, in order.
pub open spec fn utf8_records(fr: Seq<(u8, Seq<u8>)>, w: nat) -> Seq<(u64, Seq<u8>)>
    decreases fr.len(),
{
    if fr.len() == 0 {
        Seq::empty()
    } else {
        let rest = utf8_records(fr.drop_last(), w);
        if fr.last().0 == 0x01 && utf8_of(fr.last().1, w) is Some {
            rest.push(utf8_of(fr.last().1, w)->0)
        } else {
            rest
        }
    }
}

/// The (class object id, name id) of the LOAD CLASS records among `fr`, in order.
pub open spec fn load_records(fr: Seq<(u8, Seq<u8>)>, w: nat) -> Seq<(u64, u64)>
    decreases fr.len(),
{
    if fr.len() == 0 {
        Seq::empty()
    } else {
        let rest = load_records(fr.drop_last(), w);
        if fr.last().0 == 0x02 && load_of(fr.last().1, w) is Some {
            rest.push(load_of(fr.last().1, w)->0)
        } else {
            rest
        }
    }
}

/// The values read from the sub-records of a heap dump segment's body whose
/// object ids take `w` bytes, in order, up to the first sub-record that
/// `jvm_hprof` cannot read: what `SubRecords` yields, each sub-record viewed
/// as `sub_item` says.
pub uninterp spec fn segment_items(body: Seq<u8>, w: nat) -> Seq<HeapItem>;

/// The values read from the heap dump segments among `fr`, in order.
pub open spec fn frame_items(fr: Seq<(u8, Seq<u8>)>, w: nat) -> Seq<HeapItem>
    decreases fr.len(),
{
    if fr.len() == 0 {
        Seq::empty()
    } else {
        frame_items(fr.drop_last(), w) + if is_segment_tag(fr.last().0) {
            segment_items(fr.last().1, w)
        } else {
            Seq::empty()
        }
    }
}

/// The values read from every heap dump segment of a dump.
pub open spec fn dump_items(b: Seq<u8>) -> Seq<HeapItem> {
    frame_items(dump_frames(b), header_id_field(b))
}

/// The name texts of a dump, from its UTF-8 records.
pub open spec fn dump_texts(b: Seq<u8>) -> Map<u64, Seq<char>> {
    texts_from(utf8_records(dump_frames(b), header_id_field(b)))
}

/// The class name ids of a dump, from its LOAD CLASS records.
pub open spec fn dump_classes(b: Seq<u8>) -> Map<u64, u64> {
    classes_from(load_records(dump_frames(b), header_id_field(b)))
}

#[verifier::external_type_specification]
#[verifier::external_body]
pub struct ExRecord<'a>(Record<'a>);

#[verifier::external_type_specification]
#[verifier::external_body]
pub struct ExHeapDumpSegment<'a>(HeapDumpSegment<'a>);

#[verifier::external_type_specification]
#[verifier::external_body]
pub struct ExSubRecord<'a>(SubRecord<'a>);

#[verifier::external_type_specification]
#[verifier::external_body]
pub struct ExPrimitiveArray<'a>(PrimitiveArray<'a>);

#[verifier::external_type_specification]
#[verifier::external_body]
pub struct ExIdSize(IdSize);

/// The records of a dump that are still to be read.  Verus cannot take
/// `jvm_hprof::Records` as a declared type (its items hold `nom` errors), so
/// the iterator is kept out of its sight.
#[verifier::external_body]
pub struct RecordCursor<'a> {
    it: Records<'a>,
}

/// The sub-records of a heap dump segment that are still to be read, with
/// the id size they are read with, kept out of Verus's sight for the same
/// reason as `RecordCursor`.
#[verifier::external_body]
pub struct SubRecordCursor<'a> {
    it: SubRecords<'a>,
    size: IdSize,
}

/// A sub-record with the id size it was read with.  Only `next_sub_record`
/// makes one, from its cursor, so the size is always the one the
/// sub-record's arrays were laid out with.
pub struct ReadSub<'a> {
    sub: SubRecord<'a>,
    size: IdSize,
}

/// What a sub-record that was read holds.
pub closed spec fn read_item(s: ReadSub) -> HeapItem {
    sub_item(s.sub)
}

/// The bytes that a record cursor has still to read.
pub uninterp spec fn records_left(c: RecordCursor) -> Seq<u8>;

/// The size of object ids that a record cursor reads with.
pub uninterp spec fn records_width(c: RecordCursor) -> nat;

/// A record's tag byte.
pub uninterp spec fn record_tag(r: Record) -> u8;

/// A record's body.
pub uninterp spec fn record_body(r: Record) -> Seq<u8>;

/// The size of object ids that a record was read with.
pub uninterp spec fn record_width(r: Record) -> nat;

/// A heap dump segment's body.
pub uninterp spec fn segment_body(s: HeapDumpSegment) -> Seq<u8>;

/// The size of object ids that a heap dump segment was read with.
pub uninterp spec fn segment_width(s: HeapDumpSegment) -> nat;

/// The values of the sub-records that a cursor has still to yield.
pub uninterp spec fn sub_records_left(c: SubRecordCursor) -> Seq<HeapItem>;

/// The size of object ids that a sub-record cursor reads with.
pub uninterp spec fn sub_records_width(c: SubRecordCursor) -> nat;

/// The bytes of its segment that a sub-record cursor has still to read.
pub uninterp spec fn sub_bytes_left(c: SubRecordCursor) -> Seq<u8>;

/// What a sub-record holds, as the values that the analyses read.
pub uninterp spec fn sub_item(s: SubRecord) -> HeapItem;

/// The number of bytes that an `IdSize` stands for.
pub uninterp spec fn id_size_num(s: IdSize) -> nat;

/// The kinds of top-level record that the analyses read.
#[derive(Clone, Copy, Debug, PartialEq, Eq, Structural)]
pub enum RecordKind {
    Utf8,
    LoadClass,
    HeapDump,
    Other,
}

/// The kind of record that a tag byte makes.
pub open spec fn kind_of(t: u8) -> RecordKind {
    if t == 0x01 {
        RecordKind::Utf8
    } else if t == 0x02 {
        RecordKind::LoadClass
    } else if is_segment_tag(t) {
        RecordKind::HeapDump
    } else {
        RecordKind::Other
    }
}

/// `Header::id_size` of the dump's header (read through `Hprof::header`):
/// the id-size field of the header.
#[verifier::external_body]
pub(crate) fn dump_id_size(h: &Hprof) -> (s: IdSize)
    ensures
        id_size_num(s) == header_id_field(dump_source(*h)),
{
    h.header().id_size()
}

/// The number of bytes that an `IdSize` stands for.
#[verifier::external_body]
pub(crate) fn id_size_bytes(s: IdSize) -> (n: u64)
    ensures
        n == id_size_num(s),
        n == 4 || n == 8,
{
    match s {
        IdSize::U32 => 4,
        IdSize::U64 => 8,
    }
}

/// `Header::label`: the version label (the bytes before the first NUL),
/// `None` when it is not valid UTF-8.
#[verifier::external_body]
pub(crate) fn dump_label<'a>(h: &Hprof<'a>) -> (r: Option<&'a str>)
    ensures
        match r {
            Some(l) => vstd::utf8::valid_utf8(label_bytes(dump_source(*h))) && l@ == vstd::utf8::decode_utf8(
                label_bytes(dump_source(*h)),
            ),
            None => !vstd::utf8::valid_utf8(label_bytes(dump_source(*h))),
        },
{
    h.header().label().ok()
}

/// `Hprof::records_iter`: the records that follow the header, read with the
/// header's id size.
#[verifier::external_body]
pub(crate) fn dump_records<'a>(h: &Hprof<'a>) -> (c: RecordCursor<'a>)
    ensures
        records_left(c) == dump_source(*h).skip(header_len(dump_source(*h))),
        records_width(c) == header_id_field(dump_source(*h)),
{
    RecordCursor { it: h.records_iter() }
}

/// `Records::next`: the next record, or `None` at the end of the bytes and at
/// a record that is cut short (the iterator then stays where it is, so the
/// caller stops).  It panics on a tag byte it does not know, which
/// `requires` leaves out.
#[verifier::external_body]
pub(crate) fn next_record<'a>(c: &mut RecordCursor<'a>) -> (r: Option<Record<'a>>)
    requires
        records_left(*old(c)).len() > 0 ==> known_tag(records_left(*old(c))[0]),
    ensures
        records_width(*final(c)) == records_width(*old(c)),
        match r {
            Some(rec) => {
                let rest = records_left(*old(c));
                &&& rest.len() > 0 && frame_ok(rest)
                &&& record_tag(rec) == rest[0]
                &&& record_body(rec) == rest.subrange(9, frame_len(rest))
                &&& record_width(rec) == records_width(*old(c))
                &&& records_left(*final(c)) == rest.skip(frame_len(rest))
            },
            None => {
                &&& records_left(*old(c)).len() == 0 || !frame_ok(records_left(*old(c)))
                &&& records_left(*final(c)) == records_left(*old(c))
            },
        },
{
    match c.it.next() {
        Some(Ok(r)) => Some(r),
        _ => None,
    }
}

/// `Record::tag`, for the tags that the analyses tell apart.
#[verifier::external_body]
pub(crate) fn record_kind(r: &Record) -> (k: RecordKind)
    ensures
        k == kind_of(record_tag(*r)),
{
    match r.tag() {
        RecordTag::Utf8 => RecordKind::Utf8,
        RecordTag::LoadClass => RecordKind::LoadClass,
        RecordTag::HeapDump => RecordKind::HeapDump,
        RecordTag::HeapDumpSegment => RecordKind::HeapDump,
        _ => RecordKind::Other,
    }
}

/// `Record::as_utf_8` with `Utf8::name_id`, `Utf8::text` and `Id::id`: the
/// name id and the text bytes of a UTF-8 record.
#[verifier::external_body]
fn record_utf8<'a>(r: &Record<'a>) -> (u: Option<(u64, &'a [u8])>)
    ensures
        match u {
            Some(t) => record_tag(*r) == 0x01 && utf8_of(record_body(*r), record_width(*r)) == Some((t.0, t.1@)),
            None => record_tag(*r) != 0x01 || utf8_of(record_body(*r), record_width(*r)) is None,
        },
{
    match r.as_utf_8() {
        Some(Ok(u)) => Some((u.name_id().id(), u.text())),
        _ => None,
    }
}

/// `Record::as_load_class` with its id getters: the class object id and the
/// name id of a LOAD CLASS record.
#[verifier::external_body]
fn record_load_class(r: &Record) -> (l: Option<(u64, u64)>)
    ensures
        match l {
            Some(t) => record_tag(*r) == 0x02 && load_of(record_body(*r), record_width(*r)) == Some(t),
            None => record_tag(*r) != 0x02 || load_of(record_body(*r), record_width(*r)) is None,
        },
{
    match r.as_load_class() {
        Some(Ok(lc)) => Some((lc.class_obj_id().id(), lc.class_name_id().id())),
        _ => None,
    }
}

/// `Record::as_heap_dump_segment`: the body of a heap dump (segment) record.
#[verifier::external_body]
pub(crate) fn record_segment<'a>(r: &Record<'a>) -> (s: Option<HeapDumpSegment<'a>>)
    ensures
        s is Some <==> is_segment_tag(record_tag(*r)),
        s matches Some(g) ==> segment_body(g) == record_body(*r) && segment_width(g) == record_width(*r),
{
    match r.as_heap_dump_segment() {
        Some(Ok(s)) => Some(s),
        _ => None,
    }
}

/// `HeapDumpSegment::sub_records`: the sub-records of a segment, in order,
/// read from its body with the segment's id size, which `size` is.  Each
/// takes at least one byte (its tag) of the body.
#[verifier::external_body]
pub(crate) fn segment_sub_records<'a>(s: &HeapDumpSegment<'a>, size: IdSize) -> (c: SubRecordCursor<'a>)
    requires
        id_size_num(size) == segment_width(*s),
    ensures
        sub_records_left(c) == segment_items(segment_body(*s), segment_width(*s)),
        sub_records_left(c).len() <= segment_body(*s).len(),
        sub_records_width(c) == segment_width(*s),
        sub_bytes_left(c) == segment_body(*s),
{
    SubRecordCursor { it: s.sub_records(), size }
}

/// `SubRecords::next`: the next sub-record, read from the cursor's bytes
/// (`SubRecord::parse`), which then stand after it; or `None` at the end of
/// the bytes and at a sub-record that is cut short (the cursor then stays
/// where it is).  It panics on a sub-record it cannot read, which
/// `requires` leaves out (see `segment_readable`).
#[verifier::external_body]
pub(crate) fn next_sub_record<'a>(c: &mut SubRecordCursor<'a>) -> (r: Option<ReadSub<'a>>)
    requires
        segment_readable(sub_bytes_left(*old(c)), sub_records_width(*old(c))),
    ensures
        sub_records_width(*final(c)) == sub_records_width(*old(c)),
        match r {
            Some(s) => {
                let rest = sub_bytes_left(*old(c));
                let n = sub_step(rest, sub_records_width(*old(c)));
                &&& rest.len() > 0 && 1 <= n <= rest.len()
                &&& sub_bytes_left(*final(c)) == rest.skip(n)
                &&& sub_records_left(*old(c)).len() > 0
                &&& read_item(s) == sub_records_left(*old(c))[0]
                &&& sub_records_left(*final(c)) == sub_records_left(*old(c)).drop_first()
            },
            None => {
                let rest = sub_bytes_left(*old(c));
                &&& rest.len() == 0 || sub_step(rest, sub_records_width(*old(c))) == -1
                &&& sub_records_left(*old(c)).len() == 0
                &&& sub_records_left(*final(c)) == sub_records_left(*old(c))
                &&& sub_bytes_left(*final(c)) == rest
            },
        },
{
    match c.it.next() {
        Some(Ok(s)) => Some(ReadSub { sub: s, size: c.size }),
        _ => None,
    }
}

/// The kind of GC root that a sub-record is, `None` for other sub-records.
#[verifier::external_body]
fn root_kind(s: &SubRecord) -> (r: Option<GcRootKind>)
    ensures
        r == match sub_item(*s) {
            HeapItem::GcRoot { kind, .. } => Some(kind),
            _ => None::<GcRootKind>,
        },
{
    match s {
        SubRecord::GcRootUnknown(_) => Some(GcRootKind::Unknown),
        SubRecord::GcRootThreadObj(_) => Some(GcRootKind::ThreadObj),
        SubRecord::GcRootJniGlobal(_) => Some(GcRootKind::JniGlobal),
        SubRecord::GcRootJniLocalRef(_) => Some(GcRootKind::JniLocalRef),
        SubRecord::GcRootJavaStackFrame(_) => Some(GcRootKind::StackFrame),
        SubRecord::GcRootNativeStack(_) => Some(GcRootKind::NativeStack),
        SubRecord::GcRootSystemClass(_) => Some(GcRootKind::SystemClass),
        SubRecord::GcRootThreadBlock(_) => Some(GcRootKind::ThreadBlock),
        SubRecord::GcRootBusyMonitor(_) => Some(GcRootKind::BusyMonitor),
        _ => None,
    }
}

/// The object that a GC root sub-record names (`obj_id` with `Id::id`), for
/// roots other than thread roots; `None` for thread roots and other
/// sub-records.
#[verifier::external_body]
fn root_object(s: &SubRecord) -> (r: Option<u64>)
    ensures
        r matches Some(o) ==> sub_item(*s) matches HeapItem::GcRoot { kind, object_id } && kind != GcRootKind::ThreadObj
            && object_id == o,
        r is None ==> !(sub_item(*s) is GcRoot) || sub_item(*s)->kind == GcRootKind::ThreadObj,
{
    match s {
        SubRecord::GcRootUnknown(r) => Some(r.obj_id().id()),
        SubRecord::GcRootJniGlobal(r) => Some(r.obj_id().id()),
        SubRecord::GcRootJniLocalRef(r) => Some(r.obj_id().id()),
        SubRecord::GcRootJavaStackFrame(r) => Some(r.obj_id().id()),
        SubRecord::GcRootNativeStack(r) => Some(r.obj_id().id()),
        SubRecord::GcRootSystemClass(r) => Some(r.obj_id().id()),
        SubRecord::GcRootThreadBlock(r) => Some(r.obj_id().id()),
        SubRecord::GcRootBusyMonitor(r) => Some(r.obj_id().id()),
        _ => None,
    }
}

/// `GcRootThreadObj::thread_obj_id` (with `Id::id`) of a thread root
/// sub-record, which may name no thread object (the root's object id then
/// reads as 0); `None` for other sub-records.
#[verifier::external_body]
fn thread_root_object(s: &SubRecord) -> (r: Option<Option<u64>>)
    ensures
        r matches Some(t) ==> sub_item(*s) matches HeapItem::GcRoot { kind, object_id } && kind == GcRootKind::ThreadObj
            && object_id == match t {
            Some(i) => i,
            None => 0,
        },
        r is None ==> !(sub_item(*s) is GcRoot) || sub_item(*s)->kind != GcRootKind::ThreadObj,
{
    match s {
        SubRecord::GcRootThreadObj(r) => Some(r.thread_obj_id().map(|i| i.id())),
        _ => None,
    }
}

/// An instance sub-record's object id, class object id and field bytes
/// (`Instance::obj_id`, `class_obj_id`, `fields`, with `Id::id`).
#[verifier::external_body]
fn instance_item(s: &SubRecord) -> (r: Option<HeapItem>)
    ensures
        r is Some <==> sub_item(*s) is Instance,
        r matches Some(i) ==> i == sub_item(*s),
{
    match s {
        SubRecord::Instance(i) => Some(HeapItem::Instance {
            object_id: i.obj_id().id(),
            class_id: i.class_obj_id().id(),
            fields: i.fields().to_vec(),
        }),
        _ => None,
    }
}

/// An object array sub-record's object id, array class object id and number
/// of elements: the entries that `ObjectArray::elements` reads, with the id
/// size the array was read with, before its first failure.  With that size
/// the array's contents hold exactly one id per element, so the iterator
/// reads its 32-bit element count.
#[verifier::external_body]
fn object_array_parts(s: &ReadSub) -> (r: Option<(u64, u64, usize)>)
    ensures
        match r {
            Some(t) => {
                &&& t.2 <= u32::MAX
                &&& sub_item(s.sub) matches HeapItem::ObjectArray { object_id, array_class_id, num_elements }
                    && object_id == t.0 && array_class_id == t.1 && num_elements == t.2
            },
            None => !(sub_item(s.sub) is ObjectArray),
        },
{
    match &s.sub {
        SubRecord::ObjectArray(a) => Some((a.obj_id().id(), a.array_class_obj_id().id(), a.elements(s.size).map_while(Result::ok).count())),
        _ => None,
    }
}

/// The primitive array that a sub-record is, if it is one.
#[verifier::external_body]
fn primitive_array_of<'a, 'b>(s: &'b SubRecord<'a>) -> (r: Option<&'b PrimitiveArray<'a>>)
    ensures
        r is Some <==> sub_item(*s) is PrimitiveArray,
        r matches Some(a) ==> prim_item(*a) == sub_item(*s),
{
    match s {
        SubRecord::PrimitiveArray(a) => Some(a),
        _ => None,
    }
}

/// What a primitive array holds, as the values that the analyses read: its
/// content length is the number of elements it reads times their width.
pub uninterp spec fn prim_item(a: PrimitiveArray) -> HeapItem;

/// `PrimitiveArray::obj_id` with `Id::id`.
#[verifier::external_body]
fn primitive_array_id(a: &PrimitiveArray) -> (r: u64)
    ensures
        r == prim_item(*a)->PrimitiveArray_object_id,
{
    a.obj_id().id()
}

/// `PrimitiveArray::primitive_type`: the element type.
#[verifier::external_body]
fn primitive_array_kind(a: &PrimitiveArray) -> (r: PrimitiveKind)
    ensures
        r == prim_item(*a)->PrimitiveArray_element_kind,
{
    match a.primitive_type() {
        PrimitiveArrayType::Boolean => PrimitiveKind::Boolean,
        PrimitiveArrayType::Char => PrimitiveKind::Char,
        PrimitiveArrayType::Float => PrimitiveKind::Float,
        PrimitiveArrayType::Double => PrimitiveKind::Double,
        PrimitiveArrayType::Byte => PrimitiveKind::Byte,
        PrimitiveArrayType::Short => PrimitiveKind::Short,
        PrimitiveArrayType::Int => PrimitiveKind::Int,
        PrimitiveArrayType::Long => PrimitiveKind::Long,
    }
}

/// The number of elements of a primitive array of booleans, chars, bytes or
/// shorts: the entries that its typed element iterator (`booleans`, `chars`,
/// `bytes`, `shorts`) reads before its first failure; `None` for the other
/// element types, whose iterators do not exist.  An iterator reads at most the
/// array's 32-bit element count, and stops at a failure (contents shorter than
/// that count) instead of repeating it.
#[verifier::external_body]
fn primitive_array_len_narrow(a: &PrimitiveArray) -> (r: Option<usize>)
    ensures
        r matches Some(n) ==> n <= u32::MAX,
        r matches Some(n) ==> (array_bytes(n as nat, prim_item(*a)->PrimitiveArray_element_kind) <= usize::MAX
            ==> prim_item(*a)->PrimitiveArray_content_len == array_bytes(n as nat, prim_item(*a)->PrimitiveArray_element_kind)),
        r is None ==> elem_width(prim_item(*a)->PrimitiveArray_element_kind) >= 4,
{
    match a.primitive_type() {
        PrimitiveArrayType::Boolean => a.booleans().map(|it| it.map_while(Result::ok).count()),
        PrimitiveArrayType::Char => a.chars().map(|it| it.map_while(Result::ok).count()),
        PrimitiveArrayType::Byte => a.bytes().map(|it| it.map_while(Result::ok).count()),
        PrimitiveArrayType::Short => a.shorts().map(|it| it.map_while(Result::ok).count()),
        _ => None,
    }
}

/// The same count for arrays of floats, doubles, ints or longs (`floats`,
/// `doubles`, `ints`, `longs`); `None` for the other element types.
#[verifier::external_body]
fn primitive_array_len_wide(a: &PrimitiveArray) -> (r: Option<usize>)
    ensures
        r matches Some(n) ==> n <= u32::MAX,
        r matches Some(n) ==> (array_bytes(n as nat, prim_item(*a)->PrimitiveArray_element_kind) <= usize::MAX
            ==> prim_item(*a)->PrimitiveArray_content_len == array_bytes(n as nat, prim_item(*a)->PrimitiveArray_element_kind)),
        r is None ==> elem_width(prim_item(*a)->PrimitiveArray_element_kind) < 4,
{
    match a.primitive_type() {
        PrimitiveArrayType::Float => a.floats().map(|it| it.map_while(Result::ok).count()),
        PrimitiveArrayType::Double => a.doubles().map(|it| it.map_while(Result::ok).count()),
        PrimitiveArrayType::Int => a.ints().map(|it| it.map_while(Result::ok).count()),
        PrimitiveArrayType::Long => a.longs().map(|it| it.map_while(Result::ok).count()),
        _ => None,
    }
}

// ── Walking the dump ─────────────────────────────────────────────────────────
//
// Every record takes at least nine bytes of the dump and every sub-record at
// least one byte of its record, so a walk never takes more steps than the
// dump has bytes: each walk over a dump (here, in `parser::analyze_hprof` and
// in `retained::compute_retained`) counts its steps against that bound.

/// Bytes taken by one element of a primitive array of this kind.
pub open spec fn elem_width(k: PrimitiveKind) -> nat {
    match k {
        PrimitiveKind::Boolean | PrimitiveKind::Byte => 1,
        PrimitiveKind::Char | PrimitiveKind::Short => 2,
        PrimitiveKind::Float | PrimitiveKind::Int => 4,
        PrimitiveKind::Double | PrimitiveKind::Long => 8,
    }
}

/// Bytes taken by `n` elements of a primitive array of this kind.
pub open spec fn array_bytes(n: nat, k: PrimitiveKind) -> nat {
    n * elem_width(k)
}

fn elem_width_of(k: PrimitiveKind) -> (w: u64)
    ensures
        w == elem_width(k),
{
    match k {
        PrimitiveKind::Boolean | PrimitiveKind::Byte => 1,
        PrimitiveKind::Char | PrimitiveKind::Short => 2,
        PrimitiveKind::Float | PrimitiveKind::Int => 4,
        PrimitiveKind::Double | PrimitiveKind::Long => 8,
    }
}

/// The values that the analyses read from one sub-record.  A primitive
/// array's content length is its element count times the element width;
/// `None` when that does not fit in `usize`.
pub(crate) fn sub_record_item(rs: &ReadSub) -> (r: Option<HeapItem>)
    ensures
        r is None ==> usize::MAX < 8 * u32::MAX,
        r matches Some(i) ==> i == read_item(*rs),
        r matches Some(HeapItem::ObjectArray { num_elements, .. }) ==> num_elements <= u32::MAX,
        r matches Some(HeapItem::PrimitiveArray { content_len, element_kind, .. }) ==> exists|n: nat|
            n <= u32::MAX && content_len == #[trigger] array_bytes(n, element_kind),
{
    let s = &rs.sub;
    if let Some(kind) = root_kind(s) {
        let object_id = match thread_root_object(s) {
            Some(Some(i)) => i,
            Some(None) => 0,
            None => match root_object(s) {
                Some(o) => o,
                None => 0,
            },
        };
        return Some(HeapItem::GcRoot { kind, object_id });
    }
    if let Some(item) = instance_item(s) {
        return Some(item);
    }
    if let Some((o, c, n)) = object_array_parts(rs) {
        return Some(HeapItem::ObjectArray { object_id: o, array_class_id: c, num_elements: n as u32 });
    }
    match primitive_array_of(s) {
        Some(a) => {
            let n: usize = match primitive_array_len_narrow(a) {
                Some(n) => n,
                None => match primitive_array_len_wide(a) {
                    Some(n) => n,
                    None => 0,
                },
            };
            let element_kind = primitive_array_kind(a);
            let ew = elem_width_of(element_kind);
            assert(n * ew <= 8 * u32::MAX) by (nonlinear_arith)
                requires
                    n <= u32::MAX,
                    ew <= 8,
            ;
            let bytes: u64 = n as u64 * ew;
            if bytes > usize::MAX as u64 {
                return None;
            }
            let object_id = primitive_array_id(a);
            let r = Some(HeapItem::PrimitiveArray { object_id, element_kind, content_len: bytes as usize });
            assert(n as nat <= u32::MAX && bytes as usize == array_bytes(n as nat, element_kind));
            r
        },
        None => Some(HeapItem::Other),
    }
}

/// The name texts that a run of UTF-8 records (name id, bytes) gives, a later
/// record for an id replacing an earlier one.
pub open spec fn texts_from(recs: Seq<(u64, Seq<u8>)>) -> Map<u64, Seq<char>>
    decreases recs.len(),
{
    if recs.len() == 0 {
        Map::empty()
    } else {
        texts_from(recs.drop_last()).insert(recs.last().0, utf8_lossy(recs.last().1))
    }
}

/// The name id of each class that a run of LOAD CLASS records (class object
/// id, name id) gives, a later record for a class replacing an earlier one.
pub open spec fn classes_from(recs: Seq<(u64, u64)>) -> Map<u64, u64>
    decreases recs.len(),
{
    if recs.len() == 0 {
        Map::empty()
    } else {
        classes_from(recs.drop_last()).insert(recs.last().0, recs.last().1)
    }
}

/// The first record tag byte that `jvm_hprof` does not know, reading the
/// records of a dump with a complete header from the start; `None` when it
/// knows every tag it reaches (so that it reads the dump without panicking on
/// a record).
pub fn unknown_record_tag(bytes: &[u8]) -> (r: Option<u8>)
    requires
        header_complete(bytes@),
    ensures
        r is None <==> tags_known(bytes@.skip(header_len(bytes@))),
        r matches Some(t) ==> !known_tag(t),
{
    proof {
        lemma_nul_from_bounds(bytes@, 0);
    }
    let mut p: usize = 0;
    while p < bytes.len() && bytes[p] != 0
        invariant
            p <= bytes@.len(),
            nul_from(bytes@, p as int) == label_len(bytes@),
        decreases bytes.len() - p,
    {
        p = p + 1;
    }
    assert(nul_from(bytes@, p as int) == p);
    p = p + 13;
    while p < bytes.len()
        invariant
            p <= bytes@.len(),
            tags_known(bytes@.skip(header_len(bytes@))) == tags_known(bytes@.skip(p as int)),
        decreases bytes.len() - p,
    {
        let ghost rest = bytes@.skip(p as int);
        let t = bytes[p];
        assert(rest[0] == t);
        if !((0x01 <= t && t <= 0x07) || (0x0A <= t && t <= 0x0E) || t == 0x1C || t == 0x2C) {
            return Some(t);
        }
        if bytes.len() - p < 9 {
            assert(!frame_ok(rest));
            return None;
        }
        proof {
            assert(rest.subrange(5, 9) =~= bytes@.subrange(p + 5, p + 9));
            crate::retained::lemma_be_value_bound(bytes@.subrange(p + 5, p + 9));
            reveal_with_fuel(crate::retained::pow256, 5);
        }
        let len = read_be(bytes, p + 5, 4);
        if len > (bytes.len() - p - 9) as u64 {
            assert(!frame_ok(rest));
            return None;
        }
        let flen = 9 + len as usize;
        proof {
            assert(frame_ok(rest));
            assert(frame_len(rest) == flen);
            assert(rest.skip(flen as int) =~= bytes@.skip(p + flen));
        }
        p = p + flen;
    }
    assert(bytes@.skip(p as int).len() == 0);
    None
}

/// The records of a parsed dump.
pub open spec fn source_frames(src: Seq<u8>) -> Seq<(u8, Seq<u8>)> {
    frames(src.skip(header_len(src)))
}

/// A complete header lies within the bytes.
pub proof fn lemma_header_within(b: Seq<u8>)
    requires
        header_complete(b),
    ensures
        0 <= header_len(b) <= b.len(),
        b.skip(header_len(b)).len() == b.len() - header_len(b),
{
    lemma_nul_from_bounds(b, 0);
}

/// The values read from two runs of records are those of each, in order.
pub proof fn lemma_frame_items_append(a: Seq<(u8, Seq<u8>)>, b: Seq<(u8, Seq<u8>)>, w: nat)
    ensures
        frame_items(a + b, w) == frame_items(a, w) + frame_items(b, w),
    decreases b.len(),
{
    if b.len() == 0 {
        assert(a + b =~= a);
        assert(frame_items(a, w) + frame_items(b, w) =~= frame_items(a, w));
    } else {
        lemma_frame_items_append(a, b.drop_last(), w);
        assert((a + b).drop_last() =~= a + b.drop_last());
        assert((a + b).last() == b.last());
    }
}

pub proof fn lemma_frames_step(rest: Seq<u8>)
    requires
        rest.len() > 0,
        frame_ok(rest),
    ensures
        frames(rest) == seq![(rest[0], rest.subrange(9, frame_len(rest)))] + frames(rest.skip(frame_len(rest))),
        frame_len(rest) >= 9,
{
}

/// The class names of a dump, from its UTF-8 and LOAD CLASS records in order:
/// each UTF-8 record's bytes, decoded, under its name id, and each LOAD CLASS
/// record's name id under its class object id.
pub(crate) fn dump_class_names(h: &Hprof, steps: usize) -> (names: ClassNames)
    requires
        header_complete(dump_source(*h)),
        tags_known(dump_source(*h).skip(header_len(dump_source(*h)))),
        steps >= dump_source(*h).len(),
    ensures
        names.texts() == texts_from(utf8_records(source_frames(dump_source(*h)), header_id_field(dump_source(*h)))),
        names.classes() == classes_from(load_records(source_frames(dump_source(*h)), header_id_field(dump_source(*h)))),
{
    let ghost src = dump_source(*h);
    let ghost w = header_id_field(src);
    let ghost all = source_frames(src);
    let mut names = ClassNames::new();
    let mut recs = dump_records(h);
    let mut fuel = steps;
    let mut stop = false;
    let ghost mut done: Seq<(u8, Seq<u8>)> = Seq::empty();
    proof {
        lemma_nul_from_bounds(src, 0);
        assert(all =~= done + frames(records_left(recs)));
        assert(names.texts() =~= texts_from(utf8_records(done, w)));
        assert(names.classes() =~= classes_from(load_records(done, w)));
    }
    while fuel > 0 && !stop
        invariant
            records_left(recs).len() <= fuel,
            all == done + frames(records_left(recs)),
            stop ==> frames(records_left(recs)).len() == 0,
            tags_known(records_left(recs)),
            records_width(recs) == w,
            names.texts() == texts_from(utf8_records(done, w)),
            names.classes() == classes_from(load_records(done, w)),
        decreases fuel + if stop { 0int } else { 1int },
    {
        let ghost rest = records_left(recs);
        match next_record(&mut recs) {
            None => {
                stop = true;
            },
            Some(rec) => {
                fuel = fuel - 1;
                let ghost f = (record_tag(rec), record_body(rec));
                proof {
                    lemma_frames_step(rest);
                    assert(all =~= done.push(f) + frames(records_left(recs)));
                }
                let ghost d1 = done.push(f);
                let ghost u0 = utf8_records(done, w);
                let ghost l0 = load_records(done, w);
                proof {
                    assert(d1.last() == f);
                    assert(d1.drop_last() =~= done);
                }
                match record_kind(&rec) {
                    RecordKind::Utf8 => {
                        if let Some((id, text)) = record_utf8(&rec) {
                            names.add_utf8(id, text);
                            proof {
                                assert(utf8_records(d1, w) == u0.push((id, text@)));
                                assert(u0.push((id, text@)).drop_last() =~= u0);
                            }
                        }
                    },
                    RecordKind::LoadClass => {
                        if let Some((cls, name)) = record_load_class(&rec) {
                            names.add_load_class(cls, name);
                            proof {
                                assert(load_records(d1, w) == l0.push((cls, name)));
                                assert(l0.push((cls, name)).drop_last() =~= l0);
                            }
                        }
                    },
                    _ => {},
                }
                proof {
                    done = d1;
                }
            },
        }
    }
    proof {
        assert(frames(records_left(recs)) =~= Seq::<(u8, Seq<u8>)>::empty());
        assert(all =~= done);
    }
    names
}

/// `e` begins with `prefix`.
pub open spec fn starts_with(e: Seq<char>, prefix: Seq<char>) -> bool {
    e.len() >= prefix.len() && e.take(prefix.len() as int) == prefix
}

/// The message for a dump whose header cannot be read.
pub(crate) fn parse_failure(prefix: &str, e: String) -> (m: String)
    ensures
        m@ == prefix@ + e@,
        starts_with(m@, prefix@),
{
    let mut m = String::from_str(prefix);
    push_str(&mut m, e.as_str());
    assert(m@.take(prefix@.len() as int) =~= prefix@);
    m
}


} // verus!
