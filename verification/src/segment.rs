//! The framing of the sub-records in a heap dump segment's body.
//!
//! A sub-record is a tag byte followed by fields whose sizes depend on the
//! tag, on the size of object ids and, for class dumps and arrays, on counts
//! read from the sub-record itself.  `jvm_hprof` stops (with an error) at a
//! sub-record that is cut short, and panics on a tag, a static field type or
//! a primitive array type it does not know, on a class dump whose constant
//! pool is not empty, and (in debug builds) on an array whose byte length
//! overflows its integer type.  Lengths below are -1 for a sub-record that is
//! cut short and -2 for one that `jvm_hprof` panics on.
use vstd::prelude::*;
use crate::retained::{be_value, read_be, lemma_be_value_bound, pow256};
use crate::dump::{
    header_complete, header_id_ok, header_id_field, header_len, dump_frames, frames, frame_ok, frame_len,
    is_segment_tag, nul_from, label_len, header_id_size,
};

verus! {

/// The big-endian value of the `n` bytes at `at` of `rest`.
pub open spec fn be_at(rest: Seq<u8>, at: int, n: int) -> nat {
    be_value(rest.subrange(at, at + n))
}

/// Bytes taken by the value of a field whose type byte is `t`, with object
/// ids of `w` bytes; -1 for a type byte that `jvm_hprof` does not know.
pub open spec fn field_width(t: u8, w: nat) -> int {
    if t == 0x02 {
        w as int
    } else if t == 0x04 || t == 0x08 {
        1
    } else if t == 0x05 || t == 0x09 {
        2
    } else if t == 0x06 || t == 0x0A {
        4
    } else if t == 0x07 || t == 0x0B {
        8
    } else {
        -1
    }
}

/// Bytes taken by one element of a primitive array whose type byte is `t`;
/// -1 for a type byte that `jvm_hprof` does not know.
pub open spec fn prim_width(t: u8) -> int {
    if t == 0x02 {
        -1
    } else {
        field_width(t, 0)
    }
}

/// A length, or the failure of what it was read after.
pub open spec fn then_add(a: int, t: int) -> int {
    if t < 0 {
        t
    } else {
        a + t
    }
}

/// Bytes taken by `n` static field entries (name id, type byte, value) at
/// the start of `rest`.
pub open spec fn statics_len(rest: Seq<u8>, w: nat, n: nat) -> int
    decreases n,
{
    if n == 0 {
        0
    } else if rest.len() < w + 1 {
        -1
    } else if field_width(rest[w as int], w) < 0 {
        -2
    } else if rest.len() < w + 1 + field_width(rest[w as int], w) {
        -1
    } else {
        then_add(
            w + 1 + field_width(rest[w as int], w),
            statics_len(rest.skip(w + 1 + field_width(rest[w as int], w)), w, (n - 1) as nat),
        )
    }
}

/// A sub-record of `n` bytes: `n`, or -1 when `rest` is shorter.
pub open spec fn fixed_step(rest: Seq<u8>, n: int) -> int {
    if rest.len() < n {
        -1
    } else {
        n
    }
}

/// A class dump: its object id, a serial number, six more ids, the instance
/// size, the constant pool's length (which must be 0), the static fields
/// with their count, and the instance field descriptors with their count.
pub open spec fn class_step(rest: Seq<u8>, w: int) -> int {
    if rest.len() < 7 * w + 11 {
        -1
    } else if be_at(rest, 7 * w + 9, 2) != 0 {
        -2
    } else if rest.len() < 7 * w + 13 {
        -1
    } else {
        let s = statics_len(rest.skip(7 * w + 13), w as nat, be_at(rest, 7 * w + 11, 2));
        if s < 0 {
            s
        } else if rest.len() < 7 * w + 15 + s {
            -1
        } else {
            fixed_step(rest, 7 * w + 15 + s + be_at(rest, 7 * w + 13 + s, 2) * (w + 1))
        }
    }
}

/// An instance dump: object id, serial number, class id, then its field
/// bytes with their 4-byte length.
pub open spec fn instance_step(rest: Seq<u8>, w: int) -> int {
    if rest.len() < 2 * w + 9 {
        -1
    } else {
        fixed_step(rest, 2 * w + 9 + be_at(rest, 2 * w + 5, 4))
    }
}

/// An object array: object id, serial number, element count, class id, then
/// one id per element.
pub open spec fn object_array_step(rest: Seq<u8>, w: int) -> int {
    if rest.len() < 2 * w + 9 {
        -1
    } else if be_at(rest, w + 5, 4) * w > usize::MAX {
        -2
    } else {
        fixed_step(rest, 2 * w + 9 + be_at(rest, w + 5, 4) * w)
    }
}

/// A primitive array: object id, serial number, element count, element type
/// byte, then the elements.
pub open spec fn primitive_array_step(rest: Seq<u8>, w: int) -> int {
    if rest.len() < w + 10 {
        -1
    } else if prim_width(rest[w + 9]) < 0 {
        -2
    } else if be_at(rest, w + 5, 4) * prim_width(rest[w + 9]) > u32::MAX {
        -2
    } else {
        fixed_step(rest, w + 10 + be_at(rest, w + 5, 4) * prim_width(rest[w + 9]))
    }
}

/// Bytes taken by the sub-record at the start of a non-empty `rest`.
pub open spec fn sub_step(rest: Seq<u8>, w: nat) -> int {
    let t = rest[0];
    let w = w as int;
    if t == 0xFF || t == 0x05 || t == 0x07 {
        fixed_step(rest, 1 + w)
    } else if t == 0x01 {
        fixed_step(rest, 1 + 2 * w)
    } else if t == 0x08 || t == 0x02 || t == 0x03 {
        fixed_step(rest, 9 + w)
    } else if t == 0x04 || t == 0x06 {
        fixed_step(rest, 5 + w)
    } else if t == 0x20 {
        class_step(rest, w)
    } else if t == 0x21 {
        instance_step(rest, w)
    } else if t == 0x22 {
        object_array_step(rest, w)
    } else if t == 0x23 {
        primitive_array_step(rest, w)
    } else {
        -2
    }
}

/// `jvm_hprof` reads the sub-records of `rest` in order, with ids of `w`
/// bytes, without panicking: up to its end or to the first one that is cut
/// short.
pub open spec fn segment_readable(rest: Seq<u8>, w: nat) -> bool
    decreases rest.len(),
{
    if rest.len() == 0 {
        true
    } else if sub_step(rest, w) == -2 {
        false
    } else if 1 <= sub_step(rest, w) <= rest.len() {
        segment_readable(rest.skip(sub_step(rest, w)), w)
    } else {
        true
    }
}

/// Every heap dump segment among the records `fr` is readable with ids of
/// `w` bytes.
pub open spec fn segments_ok(fr: Seq<(u8, Seq<u8>)>, w: nat) -> bool {
    forall|i: int| 0 <= i < fr.len() && is_segment_tag(#[trigger] fr[i].0) ==> segment_readable(fr[i].1, w)
}

/// The outcome of reading one sub-record's framing.
enum Step {
    /// The sub-record is cut short.
    Short,
    /// `jvm_hprof` cannot read it.
    Unknown,
    /// It takes this many bytes.
    Takes(usize),
}

spec fn step_value(s: Step) -> int {
    match s {
        Step::Short => -1,
        Step::Unknown => -2,
        Step::Takes(n) => n as int,
    }
}

proof fn lemma_sub_at(b: Seq<u8>, p: int, end: int, a: int, n: int)
    requires
        0 <= p <= end <= b.len(),
        0 <= a,
        0 <= n,
        a + n <= end - p,
    ensures
        b.subrange(p, end).subrange(a, a + n) == b.subrange(p + a, p + a + n),
{
    assert(b.subrange(p, end).subrange(a, a + n) =~= b.subrange(p + a, p + a + n));
}

proof fn lemma_skip_sub(b: Seq<u8>, p: int, end: int, k: int)
    requires
        0 <= p,
        0 <= k,
        p + k <= end <= b.len(),
    ensures
        b.subrange(p, end).skip(k) == b.subrange(p + k, end),
{
    assert(b.subrange(p, end).skip(k) =~= b.subrange(p + k, end));
}

/// The big-endian value of `n` (1, 2 or 4) bytes at `pos`.
fn read_at(bytes: &[u8], pos: usize, n: usize) -> (v: u64)
    requires
        n == 1 || n == 2 || n == 4,
        pos + n <= bytes@.len(),
    ensures
        v == be_value(bytes@.subrange(pos as int, pos + n)),
        v < 0x1_0000_0000,
{
    proof {
        lemma_be_value_bound(bytes@.subrange(pos as int, pos + n));
        reveal_with_fuel(pow256, 5);
    }
    read_be(bytes, pos, n)
}

/// The width of a static field's value of type byte `t`.
fn field_width_of(t: u8, w: usize) -> (r: Option<usize>)
    requires
        w == 4 || w == 8,
    ensures
        match r {
            Some(n) => field_width(t, w as nat) == n && n <= 8,
            None => field_width(t, w as nat) == -1,
        },
{
    if t == 0x02 {
        Some(w)
    } else if t == 0x04 || t == 0x08 {
        Some(1)
    } else if t == 0x05 || t == 0x09 {
        Some(2)
    } else if t == 0x06 || t == 0x0A {
        Some(4)
    } else if t == 0x07 || t == 0x0B {
        Some(8)
    } else {
        None
    }
}

/// The length of `n` static field entries at `q0`, within `bytes[..end]`.
fn statics_at(bytes: &[u8], q0: usize, end: usize, w: usize, n: u64) -> (r: Step)
    requires
        q0 <= end <= bytes@.len(),
        w == 4 || w == 8,
    ensures
        step_value(r) == statics_len(bytes@.subrange(q0 as int, end as int), w as nat, n as nat),
        r matches Step::Takes(k) ==> k <= end - q0,
{
    let ghost w0 = w as nat;
    let mut q = q0;
    let mut left = n;
    while left > 0
        invariant
            q0 <= q <= end <= bytes@.len(),
            w == 4 || w == 8,
            w0 == w,
            left <= n,
            statics_len(bytes@.subrange(q0 as int, end as int), w0, n as nat) == then_add(
                q - q0,
                statics_len(bytes@.subrange(q as int, end as int), w0, left as nat),
            ),
        decreases left,
    {
        let ghost rest = bytes@.subrange(q as int, end as int);
        if end - q < w + 1 {
            return Step::Short;
        }
        let t = bytes[q + w];
        assert(rest[w as int] == t);
        let fw = match field_width_of(t, w) {
            Some(f) => f,
            None => return Step::Unknown,
        };
        if end - q - (w + 1) < fw {
            return Step::Short;
        }
        let e = w + 1 + fw;
        proof {
            lemma_skip_sub(bytes@, q as int, end as int, e as int);
        }
        q = q + e;
        left = left - 1;
    }
    Step::Takes(q - q0)
}

/// A sub-record of `n` bytes in `len` bytes.
fn fixed_at(len: usize, n: u64) -> (r: Step)
    ensures
        step_value(r) == if len < n { -1 } else { n as int },
        r matches Step::Takes(k) ==> k <= len,
{
    if (len as u64) < n {
        Step::Short
    } else {
        Step::Takes(n as usize)
    }
}

/// The framing of the class dump at `p`, within `bytes[..end]`.
fn class_at(bytes: &[u8], p: usize, end: usize, w: usize) -> (r: Step)
    requires
        p < end <= bytes@.len(),
        w == 4 || w == 8,
    ensures
        step_value(r) == class_step(bytes@.subrange(p as int, end as int), w as int),
        r matches Step::Takes(k) ==> 1 <= k <= end - p,
{
    let len = end - p;
    if len < 7 * w + 11 {
        return Step::Short;
    }
    proof {
        lemma_sub_at(bytes@, p as int, end as int, 7 * w + 9, 2);
    }
    let cp = read_at(bytes, p + 7 * w + 9, 2);
    if cp != 0 {
        return Step::Unknown;
    }
    if len < 7 * w + 13 {
        return Step::Short;
    }
    proof {
        lemma_sub_at(bytes@, p as int, end as int, 7 * w + 11, 2);
        lemma_skip_sub(bytes@, p as int, end as int, 7 * w + 13);
    }
    let ns = read_at(bytes, p + 7 * w + 11, 2);
    let s = match statics_at(bytes, p + 7 * w + 13, end, w, ns) {
        Step::Takes(s) => s,
        Step::Short => return Step::Short,
        Step::Unknown => return Step::Unknown,
    };
    if len - (7 * w + 13) - s < 2 {
        return Step::Short;
    }
    proof {
        lemma_sub_at(bytes@, p as int, end as int, 7 * w + 13 + s, 2);
    }
    let ni = read_at(bytes, p + 7 * w + 13 + s, 2);
    let head = 7 * w + 15 + s;
    let tail = ni * (w as u64 + 1);
    if ((len - head) as u64) < tail {
        Step::Short
    } else {
        Step::Takes(head + tail as usize)
    }
}

/// The framing of the instance dump at `p`, within `bytes[..end]`.
fn instance_at(bytes: &[u8], p: usize, end: usize, w: usize) -> (r: Step)
    requires
        p < end <= bytes@.len(),
        w == 4 || w == 8,
    ensures
        step_value(r) == instance_step(bytes@.subrange(p as int, end as int), w as int),
        r matches Step::Takes(k) ==> 1 <= k <= end - p,
{
    let len = end - p;
    if len < 2 * w + 9 {
        return Step::Short;
    }
    proof {
        lemma_sub_at(bytes@, p as int, end as int, 2 * w + 5, 4);
    }
    let n = read_at(bytes, p + 2 * w + 5, 4);
    if ((len - (2 * w + 9)) as u64) < n {
        Step::Short
    } else {
        Step::Takes(2 * w + 9 + n as usize)
    }
}

/// The framing of the object array at `p`, within `bytes[..end]`.
fn object_array_at(bytes: &[u8], p: usize, end: usize, w: usize) -> (r: Step)
    requires
        p < end <= bytes@.len(),
        w == 4 || w == 8,
    ensures
        step_value(r) == object_array_step(bytes@.subrange(p as int, end as int), w as int),
        r matches Step::Takes(k) ==> 1 <= k <= end - p,
{
    let len = end - p;
    if len < 2 * w + 9 {
        return Step::Short;
    }
    proof {
        lemma_sub_at(bytes@, p as int, end as int, w + 5, 4);
    }
    let n = read_at(bytes, p + w + 5, 4);
    assert(n * (w as u64) <= 8 * 0x1_0000_0000) by (nonlinear_arith)
        requires
            n < 0x1_0000_0000,
            w <= 8,
    ;
    let body = n * w as u64;
    if body > usize::MAX as u64 {
        return Step::Unknown;
    }
    if ((len - (2 * w + 9)) as u64) < body {
        Step::Short
    } else {
        Step::Takes(2 * w + 9 + body as usize)
    }
}

/// The framing of the primitive array at `p`, within `bytes[..end]`.
fn primitive_array_at(bytes: &[u8], p: usize, end: usize, w: usize) -> (r: Step)
    requires
        p < end <= bytes@.len(),
        w == 4 || w == 8,
    ensures
        step_value(r) == primitive_array_step(bytes@.subrange(p as int, end as int), w as int),
        r matches Step::Takes(k) ==> 1 <= k <= end - p,
{
    let ghost rest = bytes@.subrange(p as int, end as int);
    let len = end - p;
    if len < w + 10 {
        return Step::Short;
    }
    let et = bytes[p + w + 9];
    assert(rest[w + 9] == et);
    if et == 0x02 {
        return Step::Unknown;
    }
    let pw: u64 = match field_width_of(et, w) {
        Some(f) => f as u64,
        None => return Step::Unknown,
    };
    assert(pw <= 8 && prim_width(et) == pw);
    proof {
        lemma_sub_at(bytes@, p as int, end as int, w + 5, 4);
    }
    let n = read_at(bytes, p + w + 5, 4);
    assert(n * pw <= 8 * 0x1_0000_0000) by (nonlinear_arith)
        requires
            n < 0x1_0000_0000,
            pw <= 8,
    ;
    let body = n * pw;
    if body > 0xFFFF_FFFF {
        return Step::Unknown;
    }
    if ((len - (w + 10)) as u64) < body {
        Step::Short
    } else {
        Step::Takes(w + 10 + body as usize)
    }
}

/// The framing of the sub-record at `p`, within `bytes[..end]`.
fn sub_step_at(bytes: &[u8], p: usize, end: usize, w: usize) -> (r: Step)
    requires
        p < end <= bytes@.len(),
        w == 4 || w == 8,
    ensures
        step_value(r) == sub_step(bytes@.subrange(p as int, end as int), w as nat),
        r matches Step::Takes(k) ==> 1 <= k <= end - p,
{
    let ghost rest = bytes@.subrange(p as int, end as int);
    let len = end - p;
    let t = bytes[p];
    assert(rest[0] == t);
    if t == 0xFF || t == 0x05 || t == 0x07 {
        fixed_at(len, 1 + w as u64)
    } else if t == 0x01 {
        fixed_at(len, 1 + 2 * w as u64)
    } else if t == 0x08 || t == 0x02 || t == 0x03 {
        fixed_at(len, 9 + w as u64)
    } else if t == 0x04 || t == 0x06 {
        fixed_at(len, 5 + w as u64)
    } else if t == 0x20 {
        class_at(bytes, p, end, w)
    } else if t == 0x21 {
        instance_at(bytes, p, end, w)
    } else if t == 0x22 {
        object_array_at(bytes, p, end, w)
    } else if t == 0x23 {
        primitive_array_at(bytes, p, end, w)
    } else {
        Step::Unknown
    }
}

/// Whether `jvm_hprof` reads the sub-records of `bytes[start..end]` without
/// panicking.
fn body_readable(bytes: &[u8], start: usize, end: usize, w: usize) -> (r: bool)
    requires
        start <= end <= bytes@.len(),
        w == 4 || w == 8,
    ensures
        r == segment_readable(bytes@.subrange(start as int, end as int), w as nat),
{
    let mut p = start;
    while p < end
        invariant
            start <= p <= end <= bytes@.len(),
            w == 4 || w == 8,
            segment_readable(bytes@.subrange(start as int, end as int), w as nat) == segment_readable(
                bytes@.subrange(p as int, end as int),
                w as nat,
            ),
        decreases end - p,
    {
        match sub_step_at(bytes, p, end, w) {
            Step::Unknown => return false,
            Step::Short => return true,
            Step::Takes(n) => {
                proof {
                    lemma_skip_sub(bytes@, p as int, end as int, n as int);
                }
                p = p + n;
            },
        }
    }
    assert(bytes@.subrange(p as int, end as int).len() == 0);
    true
}

/// `segments_ok` of one record followed by others.
proof fn lemma_segments_ok_cons(f: (u8, Seq<u8>), rest: Seq<(u8, Seq<u8>)>, w: nat)
    ensures
        segments_ok(seq![f] + rest, w) == ((is_segment_tag(f.0) ==> segment_readable(f.1, w)) && segments_ok(
            rest,
            w,
        )),
{
    let all = seq![f] + rest;
    assert(all[0] == f);
    if segments_ok(all, w) {
        assert forall|i: int| 0 <= i < rest.len() && is_segment_tag(#[trigger] rest[i].0) implies segment_readable(
            rest[i].1,
            w,
        ) by {
            assert(all[i + 1] == rest[i]);
        }
    }
    if (is_segment_tag(f.0) ==> segment_readable(f.1, w)) && segments_ok(rest, w) {
        assert forall|i: int| 0 <= i < all.len() && is_segment_tag(#[trigger] all[i].0) implies segment_readable(
            all[i].1,
            w,
        ) by {
            if i > 0 {
                assert(all[i] == rest[i - 1]);
            }
        }
    }
}

/// Whether `jvm_hprof` reads the sub-records of every heap dump segment of a
/// dump without panicking, with the header's id size: when it does not, it
/// panics on the first sub-record it cannot read.
pub fn segments_readable(bytes: &[u8]) -> (r: bool)
    requires
        header_complete(bytes@),
        header_id_ok(bytes@),
    ensures
        r == segments_ok(dump_frames(bytes@), header_id_field(bytes@)),
{
    let w: usize = match header_id_size(bytes) {
        Some(8) => 8,
        _ => 4,
    };
    let ghost wn = header_id_field(bytes@);
    assert(w == wn);
    let mut p: usize = 0;
    while p < bytes.len() && bytes[p] != 0
        invariant
            p <= bytes@.len(),
            nul_from(bytes@, p as int) == label_len(bytes@),
        decreases bytes.len() - p,
    {
        p = p + 1;
    }
    assert(nul_from(bytes@, p as int) == p);
    p = p + 13;
    while p < bytes.len()
        invariant
            p <= bytes@.len(),
            w == wn,
            wn == header_id_field(bytes@),
            w == 4 || w == 8,
            segments_ok(dump_frames(bytes@), wn) == segments_ok(frames(bytes@.skip(p as int)), wn),
        decreases bytes.len() - p,
    {
        let ghost rest = bytes@.skip(p as int);
        if bytes.len() - p < 9 {
            assert(!frame_ok(rest));
            assert(frames(rest) =~= Seq::<(u8, Seq<u8>)>::empty());
            assert(segments_ok(frames(rest), wn));
            return true;
        }
        proof {
            assert(rest.subrange(5, 9) =~= bytes@.subrange(p + 5, p + 9));
            lemma_be_value_bound(bytes@.subrange(p + 5, p + 9));
            reveal_with_fuel(pow256, 5);
        }
        let len = read_be(bytes, p + 5, 4);
        if len > (bytes.len() - p - 9) as u64 {
            assert(!frame_ok(rest));
            assert(frames(rest) =~= Seq::<(u8, Seq<u8>)>::empty());
            assert(segments_ok(frames(rest), wn));
            return true;
        }
        let flen = 9 + len as usize;
        let t = bytes[p];
        proof {
            assert(rest[0] == t);
            assert(frame_ok(rest));
            assert(frame_len(rest) == flen);
            assert(rest.skip(flen as int) =~= bytes@.skip(p + flen));
            assert(rest.subrange(9, flen as int) =~= bytes@.subrange(p + 9, p + flen));
            crate::dump::lemma_frames_step(rest);
            lemma_segments_ok_cons((rest[0], rest.subrange(9, frame_len(rest))), frames(rest.skip(frame_len(rest))), wn);
        }
        if t == 0x0C || t == 0x1C {
            if !body_readable(bytes, p + 9, p + flen, w) {
                return false;
            }
        }
        p = p + flen;
    }
    assert(bytes@.skip(p as int).len() == 0);
    assert(frames(bytes@.skip(p as int)) =~= Seq::<(u8, Seq<u8>)>::empty());
    true
}

} // verus!
