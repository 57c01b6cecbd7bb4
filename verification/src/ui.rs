use vstd::prelude::*;
use crate::text::{dec_text, digit, digit_char, push_char, push_radix, push_str, str_chars, string_from_chars};
use crate::utf8len::{utf8_len, char_width, on_boundary, char_len_utf8, lemma_utf8_len_push, lemma_utf8_len_take_mono, lemma_boundary_unique, lemma_prefix_is_char_boundary, lemma_encode_split, lemma_encode_injective};

verus! {

// ── Byte sizes ──────────────────────────────────────────────────────────────

/// Index of the unit a byte count is shown in: B, KB, MB, GB, TB.
pub open spec fn unit_index(b: nat) -> nat {
    if b >= 0x100_0000_0000 {
        4
    } else if b >= 0x4000_0000 {
        3
    } else if b >= 0x10_0000 {
        2
    } else if b >= 1024 {
        1
    } else {
        0
    }
}

pub open spec fn unit_name(i: nat) -> Seq<char> {
    if i == 0 {
        "B"@
    } else if i == 1 {
        "KB"@
    } else if i == 2 {
        "MB"@
    } else if i == 3 {
        "GB"@
    } else {
        "TB"@
    }
}

/// 1024 to the power `i`.
pub open spec fn pow1024(i: nat) -> nat
    decreases i,
{
    if i == 0 {
        1
    } else {
        1024 * pow1024((i - 1) as nat)
    }
}

/// `n / d` rounded to the nearest integer, halves to the even neighbour.
pub open spec fn div_round_even(n: nat, d: nat) -> nat {
    let q = n / d;
    let r = n % d;
    if 2 * r > d || (2 * r == d && q % 2 == 1) {
        q + 1
    } else {
        q
    }
}

/// The power of two that is the spacing of doubles around `b`: the least
/// `p` (from `p` upward, doubling) with `b / p` below 2^53.
pub open spec fn f64_spacing(b: nat, p: nat) -> nat
    decreases b - p,
{
    if p == 0 || b / p < 0x20_0000_0000_0000 {
        p
    } else {
        proof {
            assert(b >= 0x20_0000_0000_0000 * p) by (nonlinear_arith)
                requires
                    p > 0,
                    b / p >= 0x20_0000_0000_0000,
            ;
        }
        f64_spacing(b, 2 * p)
    }
}

/// `b` rounded to the nearest double, halves to an even significand.
pub open spec fn to_f64(b: nat) -> nat {
    let p = f64_spacing(b, 1);
    div_round_even(b, p) * p
}

/// `v100 / 100` with exactly two decimals.
pub open spec fn two_decimals(v100: nat) -> Seq<char> {
    dec_text(v100 / 100) + "."@ + seq![digit_char((v100 % 100) / 10), digit_char(v100 % 10)]
}

/// How a byte count is shown: the number in the largest unit not above it,
/// without decimals in B and KB, with two decimals from MB on, computed from
/// the count rounded to a double.
pub open spec fn fmt_bytes_spec(b: u64) -> Seq<char> {
    if b == 0 {
        "0 B"@
    } else {
        let i = unit_index(b as nat);
        let number = if i == 0 {
            dec_text(b as nat)
        } else if i == 1 {
            dec_text(div_round_even(b as nat, 1024))
        } else {
            two_decimals(div_round_even(100 * to_f64(b as nat), pow1024(i)))
        };
        number + " "@ + unit_name(i)
    }
}

fn round_even(n: u128, d: u128) -> (r: u128)
    requires
        d > 0,
        n / d < u128::MAX,
    ensures
        r == div_round_even(n as nat, d as nat),
{
    let q = n / d;
    let r = n % d;
    if r > d - r || (r == d - r && q % 2 == 1) {
        q + 1
    } else {
        q
    }
}

/// `b` rounded to the nearest double.
fn round_to_f64(b: u64) -> (r: u128)
    ensures
        r == to_f64(b as nat),
        r <= 0x2_0000_0000_0000_0000,
{
    let mut p: u64 = 1;
    while b / p >= 0x20_0000_0000_0000
        invariant
            p >= 1,
            p <= b || p == 1,
            f64_spacing(b as nat, p as nat) == f64_spacing(b as nat, 1),
        decreases b - p,
    {
        proof {
            assert(b >= 0x20_0000_0000_0000 * p) by (nonlinear_arith)
                requires
                    p > 0,
                    b / p >= 0x20_0000_0000_0000,
            ;
        }
        p = p * 2;
    }
    let q = round_even(b as u128, p as u128);
    proof {
        assert(q <= b / p + 1);
        assert(q * p <= b + p) by (nonlinear_arith)
            requires
                q <= b / p + 1,
                p >= 1,
        ;
    }
    q * (p as u128)
}

/// Human-readable byte count: "0 B", "512 B", "3 KB", "1.50 MB", "2.25 GB".
pub fn fmt_bytes(bytes: u64) -> (s: String)
    ensures
        s@ == fmt_bytes_spec(bytes),
{
    if bytes == 0 {
        let s = String::from_str("0 B");
        proof {
            reveal_strlit("0 B");
        }
        return s;
    }
    let i: u64 = if bytes >= 0x100_0000_0000 {
        4
    } else if bytes >= 0x4000_0000 {
        3
    } else if bytes >= 0x10_0000 {
        2
    } else if bytes >= 1024 {
        1
    } else {
        0
    };
    let ghost number: Seq<char> = if i == 0 {
        dec_text(bytes as nat)
    } else if i == 1 {
        dec_text(div_round_even(bytes as nat, 1024))
    } else {
        two_decimals(div_round_even(100 * to_f64(bytes as nat), pow1024(i as nat)))
    };
    let mut s = String::new();
    if i == 0 {
        push_radix(&mut s, bytes, 10);
    } else if i == 1 {
        let v = round_even(bytes as u128, 1024);
        push_radix(&mut s, v as u64, 10);
    } else {
        let f = round_to_f64(bytes);
        let d: u128 = if i == 2 {
            0x10_0000
        } else if i == 3 {
            0x4000_0000
        } else {
            0x100_0000_0000
        };
        proof {
            reveal_with_fuel(pow1024, 5);
            assert(d == pow1024(i as nat));
        }
        let n = round_even(100 * f, d);
        proof {
            assert(n <= (100 * f) as int / d as int + 1);
        }
        push_radix(&mut s, (n / 100) as u64, 10);
        push_char(&mut s, '.');
        push_char(&mut s, digit(((n % 100) / 10) as u64));
        push_char(&mut s, digit((n % 10) as u64));
        proof {
            reveal_strlit(".");
            assert(s@ =~= two_decimals(n as nat));
        }
    }
    assert(s@ =~= number);
    push_char(&mut s, ' ');
    let unit = if i == 0 {
        "B"
    } else if i == 1 {
        "KB"
    } else if i == 2 {
        "MB"
    } else if i == 3 {
        "GB"
    } else {
        "TB"
    };
    assert(unit@ == unit_name(i as nat));
    push_str(&mut s, unit);
    proof {
        reveal_strlit(" ");
        assert(fmt_bytes_spec(bytes) =~= s@);
    }
    s
}


// ── Counts with thousands separators ───────────────────────────────────────

/// Three decimal digits of `r` (below 1000), with leading zeros.
pub open spec fn pad3(r: nat) -> Seq<char> {
    seq![digit_char(r / 100), digit_char((r / 10) % 10), digit_char(r % 10)]
}

/// Decimal text of `n` with a ',' between groups of three digits.
pub open spec fn grouped(n: nat) -> Seq<char>
    decreases n,
{
    if n < 1000 {
        dec_text(n)
    } else {
        grouped(n / 1000) + ","@ + pad3(n % 1000)
    }
}

fn push_grouped(s: &mut String, n: u64)
    ensures
        final(s)@ == old(s)@ + grouped(n as nat),
    decreases n,
{
    if n < 1000 {
        push_radix(s, n, 10);
    } else {
        push_grouped(s, n / 1000);
        let r = n % 1000;
        push_char(s, ',');
        push_char(s, digit(r / 100));
        push_char(s, digit((r / 10) % 10));
        push_char(s, digit(r % 10));
        proof {
            reveal_strlit(",");
            assert(final(s)@ =~= old(s)@ + grouped(n as nat));
        }
    }
}

/// `n` in decimal with thousands separators: 1234567 gives "1,234,567".
pub fn fmt_n(n: u64) -> (s: String)
    ensures
        s@ == grouped(n as nat),
{
    let mut s = String::new();
    push_grouped(&mut s, n);
    assert(s@ =~= grouped(n as nat));
    s
}

// ── Shortening long names ───────────────────────────────────────────────────

/// Index of the last '.' in `s`, or -1.
pub open spec fn last_dot(s: Seq<char>) -> int
    decreases s.len(),
{
    if s.len() == 0 {
        -1
    } else if s.last() == '.' {
        s.len() - 1
    } else {
        last_dot(s.drop_last())
    }
}

/// The number of characters whose encoding takes `b` bytes from the start.
pub open spec fn chars_in_bytes(s: Seq<char>, b: int) -> int {
    choose|k: int| 0 <= k <= s.len() && #[trigger] utf8_len(s.take(k)) == b
}

/// Byte offset where `shorten` cuts when it keeps the start of the text.
pub open spec fn cut_offset(max: nat) -> int {
    if max >= 1 {
        max - 1
    } else {
        0
    }
}

/// Whether the tail after the last '.' fits in `max` bytes with the ellipsis.
pub open spec fn tail_fits(s: Seq<char>, max: nat) -> bool {
    last_dot(s) >= 0 && utf8_len(s.skip(last_dot(s) + 1)) + 2 <= max
}

/// `s` shortened to about `max` bytes: unchanged when it fits; else "…" and
/// the part after the last '.' when that fits in `max - 2` bytes; else the
/// first `max - 1` bytes and "…".
pub open spec fn shorten_spec(s: Seq<char>, max: nat) -> Seq<char> {
    if utf8_len(s) <= max {
        s
    } else if tail_fits(s, max) {
        "…"@ + s.skip(last_dot(s) + 1)
    } else {
        s.take(chars_in_bytes(s, cut_offset(max))) + "…"@
    }
}

/// `shorten(s, max)` does not cut inside a character.
pub open spec fn shorten_ok(s: Seq<char>, max: nat) -> bool {
    &&& utf8_len(s) <= usize::MAX
    &&& (utf8_len(s) > max && !tail_fits(s, max) ==> on_boundary(s, cut_offset(max)))
}

proof fn lemma_last_dot(s: Seq<char>)
    ensures
        -1 <= last_dot(s) < s.len(),
        last_dot(s) >= 0 ==> s[last_dot(s)] == '.',
        forall|j: int| last_dot(s) < j < s.len() ==> s[j] != '.',
    decreases s.len(),
{
    if s.len() > 0 && s.last() != '.' {
        lemma_last_dot(s.drop_last());
        assert forall|j: int| last_dot(s) < j < s.len() implies s[j] != '.' by {
            if j < s.len() - 1 {
                assert(s.drop_last()[j] == s[j]);
            }
        }
    }
}

/// Byte length of `cs[from..]`.
fn utf8_len_from(cs: &Vec<char>, from: usize) -> (n: usize)
    requires
        from <= cs@.len(),
        utf8_len(cs@) <= usize::MAX,
    ensures
        n == utf8_len(cs@.skip(from as int)),
{
    let mut n: usize = 0;
    let mut j: usize = from;
    proof {
        assert(cs@.subrange(from as int, from as int) =~= Seq::<char>::empty());
        vstd::utf8::encode_utf8(Seq::<char>::empty());
        assert(vstd::utf8::encode_utf8(Seq::<char>::empty()) =~= Seq::<u8>::empty());
    }
    while j < cs.len()
        invariant
            from <= j <= cs@.len(),
            n == utf8_len(cs@.subrange(from as int, j as int)),
            utf8_len(cs@) <= usize::MAX,
        decreases cs@.len() - j,
    {
        proof {
            assert(cs@.subrange(from as int, j + 1) =~= cs@.subrange(from as int, j as int).push(cs@[j as int]));
            lemma_utf8_len_push(cs@.subrange(from as int, j as int), cs@[j as int]);
            crate::utf8len::lemma_encode_split(cs@, from as int);
            assert(cs@.skip(from as int) =~= cs@.subrange(from as int, j + 1) + cs@.skip(j + 1));
            crate::utf8len::lemma_encode_concat(cs@.subrange(from as int, j + 1), cs@.skip(j + 1));
        }
        n = n + char_len_utf8(cs[j]);
        j = j + 1;
    }
    proof {
        assert(cs@.subrange(from as int, j as int) =~= cs@.skip(from as int));
    }
    n
}

/// Shortens `s` to about `max` bytes for a table cell (see `shorten_spec`).
pub fn shorten(s: &str, max: usize) -> (r: String)
    requires
        shorten_ok(s@, max as nat),
    ensures
        r@ == shorten_spec(s@, max as nat),
{
    let total = s.len();
    if total <= max {
        return String::from_str(s);
    }
    let cs = str_chars(s);
    let mut p: usize = cs.len();
    while p > 0 && cs[p - 1] != '.'
        invariant
            cs@ == s@,
            p <= cs@.len(),
            forall|j: int| p <= j < cs@.len() ==> cs@[j] != '.',
        decreases p,
    {
        p = p - 1;
    }
    proof {
        lemma_last_dot(s@);
        if p > 0 {
            assert(cs@[p - 1] == '.');
            assert(last_dot(s@) == p - 1);
        } else {
            assert(last_dot(s@) == -1);
        }
    }
    if p > 0 {
        let tail_len = utf8_len_from(&cs, p);
        if tail_len <= max && max - tail_len >= 2 {
            let mut r = String::from_str("…");
            let tail = string_from_chars(&cs.as_slice()[p..cs.len()]);
            assert(tail@ =~= s@.skip(last_dot(s@) + 1));
            push_str(&mut r, tail.as_str());
            return r;
        }
    }
    assert(total == utf8_len(s@));
    let m: usize = if max >= 1 { max - 1 } else { 0 };
    let mut k: usize = 0;
    let mut acc: usize = 0;
    proof {
        assert(cs@.take(0) =~= Seq::<char>::empty());
        assert(vstd::utf8::encode_utf8(Seq::<char>::empty()) =~= Seq::<u8>::empty());
    }
    while acc < m
        invariant
            cs@ == s@,
            m == cut_offset(max as nat),
            k <= cs@.len(),
            acc == utf8_len(cs@.take(k as int)),
            on_boundary(s@, m as int),
            m < total,
            total == utf8_len(s@),
            k == 0 || utf8_len(cs@.take(k - 1)) < m,
        decreases cs@.len() - k,
    {
        proof {
            let kk = choose|kk: int| 0 <= kk <= s@.len() && #[trigger] utf8_len(s@.take(kk)) == m;
            if k >= cs@.len() {
                assert(cs@.take(k as int) =~= s@);
                assert(s@.take(s@.len() as int) =~= s@);
                lemma_utf8_len_take_mono(s@, kk, s@.len() as int);
            }
            assert(k < cs@.len());
            assert(cs@.take(k + 1) =~= cs@.take(k as int).push(cs@[k as int]));
            lemma_utf8_len_push(cs@.take(k as int), cs@[k as int]);
            lemma_utf8_len_take_mono(s@, k + 1, s@.len() as int);
            assert(s@.take(s@.len() as int) =~= s@);
        }
        let ghost k0 = k;
        assert(k < cs.len());
        acc = acc + char_len_utf8(cs[k]);
        k = k + 1;
        assert(cs@.take(k - 1) == cs@.take(k0 as int));
    }
    proof {
        let kk = choose|kk: int| 0 <= kk <= s@.len() && #[trigger] utf8_len(s@.take(kk)) == m;
        if acc > m {
            // the offset m would fall inside the character before position k
            if kk < k {
                lemma_utf8_len_take_mono(s@, kk, k - 1);
                assert(cs@.take(k as int) =~= cs@.take(k - 1).push(cs@[k - 1]));
                lemma_utf8_len_push(cs@.take(k - 1), cs@[k - 1]);
            } else {
                lemma_utf8_len_take_mono(s@, k as int, kk);
            }
            assert(false);
        }
        assert(utf8_len(s@.take(k as int)) == m);
        let ck = chars_in_bytes(s@, m as int);
        lemma_boundary_unique(s@, k as int, ck);
    }
    let mut r = string_from_chars(&cs.as_slice()[0..k]);
    push_str(&mut r, "…");
    proof {
        assert(cs@.subrange(0, k as int) =~= s@.take(k as int));
    }
    r
}


// ── Input line with a cursor ────────────────────────────────────────────────

/// Splits `s` at the byte offset `cursor` into the text before the cursor,
/// the character under it and the text after it; past the end the cursor
/// shows as a space.
pub fn split_at_cursor(s: &str, cursor: usize) -> (r: (&str, &str, &str))
    requires
        utf8_len(s@) <= usize::MAX,
        cursor < utf8_len(s@) ==> on_boundary(s@, cursor as int),
    ensures
        cursor >= utf8_len(s@) ==> r.0@ == s@ && r.1@ == " "@ && r.2@ == Seq::<char>::empty(),
        forall|k: int|
            0 <= k < s@.len() && #[trigger] utf8_len(s@.take(k)) == cursor ==> {
                &&& r.0@ == s@.take(k)
                &&& r.1@ == seq![s@[k]]
                &&& r.2@ == s@.skip(k + 1)
            },
{
    let len = s.len();
    if cursor >= len {
        proof {
            assert forall|k: int| 0 <= k < s@.len() && #[trigger] utf8_len(s@.take(k)) == cursor implies false by {
                lemma_utf8_len_take_mono(s@, k + 1, s@.len() as int);
                assert(s@.take(s@.len() as int) =~= s@);
                assert(s@.take(k + 1) =~= s@.take(k).push(s@[k]));
                lemma_utf8_len_push(s@.take(k), s@[k]);
            }
            reveal_strlit(" ");
            reveal_strlit("");
        }
        return (s, " ", "");
    }
    let cs = str_chars(s);
    let mut k: usize = 0;
    let mut acc: usize = 0;
    proof {
        assert(cs@.take(0) =~= Seq::<char>::empty());
        assert(vstd::utf8::encode_utf8(Seq::<char>::empty()) =~= Seq::<u8>::empty());
    }
    while acc < cursor
        invariant
            cs@ == s@,
            k <= cs@.len(),
            acc == utf8_len(cs@.take(k as int)),
            on_boundary(s@, cursor as int),
            cursor < len,
            len == utf8_len(s@),
            k == 0 || utf8_len(cs@.take(k - 1)) < cursor,
        decreases cs@.len() - k,
    {
        proof {
            if k >= cs@.len() {
                assert(cs@.take(k as int) =~= s@);
            }
            assert(k < cs@.len());
            assert(cs@.take(k + 1) =~= cs@.take(k as int).push(cs@[k as int]));
            lemma_utf8_len_push(cs@.take(k as int), cs@[k as int]);
            lemma_utf8_len_take_mono(s@, k + 1, s@.len() as int);
            assert(s@.take(s@.len() as int) =~= s@);
        }
        let ghost k0 = k;
        assert(k < cs.len());
        acc = acc + char_len_utf8(cs[k]);
        k = k + 1;
        assert(cs@.take(k - 1) == cs@.take(k0 as int));
    }
    proof {
        let kk = choose|kk: int| 0 <= kk <= s@.len() && #[trigger] utf8_len(s@.take(kk)) == cursor;
        if acc > cursor {
            if kk < k {
                lemma_utf8_len_take_mono(s@, kk, k - 1);
            } else {
                lemma_utf8_len_take_mono(s@, k as int, kk);
            }
            assert(false);
        }
        if k >= cs@.len() {
            assert(cs@.take(k as int) =~= s@);
            assert(false);
        }
    }
    let ghost sk = s@;
    let ghost kq = k as int;
    let w = char_len_utf8(cs[k]);
    proof {
        lemma_prefix_is_char_boundary(sk, kq);
        lemma_encode_split(sk, kq);
    }
    let (a, rest) = s.split_at(cursor);
    proof {
        assert(vstd::utf8::encode_utf8(sk.take(kq)).len() == cursor);
        assert(vstd::utf8::encode_utf8(sk).subrange(0, cursor as int) =~= vstd::utf8::encode_utf8(sk.take(kq)));
        lemma_encode_injective(a@, sk.take(kq));
        assert(vstd::utf8::encode_utf8(sk).subrange(cursor as int, len as int) =~= vstd::utf8::encode_utf8(sk.skip(kq)));
        lemma_encode_injective(rest@, sk.skip(kq));
        let tail = sk.skip(kq);
        assert(tail.take(1) =~= Seq::<char>::empty().push(sk[kq]));
        lemma_utf8_len_push(Seq::<char>::empty(), sk[kq]);
        assert(vstd::utf8::encode_utf8(Seq::<char>::empty()) =~= Seq::<u8>::empty());
        assert(utf8_len(tail.take(1)) == w);
        lemma_prefix_is_char_boundary(tail, 1);
        lemma_encode_split(tail, 1);
    }
    let (b, c) = rest.split_at(w);
    proof {
        let tail = sk.skip(kq);
        let tb = vstd::utf8::encode_utf8(tail);
        assert(tb.subrange(0, w as int) =~= vstd::utf8::encode_utf8(tail.take(1)));
        lemma_encode_injective(b@, tail.take(1));
        assert(tb.subrange(w as int, tb.len() as int) =~= vstd::utf8::encode_utf8(tail.skip(1)));
        lemma_encode_injective(c@, tail.skip(1));
        assert(tail.take(1) =~= seq![sk[kq]]);
        assert(tail.skip(1) =~= sk.skip(kq + 1));
        assert forall|k2: int| 0 <= k2 < s@.len() && #[trigger] utf8_len(s@.take(k2)) == cursor implies k2 == kq by {
            lemma_boundary_unique(s@, k2, kq);
        }
    }
    (a, b, c)
}


// ── Retention tips ──────────────────────────────────────────────────────────

/// The text that `str::to_lowercase` gives for `s` (Unicode lower case).
pub uninterp spec fn lowercase(s: Seq<char>) -> Seq<char>;

/// Lower-cases a string (std `str::to_lowercase`).
#[verifier::external_body]
fn to_lowercase(s: &str) -> (r: String)
    ensures
        r@ == lowercase(s@),
{
    s.to_lowercase()
}

/// `needle` occurs in `hay`.
pub open spec fn has_sub(hay: Seq<char>, needle: Seq<char>) -> bool {
    exists|i: int| 0 <= i && i + needle.len() <= hay.len() && #[trigger] hay.subrange(i, i + needle.len()) == needle
}

fn contains_str(hay: &Vec<char>, needle: &str) -> (r: bool)
    ensures
        r == has_sub(hay@, needle@),
{
    let nd = str_chars(needle);
    let n = nd.len();
    if n > hay.len() {
        proof {
            assert forall|i: int| 0 <= i && i + needle@.len() <= hay@.len() implies #[trigger] hay@.subrange(i, i + needle@.len()) != needle@ by {}
        }
        return false;
    }
    let mut i: usize = 0;
    while i <= hay.len() - n
        invariant
            nd@ == needle@,
            n == nd@.len(),
            n <= hay@.len(),
            i <= hay@.len() - n + 1,
            forall|j: int| 0 <= j < i ==> #[trigger] hay@.subrange(j, j + n) != needle@,
        decreases hay@.len() - i,
    {
        let mut t: usize = 0;
        while t < n && hay[i + t] == nd[t]
            invariant
                nd@ == needle@,
                n == nd@.len(),
                n <= hay@.len(),
                i <= hay@.len() - n,
                i + n <= hay.len(),
                t <= n,
                forall|u: int| 0 <= u < t ==> hay@[i + u] == nd@[u],
            decreases n - t,
        {
            t = t + 1;
        }
        if t == n {
            assert(hay@.subrange(i as int, i + n) =~= needle@);
            return true;
        }
        assert(hay@.subrange(i as int, i + n)[t as int] != needle@[t as int]);
        i = i + 1;
    }
    proof {
        assert forall|j: int| 0 <= j && j + needle@.len() <= hay@.len() implies #[trigger] hay@.subrange(j, j + needle@.len()) != needle@ by {
            assert(j < i);
        }
    }
    false
}

/// Advice for a class that retains much memory, chosen by words in its
/// lower-cased name (`lower`); `class` is the name as shown.
pub open spec fn tip_spec(lower: Seq<char>, class: Seq<char>) -> Seq<char> {
    if has_sub(lower, "finalizer"@) {
        "Finalizer dominates all finalizable objects. Close JDBC/IO resources explicitly."@
    } else if has_sub(lower, "string"@) {
        "Use String.intern() or byte[]; audit caches and ThreadLocals."@
    } else if has_sub(lower, "statement"@) || has_sub(lower, "jdbc"@) {
        "Close PreparedStatement in try-with-resources; limit statement cache."@
    } else if has_sub(lower, "hashmap"@) || has_sub(lower, "map"@) {
        "Bound map sizes; use WeakHashMap or Caffeine with eviction."@
    } else if has_sub(lower, "list"@) || has_sub(lower, "array"@) {
        "Enable pagination/virtualization; trim after bulk ops."@
    } else if has_sub(lower, "thread"@) {
        "Check ThreadLocals and pool sizes; call ThreadLocal.remove()."@
    } else if has_sub(lower, "byte["@) || has_sub(lower, "char["@) {
        "Large byte/char arrays may be I/O buffers — flush and close streams."@
    } else if has_sub(lower, "session"@) {
        "Shorten session TTL; call session.invalidate() on logout."@
    } else if has_sub(lower, "cache"@) {
        "Set max size and TTL; use SoftReference or Caffeine."@
    } else {
        "Review static fields and long-lived caches holding "@ + class + "."@
    }
}

/// The retention tip for a class whose lower-cased name is `lower`.
pub fn retention_tip_from_lowercase(lower: &str, class: &str) -> (s: String)
    ensures
        s@ == tip_spec(lower@, class@),
{
    let c = str_chars(lower);
    if contains_str(&c, "finalizer") {
        String::from_str("Finalizer dominates all finalizable objects. Close JDBC/IO resources explicitly.")
    } else if contains_str(&c, "string") {
        String::from_str("Use String.intern() or byte[]; audit caches and ThreadLocals.")
    } else if contains_str(&c, "statement") || contains_str(&c, "jdbc") {
        String::from_str("Close PreparedStatement in try-with-resources; limit statement cache.")
    } else if contains_str(&c, "hashmap") || contains_str(&c, "map") {
        String::from_str("Bound map sizes; use WeakHashMap or Caffeine with eviction.")
    } else if contains_str(&c, "list") || contains_str(&c, "array") {
        String::from_str("Enable pagination/virtualization; trim after bulk ops.")
    } else if contains_str(&c, "thread") {
        String::from_str("Check ThreadLocals and pool sizes; call ThreadLocal.remove().")
    } else if contains_str(&c, "byte[") || contains_str(&c, "char[") {
        String::from_str("Large byte/char arrays may be I/O buffers — flush and close streams.")
    } else if contains_str(&c, "session") {
        String::from_str("Shorten session TTL; call session.invalidate() on logout.")
    } else if contains_str(&c, "cache") {
        String::from_str("Set max size and TTL; use SoftReference or Caffeine.")
    } else {
        let mut s = String::from_str("Review static fields and long-lived caches holding ");
        push_str(&mut s, class);
        push_str(&mut s, ".");
        s
    }
}

/// The retention tip for a class, matched case-insensitively.
pub fn retention_tip(class: &str) -> (s: String)
    ensures
        s@ == tip_spec(lowercase(class@), class@),
{
    let lower = to_lowercase(class);
    retention_tip_from_lowercase(lower.as_str(), class)
}


// ── Laws ────────────────────────────────────────────────────────────────────

proof fn lemma_chars_le_bytes(s: Seq<char>)
    ensures
        s.len() <= utf8_len(s),
{
    lemma_utf8_len_take_mono(s, 0, s.len() as int);
    assert(s.take(0) =~= Seq::<char>::empty());
    assert(vstd::utf8::encode_utf8(Seq::<char>::empty()) =~= Seq::<u8>::empty());
    assert(s.take(s.len() as int) =~= s);
}

/// A shortened name takes at most `max` characters (one, the ellipsis, when
/// `max` is 0).
pub proof fn lemma_shorten_width(s: Seq<char>, max: nat)
    requires
        shorten_ok(s, max),
    ensures
        shorten_spec(s, max).len() <= if max >= 1 { max } else { 1 },
{
    reveal_strlit("…");
    if utf8_len(s) <= max {
        lemma_chars_le_bytes(s);
    } else if tail_fits(s, max) {
        lemma_chars_le_bytes(s.skip(last_dot(s) + 1));
    } else {
        let k = chars_in_bytes(s, cut_offset(max));
        assert(0 <= k <= s.len() && utf8_len(s.take(k)) == cut_offset(max));
        lemma_chars_le_bytes(s.take(k));
    }
}

/// A name that fits is left as it is.
pub proof fn lemma_shorten_keeps_short(s: Seq<char>, max: nat)
    requires
        utf8_len(s) <= max,
    ensures
        shorten_spec(s, max) == s,
{
}

/// `s` without its ',' characters.
pub open spec fn strip_commas(s: Seq<char>) -> Seq<char>
    decreases s.len(),
{
    if s.len() == 0 {
        s
    } else if s.last() == ',' {
        strip_commas(s.drop_last())
    } else {
        strip_commas(s.drop_last()).push(s.last())
    }
}

proof fn lemma_strip_concat(a: Seq<char>, b: Seq<char>)
    ensures
        strip_commas(a + b) == strip_commas(a) + strip_commas(b),
    decreases b.len(),
{
    if b.len() == 0 {
        assert(a + b =~= a);
        assert(strip_commas(a) + strip_commas(b) =~= strip_commas(a));
    } else {
        assert((a + b).drop_last() =~= a + b.drop_last());
        lemma_strip_concat(a, b.drop_last());
        if b.last() != ',' {
            assert(strip_commas(a + b) =~= strip_commas(a) + strip_commas(b));
        }
    }
}

proof fn lemma_digit_not_comma(d: nat)
    requires
        d < 10,
    ensures
        digit_char(d) != ',',
{
    assert(digit_char(d) as u32 == 48 + d);
}

proof fn lemma_dec_no_commas(n: nat)
    ensures
        strip_commas(dec_text(n)) == dec_text(n),
    decreases n,
{
    let ds = dec_text(n);
    if n < 10 {
        lemma_digit_not_comma(n);
        assert(ds.drop_last() =~= Seq::<char>::empty());
        assert(strip_commas(Seq::<char>::empty()) == Seq::<char>::empty());
        assert(strip_commas(ds) == strip_commas(ds.drop_last()).push(ds.last()));
        assert(strip_commas(ds) =~= ds);
    } else {
        lemma_dec_no_commas(n / 10);
        lemma_digit_not_comma(n % 10);
        assert(ds.drop_last() == dec_text(n / 10));
        assert(ds.last() == digit_char(n % 10));
        assert(strip_commas(ds) == strip_commas(ds.drop_last()).push(ds.last()));
        assert(strip_commas(ds) =~= ds);
    }
}

/// Removing the separators from a grouped count gives its decimal digits.
pub proof fn lemma_grouped_digits(n: nat)
    ensures
        strip_commas(grouped(n)) == dec_text(n),
    decreases n,
{
    if n < 1000 {
        lemma_dec_no_commas(n);
    } else {
        lemma_grouped_digits(n / 1000);
        let r = n % 1000;
        reveal_strlit(",");
        lemma_strip_concat(grouped(n / 1000) + ","@, pad3(r));
        lemma_strip_concat(grouped(n / 1000), ","@);
        assert(strip_commas(","@) =~= Seq::<char>::empty()) by {
            assert(","@.len() == 1 && ","@.last() == ',');
            assert(","@.drop_last() =~= Seq::<char>::empty());
            assert(strip_commas(Seq::<char>::empty()) == Seq::<char>::empty());
        }
        lemma_digit_not_comma(r / 100);
        lemma_digit_not_comma((r / 10) % 10);
        lemma_digit_not_comma(r % 10);
        let p = pad3(r);
        let p1 = p.drop_last();
        let p2 = p1.drop_last();
        assert(p2.drop_last() =~= Seq::<char>::empty());
        assert(strip_commas(Seq::<char>::empty()) == Seq::<char>::empty());
        assert(strip_commas(p2) =~= p2);
        assert(strip_commas(p1) =~= p1);
        assert(strip_commas(p) =~= p);
        assert(r / 100 == (n / 100) % 10 && (r / 10) % 10 == (n / 10) % 10 && r % 10 == n % 10) by (nonlinear_arith)
            requires
                r == n % 1000,
        ;
        assert(n / 10 >= 100 && n / 100 >= 10 && (n / 10) / 10 == n / 100 && (n / 100) / 10 == n / 1000) by (nonlinear_arith)
            requires
                n >= 1000,
        ;
        let d3 = dec_text(n / 1000);
        assert(dec_text(n / 100) == d3.push(digit_char((n / 100) % 10)));
        assert(dec_text(n / 10) == dec_text(n / 100).push(digit_char((n / 10) % 10)));
        assert(dec_text(n) == dec_text(n / 10).push(digit_char(n % 10)));
        assert(dec_text(n) =~= d3 + p);
    }
}

} // verus!
