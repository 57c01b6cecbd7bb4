use vstd::prelude::*;
use crate::text::{digit_char, hex_text, radix_digits, str_chars, string_from_chars};

verus! {

// ── Trimming ────────────────────────────────────────────────────────────────

/// Unicode white space (the `White_Space` property that `char::is_whitespace` tests).
pub open spec fn is_ws(c: char) -> bool {
    let v = c as u32;
    ||| 0x9 <= v <= 0xD
    ||| v == 0x20
    ||| v == 0x85
    ||| v == 0xA0
    ||| v == 0x1680
    ||| 0x2000 <= v <= 0x200A
    ||| v == 0x2028
    ||| v == 0x2029
    ||| v == 0x202F
    ||| v == 0x205F
    ||| v == 0x3000
}

pub open spec fn trim_start(s: Seq<char>) -> Seq<char>
    decreases s.len(),
{
    if s.len() > 0 && is_ws(s[0]) {
        trim_start(s.drop_first())
    } else {
        s
    }
}

pub open spec fn trim_end(s: Seq<char>) -> Seq<char>
    decreases s.len(),
{
    if s.len() > 0 && is_ws(s.last()) {
        trim_end(s.drop_last())
    } else {
        s
    }
}

/// `s` without leading and trailing white space.
pub open spec fn trim(s: Seq<char>) -> Seq<char> {
    trim_end(trim_start(s))
}

fn is_whitespace(c: char) -> (r: bool)
    ensures
        r == is_ws(c),
{
    let v = c as u32;
    (0x9 <= v && v <= 0xD) || v == 0x20 || v == 0x85 || v == 0xA0 || v == 0x1680 || (0x2000 <= v && v
        <= 0x200A) || v == 0x2028 || v == 0x2029 || v == 0x202F || v == 0x205F || v == 0x3000
}

/// `s` without leading and trailing white space (std `str::trim`).
pub fn trim_string(s: &str) -> (r: String)
    ensures
        r@ == trim(s@),
{
    let cs = str_chars(s);
    let n = cs.len();
    let mut i: usize = 0;
    proof {
        assert(cs@.skip(0) =~= cs@);
    }
    while i < n && is_whitespace(cs[i])
        invariant
            cs@ == s@,
            n == cs@.len(),
            i <= n,
            trim_start(cs@.skip(i as int)) == trim_start(s@),
        decreases n - i,
    {
        proof {
            assert(cs@.skip(i as int).drop_first() =~= cs@.skip(i + 1));
        }
        i = i + 1;
    }
    proof {
        assert(trim_start(cs@.skip(i as int)) == cs@.skip(i as int));
        assert(cs@.subrange(i as int, n as int) =~= cs@.skip(i as int));
    }
    let mut j: usize = n;
    while j > i && is_whitespace(cs[j - 1])
        invariant
            cs@ == s@,
            n == cs@.len(),
            i <= j <= n,
            trim_end(cs@.subrange(i as int, j as int)) == trim(s@),
        decreases j,
    {
        proof {
            assert(cs@.subrange(i as int, j as int).drop_last() =~= cs@.subrange(i as int, j - 1));
        }
        j = j - 1;
    }
    string_from_chars(&cs.as_slice()[i..j])
}

// ── Parsing unsigned numbers ────────────────────────────────────────────────

/// Value of a digit character in base `radix` (10 or 16), as `char::to_digit`.
pub open spec fn digit_val(c: char, radix: nat) -> Option<nat> {
    let v = c as u32;
    if '0' <= c <= '9' {
        Some((v - 48) as nat)
    } else if radix == 16 && 'a' <= c <= 'f' {
        Some((v - 87) as nat)
    } else if radix == 16 && 'A' <= c <= 'F' {
        Some((v - 55) as nat)
    } else {
        None
    }
}

/// Value of a digit string, `None` if some character is not a digit.
pub open spec fn digits_val(ds: Seq<char>, radix: nat) -> Option<nat>
    decreases ds.len(),
{
    if ds.len() == 0 {
        Some(0)
    } else {
        match (digits_val(ds.drop_last(), radix), digit_val(ds.last(), radix)) {
            (Some(a), Some(d)) => Some(a * radix + d),
            _ => None,
        }
    }
}

/// What `u64::from_str_radix` accepts: an optional '+', then at least one
/// digit, with a value that fits in 64 bits.
pub open spec fn parse_u64_spec(s: Seq<char>, radix: nat) -> Option<u64> {
    let ds = if s.len() > 0 && s[0] == '+' {
        s.drop_first()
    } else {
        s
    };
    if ds.len() == 0 {
        None
    } else {
        match digits_val(ds, radix) {
            Some(v) => if v <= u64::MAX {
                Some(v as u64)
            } else {
                None
            },
            None => None,
        }
    }
}

/// An object id typed by the user: hexadecimal after "0x" or "0X", else decimal.
pub open spec fn object_id_spec(raw: Seq<char>) -> Option<u64> {
    if raw.len() >= 2 && raw[0] == '0' && (raw[1] == 'x' || raw[1] == 'X') {
        parse_u64_spec(raw.skip(2), 16)
    } else {
        parse_u64_spec(raw, 10)
    }
}

proof fn lemma_digits_val_grows(ds: Seq<char>, radix: nat, k: int, a: nat)
    requires
        radix >= 1,
        0 <= k <= ds.len(),
        digits_val(ds.take(k), radix) == Some(a),
    ensures
        match digits_val(ds, radix) {
            Some(v) => v >= a,
            None => true,
        },
    decreases ds.len() - k,
{
    if k < ds.len() {
        let t = ds.take(k + 1);
        assert(t.drop_last() =~= ds.take(k));
        match digit_val(ds[k], radix) {
            Some(d) => {
                assert(a * radix + d >= a) by (nonlinear_arith)
                    requires
                        radix >= 1,
                ;
                lemma_digits_val_grows(ds, radix, k + 1, a * radix + d);
            },
            None => {
                assert(digits_val(t, radix) is None);
                lemma_digits_val_none(ds, radix, k + 1);
            },
        }
    } else {
        assert(ds.take(k) =~= ds);
    }
}

proof fn lemma_digits_val_none(ds: Seq<char>, radix: nat, k: int)
    requires
        0 <= k <= ds.len(),
        digits_val(ds.take(k), radix) is None,
    ensures
        digits_val(ds, radix) is None,
    decreases ds.len() - k,
{
    if k < ds.len() {
        assert(ds.take(k + 1).drop_last() =~= ds.take(k));
        lemma_digits_val_none(ds, radix, k + 1);
    } else {
        assert(ds.take(k) =~= ds);
    }
}

fn digit_value(c: char, radix: u64) -> (r: Option<u64>)
    requires
        radix == 10 || radix == 16,
    ensures
        match r {
            Some(d) => digit_val(c, radix as nat) == Some(d as nat),
            None => digit_val(c, radix as nat) is None,
        },
{
    let v = c as u32;
    if '0' <= c && c <= '9' {
        Some((v - 48) as u64)
    } else if radix == 16 && 'a' <= c && c <= 'f' {
        Some((v - 87) as u64)
    } else if radix == 16 && 'A' <= c && c <= 'F' {
        Some((v - 55) as u64)
    } else {
        None
    }
}

/// Parses an unsigned 64-bit number in base 10 or 16 (std `u64::from_str_radix`).
pub fn parse_u64(s: &[char], radix: u64) -> (r: Option<u64>)
    requires
        radix == 10 || radix == 16,
    ensures
        r == parse_u64_spec(s@, radix as nat),
{
    let start: usize = if s.len() > 0 && s[0] == '+' { 1 } else { 0 };
    let ghost ds = if s@.len() > 0 && s@[0] == '+' { s@.drop_first() } else { s@ };
    proof {
        assert(ds =~= s@.skip(start as int));
    }
    if start >= s.len() {
        return None;
    }
    let mut acc: u64 = 0;
    let mut i: usize = start;
    proof {
        assert(ds.take(0) =~= Seq::<char>::empty());
    }
    while i < s.len()
        invariant
            radix == 10 || radix == 16,
            start <= i <= s@.len(),
            start < s@.len(),
            ds == s@.skip(start as int),
            ds == (if s@.len() > 0 && s@[0] == '+' { s@.drop_first() } else { s@ }),
            digits_val(ds.take(i - start), radix as nat) == Some(acc as nat),
        decreases s@.len() - i,
    {
        let ghost k = i - start;
        proof {
            assert(ds.take(k + 1).drop_last() =~= ds.take(k));
            assert(ds.take(k + 1).last() == s@[i as int]);
        }
        match digit_value(s[i], radix) {
            None => {
                proof {
                    lemma_digits_val_none(ds, radix as nat, k + 1);
                }
                return None;
            },
            Some(d) => {
                match acc.checked_mul(radix) {
                    None => {
                        proof {
                            assert(acc * radix + d > u64::MAX);
                            lemma_digits_val_grows(ds, radix as nat, k + 1, (acc * radix + d) as nat);
                        }
                        return None;
                    },
                    Some(m) => match m.checked_add(d) {
                        None => {
                            proof {
                                lemma_digits_val_grows(ds, radix as nat, k + 1, (acc * radix + d) as nat);
                            }
                            return None;
                        },
                        Some(v) => {
                            acc = v;
                        },
                    },
                }
            },
        }
        i = i + 1;
    }
    proof {
        assert(ds.take(i - start) =~= ds);
    }
    Some(acc)
}

/// Reads an object id: "0x" or "0X" and hex digits, or decimal digits.
pub fn parse_object_id(raw: &str) -> (r: Option<u64>)
    ensures
        r == object_id_spec(raw@),
{
    let cs = str_chars(raw);
    if cs.len() >= 2 && cs[0] == '0' && (cs[1] == 'x' || cs[1] == 'X') {
        proof {
            assert(cs@.subrange(2, cs@.len() as int) =~= raw@.skip(2));
        }
        parse_u64(&cs.as_slice()[2..cs.len()], 16)
    } else {
        parse_u64(cs.as_slice(), 10)
    }
}

// ── Hex ids read back ───────────────────────────────────────────────────────

proof fn lemma_digit_round_trip(d: nat, radix: nat)
    requires
        radix == 10 || radix == 16,
        d < radix,
    ensures
        digit_val(digit_char(d), radix) == Some(d),
        digit_char(d) != '+',
{
    let c = digit_char(d);
    if d < 10 {
        assert(c as u32 == 48 + d);
    } else {
        assert(c as u32 == 87 + d);
    }
}

proof fn lemma_digits_val_radix(n: nat, radix: nat)
    requires
        radix == 10 || radix == 16,
    ensures
        digits_val(radix_digits(n, radix), radix) == Some(n),
        radix_digits(n, radix).len() > 0,
        radix_digits(n, radix)[0] != '+',
    decreases n,
{
    if n < radix {
        let ds = radix_digits(n, radix);
        assert(ds.drop_last() =~= Seq::<char>::empty());
        assert(ds.last() == digit_char(n));
        lemma_digit_round_trip(n, radix);
        assert(digits_val(ds.drop_last(), radix) == Some(0nat));
        assert(digits_val(ds, radix) == Some(0 * radix + n));
    } else {
        lemma_digits_val_radix(n / radix, radix);
        let ds = radix_digits(n, radix);
        assert(ds.drop_last() =~= radix_digits(n / radix, radix));
        assert(ds.last() == digit_char(n % radix));
        lemma_digit_round_trip(n % radix, radix);
        assert(n == (n / radix) * radix + n % radix) by (nonlinear_arith)
            requires
                radix > 0,
        ;
        assert(ds[0] == radix_digits(n / radix, radix)[0]);
        assert(digits_val(ds.drop_last(), radix) == Some(n / radix));
        assert(digit_val(ds.last(), radix) == Some(n % radix));
        assert(digits_val(ds, radix) == Some((n / radix) * radix + n % radix));
    }
}

/// Reading back "0x" and the lower-case hex digits of an id gives the id.
pub proof fn lemma_hex_id_round_trip(id: u64)
    ensures
        object_id_spec("0x"@ + hex_text(id as nat)) == Some(id),
{
    reveal_strlit("0x");
    lemma_digits_val_radix(id as nat, 16);
    let raw = "0x"@ + hex_text(id as nat);
    assert(raw.skip(2) =~= hex_text(id as nat));
}

} // verus!
