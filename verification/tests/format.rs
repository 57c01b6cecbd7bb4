use hprof_tui::objid::{parse_object_id, trim_string};
use hprof_tui::parser::SuspectSeverity;
use hprof_tui::ui::{fmt_bytes, fmt_n, retention_tip, retention_tip_from_lowercase, shorten, split_at_cursor};

/// The rendering of byte counts as floating point does it.
fn fmt_bytes_with_floats(b: u64) -> String {
    if b == 0 {
        return "0 B".to_string();
    }
    const U: &[&str] = &["B", "KB", "MB", "GB", "TB"];
    let i = ((b as f64).log(1024.0).floor() as usize).min(U.len() - 1);
    let v = b as f64 / 1024f64.powi(i as i32);
    if i > 1 {
        format!("{:.2} {}", v, U[i])
    } else {
        format!("{:.0} {}", v, U[i])
    }
}

#[test]
fn fmt_bytes_small_values() {
    assert_eq!(fmt_bytes(0), "0 B");
    assert_eq!(fmt_bytes(1), "1 B");
    assert_eq!(fmt_bytes(512), "512 B");
    assert_eq!(fmt_bytes(1023), "1023 B");
}

#[test]
fn fmt_bytes_units() {
    assert_eq!(fmt_bytes(1024), "1 KB");
    assert_eq!(fmt_bytes(1048576), "1.00 MB");
    assert_eq!(fmt_bytes(1073741824), "1.00 GB");
    assert_eq!(fmt_bytes(1099511627776), "1.00 TB");
    assert_eq!(fmt_bytes(1024 * 1099511627776), "1024.00 TB");
}

#[test]
fn fmt_bytes_rounds_halves_to_even() {
    // 1.5 KB and 2.5 KB
    assert_eq!(fmt_bytes(1536), fmt_bytes_with_floats(1536));
    assert_eq!(fmt_bytes(2560), fmt_bytes_with_floats(2560));
    // 1.125 MB
    assert_eq!(fmt_bytes(1179648), fmt_bytes_with_floats(1179648));
}

#[test]
fn fmt_bytes_agrees_with_floats() {
    let mut samples: Vec<u64> = vec![
        1, 7, 999, 1000, 1023, 1024, 1025, 1535, 1536, 1537, 2047, 2048, 10239, 10240,
        1048575, 1048576, 1048577, 1572864, 5 * 1048576 + 12345, 1073741823, 1073741824,
        1073741825, 1099511627775, 1099511627776, 1099511627777, 123456789012345,
        (1u64 << 53) - 1, 1u64 << 53, (1u64 << 53) + 1, (1u64 << 60) + 12345, u64::MAX - 1, u64::MAX,
    ];
    let mut x: u64 = 0x9E37_79B9_7F4A_7C15;
    for _ in 0..2000 {
        x ^= x << 13;
        x ^= x >> 7;
        x ^= x << 17;
        samples.push(x >> (x % 64));
    }
    for k in 1..64u32 {
        samples.push((1u64 << k) - 1);
        samples.push(1u64 << k);
        samples.push((1u64 << k) + 1);
    }
    for b in samples {
        assert_eq!(fmt_bytes(b), fmt_bytes_with_floats(b), "bytes = {}", b);
    }
}

#[test]
fn parser_fmt_bytes_matches_ui() {
    for b in [0u64, 5, 4096, 3 * 1048576, 7 * 1099511627776] {
        assert_eq!(hprof_tui::parser::fmt_bytes(b), fmt_bytes(b));
    }
}

#[test]
fn fmt_n_groups_thousands() {
    assert_eq!(fmt_n(0), "0");
    assert_eq!(fmt_n(999), "999");
    assert_eq!(fmt_n(1000), "1,000");
    assert_eq!(fmt_n(1001), "1,001");
    assert_eq!(fmt_n(1234567), "1,234,567");
    assert_eq!(fmt_n(u64::MAX), "18,446,744,073,709,551,615");
}

#[test]
fn fmt_n_without_commas_is_the_number() {
    for n in [0u64, 9, 10, 999, 1000, 65536, 1000000, 987654321, u64::MAX] {
        assert_eq!(fmt_n(n).replace(',', ""), n.to_string());
    }
}

#[test]
fn shorten_keeps_what_fits() {
    assert_eq!(shorten("java.util.HashMap", 40), "java.util.HashMap");
    assert_eq!(shorten("abc", 3), "abc");
}

#[test]
fn shorten_keeps_the_last_segment() {
    assert_eq!(shorten("com.example.deeply.nested.ClassName", 12), "…ClassName");
}

#[test]
fn shorten_cuts_when_the_tail_is_too_long() {
    assert_eq!(shorten("com.example.AVeryLongClassNameIndeed", 10), "com.examp…");
    assert_eq!(shorten("abcdefghij", 5), "abcd…");
    assert_eq!(shorten("abcdefghij", 0), "…");
}

#[test]
fn shorten_width_is_bounded() {
    let names = ["a.b.c.DDDDDDDDDD", "xyzxyzxyzxyz", "java.lang.String", "no_dots_here_at_all", "x.y"];
    for s in names {
        for max in 0..20usize {
            let r = shorten(s, max);
            assert!(r.chars().count() <= max.max(1), "{} {} {}", s, max, r);
        }
    }
}

#[test]
fn split_at_cursor_in_the_middle() {
    assert_eq!(split_at_cursor("abc", 1), ("a", "b", "c"));
    assert_eq!(split_at_cursor("abc", 0), ("", "a", "bc"));
    assert_eq!(split_at_cursor("héllo", 1), ("h", "é", "llo"));
}

#[test]
fn split_at_cursor_past_the_end() {
    assert_eq!(split_at_cursor("abc", 3), ("abc", " ", ""));
    assert_eq!(split_at_cursor("", 0), ("", " ", ""));
}

#[test]
fn split_parts_join_back() {
    let s = "SELECT ünïcode";
    let mut cursor = 0;
    while cursor < s.len() {
        let (a, b, c) = split_at_cursor(s, cursor);
        assert_eq!(format!("{}{}{}", a, b, c), s);
        cursor += b.len();
    }
}

#[test]
fn retention_tips_by_keyword() {
    assert!(retention_tip("java.lang.ref.Finalizer").starts_with("Finalizer dominates"));
    assert!(retention_tip("java.lang.String").starts_with("Use String.intern()"));
    assert!(retention_tip("com.mysql.jdbc.Connection").starts_with("Close PreparedStatement"));
    assert!(retention_tip("java.util.HashMap").starts_with("Bound map sizes"));
    assert!(retention_tip("java.util.ArrayList").starts_with("Enable pagination"));
    assert!(retention_tip("java.lang.Thread").starts_with("Check ThreadLocals"));
    assert!(retention_tip("byte[]").starts_with("Large byte/char arrays"));
    assert!(retention_tip("org.Session").starts_with("Shorten session TTL"));
    assert!(retention_tip("org.LruCache").starts_with("Set max size"));
    assert_eq!(
        retention_tip("com.example.Widget"),
        "Review static fields and long-lived caches holding com.example.Widget."
    );
}

#[test]
fn retention_tip_ignores_case() {
    assert_eq!(retention_tip("JAVA.UTIL.HASHMAP"), retention_tip("java.util.HashMap"));
    assert_eq!(retention_tip_from_lowercase("my.widget", "My.Widget"), "Review static fields and long-lived caches holding My.Widget.");
}

#[test]
fn retention_tip_checks_keywords_in_order() {
    // "StringMap" holds both "string" and "map": the string tip comes first
    assert!(retention_tip("a.StringMap").starts_with("Use String.intern()"));
}

#[test]
fn object_ids_decimal_and_hex() {
    assert_eq!(parse_object_id("42"), Some(42));
    assert_eq!(parse_object_id("0x1f"), Some(31));
    assert_eq!(parse_object_id("0XFF"), Some(255));
    assert_eq!(parse_object_id("+7"), Some(7));
    assert_eq!(parse_object_id("0x+a"), Some(10));
    assert_eq!(parse_object_id("18446744073709551615"), Some(u64::MAX));
    assert_eq!(parse_object_id("0xffffffffffffffff"), Some(u64::MAX));
}

#[test]
fn object_ids_rejected() {
    assert_eq!(parse_object_id(""), None);
    assert_eq!(parse_object_id("+"), None);
    assert_eq!(parse_object_id("0x"), None);
    assert_eq!(parse_object_id("abc"), None);
    assert_eq!(parse_object_id("-5"), None);
    assert_eq!(parse_object_id("12a"), None);
    assert_eq!(parse_object_id("18446744073709551616"), None);
    assert_eq!(parse_object_id("0x10000000000000000"), None);
}

#[test]
fn object_ids_agree_with_std() {
    let inputs = ["0", "007", "123456", "0x0", "0xdeadBEEF", "0x", "x12", "1 2", "+", "++1", "99999999999999999999"];
    for s in inputs {
        let expected = if s.starts_with("0x") || s.starts_with("0X") {
            u64::from_str_radix(&s[2..], 16).ok()
        } else {
            s.parse::<u64>().ok()
        };
        assert_eq!(parse_object_id(s), expected, "{}", s);
    }
}

#[test]
fn hex_ids_read_back() {
    for id in [1u64, 0xabc, 0x7fff_ffff, u64::MAX] {
        assert_eq!(parse_object_id(&format!("0x{:x}", id)), Some(id));
    }
}

#[test]
fn trim_removes_unicode_white_space() {
    assert_eq!(trim_string("  0x10\t\n"), "0x10");
    assert_eq!(trim_string("\u{3000}abc\u{00A0}"), "abc");
    assert_eq!(trim_string("   "), "");
    for s in [" a b ", "\u{2028}x", "y\u{205F}", "\u{85}z\u{85}"] {
        assert_eq!(trim_string(s), s.trim());
    }
}

#[test]
fn severity_labels() {
    assert_eq!(SuspectSeverity::High.label(), "HIGH");
    assert_eq!(SuspectSeverity::Medium.label(), "MED");
    assert_eq!(SuspectSeverity::Low.label(), "LOW");
}
