use uperf::double::Double;
use uperf::strmap::StrMap;
use uperf::text;

#[test]
fn trim_takes_space_off_both_ends() {
    assert_eq!(text::trim("  fast \n"), "fast");
    assert_eq!(text::trim("\u{a0}a b\u{3000}"), "a b");
    assert_eq!(text::trim(" \t "), "");
    assert_eq!(text::trim(""), "");
}

#[test]
fn split_whitespace_gives_words() {
    assert_eq!(text::split_whitespace("  a bb\tccc\n"), vec!["a", "bb", "ccc"]);
    assert!(text::split_whitespace(" \n ").is_empty());
}

#[test]
fn split_keeps_empty_parts() {
    assert_eq!(text::split("1,2,,3", ','), vec!["1", "2", "", "3"]);
    assert_eq!(text::split("", ','), vec![""]);
    assert_eq!(text::split("7", ','), vec!["7"]);
}

#[test]
fn split_lines_drops_line_ends() {
    assert_eq!(text::split_lines("a\r\nb\n\nc"), vec!["a", "b", "", "c"]);
    assert_eq!(text::split_lines("a\n"), vec!["a"]);
    assert!(text::split_lines("").is_empty());
}

#[test]
fn replace_goes_from_the_left() {
    assert_eq!(text::replace("cpu%d/x%d", "%d", "4"), "cpu4/x4");
    assert_eq!(text::replace("aaa", "aa", "b"), "ba");
    assert_eq!(text::replace("abc", "x", "y"), "abc");
}

#[test]
fn prefixes_and_parts() {
    assert_eq!(text::strip_prefix("cpu.margin", "cpu."), Some("margin"));
    assert_eq!(text::strip_prefix("cpu", "cpu."), None);
    assert!(text::starts_with("event12", "event"));
    assert!(text::contains("goodix_ts_0", "ts_"));
    assert!(!text::contains("ts", "ts_"));
    assert!(text::contains("x", ""));
}

#[test]
fn numbers_are_read_like_integers() {
    assert_eq!(text::parse_u64("0018"), Some(18));
    assert_eq!(text::parse_u64("+5"), Some(5));
    assert_eq!(text::parse_u64("18446744073709551615"), Some(u64::MAX));
    assert_eq!(text::parse_u64("18446744073709551616"), None);
    assert_eq!(text::parse_u32("4294967296"), None);
    assert_eq!(text::parse_u32(""), None);
    assert_eq!(text::parse_u32("+"), None);
    assert_eq!(text::parse_u32("-1"), None);
    assert_eq!(text::parse_u32("1 "), None);
}

#[test]
fn decimal_reads_back() {
    for n in [0u64, 7, 10, 1_800_000, u64::MAX] {
        let s = text::decimal_string(n);
        assert_eq!(s, n.to_string());
        assert_eq!(text::parse_u64(&s), Some(n));
    }
}

#[test]
fn insert_then_read() {
    let mut m: StrMap<u32> = StrMap::new();
    m.insert("b".to_string(), 1);
    m.insert("a".to_string(), 2);
    m.insert("b".to_string(), 3);
    assert_eq!(m.len(), 2);
    assert_eq!(m.get("b"), Some(&3));
    assert_eq!(m.get("a"), Some(&2));
    assert_eq!(m.get("c"), None);
    assert!(m.contains_key("a"));
    assert!(!m.contains_key(""));
    assert_eq!(m.key_at(0), "b");
    assert_eq!(*m.value_at(1), 2);
}

fn double(x: f64) -> Double {
    Double { bits: x.to_bits() }
}

#[test]
fn doubles_are_ordered_like_numbers() {
    let values = [
        f64::NEG_INFINITY,
        -2.5,
        -1e-310,
        -0.0,
        0.0,
        1e-310,
        0.03,
        1.0,
        1e300,
        f64::INFINITY,
        f64::NAN,
        -f64::NAN,
    ];
    for a in values {
        for b in values {
            assert_eq!(double(a).le(double(b)), a <= b, "{a} <= {b}");
            assert_eq!(double(a).gt(double(b)), a > b, "{a} > {b}");
        }
    }
}
