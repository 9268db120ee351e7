use blobert::order::{precedes, sort_texts};
use blobert::path::join;
use blobert::text::{i64_to_string, u64_to_string, usize_to_string};

#[test]
fn decimal_of_small_and_large() {
    assert_eq!(u64_to_string(0), "0");
    assert_eq!(u64_to_string(7), "7");
    assert_eq!(u64_to_string(10), "10");
    assert_eq!(u64_to_string(1234567890), "1234567890");
    assert_eq!(u64_to_string(u64::MAX), "18446744073709551615");
    assert_eq!(usize_to_string(7000), "7000");
}

#[test]
fn signed_decimal_has_a_sign() {
    assert_eq!(i64_to_string(0), "0");
    assert_eq!(i64_to_string(-1), "-1");
    assert_eq!(i64_to_string(42), "42");
    assert_eq!(i64_to_string(i64::MIN), "-9223372036854775808");
    assert_eq!(i64_to_string(i64::MAX), "9223372036854775807");
}

#[test]
fn join_puts_a_separator_between() {
    assert_eq!(join("/var/local/register", "upload"), "/var/local/register/upload");
    assert_eq!(join("/var/", "upload"), "/var/upload");
    assert_eq!(join("", "upload"), "upload");
    assert_eq!(join("a", ""), "a/");
}

#[test]
fn join_with_absolute_part_replaces() {
    assert_eq!(join("/var/local", "/etc/passwd"), "/etc/passwd");
    let mut p = std::path::PathBuf::from("/var/local");
    p.push("/etc/passwd");
    assert_eq!(p.to_str(), Some("/etc/passwd"));
}

#[test]
fn join_agrees_with_path_push() {
    for (base, part) in [
        ("/tmp/data", "blobs"),
        ("/tmp/data/", "blobs"),
        ("", "x"),
        ("rel", "a/b"),
        ("/", "x"),
        ("/tmp", ""),
    ] {
        let mut p = std::path::PathBuf::from(base);
        p.push(part);
        assert_eq!(Some(join(base, part).as_str()), p.to_str());
    }
}

#[test]
fn order_is_bytewise() {
    assert!(precedes("one", "three"));
    assert!(precedes("three", "two"));
    assert!(!precedes("two", "one"));
    assert!(!precedes("same", "same"));
    assert!(precedes("", "a"));
    assert!(precedes("ab", "abc"));
    assert!(precedes("Z", "a"));
    assert!(precedes("z", "\u{e9}"));
    assert_eq!(precedes("a\u{e9}", "a\u{4e2d}"), "a\u{e9}" < "a\u{4e2d}");
}

#[test]
fn sort_agrees_with_std() {
    let items: Vec<String> = ["two", "one", "three", "one", "", "Two", "\u{e9}t\u{e9}", "10", "9"]
        .iter()
        .map(|s| s.to_string())
        .collect();
    let mut expected = items.clone();
    expected.sort();
    assert_eq!(sort_texts(items), expected);
    assert_eq!(sort_texts(Vec::new()), Vec::<String>::new());
}

#[test]
fn decimal_agrees_with_std() {
    let mut n: u64 = 1;
    for _ in 0..64 {
        assert_eq!(u64_to_string(n), n.to_string());
        assert_eq!(u64_to_string(n - 1), (n - 1).to_string());
        assert_eq!(i64_to_string(n as i64), (n as i64).to_string());
        assert_eq!(i64_to_string((n as i64).wrapping_neg()), (n as i64).wrapping_neg().to_string());
        n = n.wrapping_mul(2).max(1);
    }
    for n in 0..2000u64 {
        assert_eq!(u64_to_string(n), n.to_string());
    }
}

#[test]
fn order_agrees_with_std() {
    let samples = ["", "a", "ab", "b", "B", "10", "9", "\u{e9}", "e\u{301}", "\u{4e2d}", "\u{1f600}", "z\u{0}", "z"];
    for a in samples {
        for b in samples {
            assert_eq!(precedes(a, b), a < b, "{:?} {:?}", a, b);
        }
    }
}
