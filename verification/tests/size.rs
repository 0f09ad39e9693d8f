use ytb_wayback::size::size_parts;

fn parts(s: &str) -> Option<(String, u64)> {
    size_parts(s)
}

#[test]
fn size_text_and_units() {
    assert_eq!(parts("150M"), Some(("150".to_string(), 1024 * 1024)));
    assert_eq!(parts(" 1.5 GiB "), Some(("1.5".to_string(), 1024 * 1024 * 1024)));
    assert_eq!(parts("2mb"), Some(("2".to_string(), 1_000_000)));
    assert_eq!(parts("104857600"), Some(("104857600".to_string(), 1)));
}

#[test]
fn size_parts_of_plain_bytes() {
    assert_eq!(parts("0"), Some(("0".to_string(), 1)));
    assert_eq!(parts("1024"), Some(("1024".to_string(), 1)));
    assert_eq!(parts("12b"), Some(("12".to_string(), 1)));
}

#[test]
fn size_parts_of_binary_units() {
    for (unit, mult) in [
        ("K", 1u64 << 10),
        ("KiB", 1 << 10),
        ("M", 1 << 20),
        ("MiB", 1 << 20),
        ("G", 1 << 30),
        ("gib", 1 << 30),
        ("T", 1 << 40),
        ("TiB", 1 << 40),
    ] {
        assert_eq!(parts(&format!("1{unit}")), Some(("1".to_string(), mult)));
    }
}

#[test]
fn size_parts_of_decimal_units() {
    assert_eq!(parts("1KB"), Some(("1".to_string(), 1000)));
    assert_eq!(parts("2MB"), Some(("2".to_string(), 1_000_000)));
    assert_eq!(parts("1GB"), Some(("1".to_string(), 1_000_000_000)));
    assert_eq!(parts("3tb"), Some(("3".to_string(), 1_000_000_000_000)));
}

#[test]
fn size_parts_ignore_whitespace_and_case() {
    assert_eq!(parts("  1 M  "), Some(("1".to_string(), 1024 * 1024)));
    assert_eq!(parts("2MiB"), parts("2mib"));
}

#[test]
fn size_parts_refuse_other_text() {
    assert_eq!(parts(""), None);
    assert_eq!(parts("abc"), None);
    assert_eq!(parts("10X"), None);
    assert_eq!(parts("-1"), None);
    assert_eq!(parts("1.M"), None);
}
