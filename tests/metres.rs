use transition::metres::parse_mm;

#[test]
fn whole_metres() {
    assert_eq!(parse_mm(b"3"), Some(3_000));
    assert_eq!(parse_mm(b"0"), Some(0));
    assert_eq!(parse_mm(b"100"), Some(100_000));
}

#[test]
fn decimal_metres() {
    assert_eq!(parse_mm(b"1.1"), Some(1_100));
    assert_eq!(parse_mm(b"2.05"), Some(2_050));
    assert_eq!(parse_mm(b"0.001"), Some(1));
    assert_eq!(parse_mm(b"12.345"), Some(12_345));
}

#[test]
fn negative_metres() {
    assert_eq!(parse_mm(b"-1"), Some(-1_000));
    assert_eq!(parse_mm(b"-0.5"), Some(-500));
}

#[test]
fn not_a_number() {
    for text in [&b"abc"[..], b"", b"-", b"1.", b".5", b"1.2345", b"1,5", b"1.2.3", b"+1", b" 1", b"1e3"] {
        assert_eq!(parse_mm(text), None, "{:?}", text);
    }
}

#[test]
fn largest_and_beyond() {
    assert_eq!(parse_mm(b"9223372036854775.807"), Some(i64::MAX));
    assert_eq!(parse_mm(b"9223372036854775.808"), None);
    assert_eq!(parse_mm(b"-9223372036854775.807"), Some(-i64::MAX));
    assert_eq!(parse_mm(b"99999999999999999999"), None);
}
