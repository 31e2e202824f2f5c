use memlat::text::{decimal, label, latency_field};

fn s(v: Vec<u8>) -> String {
    String::from_utf8(v).unwrap()
}

#[test]
fn decimal_digits() {
    assert_eq!(s(decimal(0)), "0");
    assert_eq!(s(decimal(7)), "7");
    assert_eq!(s(decimal(10)), "10");
    assert_eq!(s(decimal(1234567)), "1234567");
    assert_eq!(s(decimal(u128::MAX)), u128::MAX.to_string());
}

#[test]
fn label_in_bytes() {
    assert_eq!(s(label(0)), "   0B,");
    assert_eq!(s(label(8)), "   8B,");
    assert_eq!(s(label(999)), " 999B,");
}

#[test]
fn label_in_kibibytes() {
    assert_eq!(s(label(1000)), "   0K,");
    assert_eq!(s(label(8192)), "   8K,");
    assert_eq!(s(label(999_999)), " 976K,");
}

#[test]
fn label_in_mebibytes() {
    assert_eq!(s(label(1_000_000)), "   0M,");
    assert_eq!(s(label(8 * 1_048_576)), "   8M,");
    assert_eq!(s(label(134_217_728)), " 128M,");
    assert_eq!(s(label(20_000 * 1_048_576)), "20000M,");
}

#[test]
fn latency_fields() {
    assert_eq!(s(latency_field(1)), " 0.1,");
    assert_eq!(s(latency_field(10)), " 1.0,");
    assert_eq!(s(latency_field(123)), "12.3,");
    assert_eq!(s(latency_field(12345)), "1234.5,");
}
