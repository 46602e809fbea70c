use burstshark::text::{format_time_nanos, parse_time, parse_u16, parse_u32, parse_u64, split_fields};

#[test]
fn split_fields_basic() {
    let fields = split_fields(b"1.5\tA  B \t 100");
    let expect: Vec<Vec<u8>> = vec![b"1.5".to_vec(), b"A".to_vec(), b"B".to_vec(), b"100".to_vec()];
    assert_eq!(fields, expect);
    assert_eq!(split_fields(b""), Vec::<Vec<u8>>::new());
    assert_eq!(split_fields(b"  \t "), Vec::<Vec<u8>>::new());
    assert_eq!(split_fields(b"x"), vec![b"x".to_vec()]);
}

#[test]
fn parse_numbers() {
    assert_eq!(parse_u64(b"0"), Some(0));
    assert_eq!(parse_u64(b"007"), Some(7));
    assert_eq!(parse_u64(b"18446744073709551615"), Some(u64::MAX));
    assert_eq!(parse_u64(b"18446744073709551616"), None);
    assert_eq!(parse_u64(b""), None);
    assert_eq!(parse_u64(b"1x"), None);
    assert_eq!(parse_u64(b"+1"), None);
    assert_eq!(parse_u32(b"4294967295"), Some(u32::MAX));
    assert_eq!(parse_u32(b"4294967296"), None);
    assert_eq!(parse_u16(b"65535"), Some(u16::MAX));
    assert_eq!(parse_u16(b"65536"), None);
}

#[test]
fn parse_time_values() {
    assert_eq!(parse_time(b"0.5"), Some(500_000_000));
    assert_eq!(parse_time(b"12"), Some(12_000_000_000));
    assert_eq!(parse_time(b"1.000000001"), Some(1_000_000_001));
    assert_eq!(parse_time(b""), None);
    assert_eq!(parse_time(b"one"), None);
}

#[test]
fn format_time_exact_strings() {
    assert_eq!(format_time_nanos(0), b"0.000000000".to_vec());
    assert_eq!(format_time_nanos(1_500_000_000), b"1.500000000".to_vec());
    assert_eq!(format_time_nanos(123_456_789), b"0.123456789".to_vec());
    assert_eq!(
        format_time_nanos(1_633_024_800_987_654_321),
        b"1633024800.987654321".to_vec()
    );
}

#[test]
fn format_time_round_trips_through_parser() {
    for n in [
        0,
        1,
        999_999_999,
        1_000_000_000,
        1_000_000_001,
        1_633_024_800_987_654_321,
        u64::MAX,
    ] {
        assert_eq!(parse_time(&format_time_nanos(n)), Some(n));
    }
}
