use zsnapmgr::send::human_number;
use zsnapmgr::text::u64_to_string;

#[test]
fn test_human_number() {
    assert_eq!(human_number(            1, 1), "1");
    assert_eq!(human_number(          999, 1), "999");
    assert_eq!(human_number(         1000, 1), "1.0 k");
    assert_eq!(human_number(         1500, 1), "1.5 k");
    assert_eq!(human_number(       999900, 1), "999.9 k");
    assert_eq!(human_number(      1000000, 1), "1.0 M");
    assert_eq!(human_number(   1000000000, 1), "1.0 G");
    assert_eq!(human_number(1000000000000, 1), "1.0 T");
}

#[test]
fn human_number_zero_and_boundaries() {
    assert_eq!(human_number(0, 1), "0");
    assert_eq!(human_number(999_999, 1), "999.9 k");
    assert_eq!(human_number(1_000_000_000_000_000, 1), "1.0 P");
    assert_eq!(human_number(1_000_000_000_000_000_000, 1), "1.0 E");
    assert_eq!(human_number(u64::MAX, 1), "18.4 E");
}

#[test]
fn human_number_truncates_the_fraction() {
    // 1999 / 1000 = 1.999; one decimal place is truncated, not rounded.
    assert_eq!(human_number(1999, 1), "1.9 k");
    assert_eq!(human_number(1999, 0), "1 k");
    assert_eq!(human_number(1999, 3), "1.999 k");
}

#[test]
fn decimal_rendering() {
    assert_eq!(u64_to_string(0), "0");
    assert_eq!(u64_to_string(42), "42");
    assert_eq!(u64_to_string(18446744073709551615), "18446744073709551615");
}
