use trend_signals::text::{decimal, digit};

#[test]
fn numbers_are_written_in_decimal() {
    for n in [0u32, 1, 9, 10, 11, 19, 20, 99, 100, 101, 140, 999, 1000, 65535, 1_000_000, u32::MAX - 1, u32::MAX] {
        assert_eq!(decimal(n), n.to_string());
    }
    assert_eq!(decimal(0), "0");
    assert_eq!(decimal(4294967295), "4294967295");
    assert_eq!(decimal(1005), "1005");
}

#[test]
fn digits_are_written_one_by_one() {
    let all: Vec<&str> = (0..10).map(digit).collect();
    assert_eq!(all, vec!["0", "1", "2", "3", "4", "5", "6", "7", "8", "9"]);
}
