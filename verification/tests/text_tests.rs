use syskits::text::{parse_unsigned_exec, u64_decimal};

#[test]
fn decimal_text_reads_back() {
    for n in [0u64, 7, 10, 99, 12345, u64::MAX] {
        let digits = u64_decimal(n);
        assert_eq!(parse_unsigned_exec(&digits, u64::MAX), Some(n));
    }
}

#[test]
fn parsing_refuses_what_does_not_fit() {
    let digits: Vec<char> = "300".chars().collect();
    assert_eq!(parse_unsigned_exec(&digits, 255), None);
    let digits: Vec<char> = "+42".chars().collect();
    assert_eq!(parse_unsigned_exec(&digits, 255), Some(42));
    let digits: Vec<char> = "4x".chars().collect();
    assert_eq!(parse_unsigned_exec(&digits, 255), None);
    let digits: Vec<char> = "".chars().collect();
    assert_eq!(parse_unsigned_exec(&digits, 255), None);
}
