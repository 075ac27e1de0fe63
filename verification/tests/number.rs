use zerosh::number::{push_decimal, push_signed};

#[test]
fn numbers_are_appended_in_decimal() {
    let mut s = String::from("n=");
    push_decimal(&mut s, 0);
    s.push(' ');
    push_decimal(&mut s, 1234567890);
    s.push(' ');
    push_decimal(&mut s, u64::MAX);
    assert_eq!(s, "n=0 1234567890 18446744073709551615");
}

#[test]
fn signed_numbers_are_appended_in_decimal() {
    let mut s = String::new();
    push_signed(&mut s, -42);
    push_signed(&mut s, 42);
    assert_eq!(s, "-4242");
}

#[test]
fn decimal_text_reads_back() {
    for n in [0, 1, 9, 10, 99, 100, 4096, u64::MAX] {
        let mut s = String::new();
        push_decimal(&mut s, n);
        assert_eq!(s.parse::<u64>(), Ok(n));
        assert_eq!(s, n.to_string());
    }
}

#[test]
fn signed_decimal_text_reads_back() {
    for n in [0, 7, -7, 10, -10, i32::MAX, i32::MIN] {
        let mut s = String::new();
        push_signed(&mut s, n);
        assert_eq!(s.parse::<i32>(), Ok(n));
        assert_eq!(s, n.to_string());
    }
}

#[test]
fn different_numbers_have_different_texts() {
    let mut seen = std::collections::HashSet::new();
    for n in 0..2000u64 {
        let mut s = String::new();
        push_decimal(&mut s, n);
        assert!(seen.insert(s));
    }
}
