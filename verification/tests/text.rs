use rpc::text::{push_decimal, push_decimal_two, push_signed_decimal, remove_char};

#[test]
fn decimal_digits() {
    let mut s = String::from("x");
    push_decimal(&mut s, 0);
    push_decimal(&mut s, 1234567890);
    push_decimal(&mut s, u64::MAX);
    assert_eq!(s, format!("x01234567890{}", u64::MAX));
}

#[test]
fn decimal_two_pads_to_two_digits() {
    let mut s = String::new();
    push_decimal_two(&mut s, 7);
    s.push('|');
    push_decimal_two(&mut s, 0);
    s.push('|');
    push_decimal_two(&mut s, 12);
    s.push('|');
    push_decimal_two(&mut s, 123);
    assert_eq!(s, "07|00|12|123");
}

#[test]
fn signed_decimal_has_minus_for_negatives() {
    let mut s = String::new();
    push_signed_decimal(&mut s, -5);
    s.push(' ');
    push_signed_decimal(&mut s, 2023);
    s.push(' ');
    push_signed_decimal(&mut s, i32::MIN);
    assert_eq!(s, format!("-5 2023 {}", i32::MIN));
}

#[test]
fn remove_char_takes_out_every_occurrence() {
    assert_eq!(remove_char("$a$b$$c$", '$'), "abc");
    assert_eq!(remove_char("", '$'), "");
    assert_eq!(remove_char("ünï$cödé", '$'), "ünïcödé");
}
