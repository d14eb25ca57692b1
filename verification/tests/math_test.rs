use rneovim_core::math::{xpopcount, xctz, trim_to_int, vim_append_digit_int};

#[test]
fn test_xpopcount_basic() {
    assert_eq!(xpopcount(0b1111), 4);
}

#[test]
fn test_xpopcount_zero() {
    assert_eq!(xpopcount(0b0), 0);
}

#[test]
fn test_xctz_basic() {
    assert_eq!(xctz(0b1000), 3);
}

#[test]
fn test_xctz_one() {
    assert_eq!(xctz(0b1), 0);
}

#[test]
fn test_xctz_zero() {
    assert_eq!(xctz(0b0), 64);
}

#[test]
fn test_trim_to_int_max() {
    assert_eq!(trim_to_int(i64::MAX), i32::MAX);
}

#[test]
fn test_trim_to_int_min() {
    assert_eq!(trim_to_int(i64::MIN), i32::MIN);
}

#[test]
fn test_trim_to_int_normal() {
    assert_eq!(trim_to_int(42), 42);
}

#[test]
fn test_vim_append_digit_int_basic() {
    let mut val = 10;
    assert!(vim_append_digit_int(&mut val, 5).is_ok());
    assert_eq!(val, 105);
}

#[test]
fn test_vim_append_digit_int_limit() {
    let mut val = 214748364;
    assert!(vim_append_digit_int(&mut val, 7).is_ok());
    assert_eq!(val, i32::MAX);
}

#[test]
fn test_vim_append_digit_int_overflow() {
    let mut val = 214748364;
    assert!(vim_append_digit_int(&mut val, 8).is_err());
}

#[test]
fn test_vim_append_digit_int_max_overflow() {
    let mut val = i32::MAX;
    assert!(vim_append_digit_int(&mut val, 0).is_err());
}

#[test]
fn popcount_of_all_ones_and_sparse_bits() {
    assert_eq!(xpopcount(u64::MAX), 64);
    assert_eq!(xpopcount(0x8000_0000_0000_0001), 2);
    assert_eq!(xctz(0x8000_0000_0000_0000), 63);
}

#[test]
fn append_digit_keeps_value_on_overflow() {
    let mut val = i32::MAX;
    assert!(vim_append_digit_int(&mut val, 5).is_err());
    assert_eq!(val, i32::MAX);
    let mut small = 0;
    assert!(vim_append_digit_int(&mut small, 9).is_ok());
    assert_eq!(small, 9);
}
