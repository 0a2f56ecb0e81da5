use std::mem::size_of;

use scheme::value::ValuePtr;

#[test]
fn test_invariant_nil_is_zero() {
    let ptr = std::ptr::null::<u8>();
    assert_eq!(ptr as usize, 0);
}

#[test]
fn test_invariant_value_is_ptr_sized() {
    assert_eq!(size_of::<ValuePtr>(), size_of::<usize>());
    assert_eq!(size_of::<ValuePtr>(), size_of::<&u8>());
}

#[test]
fn test_nil() {
    let v = ValuePtr::nil();
    assert!(v.is_nil());
    assert!(!v.is_int());
    assert!(!v.is_bool());
    assert!(!v.is_void());
    assert!(!v.is_ptr());
}

#[test]
fn test_int_roundtrip() {
    for n in [0, 1, -1, 42, -42, ValuePtr::MAX_INT, ValuePtr::MIN_INT] {
        let v = ValuePtr::from_int(n);
        assert!(v.is_int(), "is_int failed for {n}");
        assert_eq!(v.to_int(), n, "to_int failed for {n}");
    }
}

#[test]
fn test_int_not_other_types() {
    let v = ValuePtr::from_int(1);
    assert!(!v.is_nil());
    assert!(!v.is_bool());
    assert!(!v.is_void());
    assert!(!v.is_ptr());
}

#[test]
fn test_bool_true() {
    let v = ValuePtr::from_bool(true);
    assert!(v.is_bool());
    assert!(v.to_bool());
    assert!(!v.is_nil());
    assert!(!v.is_int());
    assert!(!v.is_void());
    assert!(!v.is_ptr());
}

#[test]
fn test_bool_false() {
    let v = ValuePtr::from_bool(false);
    assert!(v.is_bool());
    assert!(!v.to_bool());
    assert!(!v.is_nil());
    assert!(!v.is_int());
    assert!(!v.is_void());
    assert!(!v.is_ptr());
}

#[test]
fn test_void() {
    let v = ValuePtr::void();
    assert!(v.is_void());
    assert!(!v.is_nil());
    assert!(!v.is_int());
    assert!(!v.is_bool());
    assert!(!v.is_ptr());
}

/// The address of a boxed value, read from its pointer formatting.
fn address_of(value: &u64) -> usize {
    let text = format!("{:p}", value);
    usize::from_str_radix(text.trim_start_matches("0x"), 16).unwrap()
}

#[test]
fn test_ptr() {
    let boxed = Box::new(42u64);
    let addr = address_of(&boxed);
    let v = ValuePtr::from_ptr(addr);
    assert!(v.is_ptr());
    assert!(!v.is_nil());
    assert!(!v.is_int());
    assert!(!v.is_bool());
    assert!(!v.is_void());
    assert_eq!(v.to_ptr(), addr);
    assert_eq!(*boxed, 42);
}

#[test]
fn int_limits_are_half_the_word() {
    assert_eq!(ValuePtr::MAX_INT, isize::MAX / 2);
    assert_eq!(ValuePtr::MIN_INT, isize::MIN / 2);
    assert_eq!(ValuePtr::from_int(-7).to_int(), -7);
}

#[test]
fn every_odd_word_is_an_integer() {
    let v = ValuePtr::from_ptr(8);
    assert!(v.is_ptr());
    assert_eq!(v.to_ptr(), 8);
}
