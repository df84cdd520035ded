use num::BigUint;
use primality::natural::Natural;

fn value(number: &Natural) -> BigUint {
    BigUint::new(number.digits.clone())
}

#[test]
fn a_machine_word_keeps_its_value() {
    for word in [0u64, 1, 7, 97, 4_294_967_295, 4_294_967_296, 112_500_000_000, u64::MAX] {
        assert_eq!(value(&Natural::from_u64(word)), BigUint::from(word));
    }
}

#[test]
fn digits_are_in_base_two_to_the_32_least_significant_first() {
    assert_eq!(Natural::from_u64(4_294_967_296).digits, vec![0, 1]);
    assert_eq!(Natural::from_u64(112_500_000_000).digits, vec![830_850_304, 26]);
    assert_eq!(Natural::from_u64(u64::MAX).digits, vec![u32::MAX, u32::MAX]);
}

#[test]
fn zeros_at_the_end_change_nothing() {
    let plain = Natural { digits: vec![97] };
    let padded = Natural { digits: vec![97, 0, 0] };
    assert_eq!(value(&plain), value(&padded));
    assert!(primality::prime(&plain));
    assert!(primality::prime(&padded));
    assert!(!primality::prime(&Natural { digits: vec![] }));
    assert!(!primality::prime(&Natural { digits: vec![0, 0] }));
}

#[test]
fn a_copy_holds_the_same_number() {
    let number = Natural { digits: vec![3, 2, 1] };
    let copy = number.duplicate();
    assert_eq!(copy.digits, number.digits);
    assert_eq!(value(&copy), value(&number));
}
