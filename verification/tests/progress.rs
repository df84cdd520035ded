use num::BigUint;
use primality::natural::Natural;
use primality::progress::{chunk_count, chunk_index, chunk_size, ProgressState};

fn small(n: u64) -> Natural {
    Natural::from_u64(n)
}

fn big(text: &str) -> Natural {
    Natural { digits: text.parse::<BigUint>().unwrap().to_u32_digits() }
}

fn value(number: &Natural) -> BigUint {
    BigUint::new(number.digits.clone())
}

fn expected(text: &str) -> BigUint {
    text.parse::<BigUint>().unwrap()
}

#[test]
fn chunks_of_a_small_candidate_hold_one_index_each() {
    assert_eq!(value(&chunk_size(&small(97))), BigUint::from(1u32));
    assert_eq!(chunk_count(&small(97)), 97);
    assert_eq!(value(&chunk_size(&small(1))), BigUint::from(1u32));
    assert_eq!(chunk_count(&small(1)), 1);
}

#[test]
fn chunk_size_rounds_up() {
    // u64::MAX itself still fits in chunks of one index.
    assert_eq!(value(&chunk_size(&big("18446744073709551615"))), BigUint::from(1u32));
    assert_eq!(chunk_count(&big("18446744073709551615")), u64::MAX);
    // One more needs chunks of two.
    assert_eq!(value(&chunk_size(&big("18446744073709551616"))), BigUint::from(2u32));
    assert_eq!(chunk_count(&big("18446744073709551616")), u64::MAX);
    // Twice u64::MAX divides evenly.
    assert_eq!(value(&chunk_size(&big("36893488147419103230"))), BigUint::from(2u32));
    assert_eq!(value(&chunk_size(&big("36893488147419103231"))), BigUint::from(3u32));
    // 10^30 / (2^64 - 1) = 54210108624.27..., rounded up.
    assert_eq!(
        value(&chunk_size(&big("1000000000000000000000000000000"))),
        expected("54210108625")
    );
}

#[test]
fn chunk_size_of_zero_is_zero() {
    assert_eq!(value(&chunk_size(&small(0))), BigUint::from(0u32));
    assert_eq!(chunk_count(&small(0)), 0);
}

#[test]
fn chunk_index_is_the_floor_of_the_quotient() {
    assert_eq!(value(&chunk_index(&small(5), &small(2))), BigUint::from(2u32));
    assert_eq!(value(&chunk_index(&small(5), &small(1))), BigUint::from(5u32));
    assert_eq!(value(&chunk_index(&small(5), &small(6))), BigUint::from(0u32));
    assert_eq!(
        value(&chunk_index(&big("1000000000000000000000000000000"), &big("54210108625"))),
        expected("18446744073462922340")
    );
}

#[test]
fn a_new_search_has_emitted_nothing() {
    let state = ProgressState::new(&small(97));
    assert_eq!(state.ticks(), 0);
    assert_eq!(state.chunk_count(), 97);
}

#[test]
fn one_tick_per_chunk_in_ascending_order() {
    let mut state = ProgressState::new(&small(97));
    for k in 1u64..=17 {
        assert!(state.observe(&small(k)));
        assert_eq!(state.ticks(), k);
    }
}

#[test]
fn no_tick_for_a_chunk_already_passed() {
    let mut state = ProgressState::new(&small(97));
    assert!(state.observe(&small(5)));
    assert!(!state.observe(&small(5)));
    assert!(!state.observe(&small(3)));
    assert!(!state.observe(&small(1)));
    assert_eq!(state.ticks(), 1);
    assert!(state.observe(&small(6)));
    assert_eq!(state.ticks(), 2);
}

#[test]
fn ticks_never_fall_and_stay_within_the_display() {
    let orders: [Vec<u64>; 4] = [
        (1..=97).collect(),
        (1..=97).rev().collect(),
        (1..=97).map(|k| (k * 37) % 97 + 1).collect(),
        (1..=97).chain(1..=97).collect(),
    ];
    for order in orders.iter() {
        let mut state = ProgressState::new(&small(97));
        let mut last = state.ticks();
        let mut emitted = 0u64;
        for k in order {
            if state.observe(&small(*k)) {
                emitted += 1;
            }
            assert!(state.ticks() >= last);
            assert!(state.ticks() <= state.chunk_count());
            assert_eq!(state.ticks(), emitted);
            last = state.ticks();
        }
    }
}

#[test]
fn indices_in_one_chunk_tick_once() {
    // Chunks of two indices: 2 and 3 share chunk 1, 4 and 5 share chunk 2.
    let mut state = ProgressState::new(&big("18446744073709551616"));
    assert_eq!(state.chunk_count(), u64::MAX);
    assert!(!state.observe(&small(1)));
    assert!(state.observe(&small(2)));
    assert!(!state.observe(&small(3)));
    assert!(state.observe(&small(4)));
    assert!(!state.observe(&small(5)));
    assert_eq!(state.ticks(), 2);
    assert!(state.observe(&big("18446744073709551616")));
    assert_eq!(state.ticks(), 3);
}
