use primality::natural::Natural;
use primality::search::{Begin, Search, Step, BATCH};

fn small(n: u64) -> Natural {
    Natural::from_u64(n)
}

fn searching(number: &Natural, reporting: bool) -> Search {
    match Search::begin(number, reporting) {
        Begin::Searching(search) => search,
        Begin::Settled(verdict) => panic!("settled as {} without a search", verdict),
    }
}

/// Runs a search to its end; returns the verdict, the ticks step by step, and the
/// number of steps that went before the verdict.
fn run(number: &Natural, reporting: bool) -> (bool, Vec<u64>, Search) {
    let mut search = searching(number, reporting);
    let mut ticks = Vec::new();
    loop {
        match search.advance() {
            Step::Ticks(due) => ticks.push(due),
            Step::Verdict(verdict) => return (verdict, ticks, search),
        }
    }
}

#[test]
fn the_screening_settles_small_and_plain_cases_without_a_search() {
    for (n, expected) in [(0u32, false), (1, false), (2, true), (3, true), (4, false), (5, true),
        (6, false), (7, true), (8, false), (9, false), (49, false), (9999, false)]
    {
        match Search::begin(&small(u64::from(n)), false) {
            Begin::Settled(verdict) => assert_eq!(verdict, expected, "{}", n),
            Begin::Searching(_) => panic!("{} needs no search", n),
        }
    }
}

#[test]
fn a_search_is_set_up_for_what_the_screening_leaves_open() {
    for n in [11u32, 13, 97, 121, 221, 9973] {
        let search = searching(&small(u64::from(n)), true);
        assert_eq!(search.ticks(), 0);
        assert_eq!(search.chunk_count(), u64::from(n));
    }
}

#[test]
fn a_search_ends_with_the_verdict() {
    assert!(run(&small(97), false).0);
    assert!(!run(&small(221), false).0);
    assert!(!run(&small(121), false).0);
    assert!(run(&small(9973), false).0);
    assert!(run(&small(104729), false).0);
    assert!(!run(&small(104723 * 11), false).0);
}

#[test]
fn a_finished_search_repeats_its_verdict() {
    for n in [97u32, 221] {
        let (verdict, _, mut search) = run(&small(u64::from(n)), true);
        let ticks = search.ticks();
        for _ in 0..3 {
            assert_eq!(search.advance(), Step::Verdict(verdict));
            assert_eq!(search.ticks(), ticks);
        }
    }
}

#[test]
fn reporting_does_not_change_the_verdict() {
    for n in [11u32, 97, 121, 221, 1681, 9973, 10403, 104729] {
        let number = small(u64::from(n));
        assert_eq!(run(&number, true).0, run(&number, false).0, "{}", n);
    }
}

#[test]
fn without_reporting_no_tick_is_due() {
    let (verdict, ticks, search) = run(&small(104729), false);
    assert!(verdict);
    assert!(!ticks.is_empty());
    assert!(ticks.iter().all(|due| *due == 0));
    assert_eq!(search.ticks(), 0);
}

#[test]
fn with_reporting_each_batch_that_goes_on_ticks_once_per_chunk() {
    // 104729 is prime; six times 17455 is the first multiple above it. Every
    // batch before the one that holds index 17455 goes on, and asks for one
    // tick per index, the chunks being of one index each.
    let (verdict, ticks, search) = run(&small(104729), true);
    assert!(verdict);
    let full_batches = 17454 / BATCH;
    assert_eq!(ticks.len() as u64, full_batches);
    assert!(ticks.iter().all(|due| *due == BATCH));
    assert_eq!(search.ticks(), full_batches * BATCH);
    assert!(search.ticks() <= search.chunk_count());
}

#[test]
fn ticks_add_up_and_stay_within_the_display() {
    for n in [97u32, 9973, 104729, 1299709] {
        let mut search = searching(&small(u64::from(n)), true);
        let mut total = 0u64;
        loop {
            match search.advance() {
                Step::Ticks(due) => {
                    total += due;
                    assert_eq!(search.ticks(), total);
                    assert!(total <= search.chunk_count());
                }
                Step::Verdict(verdict) => {
                    assert!(verdict);
                    break;
                }
            }
        }
    }
}

#[test]
fn a_factor_in_the_first_batch_ends_the_search_at_once() {
    let (verdict, ticks, search) = run(&small(221), true);
    assert!(!verdict);
    assert!(ticks.is_empty());
    assert_eq!(search.ticks(), 0);
}

#[test]
fn a_factor_in_a_later_batch_is_found() {
    // 1299709 = 6 * 216618 + 1 is prime; its square has no factor below it.
    let number = small(1299709 * 1299709);
    let (verdict, ticks, _) = run(&number, false);
    assert!(!verdict);
    assert_eq!(ticks.len() as u64, 216617 / BATCH);
}
