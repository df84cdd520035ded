//! The primality engine: a constant-time classifier for the small cases, the
//! 6k±1 filter, and trial division over the divisor indices `k = 1, 2, ...`
//! with the two candidate divisors `5 + 6k` and `7 + 6k` per index.
//!
//! The search is plain trial division and keeps its full range: the indices run
//! from 1 to the candidate, and the search ends when it has come to an index
//! whose sixfold exceeds the candidate, not at the square root. Its cost grows
//! with the value of the candidate.
//!
//! Each index is tried on its own by [`probe`], and outcomes are combined by rank
//! with [`SearchOutcome::merge`], so the indices can be handed to any number of
//! workers in any order: [`lemma_any_schedule_agrees`] shows that the verdict
//! stays the same.

use crate::arithmetic::{div_rem, less, product, same, sum, to_u64};
use crate::natural::{integer, Natural};
use crate::primes::{
    is_prime, lemma_divisor_is_six_k_form, lemma_divisor_refutes_prime,
    lemma_large_divisor_has_no_quotient, lemma_off_six_k_is_composite, lemma_primes_below_ten,
    lemma_proper_divisor_quotient, lemma_small_divisor_is_composite,
};
use crate::search::{Begin, Search, Step};
use vstd::prelude::*;

verus! {

/// What the search learns from one divisor index.
#[derive(Clone, Copy, Debug, PartialEq, Eq, Structural)]
pub enum SearchOutcome {
    /// One of the two divisors of the index divides the candidate properly.
    HasFactor,
    /// Six times the index exceeds the candidate: no larger index can yield a factor.
    ExhaustedNoFactor,
    /// Neither: the search goes on with the next index.
    Continuing,
}

/// The verdict of the constant-time classifier: `Some(true)` for 2, 3, 5 and 7,
/// `Some(false)` for 1 and for every number above 7 that 2, 3, 5 or 7 divides,
/// `None` where the classifier cannot tell.
pub open spec fn fast_verdict(n: int) -> Option<bool> {
    if n == 2 || n == 3 || n == 5 || n == 7 {
        Some(true)
    } else if n == 1 || (n > 7 && (n % 5 == 0 || n % 7 == 0 || n % 2 == 0 || n % 3 == 0)) {
        Some(false)
    } else {
        None
    }
}

/// `n` is one more or one less than a multiple of six.
pub open spec fn is_six_k_form(n: int) -> bool {
    (n - 1) % 6 == 0 || (n + 1) % 6 == 0
}

/// The quotient `n / d` is a whole number strictly greater than 1.
pub open spec fn has_proper_quotient(n: int, d: int) -> bool {
    d != 0 && n % d == 0 && n / d > 1
}

/// Divisor index `k` exposes a factor of `n`: `5 + 6k` or `7 + 6k` divides it
/// with a quotient above 1.
pub open spec fn has_factor_at(n: int, k: int) -> bool {
    has_proper_quotient(n, 5 + 6 * k) || has_proper_quotient(n, 7 + 6 * k)
}

/// What index `k` tells about candidate `n`. A factor is looked for first, so an
/// index reports exhaustion only when it holds no factor.
pub open spec fn outcome_at(n: int, k: int) -> SearchOutcome {
    if has_factor_at(n, k) {
        SearchOutcome::HasFactor
    } else if 6 * k > n {
        SearchOutcome::ExhaustedNoFactor
    } else {
        SearchOutcome::Continuing
    }
}

/// Some divisor index from 1 up to the candidate itself exposes a factor.
pub open spec fn search_finds_factor(n: int) -> bool {
    exists|k: int| 1 <= k <= n && #[trigger] has_factor_at(n, k)
}

/// What is known of a candidate before any search: the classifier's verdict where
/// it has one, composite where the candidate is not of the form 6k±1, and `None`
/// where only the search can tell.
pub open spec fn screened_verdict(n: int) -> Option<bool> {
    match fast_verdict(n) {
        Some(verdict) => Some(verdict),
        None => if is_six_k_form(n) {
            None
        } else {
            Some(false)
        },
    }
}

/// The engine as a rule: the verdict of the screening where it has one; otherwise
/// prime exactly when the search over all divisor indices finds no factor.
pub open spec fn engine_verdict(n: int) -> bool {
    match screened_verdict(n) {
        Some(verdict) => verdict,
        None => !search_finds_factor(n),
    }
}

/// The outcome of a search whose workers have visited the indices of `visited`,
/// each index tried on its own and the outcomes merged in the order given.
pub open spec fn merged_outcome(n: int, visited: Seq<int>) -> SearchOutcome
    decreases visited.len(),
{
    if visited.len() == 0 {
        SearchOutcome::Continuing
    } else {
        merged_outcome(n, visited.drop_last()).merged_with(outcome_at(n, visited.last()))
    }
}

/// The visit reached every index that can hold a factor: each index `k` from 1 on
/// for which six times `k` does not exceed the candidate.
pub open spec fn covers_search(n: int, visited: Seq<int>) -> bool {
    forall|k: int| 1 <= k && 6 * k <= n ==> #[trigger] visited.contains(k)
}

/// The visit came upon an index that exposes a factor.
pub open spec fn meets_factor(n: int, visited: Seq<int>) -> bool {
    exists|i: int| 0 <= i < visited.len() && has_factor_at(n, #[trigger] visited[i])
}

impl SearchOutcome {
    /// The rank of an outcome when several are combined: a factor found beats an
    /// exhausted range, which beats a search still under way.
    pub open spec fn rank(self) -> int {
        match self {
            SearchOutcome::HasFactor => 2,
            SearchOutcome::ExhaustedNoFactor => 1,
            SearchOutcome::Continuing => 0,
        }
    }

    /// The outcome of higher rank of the two.
    pub open spec fn merged_with(self, other: SearchOutcome) -> SearchOutcome {
        if self.rank() >= other.rank() {
            self
        } else {
            other
        }
    }

    /// The candidate is prime unless a factor was found.
    pub open spec fn is_prime_verdict(self) -> bool {
        self != SearchOutcome::HasFactor
    }

    /// The outcome of a search that has visited nothing yet. It yields to every
    /// other outcome, so a merge can start from it.
    pub fn idle() -> (outcome: SearchOutcome)
        ensures
            outcome == SearchOutcome::Continuing,
    {
        SearchOutcome::Continuing
    }

    /// Combines the outcomes of two parts of a search.
    pub fn merge(self, other: SearchOutcome) -> (merged: SearchOutcome)
        ensures
            merged == self.merged_with(other),
    {
        match (self, other) {
            (SearchOutcome::HasFactor, _) => SearchOutcome::HasFactor,
            (_, SearchOutcome::HasFactor) => SearchOutcome::HasFactor,
            (SearchOutcome::ExhaustedNoFactor, _) => SearchOutcome::ExhaustedNoFactor,
            (_, SearchOutcome::ExhaustedNoFactor) => SearchOutcome::ExhaustedNoFactor,
            (SearchOutcome::Continuing, SearchOutcome::Continuing) => SearchOutcome::Continuing,
        }
    }

    /// The verdict that a finished search returns.
    pub fn verdict(self) -> (prime: bool)
        ensures
            prime == self.is_prime_verdict(),
    {
        match self {
            SearchOutcome::HasFactor => false,
            SearchOutcome::ExhaustedNoFactor => true,
            SearchOutcome::Continuing => true,
        }
    }
}

/// The remainder of a candidate on division by a small positive number.
fn small_remainder(number: &Natural, divisor: u64) -> (rest: u64)
    requires
        divisor > 0,
    ensures
        rest == integer(*number) % (divisor as int),
{
    let d = Natural::from_u64(divisor);
    let (_, r) = div_rem(number, &d);
    match to_u64(&r) {
        Some(rest) => rest,
        None => 0,
    }
}

/// Whether `number / divisor` is a whole number strictly greater than 1.
fn divides_properly(number: &Natural, divisor: &Natural) -> (found: bool)
    requires
        integer(*divisor) > 0,
    ensures
        found == has_proper_quotient(integer(*number), integer(*divisor)),
{
    let (q, r) = div_rem(number, divisor);
    let zero = Natural::from_u64(0);
    let one = Natural::from_u64(1);
    same(&r, &zero) && less(&one, &q)
}

/// The constant-time classifier: it knows 2, 3, 5 and 7 for prime, and 1 and
/// every number above 7 that one of the four divides for composite. On anything
/// else it has no verdict.
pub fn fast_path(number: &Natural) -> (verdict: Option<bool>)
    ensures
        verdict == fast_verdict(integer(*number)),
{
    match to_u64(number) {
        Some(small) => {
            if small == 2 || small == 3 || small == 5 || small == 7 {
                return Some(true);
            }
            if small == 1 {
                return Some(false);
            }
            if small <= 7 {
                return None;
            }
        },
        None => {},
    }
    let by_five = small_remainder(number, 5) == 0;
    let by_seven = small_remainder(number, 7) == 0;
    let by_two = small_remainder(number, 2) == 0;
    let by_three = small_remainder(number, 3) == 0;
    if by_five || by_seven || by_two || by_three {
        Some(false)
    } else {
        None
    }
}

/// The 6k±1 filter: whether the candidate is one more or one less than a
/// multiple of six.
pub fn six_k_filter(number: &Natural) -> (passes: bool)
    ensures
        passes == is_six_k_form(integer(*number)),
{
    let rest = small_remainder(number, 6);
    rest == 1 || rest == 5
}

/// The classifier and the filter in turn: the verdict on every candidate that
/// needs no search.
pub fn screen(number: &Natural) -> (verdict: Option<bool>)
    ensures
        verdict == screened_verdict(integer(*number)),
{
    match fast_path(number) {
        Some(verdict) => Some(verdict),
        None => if six_k_filter(number) {
            None
        } else {
            Some(false)
        },
    }
}

/// Tries the two divisors of one index on the candidate.
pub fn probe(number: &Natural, index: &Natural) -> (outcome: SearchOutcome)
    requires
        integer(*index) >= 1,
    ensures
        outcome == outcome_at(integer(*number), integer(*index)),
{
    let six = Natural::from_u64(6);
    let five = Natural::from_u64(5);
    let seven = Natural::from_u64(7);
    let six_k = product(&six, index);
    let lower = sum(&five, &six_k);
    let upper = sum(&seven, &six_k);
    if divides_properly(number, &lower) || divides_properly(number, &upper) {
        SearchOutcome::HasFactor
    } else if less(number, &six_k) {
        SearchOutcome::ExhaustedNoFactor
    } else {
        SearchOutcome::Continuing
    }
}

/// Decides whether a number is prime.
///
/// The screening settles 0 to 7, the multiples of 2, 3, 5 and 7, and whatever is
/// not of the form 6k±1. For the rest, a [`Search`] is run to its end, without
/// progress reports. The verdict is a function of the number alone: it does not
/// depend on how many workers there are, nor on what they do in which order.
pub fn prime(number: &Natural) -> (verdict: bool)
    ensures
        verdict == is_prime(integer(*number)),
        verdict == engine_verdict(integer(*number)),
{
    let ghost n = integer(*number);
    proof {
        lemma_engine_decides_primality(n);
    }
    match Search::begin(number, false) {
        Begin::Settled(verdict) => verdict,
        Begin::Searching(mut search) => {
            loop
                invariant
                    n == integer(*number),
                    engine_verdict(n) == is_prime(n),
                    search@.well_formed(),
                    search@.number == n,
                decreases search@.remaining(),
            {
                match search.advance() {
                    Step::Verdict(verdict) => {
                        return verdict;
                    },
                    Step::Ticks(_) => {},
                }
            }
        },
    }
}

/// An index that exposes a factor shows that the candidate is composite.
pub proof fn lemma_factor_refutes_prime(n: int, k: int)
    requires
        n >= 0,
        k >= 1,
        has_factor_at(n, k),
    ensures
        !is_prime(n),
{
    let d = if has_proper_quotient(n, 5 + 6 * k) {
        5 + 6 * k
    } else {
        7 + 6 * k
    };
    lemma_proper_divisor_quotient(n, d);
    lemma_divisor_refutes_prime(n, d);
}

/// Past the first index at which six times the index exceeds the candidate, no
/// index exposes a factor.
pub proof fn lemma_no_factor_past_exhaustion(n: int, k: int)
    requires
        n >= 0,
        k >= 1,
        6 * k > n,
    ensures
        !has_factor_at(n, k),
{
    lemma_large_divisor_has_no_quotient(n, 5 + 6 * k);
    lemma_large_divisor_has_no_quotient(n, 7 + 6 * k);
}

/// Once an index reports exhaustion after every smaller index reported nothing,
/// the whole range holds no factor.
pub proof fn lemma_exhausted_search_is_over(n: int, last: int)
    requires
        n >= 0,
        last >= 1,
        6 * last > n,
        forall|k: int| 1 <= k < last ==> !#[trigger] has_factor_at(n, k),
    ensures
        !search_finds_factor(n),
{
    assert forall|k: int| 1 <= k <= n implies !#[trigger] has_factor_at(n, k) by {
        if k >= last {
            lemma_no_factor_past_exhaustion(n, k);
        }
    }
}

/// A candidate above 7 that none of 2, 3, 5, 7 divides is prime if no divisor
/// index exposes a factor: every divisor it could have is `5 + 6k` or `7 + 6k`
/// for an index `k` of the search.
pub proof fn lemma_no_factor_means_prime(n: int)
    requires
        n > 7,
        n % 2 != 0,
        n % 3 != 0,
        n % 5 != 0,
        n % 7 != 0,
        !search_finds_factor(n),
    ensures
        is_prime(n),
{
    assert forall|d: int| 1 < d < n implies !#[trigger] crate::primes::divides(d, n) by {
        if n % d == 0 {
            lemma_divisor_is_six_k_form(n, d);
            lemma_proper_divisor_quotient(n, d);
            let k = if d % 6 == 5 {
                (d - 5) / 6
            } else {
                (d - 7) / 6
            };
            assert(has_factor_at(n, k));
        }
    }
}

/// The engine's rule decides primality on every number that is not negative.
pub proof fn lemma_engine_decides_primality(n: int)
    requires
        n >= 0,
    ensures
        engine_verdict(n) == is_prime(n),
{
    lemma_primes_below_ten();
    if n <= 7 {
        if n == 4 || n == 6 {
            lemma_divisor_refutes_prime(n, 2);
        }
    } else if fast_verdict(n) is Some {
        lemma_small_divisor_is_composite(n);
    } else if search_finds_factor(n) {
        let k = choose|k: int| 1 <= k <= n && #[trigger] has_factor_at(n, k);
        lemma_factor_refutes_prime(n, k);
    } else {
        lemma_no_factor_means_prime(n);
    }
}

/// The engine takes every number above 7 that 2, 3, 5 or 7 divides for composite,
/// on the word of the classifier alone.
pub proof fn lemma_engine_rejects_small_multiples(n: int)
    requires
        n > 7,
        n % 2 == 0 || n % 3 == 0 || n % 5 == 0 || n % 7 == 0,
    ensures
        fast_verdict(n) == Some(false),
        !engine_verdict(n),
        !is_prime(n),
{
    lemma_small_divisor_is_composite(n);
}

/// The engine takes every number above 7 that is not congruent to 1 or 5 modulo
/// 6 for composite, without any search.
pub proof fn lemma_engine_rejects_off_six_k(n: int)
    requires
        n > 7,
        n % 6 != 1,
        n % 6 != 5,
    ensures
        screened_verdict(n) == Some(false),
        !engine_verdict(n),
        !is_prime(n),
{
    lemma_off_six_k_is_composite(n);
}

/// The engine takes 2, 3, 5 and 7 for prime, and neither 0 nor 1.
pub proof fn lemma_engine_on_the_smallest()
    ensures
        engine_verdict(2) && engine_verdict(3) && engine_verdict(5) && engine_verdict(7),
        !engine_verdict(0) && !engine_verdict(1),
{
}

/// Merging is a choice by rank: the order and the grouping of the outcomes do not
/// matter, merging an outcome with itself changes nothing, a search still under
/// way yields to anything, and a factor found is never overridden.
pub proof fn lemma_merge_is_by_rank(a: SearchOutcome, b: SearchOutcome, c: SearchOutcome)
    ensures
        a.merged_with(b) == b.merged_with(a),
        a.merged_with(b).merged_with(c) == a.merged_with(b.merged_with(c)),
        a.merged_with(a) == a,
        a.merged_with(SearchOutcome::Continuing) == a,
        a.merged_with(SearchOutcome::HasFactor) == SearchOutcome::HasFactor,
        SearchOutcome::HasFactor.merged_with(a) == SearchOutcome::HasFactor,
{
}

/// The merged outcome of a visit is a factor found exactly when one of the
/// visited indices exposes a factor.
pub proof fn lemma_merged_outcome_finds_factor(n: int, visited: Seq<int>)
    ensures
        merged_outcome(n, visited) == SearchOutcome::HasFactor <==> meets_factor(n, visited),
    decreases visited.len(),
{
    if visited.len() > 0 {
        let earlier = visited.drop_last();
        lemma_merged_outcome_finds_factor(n, earlier);
        if meets_factor(n, visited) {
            let i = choose|i: int| 0 <= i < visited.len() && has_factor_at(n, #[trigger] visited[i]);
            if i < earlier.len() {
                assert(has_factor_at(n, earlier[i]));
            }
        }
    }
}

/// The merged outcome of a visit is the highest-ranking outcome among the visited
/// indices, and a search still under way where nothing was visited.
pub proof fn lemma_merged_outcome_is_the_highest(n: int, visited: Seq<int>)
    ensures
        forall|i: int|
            0 <= i < visited.len() ==> (#[trigger] outcome_at(n, visited[i])).rank()
                <= merged_outcome(n, visited).rank(),
        merged_outcome(n, visited) == SearchOutcome::Continuing || exists|i: int|
            0 <= i < visited.len() && merged_outcome(n, visited) == #[trigger] outcome_at(
                n,
                visited[i],
            ),
    decreases visited.len(),
{
    if visited.len() > 0 {
        let earlier = visited.drop_last();
        let merged = merged_outcome(n, visited);
        lemma_merged_outcome_is_the_highest(n, earlier);
        assert forall|i: int| 0 <= i < visited.len() implies (#[trigger] outcome_at(
            n,
            visited[i],
        )).rank() <= merged.rank() by {
            if i < earlier.len() {
                assert(visited[i] == earlier[i]);
            }
        }
    }
}

/// However the divisor indices are handed out to workers, in whatever order their
/// outcomes are merged, and however often an index is visited, a search that
/// stops on a factor, or else goes through every index up to the point of
/// exhaustion, returns the verdict of the engine: whether the candidate is prime.
pub proof fn lemma_any_schedule_agrees(n: int, visited: Seq<int>)
    requires
        n >= 0,
        screened_verdict(n) is None,
        forall|i: int| 0 <= i < visited.len() ==> #[trigger] visited[i] >= 1,
        meets_factor(n, visited) || covers_search(n, visited),
    ensures
        merged_outcome(n, visited).is_prime_verdict() == is_prime(n),
        merged_outcome(n, visited).is_prime_verdict() == engine_verdict(n),
{
    lemma_engine_decides_primality(n);
    lemma_merged_outcome_finds_factor(n, visited);
    if meets_factor(n, visited) {
        let i = choose|i: int| 0 <= i < visited.len() && has_factor_at(n, #[trigger] visited[i]);
        lemma_factor_refutes_prime(n, visited[i]);
    } else {
        assert forall|k: int| 1 <= k <= n implies !#[trigger] has_factor_at(n, k) by {
            if 6 * k <= n {
                assert(visited.contains(k));
            } else {
                lemma_no_factor_past_exhaustion(n, k);
            }
        }
    }
}

} // verus!
