//! What it means for an integer to be prime, and the arithmetic facts that the
//! trial-division engine rests on.

use vstd::arithmetic::div_mod::{
    lemma_basic_div, lemma_fundamental_div_mod, lemma_mod_multiples_basic,
};
use vstd::prelude::*;

verus! {

/// `d` divides `n` exactly.
pub open spec fn divides(d: int, n: int) -> bool {
    d != 0 && n % d == 0
}

/// `n` is a prime number: at least 2, and no integer strictly between 1 and `n`
/// divides it.
pub open spec fn is_prime(n: int) -> bool {
    n >= 2 && forall|d: int| 1 < d < n ==> !#[trigger] divides(d, n)
}

/// A multiple of `d` written out as `d * q` leaves no remainder.
pub proof fn lemma_product_is_multiple(d: int, q: int)
    requires
        d > 0,
    ensures
        (d * q) % d == 0,
{
    lemma_mod_multiples_basic(q, d);
    assert(q * d == d * q) by (nonlinear_arith);
}

/// Divisibility is transitive: a divisor of a divisor of `n` divides `n`.
pub proof fn lemma_divides_transitive(a: int, b: int, n: int)
    requires
        a > 0,
        b > 0,
        b % a == 0,
        n % b == 0,
    ensures
        n % a == 0,
{
    let q1 = b / a;
    let q2 = n / b;
    lemma_fundamental_div_mod(b, a);
    lemma_fundamental_div_mod(n, b);
    assert(n == a * (q1 * q2)) by (nonlinear_arith)
        requires
            b == a * q1,
            n == b * q2,
    ;
    lemma_product_is_multiple(a, q1 * q2);
}

/// A proper divisor `d` of a positive `n` has a cofactor of at least 2, and the
/// other way round: an exact quotient above 1 means that `d` lies below `n`.
pub proof fn lemma_proper_divisor_quotient(n: int, d: int)
    requires
        n > 0,
        d > 0,
        n % d == 0,
    ensures
        n / d > 1 <==> d < n,
        n / d >= 1,
        d <= n,
{
    let q = n / d;
    lemma_fundamental_div_mod(n, d);
    assert(q >= 1 && d <= n && (q > 1 <==> d < n)) by (nonlinear_arith)
        requires
            n == d * q,
            n > 0,
            d > 0,
    ;
}

/// A divisor strictly between 1 and `n` shows that `n` is not prime.
pub proof fn lemma_divisor_refutes_prime(n: int, d: int)
    requires
        1 < d < n,
        n % d == 0,
    ensures
        !is_prime(n),
{
    assert(divides(d, n));
}

/// The four primes below ten are prime; zero and one are not.
pub proof fn lemma_primes_below_ten()
    ensures
        is_prime(2),
        is_prime(3),
        is_prime(5),
        is_prime(7),
        !is_prime(0),
        !is_prime(1),
{
    assert forall|d: int| 1 < d < 7 implies !#[trigger] divides(d, 7) by {
        assert(d == 2 || d == 3 || d == 4 || d == 5 || d == 6);
    }
    assert forall|d: int| 1 < d < 5 implies !#[trigger] divides(d, 5) by {
        assert(d == 2 || d == 3 || d == 4);
    }
    assert forall|d: int| 1 < d < 3 implies !#[trigger] divides(d, 3) by {
        assert(d == 2);
    }
}

/// A number above 7 with one of 2, 3, 5, 7 as a divisor is composite.
pub proof fn lemma_small_divisor_is_composite(n: int)
    requires
        n > 7,
        n % 2 == 0 || n % 3 == 0 || n % 5 == 0 || n % 7 == 0,
    ensures
        !is_prime(n),
{
    if n % 2 == 0 {
        lemma_divisor_refutes_prime(n, 2);
    } else if n % 3 == 0 {
        lemma_divisor_refutes_prime(n, 3);
    } else if n % 5 == 0 {
        lemma_divisor_refutes_prime(n, 5);
    } else {
        lemma_divisor_refutes_prime(n, 7);
    }
}

/// A number above 7 that is neither one more nor one less than a multiple of six
/// is composite: it is even or a multiple of three.
pub proof fn lemma_off_six_k_is_composite(n: int)
    requires
        n > 7,
        n % 6 != 1,
        n % 6 != 5,
    ensures
        !is_prime(n),
        n % 2 == 0 || n % 3 == 0,
{
    lemma_small_divisor_is_composite(n);
}

/// A divisor of a number that has neither 2 nor 3 as a factor is itself one more
/// or one less than a multiple of six.
pub proof fn lemma_divisor_is_six_k_form(n: int, d: int)
    requires
        d > 0,
        n % d == 0,
        n % 2 != 0,
        n % 3 != 0,
    ensures
        d % 6 == 1 || d % 6 == 5,
{
    if d % 2 == 0 {
        lemma_divides_transitive(2, d, n);
    }
    if d % 3 == 0 {
        lemma_divides_transitive(3, d, n);
    }
}

/// A divisor larger than the number it is tried on never yields a quotient above 1.
pub proof fn lemma_large_divisor_has_no_quotient(n: int, d: int)
    requires
        0 <= n < d,
    ensures
        n / d == 0,
{
    lemma_basic_div(n, d);
}

} // verus!
