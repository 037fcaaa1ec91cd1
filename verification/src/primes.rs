//! The primality service's decision: whether a request's number is prime.
//! The transport layer parses the request and reduces its number to a whole
//! `u64` where it is one; everything else is decided here.
use vstd::prelude::*;

verus! {

/// A prime has exactly the divisors 1 and itself.
pub open spec fn spec_is_prime(n: nat) -> bool {
    n >= 2 && forall|d: nat| 2 <= d < n ==> #[trigger] (n % d) != 0
}

/// Relies on num_prime::nt_funcs::is_prime64: a deterministic primality test
/// covering the whole u64 range.
#[verifier::external_body]
fn is_prime_u64(n: u64) -> (r: bool)
    ensures
        r == spec_is_prime(n as nat),
{
    num_prime::nt_funcs::is_prime64(n)
}

/// The verdict on a request: true exactly when the number is a whole number
/// (so it arrives here as `Some`) and that number is prime.
pub fn prime_verdict(number: Option<u64>) -> (r: bool)
    ensures
        r == (number matches Some(n) && spec_is_prime(n as nat)),
{
    match number {
        Some(n) => is_prime_u64(n),
        None => false,
    }
}

} // verus!
