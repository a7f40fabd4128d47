//! Randomness for game ids, from `fastrand` and `getrandom`.
use vstd::prelude::*;

verus! {

#[verifier::external_type_specification]
#[verifier::external_body]
pub struct ExGetrandomError(getrandom::Error);

/// `fastrand::digit(10)`: a random decimal digit. The crate draws a number
/// below the base and returns the character `'0' + n`, so the result is one
/// of `'0'` to `'9'`; which one is left to chance.
#[verifier::external_body]
pub(crate) fn random_digit() -> (digit: char)
    ensures
        '0' <= digit <= '9',
{
    fastrand::digit(10)
}

/// `getrandom::getrandom` on a buffer of four bytes: four random bytes from
/// the operating system, or its error. Nothing is claimed of which bytes come
/// back.
#[verifier::external_body]
pub(crate) fn random_bytes() -> (bytes: Result<[u8; 4], getrandom::Error>) {
    let mut buf = [0u8; 4];
    getrandom::getrandom(&mut buf).map(|_| buf)
}

} // verus!
