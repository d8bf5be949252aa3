//! Business rules that a resolved claim amount must pass before the user is
//! asked to confirm: a zero balance, a zero amount, and a request above the
//! available balance each end the attempt.

use vstd::prelude::*;

use crate::Grains;

verus! {

/// Why a resolved claim amount cannot proceed to confirmation.
///
/// `InsufficientBalance` carries both sides of the failed comparison, in
/// grains, so the caller can re-express them in decimal form for display.
#[derive(Debug, Clone, Copy, PartialEq, Eq, Structural)]
pub enum ValidationError {
    /// The fetched balance is zero: there is nothing to claim at all.
    NoBalance,
    /// The user asked for an amount that is (or truncates to) zero grains.
    ZeroAmount,
    /// The user asked for more than the fetched balance holds.
    InsufficientBalance { requested: Grains, available: Grains },
}

/// Checks a requested amount against the fetched balance, both in grains.
///
/// The checks run in a fixed order, each short-circuiting: no balance,
/// zero amount, then sufficiency. Requesting exactly the available balance
/// passes; one grain more fails.
pub fn validate(requested: Grains, available: Grains) -> (r: Result<(), ValidationError>)
    ensures
        r is Ok <==> 0 < requested <= available,
        available == 0 ==> r == Result::<(), ValidationError>::Err(ValidationError::NoBalance),
        available > 0 && requested == 0 ==> r == Result::<(), ValidationError>::Err(
            ValidationError::ZeroAmount,
        ),
        available > 0 && requested > available ==> r == Result::<(), ValidationError>::Err(
            ValidationError::InsufficientBalance { requested, available },
        ),
{
    if available == 0 {
        Err(ValidationError::NoBalance)
    } else if requested == 0 {
        Err(ValidationError::ZeroAmount)
    } else if requested > available {
        Err(ValidationError::InsufficientBalance { requested, available })
    } else {
        Ok(())
    }
}

} // verus!
