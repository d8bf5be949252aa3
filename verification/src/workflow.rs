//! The single-pass claim workflow.
//!
//! One claim attempt runs strictly forward: fetch balance, resolve the
//! amount, validate it, confirm, submit, classify the reply. Every step can
//! end the attempt instead; no step ever runs twice and nothing loops. The
//! functions here take the workflow from state to state on the plain values
//! the surrounding program hands them; the network and terminal reads that
//! produce those values stay outside the library.

use vstd::prelude::*;

use crate::amount::decimal_grains;
use crate::amount::grains_from_decimal;
use crate::amount::is_decimal;
use crate::confirm::affirmative;
use crate::confirm::is_affirmative;
use crate::response::ClaimResponse;
use crate::validate::validate;
use crate::validate::ValidationError;
use crate::Grains;

verus! {

/// How one claim attempt ended. Every variant maps to one message for the
/// user; none is fatal to the surrounding program.
#[derive(Debug, PartialEq, Eq)]
pub enum Outcome {
    /// The balance fetch failed, or its body was not a decimal amount.
    /// Treated like an empty balance: there is nothing to claim.
    BalanceUnavailable,
    /// The fetched balance is zero grains.
    NoBalance,
    /// The entered amount was not a decimal number.
    InvalidAmountInput,
    /// The entered amount is, or truncates to, zero grains.
    ZeroAmountRequested,
    /// The entered amount exceeds the balance; both sides in grains.
    InsufficientBalance { requested: Grains, available: Grains },
    /// The user declined the confirmation prompt.
    UserCancelled,
    /// The pool accepted the claim.
    Success,
    /// The pool refused: the cooldown window is still running.
    CooldownActive { seconds_remaining: u64 },
    /// The pool answered with text the workflow does not know.
    UnrecognizedReply { raw: String },
    /// The claim request never completed; the transport error's text.
    TransportFailure { cause: String },
}

/// Where a claim attempt stands. States only ever advance in declaration
/// order, or jump to `Done`; there is no way back.
#[derive(Debug, PartialEq, Eq)]
pub enum ClaimState {
    /// Nothing has happened; the balance fetch is owed.
    Start,
    /// The balance arrived and is positive.
    BalanceChecked { available: Grains },
    /// The user's amount resolved to a grain count.
    AmountResolved { available: Grains, requested: Grains },
    /// The amount passed the business rules.
    Validated { available: Grains, requested: Grains },
    /// The user confirmed; sending the claim request is owed.
    Confirmed { requested: Grains },
    /// The claim request is on the wire; the reply is owed.
    Submitted { requested: Grains },
    /// The attempt ended; only the outcome is left to report.
    Done { outcome: Outcome },
}

/// Feeds the balance fetch's result into the workflow: the reply body's
/// text, or `None` when the fetch itself failed. A body that is not a
/// decimal amount (or overflows the grain count) counts as unavailable; an
/// available balance of zero grains ends the attempt before any amount is
/// asked for.
pub fn on_balance_reply(state: ClaimState, reply: Option<&str>, decimals: u32) -> (next: ClaimState)
    requires
        state is Start,
    ensures
        reply is None ==> next == (ClaimState::Done { outcome: Outcome::BalanceUnavailable }),
        reply matches Some(body) ==> {
            let ok = is_decimal(body@) && decimal_grains(body@, decimals as nat) <= u64::MAX;
            let grains = decimal_grains(body@, decimals as nat);
            &&& !ok ==> next == (ClaimState::Done { outcome: Outcome::BalanceUnavailable })
            &&& ok && grains == 0 ==> next == (ClaimState::Done { outcome: Outcome::NoBalance })
            &&& ok && grains > 0 ==> next == (ClaimState::BalanceChecked {
                available: grains as u64,
            })
        },
{
    match reply {
        None => ClaimState::Done { outcome: Outcome::BalanceUnavailable },
        Some(body) => match grains_from_decimal(body, decimals) {
            None => ClaimState::Done { outcome: Outcome::BalanceUnavailable },
            Some(available) => {
                if available == 0 {
                    ClaimState::Done { outcome: Outcome::NoBalance }
                } else {
                    ClaimState::BalanceChecked { available }
                }
            },
        },
    }
}

/// Feeds the amount text into the workflow: a preset amount's text or the
/// line the user entered. Text that is not a decimal number ends the
/// attempt; the zero and sufficiency rules come next, not here.
pub fn on_amount_text(state: ClaimState, text: &str, decimals: u32) -> (next: ClaimState)
    requires
        state is BalanceChecked,
    ensures
        ({
            let ok = is_decimal(text@) && decimal_grains(text@, decimals as nat) <= u64::MAX;
            let grains = decimal_grains(text@, decimals as nat);
            &&& !ok ==> next == (ClaimState::Done { outcome: Outcome::InvalidAmountInput })
            &&& ok ==> next == (ClaimState::AmountResolved {
                available: state->BalanceChecked_available,
                requested: grains as u64,
            })
        }),
{
    let available = match state {
        ClaimState::BalanceChecked { available } => available,
        _ => 0,  // unreachable: the caller owes a BalanceChecked state
    };
    match grains_from_decimal(text, decimals) {
        None => ClaimState::Done { outcome: Outcome::InvalidAmountInput },
        Some(requested) => ClaimState::AmountResolved { available, requested },
    }
}

/// Applies the business rules to the resolved amount: nothing to claim,
/// zero request, then sufficiency, in that order. Requesting exactly the
/// available balance passes.
pub fn on_validation(state: ClaimState) -> (next: ClaimState)
    requires
        state is AmountResolved,
    ensures
        ({
            let available = state->AmountResolved_available;
            let requested = state->AmountResolved_requested;
            &&& available == 0 ==> next == (ClaimState::Done { outcome: Outcome::NoBalance })
            &&& available > 0 && requested == 0 ==> next == (ClaimState::Done {
                outcome: Outcome::ZeroAmountRequested,
            })
            &&& available > 0 && requested > available ==> next == (ClaimState::Done {
                outcome: Outcome::InsufficientBalance { requested, available },
            })
            &&& 0 < requested <= available ==> next == (ClaimState::Validated {
                available,
                requested,
            })
        }),
{
    let (available, requested) = match state {
        ClaimState::AmountResolved { available, requested } => (available, requested),
        _ => (0, 0),  // unreachable: the caller owes an AmountResolved state
    };
    match validate(requested, available) {
        Ok(()) => ClaimState::Validated { available, requested },
        Err(ValidationError::NoBalance) => ClaimState::Done { outcome: Outcome::NoBalance },
        Err(ValidationError::ZeroAmount) => ClaimState::Done {
            outcome: Outcome::ZeroAmountRequested,
        },
        Err(ValidationError::InsufficientBalance { requested, available }) => ClaimState::Done {
            outcome: Outcome::InsufficientBalance { requested, available },
        },
    }
}

/// Feeds the confirmation answer into the workflow. An affirmative answer
/// (empty, `"y"` or `"yes"`, any letter case) moves on; anything else
/// cancels the attempt.
pub fn on_confirmation(state: ClaimState, answer: &str) -> (next: ClaimState)
    requires
        state is Validated,
    ensures
        affirmative(answer@) ==> next == (ClaimState::Confirmed {
            requested: state->Validated_requested,
        }),
        !affirmative(answer@) ==> next == (ClaimState::Done { outcome: Outcome::UserCancelled }),
{
    let requested = match state {
        ClaimState::Validated { requested, .. } => requested,
        _ => 0,  // unreachable: the caller owes a Validated state
    };
    if is_affirmative(answer) {
        ClaimState::Confirmed { requested }
    } else {
        ClaimState::Done { outcome: Outcome::UserCancelled }
    }
}

/// Records that the claim request went on the wire.
pub fn on_submission(state: ClaimState) -> (next: ClaimState)
    requires
        state is Confirmed,
    ensures
        next == (ClaimState::Submitted { requested: state->Confirmed_requested }),
{
    let requested = match state {
        ClaimState::Confirmed { requested } => requested,
        _ => 0,  // unreachable: the caller owes a Confirmed state
    };
    ClaimState::Submitted { requested }
}

/// Feeds the classified reply into the workflow and ends the attempt. Each
/// response maps to its outcome one for one.
pub fn on_response(state: ClaimState, response: ClaimResponse) -> (next: ClaimState)
    requires
        state is Submitted,
    ensures
        response is Success ==> next == (ClaimState::Done { outcome: Outcome::Success }),
        response matches ClaimResponse::Cooldown { seconds_remaining } ==> next == (
        ClaimState::Done { outcome: Outcome::CooldownActive { seconds_remaining } }),
        response matches ClaimResponse::Unrecognized { raw } ==> next == (ClaimState::Done {
            outcome: Outcome::UnrecognizedReply { raw },
        }),
        response matches ClaimResponse::TransportFailure { cause } ==> next == (ClaimState::Done {
            outcome: Outcome::TransportFailure { cause },
        }),
{
    let outcome = match response {
        ClaimResponse::Success => Outcome::Success,
        ClaimResponse::Cooldown { seconds_remaining } => Outcome::CooldownActive {
            seconds_remaining,
        },
        ClaimResponse::Unrecognized { raw } => Outcome::UnrecognizedReply { raw },
        ClaimResponse::TransportFailure { cause } => Outcome::TransportFailure { cause },
    };
    ClaimState::Done { outcome }
}

} // verus!
