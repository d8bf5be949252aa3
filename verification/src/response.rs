//! Classification of the pool's reply to a claim request.
//!
//! The claim endpoint answers with plain text: the literal `"SUCCESS"`, or
//! a decimal integer counting the seconds already elapsed of a fixed
//! cooldown window, or anything else. The workflow treats the three shapes
//! as success, cooldown-still-running and unrecognized.

use vstd::prelude::*;
use vstd::string::StrSliceExecFns;

use crate::amount::is_u64_literal;
use crate::amount::parse_u64_literal;
use crate::amount::u64_literal_value;

verus! {

/// Length of the cooldown window between two accepted claims, in seconds.
/// The server reports elapsed seconds into this window.
pub const COOLDOWN_WINDOW_SECS: u64 = 1800;

/// Seconds left to wait when `elapsed` seconds of the window have passed.
/// An elapsed count at or past the window's end clamps to zero: such a
/// reply is stale, not wrong, and zero wait is the honest reading.
pub open spec fn cooldown_remaining(elapsed: u64) -> u64 {
    if elapsed >= COOLDOWN_WINDOW_SECS {
        0
    } else {
        (COOLDOWN_WINDOW_SECS - elapsed) as u64
    }
}

/// The pool's answer to a claim request, classified.
#[derive(Debug, PartialEq, Eq)]
pub enum ClaimResponse {
    /// The exact reply `"SUCCESS"`: the rewards were paid out.
    Success,
    /// An integer reply: the cooldown window is still running and
    /// `seconds_remaining` seconds are left of it.
    Cooldown { seconds_remaining: u64 },
    /// Any other reply, carried verbatim for display.
    Unrecognized { raw: String },
    /// The request never completed; carries the transport error's text.
    /// Never produced by classification, only by the caller that saw the
    /// failure.
    TransportFailure { cause: String },
}

/// The two texts hold the same characters.
fn str_eq(a: &str, b: &str) -> (r: bool)
    ensures
        r == (a@ == b@),
{
    let na = a.unicode_len();
    let nb = b.unicode_len();
    if na != nb {
        return false;
    }
    let mut i: usize = 0;
    while i < na
        invariant
            0 <= i <= na,
            na == a@.len() && na == b@.len(),
            forall|j: int| 0 <= j < i ==> a@[j] == b@[j],
        decreases na - i,
    {
        let ca = a.get_char(i);
        let cb = b.get_char(i);
        if ca != cb {
            return false;
        }
        i = i + 1;
    }
    proof {
        assert(a@ =~= b@);
    }
    true
}

/// Splits a remaining wait into the minutes and seconds shown to the user.
pub fn cooldown_display(seconds_remaining: u64) -> (r: (u64, u64))
    ensures
        r.0 == (seconds_remaining / 60) % 60,
        r.1 == seconds_remaining % 60,
{
    ((seconds_remaining / 60) % 60, seconds_remaining % 60)
}

/// Classifies the raw reply text, in fixed order: the exact text
/// `"SUCCESS"` first, else an integer count of elapsed cooldown seconds,
/// else unrecognized.
pub fn classify_response(raw: String) -> (r: ClaimResponse)
    ensures
        raw@ == "SUCCESS"@ ==> r == ClaimResponse::Success,
        raw@ != "SUCCESS"@ && is_u64_literal(raw@) ==> r == (ClaimResponse::Cooldown {
            seconds_remaining: cooldown_remaining(u64_literal_value(raw@) as u64),
        }),
        raw@ != "SUCCESS"@ && !is_u64_literal(raw@) ==> r == (ClaimResponse::Unrecognized { raw }),
{
    if str_eq(raw.as_str(), "SUCCESS") {
        return ClaimResponse::Success;
    }
    match parse_u64_literal(raw.as_str()) {
        Some(elapsed) => {
            let seconds_remaining: u64 = if elapsed >= COOLDOWN_WINDOW_SECS {
                0
            } else {
                COOLDOWN_WINDOW_SECS - elapsed
            };
            ClaimResponse::Cooldown { seconds_remaining }
        },
        None => ClaimResponse::Unrecognized { raw },
    }
}

} // verus!
