use pool_claim::response::classify_response;
use pool_claim::response::ClaimResponse;
use pool_claim::workflow::on_amount_text;
use pool_claim::workflow::on_balance_reply;
use pool_claim::workflow::on_confirmation;
use pool_claim::workflow::on_response;
use pool_claim::workflow::on_submission;
use pool_claim::workflow::on_validation;
use pool_claim::workflow::ClaimState;
use pool_claim::workflow::Outcome;

const DECIMALS: u32 = 9;

#[test]
fn successful_claim_runs_through_every_state() {
    let st = on_balance_reply(ClaimState::Start, Some("5.0"), DECIMALS);
    assert_eq!(
        st,
        ClaimState::BalanceChecked {
            available: 5_000_000_000
        }
    );
    let st = on_amount_text(st, "3.0", DECIMALS);
    assert_eq!(
        st,
        ClaimState::AmountResolved {
            available: 5_000_000_000,
            requested: 3_000_000_000
        }
    );
    let st = on_validation(st);
    assert_eq!(
        st,
        ClaimState::Validated {
            available: 5_000_000_000,
            requested: 3_000_000_000
        }
    );
    let st = on_confirmation(st, "y");
    assert_eq!(
        st,
        ClaimState::Confirmed {
            requested: 3_000_000_000
        }
    );
    let st = on_submission(st);
    assert_eq!(
        st,
        ClaimState::Submitted {
            requested: 3_000_000_000
        }
    );
    let st = on_response(st, classify_response(String::from("SUCCESS")));
    assert_eq!(
        st,
        ClaimState::Done {
            outcome: Outcome::Success
        }
    );
}

#[test]
fn failed_balance_fetch_ends_the_attempt() {
    // The fetch itself failed: nothing is claimable, nothing is submitted.
    let st = on_balance_reply(ClaimState::Start, None, DECIMALS);
    assert_eq!(
        st,
        ClaimState::Done {
            outcome: Outcome::BalanceUnavailable
        }
    );
}

#[test]
fn non_numeric_balance_body_counts_as_unavailable() {
    let st = on_balance_reply(ClaimState::Start, Some("server error"), DECIMALS);
    assert_eq!(
        st,
        ClaimState::Done {
            outcome: Outcome::BalanceUnavailable
        }
    );
}

#[test]
fn zero_balance_ends_before_amount_entry() {
    let st = on_balance_reply(ClaimState::Start, Some("0.0"), DECIMALS);
    assert_eq!(
        st,
        ClaimState::Done {
            outcome: Outcome::NoBalance
        }
    );
}

#[test]
fn invalid_amount_entry_ends_the_attempt() {
    let st = on_balance_reply(ClaimState::Start, Some("5.0"), DECIMALS);
    let st = on_amount_text(st, "lots", DECIMALS);
    assert_eq!(
        st,
        ClaimState::Done {
            outcome: Outcome::InvalidAmountInput
        }
    );
}

#[test]
fn amount_that_truncates_to_zero_is_refused() {
    let st = on_balance_reply(ClaimState::Start, Some("5.0"), DECIMALS);
    let st = on_amount_text(st, "0.0000000001", DECIMALS);
    let st = on_validation(st);
    assert_eq!(
        st,
        ClaimState::Done {
            outcome: Outcome::ZeroAmountRequested
        }
    );
}

#[test]
fn amount_over_balance_is_refused_with_both_sides() {
    let st = on_balance_reply(ClaimState::Start, Some("1.0"), DECIMALS);
    let st = on_amount_text(st, "2.0", DECIMALS);
    let st = on_validation(st);
    assert_eq!(
        st,
        ClaimState::Done {
            outcome: Outcome::InsufficientBalance {
                requested: 2_000_000_000,
                available: 1_000_000_000
            }
        }
    );
}

#[test]
fn amount_equal_to_balance_is_accepted() {
    let st = on_balance_reply(ClaimState::Start, Some("1.0"), DECIMALS);
    let st = on_amount_text(st, "1.0", DECIMALS);
    let st = on_validation(st);
    assert_eq!(
        st,
        ClaimState::Validated {
            available: 1_000_000_000,
            requested: 1_000_000_000
        }
    );
}

#[test]
fn declined_confirmation_cancels() {
    let st = on_balance_reply(ClaimState::Start, Some("5.0"), DECIMALS);
    let st = on_amount_text(st, "3.0", DECIMALS);
    let st = on_validation(st);
    let st = on_confirmation(st, "n");
    assert_eq!(
        st,
        ClaimState::Done {
            outcome: Outcome::UserCancelled
        }
    );
}

#[test]
fn empty_confirmation_defaults_to_yes() {
    let st = on_balance_reply(ClaimState::Start, Some("5.0"), DECIMALS);
    let st = on_amount_text(st, "3.0", DECIMALS);
    let st = on_validation(st);
    let st = on_confirmation(st, "\n");
    assert_eq!(
        st,
        ClaimState::Confirmed {
            requested: 3_000_000_000
        }
    );
}

#[test]
fn cooldown_reply_reports_remaining_wait() {
    let st = ClaimState::Submitted {
        requested: 3_000_000_000,
    };
    let st = on_response(st, classify_response(String::from("600")));
    assert_eq!(
        st,
        ClaimState::Done {
            outcome: Outcome::CooldownActive {
                seconds_remaining: 1200
            }
        }
    );
}

#[test]
fn unrecognized_reply_is_reported_verbatim() {
    let st = ClaimState::Submitted {
        requested: 3_000_000_000,
    };
    let st = on_response(st, classify_response(String::from("teapot")));
    assert_eq!(
        st,
        ClaimState::Done {
            outcome: Outcome::UnrecognizedReply {
                raw: String::from("teapot")
            }
        }
    );
}

#[test]
fn transport_failure_on_submission_is_reported() {
    let st = ClaimState::Submitted {
        requested: 3_000_000_000,
    };
    let st = on_response(
        st,
        ClaimResponse::TransportFailure {
            cause: String::from("connection reset"),
        },
    );
    assert_eq!(
        st,
        ClaimState::Done {
            outcome: Outcome::TransportFailure {
                cause: String::from("connection reset")
            }
        }
    );
}
