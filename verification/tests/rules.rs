use pool_claim::confirm::is_affirmative;
use pool_claim::response::classify_response;
use pool_claim::response::cooldown_display;
use pool_claim::response::ClaimResponse;
use pool_claim::validate::validate;
use pool_claim::validate::ValidationError;

#[test]
fn requesting_exactly_the_balance_passes() {
    assert_eq!(validate(5, 5), Ok(()));
    assert_eq!(validate(3, 5), Ok(()));
}

#[test]
fn requesting_one_grain_over_fails() {
    assert_eq!(
        validate(6, 5),
        Err(ValidationError::InsufficientBalance {
            requested: 6,
            available: 5
        })
    );
}

#[test]
fn zero_request_is_distinct_from_zero_balance() {
    assert_eq!(validate(0, 5), Err(ValidationError::ZeroAmount));
    assert_eq!(validate(0, 0), Err(ValidationError::NoBalance));
    assert_eq!(validate(5, 0), Err(ValidationError::NoBalance));
}

#[test]
fn affirmative_answers_confirm() {
    assert!(is_affirmative(""));
    assert!(is_affirmative("y"));
    assert!(is_affirmative("Y"));
    assert!(is_affirmative("yes"));
    assert!(is_affirmative("YES"));
    assert!(is_affirmative("yEs"));
    assert!(is_affirmative("  yes \n"));
    assert!(is_affirmative("\n"));
}

#[test]
fn other_answers_cancel() {
    assert!(!is_affirmative("n"));
    assert!(!is_affirmative("no"));
    assert!(!is_affirmative("maybe"));
    assert!(!is_affirmative("yess"));
    assert!(!is_affirmative("y e s"));
}

#[test]
fn success_reply_classifies_as_success() {
    assert_eq!(
        classify_response(String::from("SUCCESS")),
        ClaimResponse::Success
    );
    // Only the exact text counts.
    assert!(matches!(
        classify_response(String::from("success")),
        ClaimResponse::Unrecognized { .. }
    ));
}

#[test]
fn cooldown_reply_yields_remaining_time() {
    // 600 s elapsed of the 1800 s window: 1200 s = 20 m 0 s remain.
    let r = classify_response(String::from("600"));
    assert_eq!(
        r,
        ClaimResponse::Cooldown {
            seconds_remaining: 1200
        }
    );
    assert_eq!(cooldown_display(1200), (20, 0));
}

#[test]
fn cooldown_reply_at_window_end_yields_zero() {
    assert_eq!(
        classify_response(String::from("1800")),
        ClaimResponse::Cooldown {
            seconds_remaining: 0
        }
    );
    assert_eq!(cooldown_display(0), (0, 0));
}

#[test]
fn stale_cooldown_reply_clamps_to_zero() {
    // 1900 s elapsed claims more than the window holds: clamp, don't wrap.
    assert_eq!(
        classify_response(String::from("1900")),
        ClaimResponse::Cooldown {
            seconds_remaining: 0
        }
    );
}

#[test]
fn odd_remainders_display_as_minutes_and_seconds() {
    assert_eq!(cooldown_display(1234), (20, 34));
    assert_eq!(cooldown_display(59), (0, 59));
}

#[test]
fn other_reply_text_is_unrecognized() {
    assert_eq!(
        classify_response(String::from("rate limited")),
        ClaimResponse::Unrecognized {
            raw: String::from("rate limited")
        }
    );
    assert_eq!(
        classify_response(String::from("")),
        ClaimResponse::Unrecognized {
            raw: String::from("")
        }
    );
}
