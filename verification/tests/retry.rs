use zugzwang::fen::FenError;
use zugzwang::retry::{
    after_api_failure, Action, FenRecognition, MoveAction, RecognitionFailed, RetryPolicy,
    Verdict, API_BACKOFF_MS, MAX_API_RETRIES, MAX_VALIDATION_RETRIES, TIMEOUT_SECS,
    VALIDATION_BACKOFF_MS,
};
use zugzwang::vision::ApiError;

const START: &str = "rnbqkbnr/pppppppp/8/8/8/8/PPPPPPPP/RNBQKBNR w KQkq - 0 1";
const NINE_PAWNS: &str = "rnbqkbnr/pppppppp/8/8/4P3/8/PPPPPPPP/RNBQKBNR b KQkq - 0 1";
const NO_KING: &str = "rnbq1bnr/pppppppp/8/8/8/8/PPPPPPPP/RNBQKBNR w KQkq - 0 1";
const TWO_KINGS: &str = "rnbqkbnr/pppppppp/8/8/4K3/8/PPPPPPPP/RNBQKBNR w KQkq - 0 1";

#[test]
fn policies_have_their_numbers() {
    assert_eq!(MAX_API_RETRIES, 2);
    assert_eq!(MAX_VALIDATION_RETRIES, 2);
    assert_eq!(API_BACKOFF_MS, 500);
    assert_eq!(VALIDATION_BACKOFF_MS, 300);
    assert_eq!(TIMEOUT_SECS, 30);
    assert_eq!(RetryPolicy::for_api(), RetryPolicy { max_retries: 2, backoff_ms: 500 });
    assert_eq!(RetryPolicy::for_validation(), RetryPolicy { max_retries: 2, backoff_ms: 300 });
}

#[test]
fn policy_retries_while_retries_are_left() {
    let policy = RetryPolicy { max_retries: 3, backoff_ms: 40 };
    assert_eq!(policy.after_failure(0), Verdict::RetryAfter(40));
    assert_eq!(policy.after_failure(2), Verdict::RetryAfter(40));
    assert_eq!(policy.after_failure(3), Verdict::GiveUp);
    assert_eq!(policy.after_failure(u32::MAX), Verdict::GiveUp);
    let never = RetryPolicy { max_retries: 0, backoff_ms: 40 };
    assert_eq!(never.after_failure(0), Verdict::GiveUp);
}

#[test]
fn third_failed_request_is_the_last() {
    let (mut state, first) = FenRecognition::start();
    assert!(matches!(first, Action::Send { delay_ms: 0 }));
    assert!(matches!(state.on_transport_error(ApiError::SendFailed), Action::Send { delay_ms: 500 }));
    assert_eq!(state.api_failures, 1);
    assert!(matches!(state.on_transport_error(ApiError::SendFailed), Action::Send { delay_ms: 500 }));
    assert_eq!(state.api_failures, 2);
    match state.on_transport_error(ApiError::NoChoice) {
        Action::Fail(RecognitionFailed::Transport(ApiError::NoChoice)) => (),
        other => panic!("got {:?}", other),
    }
    assert_eq!(state.validation_failures, 0);
}

#[test]
fn valid_reply_is_accepted_corrected() {
    let (mut state, _) = FenRecognition::start();
    match state.on_reply("r4rk1/pppppppp/8/8/8/8/PPPPPPPP/R3K2R b KQkq - 0 1") {
        Action::Accept(position) => {
            assert_eq!(position, "r4rk1/pppppppp/8/8/8/8/PPPPPPPP/R3K2R b KQ - 0 1")
        }
        other => panic!("got {:?}", other),
    }
}

#[test]
fn bad_counts_lead_to_a_retry_not_to_acceptance() {
    for reply in [NINE_PAWNS, NO_KING, TWO_KINGS, "", "8/8/8/8/8/8/8/8 w - - 0 1"] {
        let (mut state, _) = FenRecognition::start();
        assert!(matches!(state.on_reply(reply), Action::Send { delay_ms: 300 }));
        assert_eq!(state.validation_failures, 1);
        assert!(matches!(state.on_reply(reply), Action::Send { delay_ms: 300 }));
        assert_eq!(state.validation_failures, 2);
        match state.on_reply(reply) {
            Action::Fail(RecognitionFailed::Validation(_)) => (),
            other => panic!("got {:?}", other),
        }
    }
}

#[test]
fn last_validation_error_is_reported() {
    let (mut state, _) = FenRecognition::start();
    assert!(matches!(state.on_reply(NO_KING), Action::Send { delay_ms: 300 }));
    assert!(matches!(state.on_reply("not a fen string"), Action::Send { delay_ms: 300 }));
    match state.on_reply(NINE_PAWNS) {
        Action::Fail(RecognitionFailed::Validation(FenError::WhitePawns { count, .. })) => {
            assert_eq!(count, 9)
        }
        other => panic!("got {:?}", other),
    }
}

#[test]
fn reply_after_retries_is_still_accepted() {
    let (mut state, _) = FenRecognition::start();
    assert!(matches!(state.on_transport_error(ApiError::SendFailed), Action::Send { delay_ms: 500 }));
    assert!(matches!(state.on_reply(NINE_PAWNS), Action::Send { delay_ms: 300 }));
    assert_eq!(state.api_failures, 0);
    assert!(matches!(state.on_transport_error(ApiError::SendFailed), Action::Send { delay_ms: 500 }));
    assert!(matches!(state.on_transport_error(ApiError::SendFailed), Action::Send { delay_ms: 500 }));
    assert!(matches!(state.on_reply(TWO_KINGS), Action::Send { delay_ms: 300 }));
    match state.on_reply(START) {
        Action::Accept(position) => assert_eq!(position, START),
        other => panic!("got {:?}", other),
    }
}

#[test]
fn outcome_of_validation_decides() {
    let mut state = FenRecognition { api_failures: 2, validation_failures: 2 };
    match state.on_validated(Ok(String::from("a position"))) {
        Action::Accept(position) => assert_eq!(position, "a position"),
        other => panic!("got {:?}", other),
    }
    assert_eq!(state, FenRecognition { api_failures: 0, validation_failures: 2 });
    let error = FenError::BlackPawns { count: 9, received: String::from("x") };
    match state.on_validated(Err(error)) {
        Action::Fail(RecognitionFailed::Validation(FenError::BlackPawns { count, received })) => {
            assert_eq!(count, 9);
            assert_eq!(received, "x");
        }
        other => panic!("got {:?}", other),
    }
    let mut state = FenRecognition { api_failures: 1, validation_failures: 1 };
    let error = FenError::BlackPawns { count: 9, received: String::from("x") };
    assert!(matches!(state.on_validated(Err(error)), Action::Send { delay_ms: 300 }));
    assert_eq!(state, FenRecognition { api_failures: 0, validation_failures: 2 });
}

#[test]
fn move_request_is_sent_three_times_at_most() {
    let (failures, action) = after_api_failure(0, ApiError::SendFailed);
    assert_eq!(failures, 1);
    assert!(matches!(action, MoveAction::Send { delay_ms: 500 }));
    let (failures, action) = after_api_failure(1, ApiError::SendFailed);
    assert_eq!(failures, 2);
    assert!(matches!(action, MoveAction::Send { delay_ms: 500 }));
    let (failures, action) = after_api_failure(2, ApiError::UnreadableReply);
    assert_eq!(failures, 2);
    assert!(matches!(action, MoveAction::Fail(ApiError::UnreadableReply)));
}
