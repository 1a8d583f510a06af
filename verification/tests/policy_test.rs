use screensage::config::{default_max_tokens, default_top_k, valid_log_level, ConversationConfig,
    LoggingConfig};
use screensage::conversation::{Conversation, MessageRole};
use screensage::errors::ClientError;
use screensage::guardian::optimize_conversation_buffer;
use screensage::logger::{setup_logger, LogLevel, Logger};
use screensage::retry::{decide_after_attempt, run_with_outcomes, AttemptOutcome, RetryDecision};

#[test]
fn two_server_errors_then_success_takes_three_attempts() {
    let outcomes = vec![
        AttemptOutcome::Response(500, String::from("e1")),
        AttemptOutcome::Response(500, String::from("e2")),
        AttemptOutcome::Response(200, String::from("ok")),
    ];
    let run = run_with_outcomes(outcomes);
    assert_eq!(run.attempts, 3);
    assert_eq!(run.delays, vec![500, 1000]);
    let (status, body) = run.result.unwrap();
    assert_eq!(status, 200);
    assert_eq!(body, "ok");
}

#[test]
fn client_error_status_is_returned_without_retry() {
    let outcomes = vec![AttemptOutcome::Response(404, String::from("missing"))];
    let run = run_with_outcomes(outcomes);
    assert_eq!(run.attempts, 1);
    assert!(run.delays.is_empty());
    let (status, body) = run.result.unwrap();
    assert_eq!(status, 404);
    assert_eq!(body, "missing");
}

#[test]
fn exhausted_retries_report_the_last_error() {
    let outcomes = vec![
        AttemptOutcome::Failure(String::from("refused")),
        AttemptOutcome::Response(502, String::from("bad gateway")),
        AttemptOutcome::Response(503, String::from("unavailable")),
    ];
    let run = run_with_outcomes(outcomes);
    assert_eq!(run.attempts, 3);
    assert_eq!(run.delays, vec![500, 1000]);
    assert!(matches!(
        run.result,
        Err(ClientError::ServerError(503, ref m)) if m == "unavailable"
    ));

    let run = run_with_outcomes(vec![
        AttemptOutcome::Failure(String::from("a")),
        AttemptOutcome::Failure(String::from("b")),
        AttemptOutcome::Failure(String::from("c")),
    ]);
    assert_eq!(run.attempts, 3);
    assert!(matches!(run.result, Err(ClientError::RequestFailed(ref m)) if m == "c"));
}

#[test]
fn per_attempt_decisions_follow_the_schedule() {
    let d = decide_after_attempt(1, AttemptOutcome::Response(500, String::from("x")));
    assert!(matches!(d, RetryDecision::RetryAfter(500)));

    let d = decide_after_attempt(2, AttemptOutcome::Failure(String::from("x")));
    assert!(matches!(d, RetryDecision::RetryAfter(1000)));

    let d = decide_after_attempt(3, AttemptOutcome::Response(500, String::from("x")));
    assert!(matches!(d, RetryDecision::GiveUp(ClientError::ServerError(500, _))));

    let d = decide_after_attempt(1, AttemptOutcome::Response(200, String::from("body")));
    assert!(matches!(d, RetryDecision::Accept(200, ref b) if b == "body"));

    let d = decide_after_attempt(1, AttemptOutcome::Response(404, String::from("nope")));
    assert!(matches!(d, RetryDecision::Accept(404, _)));
}

fn conversation_with(n: usize) -> Conversation {
    let mut c = Conversation::new("G", "m");
    for i in 0..n {
        c.add_message(MessageRole::User, &format!("m{}", i));
    }
    c
}

#[test]
fn guardian_compacts_only_under_pressure() {
    // pressure above the threshold compacts to half the maximum
    let mut c = conversation_with(9);
    let acted = optimize_conversation_buffer(Some(150), &mut c, 10);
    assert!(acted);
    assert_eq!(c.messages.len(), 5);
    assert_eq!(c.messages[0].content, "m4");
    assert_eq!(c.messages[4].content, "m8");

    // pressure below the threshold changes nothing
    let mut c = conversation_with(9);
    assert!(!optimize_conversation_buffer(Some(100), &mut c, 10));
    assert_eq!(c.messages.len(), 9);

    // no signal disables the guardian
    let mut c = conversation_with(9);
    assert!(!optimize_conversation_buffer(None, &mut c, 10));
    assert_eq!(c.messages.len(), 9);

    // a short conversation stays as it is even under pressure
    let mut c = conversation_with(3);
    assert!(optimize_conversation_buffer(Some(500), &mut c, 10));
    assert_eq!(c.messages.len(), 3);
}

#[test]
fn config_defaults() {
    let c = ConversationConfig::default();
    assert_eq!(c.max_length, 10000);
    assert!(c.auto_save);

    let l = LoggingConfig::default();
    assert_eq!(l.level, "info");
    assert!(l.log_to_file);
    assert_eq!(l.max_file_size, 10);
    assert_eq!(l.max_files, 5);

    assert_eq!(default_top_k(), 40);
    assert_eq!(default_max_tokens(), 2048);
}

#[test]
fn log_level_names() {
    assert!(valid_log_level("error"));
    assert!(valid_log_level("WARN"));
    assert!(valid_log_level("Info"));
    assert!(valid_log_level("debug"));
    assert!(valid_log_level("trace"));
    assert!(!valid_log_level("verbose"));
    assert!(!valid_log_level(""));
}

#[test]
fn logger_maps_levels_and_checks_size() {
    let mut config = LoggingConfig::default();
    config.level = String::from("DEBUG");
    let logger = Logger::new(&config);
    assert_eq!(logger.level, LogLevel::Debug);
    assert!(logger.log_to_file);

    config.level = String::from("bogus");
    let logger = Logger::new(&config);
    assert_eq!(logger.level, LogLevel::Info);

    // 10 MB limit: one byte over trips the check
    assert!(!logger.check_log_file_size(10 * 1024 * 1024));
    assert!(logger.check_log_file_size(10 * 1024 * 1024 + 1));

    assert!(setup_logger().is_ok());
}

#[test]
fn error_messages_describe_each_variant() {
    assert_eq!(
        ClientError::InvalidConfiguration.message(),
        "API URL must start with http:// or https://"
    );
    assert_eq!(
        ClientError::RequestFailed(String::from("down")).message(),
        "request failed: down"
    );
    assert_eq!(
        ClientError::ServerError(502, String::from("bad")).message(),
        "server error (502): bad"
    );
    assert_eq!(ClientError::DecodeError.message(), "failed to decode response");
}
