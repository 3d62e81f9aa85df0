use blaze_api::retry::{
    backoff_with_jitter, calculate_backoff, is_success_status, non_retryable, run_session,
    truncate_error_body,
};
use blaze_api::{ApiRequest, AttemptResult, RequestResult, RetryConfig};

#[test]
fn status_classification() {
    for c in [400, 401, 403, 404] {
        assert!(non_retryable(Some(c)));
    }
    for c in [408, 429, 500, 503] {
        assert!(!non_retryable(Some(c)));
    }
    assert!(!non_retryable(None));

    assert!(is_success_status(200));
    assert!(is_success_status(299));
    assert!(!is_success_status(199));
    assert!(!is_success_status(300));
}

#[test]
fn test_backoff_calculation() {
    let cfg = RetryConfig::default();

    let b1 = calculate_backoff(&cfg, 1);
    let b2 = calculate_backoff(&cfg, 2);
    let b3 = calculate_backoff(&cfg, 3);

    assert!(b1 < 1000);
    assert!(b2 < 2000);
    assert!(b3 < 5000);
}

#[test]
fn backoff_is_exact_at_known_jitters() {
    let cfg = RetryConfig::default();
    // initial 100 ms, doubling: unjittered delays are 100, 200, 400
    assert_eq!(backoff_with_jitter(&cfg, 1, 1000), 100);
    assert_eq!(backoff_with_jitter(&cfg, 2, 1000), 200);
    assert_eq!(backoff_with_jitter(&cfg, 3, 1000), 400);
    // the jitter band scales the delay by [0.75, 1.25)
    assert_eq!(backoff_with_jitter(&cfg, 1, 750), 75);
    assert_eq!(backoff_with_jitter(&cfg, 1, 1249), 124);
}

#[test]
fn backoff_clamps_to_maximum() {
    let cfg = RetryConfig {
        max_attempts: 10,
        initial_backoff_ms: 100,
        max_backoff_ms: 150,
        multiplier_permille: 2000,
    };
    assert_eq!(backoff_with_jitter(&cfg, 1, 1000), 100);
    assert_eq!(backoff_with_jitter(&cfg, 2, 1000), 150);
    assert_eq!(backoff_with_jitter(&cfg, 30, 1249), 150);
    for attempt in 1..40 {
        assert!(calculate_backoff(&cfg, attempt) <= 150);
    }
}

fn cfg3() -> RetryConfig {
    RetryConfig {
        max_attempts: 3,
        initial_backoff_ms: 100,
        max_backoff_ms: 10_000,
        multiplier_permille: 2000,
    }
}

#[test]
fn non_retryable_status_fails_after_one_attempt() {
    let req = ApiRequest::simple("x");
    let outcomes = vec![
        AttemptResult::Failed { error: "HTTP 401: denied".to_string(), status: Some(401) },
        AttemptResult::Failed { error: "unused".to_string(), status: Some(500) },
        AttemptResult::Failed { error: "unused".to_string(), status: Some(500) },
    ];
    let result = run_session(&req, cfg3(), "http://a.test", 12, &outcomes);
    match result {
        RequestResult::Failure(er) => {
            assert_eq!(er.attempts, 1);
            assert_eq!(er.status_code, Some(401));
            assert!(er.error.contains("401"));
            assert_eq!(er.input, Some("x".to_string()));
        }
        RequestResult::Success(_) => panic!("a 401 must not succeed"),
    }
}

#[test]
fn retryable_failures_then_success() {
    let req = ApiRequest::simple("x");
    let outcomes = vec![
        AttemptResult::Failed { error: "HTTP 503".to_string(), status: Some(503) },
        AttemptResult::Failed { error: "HTTP 503".to_string(), status: Some(503) },
        AttemptResult::Success { body: "{\"ok\":true}".to_string() },
    ];
    let result = run_session(&req, cfg3(), "http://a.test", 44, &outcomes);
    match result {
        RequestResult::Success(ar) => {
            let m = ar.metadata.unwrap();
            assert_eq!(m.attempts, 3);
            assert_eq!(m.endpoint, "http://a.test");
            assert_eq!(m.latency_ms, 44);
            assert_eq!(ar.response, "{\"ok\":true}");
            assert_eq!(ar.input, Some("x".to_string()));
        }
        RequestResult::Failure(_) => panic!("the third attempt succeeded"),
    }
}

#[test]
fn attempts_exhausted_reports_last_error() {
    let req = ApiRequest::simple("x");
    let outcomes = vec![
        AttemptResult::Failed { error: "timeout one".to_string(), status: None },
        AttemptResult::Failed { error: "timeout two".to_string(), status: None },
        AttemptResult::Failed { error: "HTTP 500: boom".to_string(), status: Some(500) },
    ];
    let result = run_session(&req, cfg3(), "http://a.test", 5, &outcomes);
    match result {
        RequestResult::Failure(er) => {
            assert_eq!(er.attempts, 3);
            assert_eq!(er.status_code, Some(500));
            assert_eq!(er.error, "HTTP 500: boom");
        }
        RequestResult::Success(_) => panic!("every attempt failed"),
    }
}

#[test]
fn first_attempt_success_uses_one_attempt() {
    let req = ApiRequest::simple("y");
    let outcomes = vec![
        AttemptResult::Success { body: "{}".to_string() },
        AttemptResult::Failed { error: "unused".to_string(), status: None },
        AttemptResult::Failed { error: "unused".to_string(), status: None },
    ];
    let result = run_session(&req, cfg3(), "http://a.test", 1, &outcomes);
    match result {
        RequestResult::Success(ar) => assert_eq!(ar.metadata.unwrap().attempts, 1),
        RequestResult::Failure(_) => panic!("the first attempt succeeded"),
    }
}

#[test]
fn failure_echoes_line_number_and_body() {
    let mut req = ApiRequest::with_body("{\"a\":1}".to_string());
    req.line_number = 42;
    let outcomes = vec![AttemptResult::Failed {
        error: "HTTP 404: missing".to_string(),
        status: Some(404),
    }];
    let cfg = RetryConfig { max_attempts: 1, ..RetryConfig::default() };
    let result = run_session(&req, cfg, "http://a.test", 2, &outcomes);
    match result {
        RequestResult::Failure(er) => {
            assert_eq!(er.line_number, 42);
            assert_eq!(er.body, Some("{\"a\":1}".to_string()));
            assert_eq!(er.input, None);
        }
        RequestResult::Success(_) => panic!("a 404 must not succeed"),
    }
}

#[test]
fn truncation_cuts_at_500_bytes() {
    let short = vec![b'a'; 500];
    assert_eq!(truncate_error_body(short.clone()), short);

    let long = vec![b'b'; 600];
    let cut = truncate_error_body(long);
    assert_eq!(cut.len(), 503);
    assert_eq!(&cut[500..], b"...");
    assert!(cut[..500].iter().all(|&b| b == b'b'));
}
