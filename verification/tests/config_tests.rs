use blaze_api::config::{parse_duration_ms, parse_u64};
use blaze_api::{Args, BlazeError, Config, EndpointConfig, RequestConfig, RetryConfig};

fn endpoint(url: &str, weight: u32) -> EndpointConfig {
    EndpointConfig {
        url: url.to_string(),
        weight,
        api_key: None,
        model: None,
        max_concurrent: 100,
    }
}

fn argv(tokens: &[&str]) -> Vec<String> {
    tokens.iter().map(|t| t.to_string()).collect()
}

#[test]
fn parse_args_reads_flags_and_defaults() {
    let args = Args::parse_args(argv(&[
        "--input", "in.jsonl", "--rate", "500", "-w", "10", "--dry-run",
    ]))
    .unwrap();
    assert_eq!(args.input, "in.jsonl");
    assert_eq!(args.rate, 500);
    assert_eq!(args.workers, 10);
    assert!(args.dry_run);
    // untouched flags keep their defaults
    assert_eq!(args.errors, "errors.jsonl");
    assert_eq!(args.max_attempts, 3);
    assert_eq!(args.timeout, 30);
    assert_eq!(args.output, None);
    assert!(!args.verbose);
}

#[test]
fn parse_args_requires_an_input() {
    assert!(matches!(
        Args::parse_args(argv(&["--rate", "100"])),
        Err(BlazeError::InvalidConfig(_))
    ));
}

#[test]
fn parse_args_rejects_bad_numbers_and_unknown_flags() {
    assert!(Args::parse_args(argv(&["--input", "a", "--rate", "fast"])).is_err());
    assert!(Args::parse_args(argv(&["--input", "a", "--frobnicate", "1"])).is_err());
    assert!(Args::parse_args(argv(&["--input"])).is_err());
}

#[test]
fn parse_u64_handles_digits_and_garbage() {
    assert_eq!(parse_u64("0"), Some(0));
    assert_eq!(parse_u64("18446744073709551615"), Some(u64::MAX));
    assert_eq!(parse_u64("18446744073709551616"), None);
    assert_eq!(parse_u64(""), None);
    assert_eq!(parse_u64("12a"), None);
    assert_eq!(parse_u64("-5"), None);
}

#[test]
fn durations_parse_as_the_config_file_writes_them() {
    assert_eq!(parse_duration_ms("30s"), Some(30_000));
    assert_eq!(parse_duration_ms("45"), Some(45_000));
    assert_eq!(parse_duration_ms("0s"), Some(0));
    assert_eq!(parse_duration_ms("100ms"), Some(100));
    assert_eq!(parse_duration_ms("10000ms"), Some(10_000));
    assert_eq!(parse_duration_ms("ms"), None);
    assert_eq!(parse_duration_ms("xms"), None);
    assert_eq!(parse_duration_ms("abc"), None);
}

#[test]
fn validate_rejects_bad_configurations_in_order() {
    let no_endpoints = Config {
        endpoints: vec![],
        request: RequestConfig::default(),
        retry: RetryConfig::default(),
    };
    assert!(matches!(no_endpoints.validate(), Err(BlazeError::NoEndpoints)));

    let empty_url = Config {
        endpoints: vec![endpoint("", 1)],
        request: RequestConfig::default(),
        retry: RetryConfig::default(),
    };
    match empty_url.validate() {
        Err(BlazeError::InvalidConfig(m)) => assert_eq!(m, "endpoint URL cannot be empty"),
        _ => panic!("an empty URL must be rejected"),
    }

    let zero_weight = Config {
        endpoints: vec![endpoint("http://a.test", 0)],
        request: RequestConfig::default(),
        retry: RetryConfig::default(),
    };
    match zero_weight.validate() {
        Err(BlazeError::InvalidConfig(m)) => {
            assert_eq!(m, "endpoint weight must be greater than 0")
        }
        _ => panic!("a zero weight must be rejected"),
    }

    let zero_workers = Config {
        endpoints: vec![endpoint("http://a.test", 1)],
        request: RequestConfig { workers: 0, ..RequestConfig::default() },
        retry: RetryConfig::default(),
    };
    match zero_workers.validate() {
        Err(BlazeError::InvalidConfig(m)) => assert_eq!(m, "workers must be greater than 0"),
        _ => panic!("zero workers must be rejected"),
    }

    let good = Config {
        endpoints: vec![endpoint("http://a.test", 1)],
        request: RequestConfig::default(),
        retry: RetryConfig::default(),
    };
    assert!(good.validate().is_ok());
}

#[test]
fn from_args_overrides_file_settings() {
    let args = Args::parse_args(argv(&[
        "--input", "in.jsonl", "--rate", "250", "-w", "7", "-t", "5", "-a", "4",
    ]))
    .unwrap();
    let file_config = Config {
        endpoints: vec![endpoint("http://a.test", 2)],
        request: RequestConfig::default(),
        retry: RetryConfig { max_attempts: 9, ..RetryConfig::default() },
    };
    let merged = Config::from_args(&args, Some(file_config), None, None, None).unwrap();
    assert_eq!(merged.request.rate_limit, 250);
    assert_eq!(merged.request.workers, 7);
    assert_eq!(merged.request.timeout_ms, 5_000);
    assert_eq!(merged.retry.max_attempts, 4);
    assert_eq!(merged.endpoints.len(), 1);
    assert_eq!(merged.endpoints[0].url, "http://a.test");
}

#[test]
fn from_args_builds_a_default_endpoint_without_a_file() {
    let args = Args::parse_args(argv(&["--input", "in.jsonl"])).unwrap();
    let config = Config::from_args(
        &args,
        None,
        None,
        Some("test-key".to_string()),
        Some("gpt-4".to_string()),
    )
    .unwrap();
    assert_eq!(config.endpoints.len(), 1);
    assert_eq!(config.endpoints[0].url, "http://localhost:8080/v1/completions");
    assert_eq!(config.endpoints[0].api_key.as_deref(), Some("test-key"));
    assert_eq!(config.endpoints[0].model.as_deref(), Some("gpt-4"));
    assert_eq!(config.endpoints[0].max_concurrent, 100);
}

#[test]
fn rate_limit_nonzero_floors_at_one() {
    let mut config = Config {
        endpoints: vec![endpoint("http://a.test", 1)],
        request: RequestConfig { rate_limit: 0, ..RequestConfig::default() },
        retry: RetryConfig::default(),
    };
    assert_eq!(config.rate_limit_nonzero(), 1);
    config.request.rate_limit = 777;
    assert_eq!(config.rate_limit_nonzero(), 777);
}
