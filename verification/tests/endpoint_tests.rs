use blaze_api::{Endpoint, EndpointConfig, LoadBalancer};

fn test_endpoint() -> EndpointConfig {
    EndpointConfig {
        url: "http://localhost:8080".to_string(),
        weight: 1,
        api_key: None,
        model: None,
        max_concurrent: 100,
    }
}

#[test]
fn test_endpoint_health() {
    let mut endpoint = Endpoint::new(test_endpoint());
    assert!(endpoint.is_healthy());

    endpoint.mark_unhealthy(0);
    assert!(!endpoint.is_healthy());

    endpoint.mark_healthy();
    assert!(endpoint.is_healthy());
}

#[test]
fn test_endpoint_stats() {
    let mut endpoint = Endpoint::new(test_endpoint());

    endpoint.record_success(100_000);
    endpoint.record_success(200_000);

    assert_eq!(endpoint.success_count, 2);
    assert_eq!(endpoint.avg_latency_ms(), 150);
}

#[test]
fn test_load_balancer() {
    let configs = vec![
        EndpointConfig {
            url: "http://a.test".to_string(),
            weight: 1,
            api_key: None,
            model: None,
            max_concurrent: 100,
        },
        EndpointConfig {
            url: "http://b.test".to_string(),
            weight: 2,
            api_key: None,
            model: None,
            max_concurrent: 100,
        },
    ];

    let lb = LoadBalancer::new(configs).unwrap();
    assert_eq!(lb.endpoints().len(), 2);
    assert_eq!(lb.healthy_count(), 2);
}

#[test]
fn three_failures_quarantine_and_one_success_restores() {
    let mut endpoint = Endpoint::new(test_endpoint());
    endpoint.record_failure(10);
    endpoint.record_failure(20);
    assert!(endpoint.is_healthy());
    endpoint.record_failure(30);
    assert!(!endpoint.is_healthy());
    assert_eq!(endpoint.consecutive_failures, 3);
    assert_eq!(endpoint.last_health_check, Some(30));

    endpoint.record_success(5_000);
    assert!(endpoint.is_healthy());
    assert_eq!(endpoint.consecutive_failures, 0);
}

#[test]
fn acquire_respects_capacity_and_release_returns_slot() {
    let mut config = test_endpoint();
    config.max_concurrent = 2;
    let mut endpoint = Endpoint::new(config);

    assert!(endpoint.acquire());
    assert!(endpoint.acquire());
    assert!(!endpoint.acquire());
    assert_eq!(endpoint.in_flight, 2);

    endpoint.release();
    assert_eq!(endpoint.in_flight, 1);
    assert!(endpoint.acquire());
}

#[test]
fn selection_skips_saturated_endpoints() {
    let mut config = test_endpoint();
    config.max_concurrent = 1;
    let lb_configs = vec![config];
    let mut lb = LoadBalancer::new(lb_configs).unwrap();

    assert!(lb.select(0).is_ok());
    assert!(lb.endpoints[0].acquire());
    // the only endpoint is at capacity: neither path may select it
    assert!(lb.select(0).is_err());
    lb.endpoints[0].release();
    assert!(lb.select(0).is_ok());
}

#[test]
fn unhealthy_endpoint_recovers_after_cooldown() {
    let lb_configs = vec![test_endpoint()];
    let mut lb = LoadBalancer::new(lb_configs).unwrap();

    lb.endpoints[0].record_failure(0);
    lb.endpoints[0].record_failure(0);
    lb.endpoints[0].record_failure(0);
    assert!(!lb.endpoints[0].is_healthy());

    // inside the cooldown the quarantined endpoint is not offered traffic
    assert!(lb.select_with_cooldown(30_000, 29_999).is_err());
    // once the cooldown expires, the recovery path probes it again
    assert_eq!(lb.select_with_cooldown(30_000, 30_000).unwrap(), 0);

    lb.endpoints[0].record_success(1_000);
    assert!(lb.endpoints[0].is_healthy());
    assert_eq!(lb.select(30_001).unwrap(), 0);
}

#[test]
fn selection_prefers_healthy_endpoints() {
    let configs = vec![
        EndpointConfig {
            url: "http://a.test".to_string(),
            weight: 1,
            api_key: None,
            model: None,
            max_concurrent: 100,
        },
        EndpointConfig {
            url: "http://b.test".to_string(),
            weight: 1,
            api_key: None,
            model: None,
            max_concurrent: 100,
        },
    ];
    let mut lb = LoadBalancer::new(configs).unwrap();
    for _ in 0..3 {
        lb.endpoints[0].record_failure(0);
    }
    // only the healthy endpoint is on the fast path
    for _ in 0..20 {
        assert_eq!(lb.select(0).unwrap(), 1);
    }
}

#[test]
fn weighted_selection_follows_weights() {
    let configs = vec![
        EndpointConfig {
            url: "http://a.test".to_string(),
            weight: 1,
            api_key: None,
            model: None,
            max_concurrent: 1_000_000,
        },
        EndpointConfig {
            url: "http://b.test".to_string(),
            weight: 3,
            api_key: None,
            model: None,
            max_concurrent: 1_000_000,
        },
    ];
    let lb = LoadBalancer::new(configs).unwrap();
    let mut picks_b = 0u32;
    for _ in 0..4000 {
        if lb.select(0).unwrap() == 1 {
            picks_b += 1;
        }
    }
    // expectation is 3000; allow a tolerance far beyond random noise
    assert!(picks_b > 2700, "b picked {picks_b} times");
    assert!(picks_b < 3300, "b picked {picks_b} times");
}

#[test]
fn total_in_flight_sums_endpoints() {
    let configs = vec![test_endpoint(), test_endpoint()];
    let mut lb = LoadBalancer::new(configs).unwrap();
    assert_eq!(lb.total_in_flight(), 0);
    assert!(lb.endpoints[0].acquire());
    assert!(lb.endpoints[1].acquire());
    assert!(lb.endpoints[1].acquire());
    assert_eq!(lb.total_in_flight(), 3);
}
