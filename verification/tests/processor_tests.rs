use blaze_api::processor::{frame_lines, ProcessingResult};
use blaze_api::{
    ApiRequest, AttemptResult, Config, EndpointConfig, Processor, RequestConfig, RequestResult,
    RetryConfig,
};

fn one_endpoint_config(max_attempts: u32) -> Config {
    Config {
        endpoints: vec![EndpointConfig {
            url: "http://a.test".to_string(),
            weight: 1,
            api_key: None,
            model: None,
            max_concurrent: 1,
        }],
        request: RequestConfig { rate_limit: 1000, ..RequestConfig::default() },
        retry: RetryConfig { max_attempts, ..RetryConfig::default() },
    }
}

fn success() -> AttemptResult {
    AttemptResult::Success { body: "{\"ok\":true}".to_string() }
}

fn failed(status: Option<u16>) -> AttemptResult {
    AttemptResult::Failed { error: format!("HTTP {:?}", status), status }
}

#[test]
fn batch_of_successes_goes_to_the_success_sink() {
    let mut processor = Processor::new(one_endpoint_config(3), 0).unwrap();
    let requests = vec![
        ApiRequest::simple("x"),
        ApiRequest::simple("y"),
        ApiRequest::simple("z"),
    ];
    let outcomes = vec![
        vec![success(), failed(None), failed(None)],
        vec![success(), failed(None), failed(None)],
        vec![success(), failed(None), failed(None)],
    ];
    let latencies = vec![10, 20, 30];
    let (results, placements) = processor.process_batch(&requests, &outcomes, &latencies, 0);

    assert_eq!(results.len(), 3);
    for (i, r) in results.iter().enumerate() {
        match r {
            RequestResult::Success(ar) => {
                let m = ar.metadata.as_ref().unwrap();
                assert_eq!(m.endpoint, "http://a.test");
                assert_eq!(m.attempts, 1);
                assert_eq!(m.latency_ms, latencies[i]);
                assert_eq!(ar.response, "{\"ok\":true}");
            }
            RequestResult::Failure(_) => panic!("every request succeeds"),
        }
    }
    assert_eq!(placements, vec![Some(0), Some(0), Some(0)]);

    // the endpoint terminated all three requests and holds no slot
    let ep = &processor.load_balancer.endpoints[0];
    assert_eq!(ep.in_flight, 0);
    assert_eq!(ep.success_count + ep.failure_count, 3);
    assert_eq!(processor.stats.success_count, 3);
    assert_eq!(processor.stats.failure_count, 0);
}

#[test]
fn non_retryable_failure_is_recorded_on_the_endpoint() {
    let mut processor = Processor::new(one_endpoint_config(3), 0).unwrap();
    let requests = vec![ApiRequest::simple("x")];
    let outcomes = vec![vec![failed(Some(401)), failed(Some(401)), failed(Some(401))]];
    let latencies = vec![5];
    let (results, placements) = processor.process_batch(&requests, &outcomes, &latencies, 0);

    match &results[0] {
        RequestResult::Failure(er) => {
            assert_eq!(er.status_code, Some(401));
            assert_eq!(er.attempts, 1);
            assert!(er.error.contains("401"));
        }
        RequestResult::Success(_) => panic!("a 401 must not succeed"),
    }
    assert_eq!(placements, vec![Some(0)]);
    let ep = &processor.load_balancer.endpoints[0];
    assert_eq!(ep.success_count, 0);
    assert_eq!(ep.failure_count, 1);
    assert_eq!(ep.in_flight, 0);
}

#[test]
fn mixed_batch_keeps_per_endpoint_counts() {
    let mut processor = Processor::new(one_endpoint_config(2), 0).unwrap();
    let requests = vec![
        ApiRequest::simple("a"),
        ApiRequest::simple("b"),
        ApiRequest::simple("c"),
        ApiRequest::simple("d"),
    ];
    let outcomes = vec![
        vec![success(), failed(None)],
        vec![failed(Some(503)), success()],
        vec![failed(Some(503)), failed(Some(500))],
        vec![failed(Some(404)), failed(None)],
    ];
    let latencies = vec![1, 2, 3, 4];
    let (results, _placements) = processor.process_batch(&requests, &outcomes, &latencies, 0);

    assert!(matches!(results[0], RequestResult::Success(_)));
    assert!(matches!(results[1], RequestResult::Success(_)));
    assert!(matches!(results[2], RequestResult::Failure(_)));
    assert!(matches!(results[3], RequestResult::Failure(_)));

    let ep = &processor.load_balancer.endpoints[0];
    assert_eq!(ep.success_count, 2);
    assert_eq!(ep.failure_count, 2);
    assert_eq!(ep.in_flight, 0);
    assert_eq!(processor.stats.total_processed, 4);
    assert_eq!(processor.stats.success_count, 2);
    assert_eq!(processor.stats.failure_count, 2);
}

#[test]
fn saturated_pool_yields_no_endpoint_failures() {
    let mut processor = Processor::new(one_endpoint_config(1), 0).unwrap();
    // the only endpoint has capacity 1; hold its slot for the whole batch
    assert!(processor.load_balancer.endpoints[0].acquire());

    let requests = vec![ApiRequest::simple("a"), ApiRequest::simple("b")];
    let outcomes = vec![vec![success()], vec![success()]];
    let latencies = vec![1, 1];
    let (results, placements) = processor.process_batch(&requests, &outcomes, &latencies, 0);

    assert_eq!(placements, vec![None, None]);
    for r in &results {
        match r {
            RequestResult::Failure(er) => {
                assert_eq!(er.error, "no endpoints available");
                assert_eq!(er.attempts, 0);
            }
            RequestResult::Success(_) => panic!("nothing can be dispatched"),
        }
    }
    // the endpoint saw no traffic; the held slot is untouched
    let ep = &processor.load_balancer.endpoints[0];
    assert_eq!(ep.success_count + ep.failure_count, 0);
    assert_eq!(ep.in_flight, 1);
    assert_eq!(processor.stats.failure_count, 2);
    assert_eq!(processor.stats.success_count, 0);
}

#[test]
fn frame_lines_numbers_and_skips_blanks() {
    let data = b"{\"input\":\"x\"}\n\n  {\"input\":\"y\"}  \n\t\n{\"input\":\"z\"}".to_vec();
    let lines = frame_lines(&data);
    assert_eq!(lines.len(), 3);
    assert_eq!(lines[0].number, 1);
    assert_eq!(lines[0].text, b"{\"input\":\"x\"}".to_vec());
    assert_eq!(lines[1].number, 3);
    assert_eq!(lines[1].text, b"{\"input\":\"y\"}".to_vec());
    assert_eq!(lines[2].number, 5);
    assert_eq!(lines[2].text, b"{\"input\":\"z\"}".to_vec());
}

#[test]
fn frame_lines_of_nothing_is_empty() {
    assert_eq!(frame_lines(&Vec::new()).len(), 0);
    assert_eq!(frame_lines(&b"\n \n\t\n".to_vec()).len(), 0);
}

#[test]
fn processing_result_summarizes_a_run() {
    let mut processor = Processor::new(one_endpoint_config(1), 0).unwrap();
    let requests = vec![ApiRequest::simple("a"), ApiRequest::simple("b")];
    let outcomes = vec![vec![success()], vec![failed(Some(500))]];
    let latencies = vec![8, 8];
    processor.process_batch(&requests, &outcomes, &latencies, 500);

    let snapshot = processor.stats(1000);
    let result = ProcessingResult::from_snapshot(&snapshot);
    assert_eq!(result.total_processed, 2);
    assert_eq!(result.success_count, 1);
    assert_eq!(result.failure_count, 1);
    assert_eq!(result.success_rate(), 50);
}
