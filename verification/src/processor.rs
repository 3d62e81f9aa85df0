//! Orchestration of batch processing.
//!
//! The processor owns the load balancer and the statistics tracker and
//! does the per-request bookkeeping of the dispatch pipeline: select an
//! endpoint, take a slot, run the retry session, record the outcome on
//! the endpoint and in the statistics, and hand exactly one record per
//! request back for routing. The caller performs the transport around
//! it; [`Processor::process_batch`] drives a whole batch over
//! pre-recorded attempt results and is the sequential model of the
//! concurrent pipeline.

use crate::config::{Config, RequestConfig, RetryConfig};
use crate::endpoint::{
    cfgs_of, spec_complete, sum_weights, Endpoint, LoadBalancer, DEFAULT_COOLDOWN_MS,
};
use crate::error::BlazeError;
use crate::request::{ApiRequest, ErrorResponse, RequestResult};
use crate::retry::{
    run_session, spec_attempts_used, spec_session_succeeds, AttemptResult,
};
use crate::tracker::{StatsSnapshot, StatsTracker};
use vstd::prelude::*;

verus! {

/// Processor for batches of requests.
pub struct Processor {
    /// Request settings.
    pub request: RequestConfig,
    /// Retry settings.
    pub retry: RetryConfig,
    /// The endpoint pool.
    pub load_balancer: LoadBalancer,
    /// Statistics of the run.
    pub stats: StatsTracker,
}

/// How many of the placements put a request on endpoint `e`.
pub open spec fn count_terminated_on(placements: Seq<Option<usize>>, e: int) -> int
    decreases placements.len(),
{
    if placements.len() == 0 {
        0
    } else {
        (if placements[0] matches Some(i) && i == e {
            1int
        } else {
            0int
        }) + count_terminated_on(placements.drop_first(), e)
    }
}

proof fn lemma_count_terminated_push(placements: Seq<Option<usize>>, x: Option<usize>, e: int)
    ensures
        count_terminated_on(placements.push(x), e) == count_terminated_on(placements, e) + (
        if x matches Some(i) && i == e {
            1int
        } else {
            0int
        }),
    decreases placements.len(),
{
    if placements.len() == 0 {
        assert(placements.push(x)[0] == x);
        assert(placements.push(x).drop_first() =~= Seq::<Option<usize>>::empty());
        assert(count_terminated_on(placements.push(x).drop_first(), e) == 0);
        assert(count_terminated_on(placements, e) == 0);
    } else {
        assert(placements.push(x)[0] == placements[0]);
        assert(placements.push(x).drop_first() =~= placements.drop_first().push(x));
        lemma_count_terminated_push(placements.drop_first(), x, e);
    }
}

/// How many of the outcome records are successes.
pub open spec fn count_successes(results: Seq<RequestResult>) -> int
    decreases results.len(),
{
    if results.len() == 0 {
        0
    } else {
        (if results[0] is Success {
            1int
        } else {
            0int
        }) + count_successes(results.drop_first())
    }
}

proof fn lemma_count_successes_push(results: Seq<RequestResult>, x: RequestResult)
    ensures
        count_successes(results.push(x)) == count_successes(results) + (
        if x is Success {
            1int
        } else {
            0int
        }),
    decreases results.len(),
{
    if results.len() == 0 {
        assert(results.push(x)[0] == x);
        assert(results.push(x).drop_first() =~= Seq::<RequestResult>::empty());
        assert(count_successes(results.push(x).drop_first()) == 0);
        assert(count_successes(results) == 0);
    } else {
        assert(results.push(x)[0] == results[0]);
        assert(results.push(x).drop_first() =~= results.drop_first().push(x));
        lemma_count_successes_push(results.drop_first(), x);
    }
}

/// What one dispatch step does: how the pool state after a request
/// relates to the state before it, which record comes out and where the
/// request was placed, given the attempt results `outcomes` that the
/// transport answered. A request is left unplaced only when no endpoint
/// was recovery-eligible at that step; a placed request's record is a
/// success exactly when its attempt transcript says so, carries the
/// serving endpoint's URL, the request's latency and the attempt count
/// the transcript dictates, and the endpoint records the outcome and
/// gives its selection slot back.
pub open spec fn spec_dispatch_step(
    before: LoadBalancer,
    after: LoadBalancer,
    req: ApiRequest,
    result: RequestResult,
    placement: Option<usize>,
    outcomes: Seq<AttemptResult>,
    latency_ms: u64,
    max_attempts: u32,
    now_ms: u64,
) -> bool {
    match placement {
        None => {
            &&& forall|i: int|
                0 <= i < before.endpoints@.len() ==> !(#[trigger] before.endpoints@[i])
                    .spec_recovery_ok(DEFAULT_COOLDOWN_MS, now_ms)
            &&& after == before
            &&& (result matches RequestResult::Failure(er) && er.error@
                == "no endpoints available"@ && er.attempts == 0 && er.input == req.input
                && er.body == req.body && er.line_number == req.line_number)
        }
        Some(j) => {
            &&& j < before.endpoints@.len()
            &&& before.endpoints@[j as int].spec_recovery_ok(DEFAULT_COOLDOWN_MS, now_ms)
            &&& (result is Success) == spec_session_succeeds(outcomes, max_attempts as int)
            &&& (result matches RequestResult::Success(ar) ==> (ar.input == req.input && (
            ar.metadata matches Some(m) && m.endpoint@ == before.endpoints@[j as int].config.url@
                && m.latency_ms == latency_ms && m.attempts == spec_attempts_used(
                outcomes,
                max_attempts as int,
            ))))
            &&& (result matches RequestResult::Failure(er) ==> (er.input == req.input && er.body
                == req.body && er.line_number == req.line_number && er.attempts
                == spec_attempts_used(outcomes, max_attempts as int)))
            &&& after.endpoints@.len() == before.endpoints@.len()
            &&& after.total_weight == before.total_weight
            &&& (forall|i: int|
                0 <= i < before.endpoints@.len() && i != j ==> #[trigger] after.endpoints@[i]
                    == before.endpoints@[i])
            &&& after.endpoints@[j as int] == spec_complete(
                Endpoint {
                    in_flight: (before.endpoints@[j as int].in_flight + 1) as u32,
                    ..before.endpoints@[j as int]
                },
                result is Success,
                (latency_ms * 1000) as u64,
                now_ms,
            )
        }
    }
}

/// The whole batch is a chain of dispatch steps: `trace` holds the pool
/// state before each request and after the last, starting at `first`
/// and ending at `last`, and step `k` connects its states through
/// request `k`'s record, placement and attempt transcript.
pub open spec fn spec_dispatch_trace(
    trace: Seq<LoadBalancer>,
    first: LoadBalancer,
    last: LoadBalancer,
    requests: Seq<ApiRequest>,
    results: Seq<RequestResult>,
    placements: Seq<Option<usize>>,
    outcomes: Seq<Vec<AttemptResult>>,
    latencies_ms: Seq<u64>,
    max_attempts: u32,
    now_ms: u64,
) -> bool {
    &&& trace.len() == requests.len() + 1
    &&& results.len() == requests.len()
    &&& placements.len() == requests.len()
    &&& outcomes.len() == requests.len()
    &&& latencies_ms.len() == requests.len()
    &&& trace[0] == first
    &&& trace[requests.len() as int] == last
    &&& forall|k: int|
        0 <= k < requests.len() ==> #[trigger] spec_dispatch_step(
            trace[k],
            trace[k + 1],
            requests[k],
            results[k],
            placements[k],
            outcomes[k]@,
            latencies_ms[k],
            max_attempts,
            now_ms,
        )
}

/// Sum of the latencies `lats[lo ..]`, in milliseconds.
pub open spec fn sum_latency_ms(lats: Seq<u64>, lo: int) -> int
    decreases lats.len() - lo,
{
    if lo < 0 || lo >= lats.len() {
        0
    } else {
        lats[lo] + sum_latency_ms(lats, lo + 1)
    }
}

proof fn lemma_sum_latency_nonneg(lats: Seq<u64>, lo: int)
    ensures
        sum_latency_ms(lats, lo) >= 0,
    decreases lats.len() - lo,
{
    if 0 <= lo < lats.len() {
        lemma_sum_latency_nonneg(lats, lo + 1);
    }
}

/// The outcome record `r` answers request `req`: a success echoes the
/// request's input and closed within the attempt budget; a failure
/// echoes the input, the custom body and the line number for replay.
pub open spec fn spec_correlated(req: ApiRequest, r: RequestResult, max_attempts: u32) -> bool {
    match r {
        RequestResult::Success(ar) => ar.input == req.input && (ar.metadata matches Some(m) && 1
            <= m.attempts <= max_attempts),
        RequestResult::Failure(er) => er.input == req.input && er.body == req.body
            && er.line_number == req.line_number && er.attempts <= max_attempts,
    }
}

/// The counters have room for `n` more requests carrying `lat_sum_ms`
/// milliseconds of latency in total.
pub open spec fn spec_batch_fits(p: Processor, n: int, lat_sum_ms: int) -> bool {
    &&& p.stats.total_processed + n <= u64::MAX
    &&& p.stats.success_count + n <= u64::MAX
    &&& p.stats.failure_count + n <= u64::MAX
    &&& p.stats.total_latency_us + lat_sum_ms * 1000 <= u64::MAX
    &&& forall|e: int|
        0 <= e < p.load_balancer.endpoints@.len() ==> {
            let ep = #[trigger] p.load_balancer.endpoints@[e];
            &&& ep.success_count + n <= u64::MAX
            &&& ep.failure_count + n <= u64::MAX
            &&& ep.consecutive_failures + n <= u32::MAX
            &&& ep.total_latency_us + lat_sum_ms * 1000 <= u64::MAX
        }
}

impl Processor {
    /// Build a processor over the configured endpoints, started at time
    /// `now_ms`. The endpoint list must be non-empty; weights are
    /// positive.
    pub fn new(config: Config, now_ms: u64) -> (r: Result<Processor, BlazeError>)
        requires
            forall|i: int|
                0 <= i < config.endpoints@.len() ==> #[trigger] config.endpoints@[i].weight >= 1,
            sum_weights(config.endpoints@, 0) <= u64::MAX,
        ensures
            config.endpoints@.len() == 0 ==> (r matches Err(e) && e is NoEndpoints),
            config.endpoints@.len() > 0 ==> (r matches Ok(p)
                && p.load_balancer.wf()
                && p.load_balancer.endpoints@.len() == config.endpoints@.len()
                && (forall|i: int| 0 <= i < config.endpoints@.len()
                    ==> p.load_balancer.endpoints@[i]
                        == Endpoint::spec_new(#[trigger] config.endpoints@[i]))
                && p.request == config.request
                && p.retry == config.retry
                && p.stats.start_ms == now_ms
                && p.stats.total_processed == 0
                && p.stats.success_count == 0
                && p.stats.failure_count == 0
                && p.stats.total_latency_us == 0
                && p.stats.total_lines == 0),
    {
        let Config { endpoints, request, retry } = config;
        let load_balancer = match LoadBalancer::new(endpoints) {
            Ok(lb) => lb,
            Err(e) => {
                return Err(e);
            }
        };
        Ok(Processor { request, retry, load_balancer, stats: StatsTracker::new(now_ms) })
    }

    /// The current statistics snapshot, taken at time `now_ms`.
    pub fn stats(&mut self, now_ms: u64) -> (s: StatsSnapshot)
        requires
            now_ms >= old(self).stats.start_ms,
        ensures
            final(self).request == old(self).request,
            final(self).retry == old(self).retry,
            final(self).load_balancer == old(self).load_balancer,
            s.total_processed == old(self).stats.total_processed,
            s.success_count == old(self).stats.success_count,
            s.failure_count == old(self).stats.failure_count,
            s.total_lines == old(self).stats.total_lines,
            s.elapsed_ms == now_ms - old(self).stats.start_ms,
            s.avg_latency_ms == crate::tracker::spec_avg_latency_ms(
                old(self).stats.total_latency_us,
                old(self).stats.success_count,
            ),
            s.overall_rps == crate::tracker::spec_overall_rps(
                old(self).stats.total_processed,
                s.elapsed_ms,
            ),
            s.progress == crate::tracker::spec_progress_percent(
                old(self).stats.total_processed,
                old(self).stats.total_lines,
            ),
    {
        self.stats.snapshot(now_ms)
    }

    /// The load balancer.
    pub fn load_balancer(&self) -> (r: &LoadBalancer)
        ensures
            r == &self.load_balancer,
    {
        &self.load_balancer
    }

    /// Drive a whole batch: request `k` is answered by the attempt
    /// results `outcomes[k]` and took `latencies_ms[k]` milliseconds.
    /// Returns one outcome record per request together with the index of
    /// the endpoint each request terminated on (`None` when no endpoint
    /// was available). Every endpoint's `in_flight` is exactly where it
    /// started; every endpoint's outcome count grows by exactly the
    /// number of requests that terminated on it.
    pub fn process_batch(
        &mut self,
        requests: &Vec<ApiRequest>,
        outcomes: &Vec<Vec<AttemptResult>>,
        latencies_ms: &Vec<u64>,
        now_ms: u64,
    ) -> (out: (Vec<RequestResult>, Vec<Option<usize>>))
        requires
            old(self).load_balancer.wf(),
            old(self).retry.max_attempts >= 1,
            outcomes@.len() == requests@.len(),
            latencies_ms@.len() == requests@.len(),
            forall|k: int|
                0 <= k < outcomes@.len() ==> (#[trigger] outcomes@[k])@.len() >= old(self).retry.max_attempts,
            spec_batch_fits(
                *old(self),
                requests@.len() as int,
                sum_latency_ms(latencies_ms@, 0),
            ),
        ensures
            final(self).load_balancer.wf(),
            final(self).request == old(self).request,
            final(self).retry == old(self).retry,
            final(self).load_balancer.endpoints@.len() == old(self).load_balancer.endpoints@.len(),
            final(self).load_balancer.total_weight == old(self).load_balancer.total_weight,
            out.0@.len() == requests@.len(),
            out.1@.len() == requests@.len(),
            forall|k: int|
                0 <= k < requests@.len() ==> spec_correlated(
                    requests@[k],
                    #[trigger] out.0@[k],
                    old(self).retry.max_attempts,
                ),
            forall|k: int|
                0 <= k < requests@.len() ==> ((#[trigger] out.1@[k]) matches Some(j) ==> j < old(self).load_balancer.endpoints@.len()),
            forall|e: int|
                0 <= e < old(self).load_balancer.endpoints@.len()
                    ==> (#[trigger] final(self).load_balancer.endpoints@[e]).in_flight == old(self).load_balancer.endpoints@[e].in_flight,
            forall|e: int|
                0 <= e < old(self).load_balancer.endpoints@.len()
                    ==> (#[trigger] final(self).load_balancer.endpoints@[e]).config == old(self).load_balancer.endpoints@[e].config,
            forall|e: int|
                0 <= e < old(self).load_balancer.endpoints@.len()
                    ==> (#[trigger] final(self).load_balancer.endpoints@[e]).success_count + final(self).load_balancer.endpoints@[e].failure_count == old(self).load_balancer.endpoints@[e].success_count + old(self).load_balancer.endpoints@[e].failure_count + count_terminated_on(out.1@, e),
            final(self).stats.total_processed == old(self).stats.total_processed
                + requests@.len(),
            final(self).stats.success_count == old(self).stats.success_count + count_successes(
                out.0@,
            ),
            final(self).stats.success_count + final(self).stats.failure_count == old(self).stats.success_count + old(self).stats.failure_count + requests@.len(),
            final(self).stats.start_ms == old(self).stats.start_ms,
            final(self).stats.total_lines == old(self).stats.total_lines,
            exists|trace: Seq<LoadBalancer>|
                #[trigger] spec_dispatch_trace(
                    trace,
                    old(self).load_balancer,
                    final(self).load_balancer,
                    requests@,
                    out.0@,
                    out.1@,
                    outcomes@,
                    latencies_ms@,
                    old(self).retry.max_attempts,
                    now_ms,
                ),
    {
        let n = requests.len();
        let mut results: Vec<RequestResult> = Vec::new();
        let mut placements: Vec<Option<usize>> = Vec::new();
        let ghost eps0 = old(self).load_balancer.endpoints@;
        let ghost mut trace: Seq<LoadBalancer> = seq![old(self).load_balancer];
        let mut i: usize = 0;
        while i < n
            invariant
                self.load_balancer.wf(),
                self.request == old(self).request,
                self.retry == old(self).retry,
                self.retry.max_attempts >= 1,
                i <= n,
                n == requests@.len(),
                n == outcomes@.len(),
                n == latencies_ms@.len(),
                forall|k: int|
                    0 <= k < n ==> (#[trigger] outcomes@[k])@.len() >= self.retry.max_attempts,
                results@.len() == i,
                placements@.len() == i,
                eps0 == old(self).load_balancer.endpoints@,
                self.load_balancer.endpoints@.len() == eps0.len(),
                self.load_balancer.total_weight == old(self).load_balancer.total_weight,
                forall|k: int|
                    0 <= k < i ==> spec_correlated(
                        requests@[k],
                        #[trigger] results@[k],
                        self.retry.max_attempts,
                    ),
                forall|k: int|
                    0 <= k < i ==> ((#[trigger] placements@[k]) matches Some(j) ==> j
                        < eps0.len()),
                forall|e: int|
                    0 <= e < eps0.len()
                        ==> (#[trigger] self.load_balancer.endpoints@[e]).in_flight
                        == eps0[e].in_flight,
                forall|e: int|
                    0 <= e < eps0.len() ==> (#[trigger] self.load_balancer.endpoints@[e]).config
                        == eps0[e].config,
                forall|e: int|
                    0 <= e < eps0.len()
                        ==> (#[trigger] self.load_balancer.endpoints@[e]).success_count
                        + self.load_balancer.endpoints@[e].failure_count == eps0[e].success_count
                        + eps0[e].failure_count + count_terminated_on(placements@, e),
                spec_batch_fits(*self, n - i, sum_latency_ms(latencies_ms@, i as int)),
                self.stats.total_processed == old(self).stats.total_processed + i,
                self.stats.success_count == old(self).stats.success_count + count_successes(
                    results@,
                ),
                self.stats.success_count + self.stats.failure_count == old(self).stats.success_count + old(self).stats.failure_count + i,
                self.stats.start_ms == old(self).stats.start_ms,
                self.stats.total_lines == old(self).stats.total_lines,
                trace.len() == i + 1,
                trace[0] == old(self).load_balancer,
                trace[i as int] == self.load_balancer,
                forall|k: int|
                    0 <= k < i ==> #[trigger] spec_dispatch_step(
                        trace[k],
                        trace[k + 1],
                        requests@[k],
                        results@[k],
                        placements@[k],
                        outcomes@[k]@,
                        latencies_ms@[k],
                        self.retry.max_attempts,
                        now_ms,
                    ),
            decreases n - i,
        {
            let ghost lb_before = self.load_balancer;
            proof {
                lemma_sum_latency_nonneg(latencies_ms@, i as int + 1);
            }
            let selection = match self.load_balancer.select(now_ms) {
                Ok(idx) => Ok(idx),
                Err(_) => self.load_balancer.select(now_ms),
            };
            match selection {
                Err(_) => {
                    let record = ErrorResponse::new(
                        &requests[i],
                        "no endpoints available".to_owned(),
                        0,
                    );
                    self.stats.record_failure(now_ms);
                    proof {
                        lemma_count_terminated_push_all(placements@, None, eps0.len() as int);
                        lemma_count_successes_push(results@, RequestResult::Failure(record));
                    }
                    results.push(RequestResult::Failure(record));
                    placements.push(None);
                }
                Ok(idx) => {
                    let ghost eps_before = self.load_balancer.endpoints@;
                    let url = self.load_balancer.endpoints[idx].config.url.clone();
                    let acquired = self.load_balancer.endpoints[idx].acquire();
                    proof {
                        assert(acquired);
                        assert(cfgs_of(self.load_balancer.endpoints@) =~= cfgs_of(eps_before));
                    }
                    let result = run_session(
                        &requests[i],
                        self.retry,
                        url.as_str(),
                        latencies_ms[i],
                        &outcomes[i],
                    );
                    let success = result.is_success();
                    let latency_us = latencies_ms[i] * 1000;
                    let ghost eps_mid = self.load_balancer.endpoints@;
                    self.load_balancer.complete(idx, success, latency_us, now_ms);
                    proof {
                        assert(cfgs_of(self.load_balancer.endpoints@) =~= cfgs_of(eps_mid));
                        lemma_count_terminated_push_all(
                            placements@,
                            Some(idx),
                            eps0.len() as int,
                        );
                        lemma_count_successes_push(results@, result);
                        assert(eps_mid[idx as int] == (Endpoint {
                            in_flight: (eps_before[idx as int].in_flight + 1) as u32,
                            ..eps_before[idx as int]
                        }));
                        assert forall|e: int|
                            0 <= e < eps_before.len() && e != idx
                            implies #[trigger] self.load_balancer.endpoints@[e]
                                == eps_before[e] by {
                            assert(self.load_balancer.endpoints@[e] == eps_mid[e]);
                        }
                    }
                    if success {
                        self.stats.record_success(latency_us, now_ms);
                    } else {
                        self.stats.record_failure(now_ms);
                    }
                    results.push(result);
                    placements.push(Some(idx));
                }
            }
            proof {
                let k = i as int;
                let prev = trace;
                trace = trace.push(self.load_balancer);
                assert(trace[k] == prev[k]);
                assert(trace[k + 1] == self.load_balancer);
                assert forall|k2: int| 0 <= k2 < k + 1 implies trace[k2] == prev[k2] by {}
                assert(spec_dispatch_step(
                    trace[k],
                    trace[k + 1],
                    requests@[k],
                    results@[k],
                    placements@[k],
                    outcomes@[k]@,
                    latencies_ms@[k],
                    self.retry.max_attempts,
                    now_ms,
                ));
            }
            i = i + 1;
        }
        proof {
            assert(spec_dispatch_trace(
                trace,
                old(self).load_balancer,
                self.load_balancer,
                requests@,
                results@,
                placements@,
                outcomes@,
                latencies_ms@,
                self.retry.max_attempts,
                now_ms,
            ));
        }
        (results, placements)
    }
}

proof fn lemma_count_terminated_push_all(
    placements: Seq<Option<usize>>,
    x: Option<usize>,
    n_endpoints: int,
)
    ensures
        forall|e: int|
            0 <= e < n_endpoints ==> #[trigger] count_terminated_on(placements.push(x), e)
                == count_terminated_on(placements, e) + (
            if x matches Some(i) && i == e {
                1int
            } else {
                0int
            }),
{
    assert forall|e: int| 0 <= e < n_endpoints implies #[trigger] count_terminated_on(
        placements.push(x),
        e,
    ) == count_terminated_on(placements, e) + (
    if x matches Some(i) && i == e {
        1int
    } else {
        0int
    }) by {
        lemma_count_terminated_push(placements, x, e);
    }
}

/// One framed input line: its 1-based position and its trimmed text.
pub struct InputLine {
    /// One-based line number in the input.
    pub number: usize,
    /// The line's text, trimmed of surrounding whitespace.
    pub text: Vec<u8>,
}

/// An ASCII whitespace byte.
pub open spec fn spec_is_ws(b: u8) -> bool {
    b == 0x20 || 0x09 <= b <= 0x0D
}

/// The bytes with leading whitespace removed.
pub open spec fn spec_trim_start(s: Seq<u8>) -> Seq<u8>
    decreases s.len(),
{
    if s.len() > 0 && spec_is_ws(s[0]) {
        spec_trim_start(s.drop_first())
    } else {
        s
    }
}

/// The bytes with trailing whitespace removed.
pub open spec fn spec_trim_end(s: Seq<u8>) -> Seq<u8>
    decreases s.len(),
{
    if s.len() > 0 && spec_is_ws(s.last()) {
        spec_trim_end(s.drop_last())
    } else {
        s
    }
}

/// The bytes with surrounding whitespace removed.
pub open spec fn spec_trim(s: Seq<u8>) -> Seq<u8> {
    spec_trim_end(spec_trim_start(s))
}

/// Position of the first newline at or after `i`; the length when the
/// rest holds none.
pub open spec fn first_nl(data: Seq<u8>, i: int) -> int
    decreases data.len() - i,
{
    if i < 0 || i >= data.len() {
        data.len() as int
    } else if data[i] == 10 {
        i
    } else {
        first_nl(data, i + 1)
    }
}

proof fn lemma_first_nl_bounds(data: Seq<u8>, i: int)
    requires
        0 <= i <= data.len(),
    ensures
        i <= first_nl(data, i) <= data.len(),
    decreases data.len() - i,
{
    if i < data.len() && data[i] != 10 {
        lemma_first_nl_bounds(data, i + 1);
    }
}

/// A scan that saw no newline in `[i, j)` and stopped at the end or on
/// a newline found the first newline.
proof fn lemma_first_nl_scan(data: Seq<u8>, i: int, j: int)
    requires
        0 <= i <= j <= data.len(),
        forall|k: int| i <= k < j ==> data[k] != 10,
        j == data.len() || data[j] == 10,
    ensures
        first_nl(data, i) == j,
    decreases j - i,
{
    if i < j {
        lemma_first_nl_scan(data, i + 1, j);
    }
}

/// The framed lines of `data[pos ..]`, the line holding `pos` being
/// line `number`: each line runs to the next newline, is trimmed, and
/// is dropped when nothing remains.
pub open spec fn spec_frame_from(data: Seq<u8>, pos: int, number: int) -> Seq<(int, Seq<u8>)>
    decreases data.len() - pos,
    via spec_frame_from_decreases
{
    if pos < 0 || pos > data.len() {
        Seq::empty()
    } else {
        let k = first_nl(data, pos);
        let line = spec_trim(data.subrange(pos, k));
        if k >= data.len() {
            if line.len() == 0 {
                Seq::empty()
            } else {
                seq![(number, line)]
            }
        } else {
            let rest = spec_frame_from(data, k + 1, number + 1);
            if line.len() == 0 {
                rest
            } else {
                seq![(number, line)] + rest
            }
        }
    }
}

#[via_fn]
proof fn spec_frame_from_decreases(data: Seq<u8>, pos: int, number: int) {
    if 0 <= pos <= data.len() {
        lemma_first_nl_bounds(data, pos);
    }
}

/// The framed lines of a whole input, numbering from one: what the
/// input stream supplies, one JSON text per non-blank line.
pub open spec fn spec_frame(data: Seq<u8>) -> Seq<(int, Seq<u8>)> {
    spec_frame_from(data, 0, 1)
}

/// A copy of `data[from .. to]` with surrounding whitespace removed.
fn trim_bytes(data: &Vec<u8>, from: usize, to: usize) -> (r: Vec<u8>)
    requires
        from <= to <= data@.len(),
    ensures
        r@ == spec_trim(data@.subrange(from as int, to as int)),
{
    let ghost orig = data@.subrange(from as int, to as int);
    let mut lo = from;
    let mut hi = to;
    loop
        invariant
            from <= lo <= hi,
            hi == to <= data@.len(),
            spec_trim_start(orig) == spec_trim_start(
                data@.subrange(lo as int, to as int),
            ),
        ensures
            from <= lo <= hi,
            hi == to,
            spec_trim_start(orig) == data@.subrange(lo as int, to as int),
        decreases hi - lo,
    {
        if lo == hi {
            proof {
                assert(data@.subrange(lo as int, to as int) =~= Seq::<u8>::empty());
            }
            break;
        }
        let b = data[lo];
        if !(b == 0x20 || (0x09 <= b && b <= 0x0D)) {
            proof {
                assert(data@.subrange(lo as int, to as int)[0] == b);
            }
            break;
        }
        proof {
            assert(data@.subrange(lo as int, to as int)[0] == b);
            assert(data@.subrange(lo as int, to as int).drop_first() =~= data@.subrange(
                lo as int + 1,
                to as int,
            ));
        }
        lo = lo + 1;
    }
    loop
        invariant
            from <= lo <= hi <= to,
            to <= data@.len(),
            spec_trim_end(spec_trim_start(orig)) == spec_trim_end(
                data@.subrange(lo as int, hi as int),
            ),
        ensures
            lo <= hi <= data@.len(),
            spec_trim(orig) == data@.subrange(lo as int, hi as int),
        decreases hi - lo,
    {
        if hi == lo {
            proof {
                assert(data@.subrange(lo as int, hi as int) =~= Seq::<u8>::empty());
            }
            break;
        }
        let b = data[hi - 1];
        if !(b == 0x20 || (0x09 <= b && b <= 0x0D)) {
            proof {
                assert(data@.subrange(lo as int, hi as int).last() == b);
            }
            break;
        }
        proof {
            assert(data@.subrange(lo as int, hi as int).last() == b);
            assert(data@.subrange(lo as int, hi as int).drop_last() =~= data@.subrange(
                lo as int,
                hi as int - 1,
            ));
        }
        hi = hi - 1;
    }
    let s = vstd::slice::slice_subrange(data.as_slice(), lo, hi);
    vstd::slice::slice_to_vec(s)
}

/// Frame a whole input: split it on newlines, trim each line, skip the
/// blank ones, and number every line from one. This is exactly the
/// record sequence the input stream supplies to the dispatcher.
pub fn frame_lines(data: &Vec<u8>) -> (r: Vec<InputLine>)
    requires
        data@.len() < usize::MAX,
    ensures
        r@.map_values(|l: InputLine| (l.number as int, l.text@)) == spec_frame(data@),
{
    let n = data.len();
    let mut out: Vec<InputLine> = Vec::new();
    let mut start: usize = 0;
    let mut number: usize = 1;
    loop
        invariant_except_break
            data@.len() == n < usize::MAX,
            start <= n,
            1 <= number <= start + 1,
            out@.map_values(|l: InputLine| (l.number as int, l.text@)) + spec_frame_from(
                data@,
                start as int,
                number as int,
            ) =~= spec_frame(data@),
        ensures
            out@.map_values(|l: InputLine| (l.number as int, l.text@)) =~= spec_frame(data@),
        decreases n - start + 1,
    {
        let mut j = start;
        loop
            invariant
                start <= j <= n,
                n == data@.len(),
                forall|k: int| start <= k < j ==> data@[k] != 10,
            ensures
                start <= j <= n,
                n == data@.len(),
                j == first_nl(data@, start as int),
            decreases n - j,
        {
            if j == n {
                proof {
                    lemma_first_nl_scan(data@, start as int, j as int);
                }
                break;
            }
            let b = data[j];
            if b == 10 {
                proof {
                    lemma_first_nl_scan(data@, start as int, j as int);
                }
                break;
            }
            j = j + 1;
        }
        let line = trim_bytes(data, start, j);
        let ghost before = out@.map_values(|l: InputLine| (l.number as int, l.text@));
        let ghost frame_here = spec_frame_from(data@, start as int, number as int);
        let ghost frame_next = spec_frame_from(data@, j as int + 1, number as int + 1);
        if line.len() > 0 {
            out.push(InputLine { number, text: line });
            proof {
                assert(out@.map_values(|l: InputLine| (l.number as int, l.text@)) =~= before
                    .push((number as int, line@)));
            }
        }
        let ghost now = out@.map_values(|l: InputLine| (l.number as int, l.text@));
        if j == n {
            proof {
                if line@.len() == 0 {
                    assert(frame_here =~= Seq::<(int, Seq<u8>)>::empty());
                    assert(now + frame_here =~= now);
                } else {
                    assert(frame_here =~= seq![(number as int, line@)]);
                    assert(before + frame_here =~= now);
                }
                assert(now =~= spec_frame(data@));
            }
            break;
        }
        proof {
            if line@.len() == 0 {
                assert(frame_here == frame_next);
            } else {
                assert(frame_here =~= seq![(number as int, line@)] + frame_next);
                assert(before + frame_here =~= now + frame_next);
            }
        }
        start = j + 1;
        number = number + 1;
    }
    out
}

/// The result of processing a whole batch.
pub struct ProcessingResult {
    /// Total requests processed.
    pub total_processed: u64,
    /// Requests that terminated in success.
    pub success_count: u64,
    /// Requests that terminated in failure.
    pub failure_count: u64,
    /// Milliseconds the whole run took.
    pub elapsed_ms: u64,
    /// Average latency of successful requests in whole milliseconds.
    pub avg_latency_ms: u64,
    /// Overall rate in whole requests per second.
    pub overall_rps: u64,
}

impl ProcessingResult {
    /// Summarize a statistics snapshot taken at the end of a run.
    pub fn from_snapshot(s: &StatsSnapshot) -> (r: ProcessingResult)
        ensures
            r.total_processed == s.total_processed,
            r.success_count == s.success_count,
            r.failure_count == s.failure_count,
            r.elapsed_ms == s.elapsed_ms,
            r.avg_latency_ms == s.avg_latency_ms,
            r.overall_rps == s.overall_rps,
    {
        ProcessingResult {
            total_processed: s.total_processed,
            success_count: s.success_count,
            failure_count: s.failure_count,
            elapsed_ms: s.elapsed_ms,
            avg_latency_ms: s.avg_latency_ms,
            overall_rps: s.overall_rps,
        }
    }

    /// Success rate in whole percent; 100 while nothing was processed.
    pub fn success_rate(&self) -> (r: u64)
        requires
            self.success_count <= self.total_processed,
        ensures
            self.total_processed == 0 ==> r == 100,
            self.total_processed > 0 ==> r == self.success_count as int * 100
                / self.total_processed as int,
    {
        if self.total_processed == 0 {
            100
        } else {
            let v = ((self.success_count as u128) * 100 / (self.total_processed as u128)) as u64;
            proof {
                vstd::arithmetic::mul::lemma_mul_nonnegative(self.success_count as int, 100);
                vstd::arithmetic::div_mod::lemma_div_pos_is_pos(
                    self.success_count as int * 100,
                    self.total_processed as int,
                );
                vstd::arithmetic::mul::lemma_mul_inequality(
                    self.success_count as int,
                    self.total_processed as int,
                    100,
                );
                vstd::arithmetic::div_mod::lemma_div_is_ordered(
                    self.success_count as int * 100,
                    self.total_processed as int * 100,
                    self.total_processed as int,
                );
                vstd::arithmetic::mul::lemma_mul_is_commutative(
                    self.total_processed as int,
                    100,
                );
                vstd::arithmetic::div_mod::lemma_div_by_multiple(
                    100,
                    self.total_processed as int,
                );
            }
            v
        }
    }
}

} // verus!
