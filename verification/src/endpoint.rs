//! Endpoints with health tracking, and the weighted load balancer.
//!
//! Each mutating method's contract ties the new state to a spec-level
//! transition function, so that laws about sequences of calls can be
//! stated and proved over the spec model alone.
//!
//! Clock readings come in as `now_ms` arguments: milliseconds on a
//! monotonic clock supplied by the caller.

use crate::config::EndpointConfig;
use crate::error::BlazeError;
use vstd::prelude::*;

verus! {

/// An endpoint is quarantined after this many consecutive failures.
pub const UNHEALTHY_THRESHOLD: u32 = 3;

/// A single endpoint with its health and load state.
pub struct Endpoint {
    /// Endpoint configuration.
    pub config: EndpointConfig,
    /// Current number of in-flight requests.
    pub in_flight: u32,
    /// Total requests that terminated in success on this endpoint.
    pub success_count: u64,
    /// Total requests that terminated in failure on this endpoint.
    pub failure_count: u64,
    /// Total latency of successful requests, in microseconds.
    pub total_latency_us: u64,
    /// Whether the endpoint is healthy.
    pub healthy: bool,
    /// Time the endpoint was last quarantined, in milliseconds.
    pub last_health_check: Option<u64>,
    /// Consecutive failures since the last success.
    pub consecutive_failures: u32,
}

impl Endpoint {
    /// The state a fresh endpoint starts in.
    pub open spec fn spec_new(config: EndpointConfig) -> Endpoint {
        Endpoint {
            config,
            in_flight: 0,
            success_count: 0,
            failure_count: 0,
            total_latency_us: 0,
            healthy: true,
            last_health_check: None,
            consecutive_failures: 0,
        }
    }

    /// The state after a recorded success: counters advance, the failure
    /// streak resets, and the endpoint is healthy again.
    pub open spec fn spec_after_success(self, latency_us: u64) -> Endpoint {
        Endpoint {
            success_count: (self.success_count + 1) as u64,
            total_latency_us: (self.total_latency_us + latency_us) as u64,
            consecutive_failures: 0,
            healthy: true,
            ..self
        }
    }

    /// The state after a recorded failure: the streak grows, and reaching
    /// the threshold quarantines the endpoint at time `now_ms`.
    pub open spec fn spec_after_failure(self, now_ms: u64) -> Endpoint {
        let streak = (self.consecutive_failures + 1) as u32;
        Endpoint {
            failure_count: (self.failure_count + 1) as u64,
            consecutive_failures: streak,
            healthy: if streak >= UNHEALTHY_THRESHOLD {
                false
            } else {
                self.healthy
            },
            last_health_check: if streak >= UNHEALTHY_THRESHOLD {
                Some(now_ms)
            } else {
                self.last_health_check
            },
            ..self
        }
    }

    /// Whether the endpoint has room for one more in-flight request.
    pub open spec fn spec_can_accept(self) -> bool {
        self.in_flight < self.config.max_concurrent
    }

    /// Whether the endpoint may be offered traffic at time `now_ms`:
    /// it is healthy, or was never quarantined, or its cooldown expired.
    pub open spec fn spec_should_retry(self, cooldown_ms: u64, now_ms: u64) -> bool {
        ||| self.healthy
        ||| match self.last_health_check {
            None => true,
            Some(t) => t + cooldown_ms <= now_ms,
        }
    }

    /// Create a new endpoint from its configuration.
    pub fn new(config: EndpointConfig) -> (e: Endpoint)
        ensures
            e == Endpoint::spec_new(config),
    {
        Endpoint {
            config,
            in_flight: 0,
            success_count: 0,
            failure_count: 0,
            total_latency_us: 0,
            healthy: true,
            last_health_check: None,
            consecutive_failures: 0,
        }
    }

    /// The endpoint URL.
    pub fn url(&self) -> (r: &str)
        ensures
            r@ == self.config.url@,
    {
        self.config.url.as_str()
    }

    /// The API key, if one is configured.
    pub fn api_key(&self) -> (r: Option<&String>)
        ensures
            match self.config.api_key {
                Some(k) => r matches Some(k2) && k2 == k,
                None => r is None,
            },
    {
        self.config.api_key.as_ref()
    }

    /// The model identifier, if one is configured.
    pub fn model(&self) -> (r: Option<&String>)
        ensures
            match self.config.model {
                Some(m) => r matches Some(m2) && m2 == m,
                None => r is None,
            },
    {
        self.config.model.as_ref()
    }

    /// Whether the endpoint is healthy.
    pub fn is_healthy(&self) -> (r: bool)
        ensures
            r == self.healthy,
    {
        self.healthy
    }

    /// Mark the endpoint healthy and clear its failure streak.
    pub fn mark_healthy(&mut self)
        ensures
            *final(self) == (Endpoint {
                healthy: true,
                consecutive_failures: 0,
                ..*old(self)
            }),
    {
        self.healthy = true;
        self.consecutive_failures = 0;
    }

    /// Quarantine the endpoint, remembering the time `now_ms`.
    pub fn mark_unhealthy(&mut self, now_ms: u64)
        ensures
            *final(self) == (Endpoint {
                healthy: false,
                last_health_check: Some(now_ms),
                ..*old(self)
            }),
    {
        self.healthy = false;
        self.last_health_check = Some(now_ms);
    }

    /// Whether the endpoint may be offered traffic at time `now_ms`,
    /// given a quarantine cooldown of `cooldown_ms`.
    pub fn should_retry(&self, cooldown_ms: u64, now_ms: u64) -> (r: bool)
        ensures
            r == self.spec_should_retry(cooldown_ms, now_ms),
    {
        if self.healthy {
            return true;
        }
        match self.last_health_check {
            None => true,
            Some(t) => now_ms >= t && now_ms - t >= cooldown_ms,
        }
    }

    /// Record a request that terminated in success after `latency_us`
    /// microseconds: this also restores the endpoint to health.
    pub fn record_success(&mut self, latency_us: u64)
        requires
            old(self).success_count < u64::MAX,
            old(self).total_latency_us + latency_us <= u64::MAX,
        ensures
            *final(self) == old(self).spec_after_success(latency_us),
    {
        self.success_count = self.success_count + 1;
        self.total_latency_us = self.total_latency_us + latency_us;
        self.consecutive_failures = 0;
        self.healthy = true;
    }

    /// Record a request that terminated in failure at time `now_ms`:
    /// the third consecutive failure quarantines the endpoint.
    pub fn record_failure(&mut self, now_ms: u64)
        requires
            old(self).failure_count < u64::MAX,
            old(self).consecutive_failures < u32::MAX,
        ensures
            *final(self) == old(self).spec_after_failure(now_ms),
    {
        self.failure_count = self.failure_count + 1;
        self.consecutive_failures = self.consecutive_failures + 1;
        if self.consecutive_failures >= UNHEALTHY_THRESHOLD {
            self.healthy = false;
            self.last_health_check = Some(now_ms);
        }
    }

    /// Whether the endpoint has room for one more in-flight request.
    pub fn can_accept(&self) -> (r: bool)
        ensures
            r == self.spec_can_accept(),
    {
        self.in_flight < self.config.max_concurrent
    }

    /// Claim a slot: succeeds exactly when the endpoint is below its
    /// concurrency bound, and then raises `in_flight` by one.
    pub fn acquire(&mut self) -> (r: bool)
        ensures
            r == old(self).spec_can_accept(),
            r ==> *final(self) == (Endpoint {
                in_flight: (old(self).in_flight + 1) as u32,
                ..*old(self)
            }),
            !r ==> *final(self) == *old(self),
    {
        if self.in_flight >= self.config.max_concurrent {
            return false;
        }
        self.in_flight = self.in_flight + 1;
        true
    }

    /// Give a slot back; every successful [`Endpoint::acquire`] is paired
    /// with exactly one release.
    pub fn release(&mut self)
        requires
            old(self).in_flight >= 1,
        ensures
            *final(self) == (Endpoint {
                in_flight: (old(self).in_flight - 1) as u32,
                ..*old(self)
            }),
    {
        self.in_flight = self.in_flight - 1;
    }

    /// Average latency of successful requests in whole milliseconds;
    /// zero while no success has been recorded.
    pub fn avg_latency_ms(&self) -> (r: u64)
        ensures
            self.success_count == 0 ==> r == 0,
            self.success_count > 0 ==> r == self.total_latency_us as int
                / self.success_count as int / 1000,
    {
        if self.success_count == 0 {
            0
        } else {
            self.total_latency_us / self.success_count / 1000
        }
    }

    /// Eligible on the fast path: healthy and below its concurrency bound.
    pub open spec fn spec_fast_ok(self) -> bool {
        self.healthy && self.spec_can_accept()
    }

    /// Eligible on the recovery path: past its cooldown (or healthy)
    /// and below its concurrency bound.
    pub open spec fn spec_recovery_ok(self, cooldown_ms: u64, now_ms: u64) -> bool {
        self.spec_should_retry(cooldown_ms, now_ms) && self.spec_can_accept()
    }
}

/// The configurations of a sequence of endpoints.
pub open spec fn cfgs_of(eps: Seq<Endpoint>) -> Seq<EndpointConfig> {
    eps.map_values(|e: Endpoint| e.config)
}

/// Sum of the weights of `cfgs[lo ..]`.
pub open spec fn sum_weights(cfgs: Seq<EndpointConfig>, lo: int) -> int
    decreases cfgs.len() - lo,
{
    if lo < 0 || lo >= cfgs.len() {
        0
    } else {
        cfgs[lo].weight + sum_weights(cfgs, lo + 1)
    }
}

/// Sum of the weights of the endpoints picked out by the indices `idxs`.
pub open spec fn cand_weight_sum(cfgs: Seq<EndpointConfig>, idxs: Seq<usize>) -> int
    decreases idxs.len(),
{
    if idxs.len() == 0 {
        0
    } else {
        cfgs[idxs[0] as int].weight + cand_weight_sum(cfgs, idxs.drop_first())
    }
}

/// The bucket that a draw `pick` falls into when the weights of the
/// endpoints `idxs` are laid out one after another: the first index whose
/// cumulative weight exceeds `pick`.
pub open spec fn spec_pick_index(cfgs: Seq<EndpointConfig>, idxs: Seq<usize>, pick: int) -> int
    decreases idxs.len(),
{
    if idxs.len() == 0 {
        0
    } else if pick < cfgs[idxs[0] as int].weight {
        0
    } else {
        1 + spec_pick_index(cfgs, idxs.drop_first(), pick - cfgs[idxs[0] as int].weight)
    }
}

proof fn lemma_sum_weights_nonneg(cfgs: Seq<EndpointConfig>, lo: int)
    ensures
        sum_weights(cfgs, lo) >= 0,
    decreases cfgs.len() - lo,
{
    if 0 <= lo < cfgs.len() {
        lemma_sum_weights_nonneg(cfgs, lo + 1);
    }
}

proof fn lemma_sum_weights_skip_ge(cfgs: Seq<EndpointConfig>, lo: int, hi: int)
    requires
        0 <= lo <= hi,
    ensures
        sum_weights(cfgs, lo) >= sum_weights(cfgs, hi),
    decreases hi - lo,
{
    if lo < hi {
        lemma_sum_weights_skip_ge(cfgs, lo + 1, hi);
    }
}

proof fn lemma_cand_sum_nonneg(cfgs: Seq<EndpointConfig>, idxs: Seq<usize>)
    ensures
        cand_weight_sum(cfgs, idxs) >= 0,
    decreases idxs.len(),
{
    if idxs.len() > 0 {
        lemma_cand_sum_nonneg(cfgs, idxs.drop_first());
    }
}

/// The weights of distinct, ascending indices sum to no more than the
/// weights of the whole tail `cfgs[lo ..]` they are drawn from.
proof fn lemma_cand_sum_le(cfgs: Seq<EndpointConfig>, idxs: Seq<usize>, lo: int)
    requires
        0 <= lo,
        forall|k: int| 0 <= k < idxs.len() ==> lo <= #[trigger] idxs[k] < cfgs.len(),
        forall|k1: int, k2: int|
            0 <= k1 < k2 < idxs.len() ==> #[trigger] idxs[k1] < #[trigger] idxs[k2],
    ensures
        cand_weight_sum(cfgs, idxs) <= sum_weights(cfgs, lo),
    decreases idxs.len(),
{
    if idxs.len() == 0 {
        lemma_sum_weights_nonneg(cfgs, lo);
    } else {
        let i0 = idxs[0] as int;
        lemma_sum_weights_skip_ge(cfgs, lo, i0);
        let rest = idxs.drop_first();
        assert(forall|k: int| 0 <= k < rest.len() ==> i0 + 1 <= #[trigger] rest[k] < cfgs.len());
        lemma_cand_sum_le(cfgs, rest, i0 + 1);
    }
}

/// Default cooldown before a quarantined endpoint is probed again.
pub const DEFAULT_COOLDOWN_MS: u64 = 30000;

/// Weighted load balancer over a pool of endpoints.
pub struct LoadBalancer {
    /// The endpoint pool; selection returns indices into it.
    pub endpoints: Vec<Endpoint>,
    /// Sum of all endpoint weights.
    pub total_weight: u64,
}

impl LoadBalancer {
    /// Well-formed: at least one endpoint, positive weights, and
    /// `total_weight` is their sum.
    pub open spec fn wf(self) -> bool {
        &&& self.endpoints@.len() >= 1
        &&& forall|i: int|
            0 <= i < self.endpoints@.len() ==> #[trigger] self.endpoints@[i].config.weight >= 1
        &&& self.total_weight == sum_weights(cfgs_of(self.endpoints@), 0)
    }

    /// Build a load balancer over the given endpoints. The pool must be
    /// non-empty; every configured weight is positive.
    pub fn new(configs: Vec<EndpointConfig>) -> (r: Result<LoadBalancer, BlazeError>)
        requires
            forall|i: int| 0 <= i < configs@.len() ==> #[trigger] configs@[i].weight >= 1,
            sum_weights(configs@, 0) <= u64::MAX,
        ensures
            configs@.len() == 0 ==> (r matches Err(e) && e is NoEndpoints),
            configs@.len() > 0 ==> (r matches Ok(lb) && lb.wf()
                && lb.endpoints@.len() == configs@.len()
                && (forall|i: int| 0 <= i < configs@.len()
                    ==> lb.endpoints@[i] == Endpoint::spec_new(#[trigger] configs@[i]))),
    {
        if configs.len() == 0 {
            return Err(BlazeError::NoEndpoints);
        }
        let ghost orig = configs@;
        let mut configs = configs;
        let mut endpoints: Vec<Endpoint> = Vec::new();
        while configs.len() > 0
            invariant
                endpoints@.len() + configs@.len() == orig.len(),
                configs@ == orig.skip(endpoints@.len() as int),
                forall|i: int| 0 <= i < endpoints@.len()
                    ==> endpoints@[i] == Endpoint::spec_new(#[trigger] orig[i]),
            decreases configs@.len(),
        {
            let c = configs.remove(0);
            assert(c == orig[endpoints@.len() as int]);
            endpoints.push(Endpoint::new(c));
            assert(configs@ =~= orig.skip(endpoints@.len() as int));
        }
        proof {
            assert(cfgs_of(endpoints@) =~= orig);
        }
        let mut total: u64 = 0;
        let mut j: usize = endpoints.len();
        while j > 0
            invariant
                j <= endpoints@.len(),
                cfgs_of(endpoints@) =~= orig,
                forall|i: int| 0 <= i < orig.len() ==> #[trigger] orig[i].weight >= 1,
                sum_weights(orig, 0) <= u64::MAX,
                total == sum_weights(orig, j as int),
            decreases j,
        {
            j = j - 1;
            proof {
                lemma_sum_weights_skip_ge(orig, 0, j as int);
                lemma_sum_weights_nonneg(orig, j as int + 1);
            }
            total = total + endpoints[j].config.weight as u64;
        }
        proof {
            assert(cfgs_of(endpoints@) == orig);
            assert forall|i: int| 0 <= i < endpoints@.len()
                implies #[trigger] endpoints@[i].config.weight >= 1 by {
                assert(endpoints@[i].config == cfgs_of(endpoints@)[i]);
            }
        }
        Ok(LoadBalancer { endpoints, total_weight: total })
    }

    /// All endpoints of the pool.
    pub fn endpoints(&self) -> (r: &Vec<Endpoint>)
        ensures
            r == &self.endpoints,
    {
        &self.endpoints
    }

    /// Whether endpoint `i` is eligible: on the fast path only healthy
    /// endpoints qualify, on the recovery path any endpoint past its
    /// cooldown does; both paths ask for spare capacity.
    pub open spec fn spec_eligible(
        self,
        i: int,
        recovery: bool,
        cooldown_ms: u64,
        now_ms: u64,
    ) -> bool {
        if recovery {
            self.endpoints@[i].spec_recovery_ok(cooldown_ms, now_ms)
        } else {
            self.endpoints@[i].spec_fast_ok()
        }
    }

    /// Collect the indices of all eligible endpoints, in ascending order.
    fn candidates(&self, recovery: bool, cooldown_ms: u64, now_ms: u64) -> (cands: Vec<usize>)
        ensures
            forall|k: int| 0 <= k < cands@.len()
                ==> #[trigger] cands@[k] < self.endpoints@.len()
                    && self.spec_eligible(cands@[k] as int, recovery, cooldown_ms, now_ms),
            forall|k1: int, k2: int| 0 <= k1 < k2 < cands@.len()
                ==> #[trigger] cands@[k1] < #[trigger] cands@[k2],
            forall|i: int| 0 <= i < self.endpoints@.len()
                && self.spec_eligible(i, recovery, cooldown_ms, now_ms)
                ==> cands@.contains(i as usize),
    {
        let mut cands: Vec<usize> = Vec::new();
        let n = self.endpoints.len();
        let mut i: usize = 0;
        while i < n
            invariant
                n == self.endpoints@.len(),
                i <= n,
                forall|k: int| 0 <= k < cands@.len()
                    ==> #[trigger] cands@[k] < i
                        && self.spec_eligible(cands@[k] as int, recovery, cooldown_ms, now_ms),
                forall|k1: int, k2: int| 0 <= k1 < k2 < cands@.len()
                    ==> #[trigger] cands@[k1] < #[trigger] cands@[k2],
                forall|j: int| 0 <= j < i
                    && self.spec_eligible(j, recovery, cooldown_ms, now_ms)
                    ==> cands@.contains(j as usize),
            decreases n - i,
        {
            let e = &self.endpoints[i];
            let ok = if recovery {
                e.should_retry(cooldown_ms, now_ms) && e.can_accept()
            } else {
                e.is_healthy() && e.can_accept()
            };
            if ok {
                let ghost prev = cands@;
                cands.push(i);
                proof {
                    assert(cands@[cands@.len() - 1] == i);
                    assert forall|x: usize| prev.contains(x) implies cands@.contains(x) by {
                        let w = choose|w: int| 0 <= w < prev.len() && prev[w] == x;
                        assert(cands@[w] == x);
                    }
                }
            }
            i = i + 1;
        }
        cands
    }

    /// Total weight of the endpoints `cands`; at most the pool's total
    /// weight when the indices are ascending.
    fn cand_total(&self, cands: &Vec<usize>) -> (total: u64)
        requires
            self.wf(),
            forall|k: int| 0 <= k < cands@.len()
                ==> #[trigger] cands@[k] < self.endpoints@.len(),
            forall|k1: int, k2: int| 0 <= k1 < k2 < cands@.len()
                ==> #[trigger] cands@[k1] < #[trigger] cands@[k2],
        ensures
            total == cand_weight_sum(cfgs_of(self.endpoints@), cands@),
            total <= self.total_weight,
    {
        let ghost cfgs = cfgs_of(self.endpoints@);
        proof {
            lemma_cand_sum_le(cfgs, cands@, 0);
        }
        let mut total: u64 = 0;
        let mut k: usize = cands.len();
        while k > 0
            invariant
                self.wf(),
                k <= cands@.len(),
                cfgs == cfgs_of(self.endpoints@),
                forall|j: int| 0 <= j < cands@.len()
                    ==> #[trigger] cands@[j] < self.endpoints@.len(),
                forall|k1: int, k2: int| 0 <= k1 < k2 < cands@.len()
                    ==> #[trigger] cands@[k1] < #[trigger] cands@[k2],
                total == cand_weight_sum(cfgs, cands@.skip(k as int)),
            decreases k,
        {
            k = k - 1;
            let ghost tail = cands@.skip(k as int);
            proof {
                assert(tail[0] == cands@[k as int]);
                assert(tail.drop_first() =~= cands@.skip(k as int + 1));
                assert(cands@.skip(k as int).subrange(0, tail.len() as int) =~= tail);
                lemma_cand_sum_le(cfgs, tail, 0);
                lemma_cand_sum_nonneg(cfgs, tail);
                assert(cfgs[cands@[k as int] as int] == self.endpoints@[cands@[k as int] as int].config);
            }
            let idx = cands[k];
            total = total + self.endpoints[idx].config.weight as u64;
        }
        proof {
            assert(cands@.skip(0) =~= cands@);
        }
        total
    }

    /// Walk the weight buckets of `cands` and return the index that the
    /// draw `pick` falls into.
    fn pick_by_weight(&self, cands: &Vec<usize>, pick: u64) -> (idx: usize)
        requires
            self.wf(),
            cands@.len() >= 1,
            forall|k: int| 0 <= k < cands@.len()
                ==> #[trigger] cands@[k] < self.endpoints@.len(),
            pick < cand_weight_sum(cfgs_of(self.endpoints@), cands@),
        ensures
            0 <= spec_pick_index(cfgs_of(self.endpoints@), cands@, pick as int) < cands@.len(),
            idx == cands@[spec_pick_index(cfgs_of(self.endpoints@), cands@, pick as int)],
    {
        let ghost cfgs = cfgs_of(self.endpoints@);
        proof {
            assert(cands@.skip(0) =~= cands@);
        }
        let n_c = cands.len();
        let mut k: usize = 0;
        let mut p: u64 = pick;
        loop
            invariant
                self.wf(),
                n_c == cands@.len(),
                cfgs == cfgs_of(self.endpoints@),
                forall|j: int| 0 <= j < cands@.len()
                    ==> #[trigger] cands@[j] < self.endpoints@.len(),
                k < cands@.len(),
                p <= pick,
                p < cand_weight_sum(cfgs, cands@.skip(k as int)),
                spec_pick_index(cfgs, cands@, pick as int)
                    == k + spec_pick_index(cfgs, cands@.skip(k as int), p as int),
            decreases cands@.len() - k,
        {
            let ghost tail = cands@.skip(k as int);
            proof {
                assert(tail[0] == cands@[k as int]);
                assert(tail.drop_first() =~= cands@.skip(k as int + 1));
                assert(cfgs[cands@[k as int] as int] == self.endpoints@[cands@[k as int] as int].config);
            }
            let idx = cands[k];
            let w = self.endpoints[idx].config.weight as u64;
            if p < w {
                assert(spec_pick_index(cfgs, tail, p as int) == 0);
                return idx;
            }
            proof {
                lemma_cand_sum_nonneg(cfgs, tail.drop_first());
                assert(cand_weight_sum(cfgs, tail.drop_first()) > p - w);
                assert(tail.drop_first().len() > 0);
            }
            p = p - w;
            k = k + 1;
        }
    }
    /// Select an endpoint by weighted random draw, trying the fast path
    /// (healthy, spare capacity) first and the recovery path (cooldown
    /// expired, spare capacity) second. Returns the index of the chosen
    /// endpoint; a selected endpoint always has spare capacity.
    pub fn select_with_cooldown(&self, cooldown_ms: u64, now_ms: u64) -> (r: Result<
        usize,
        BlazeError,
    >)
        requires
            self.wf(),
        ensures
            (exists|i: int|
                0 <= i < self.endpoints@.len()
                    && (#[trigger] self.endpoints@[i]).spec_fast_ok()) ==> (r matches Ok(j)
                && j < self.endpoints@.len() && self.endpoints@[j as int].spec_fast_ok()),
            r matches Ok(j) ==> j < self.endpoints@.len()
                && self.endpoints@[j as int].spec_can_accept()
                && self.endpoints@[j as int].spec_recovery_ok(cooldown_ms, now_ms),
            r matches Err(e) ==> e is AllEndpointsUnhealthy,
            r is Err <==> (forall|i: int|
                0 <= i < self.endpoints@.len()
                    ==> !(#[trigger] self.endpoints@[i]).spec_recovery_ok(cooldown_ms, now_ms)),
    {
        let fast = self.candidates(false, cooldown_ms, now_ms);
        if fast.len() > 0 {
            let idx = self.weighted_pick(&fast);
            proof {
                let k = choose|k: int| 0 <= k < fast@.len() && fast@[k] == idx;
                assert(self.spec_eligible(fast@[k] as int, false, cooldown_ms, now_ms));
            }
            return Ok(idx);
        }
        proof {
            assert forall|i: int| 0 <= i < self.endpoints@.len()
                implies !(#[trigger] self.endpoints@[i]).spec_fast_ok() by {
                if self.endpoints@[i].spec_fast_ok() {
                    assert(self.spec_eligible(i, false, cooldown_ms, now_ms));
                    assert(fast@.contains(i as usize));
                }
            }
        }
        let rec = self.candidates(true, cooldown_ms, now_ms);
        if rec.len() > 0 {
            let idx = self.weighted_pick(&rec);
            proof {
                let k = choose|k: int| 0 <= k < rec@.len() && rec@[k] == idx;
                assert(self.spec_eligible(rec@[k] as int, true, cooldown_ms, now_ms));
            }
            return Ok(idx);
        }
        proof {
            assert forall|i: int| 0 <= i < self.endpoints@.len()
                implies !(#[trigger] self.endpoints@[i]).spec_recovery_ok(cooldown_ms, now_ms) by {
                if self.endpoints@[i].spec_recovery_ok(cooldown_ms, now_ms) {
                    assert(self.spec_eligible(i, true, cooldown_ms, now_ms));
                    assert(rec@.contains(i as usize));
                }
            }
        }
        Err(BlazeError::AllEndpointsUnhealthy)
    }

    /// Weighted random pick among the eligible indices `cands`: draw below
    /// their total weight and walk the buckets.
    fn weighted_pick(&self, cands: &Vec<usize>) -> (idx: usize)
        requires
            self.wf(),
            cands@.len() >= 1,
            forall|k: int| 0 <= k < cands@.len()
                ==> #[trigger] cands@[k] < self.endpoints@.len(),
            forall|k1: int, k2: int| 0 <= k1 < k2 < cands@.len()
                ==> #[trigger] cands@[k1] < #[trigger] cands@[k2],
        ensures
            cands@.contains(idx),
    {
        let ghost cfgs = cfgs_of(self.endpoints@);
        let total = self.cand_total(cands);
        proof {
            lemma_cand_sum_nonneg(cfgs, cands@.drop_first());
            assert(cfgs[cands@[0] as int] == self.endpoints@[cands@[0] as int].config);
        }
        let pick = random_below(total);
        let idx = self.pick_by_weight(cands, pick);
        proof {
            let pi = spec_pick_index(cfgs, cands@, pick as int);
            assert(cands@[pi] == idx);
        }
        idx
    }

    /// Select an endpoint with the default 30 s cooldown.
    pub fn select(&self, now_ms: u64) -> (r: Result<usize, BlazeError>)
        requires
            self.wf(),
        ensures
            (exists|i: int|
                0 <= i < self.endpoints@.len()
                    && (#[trigger] self.endpoints@[i]).spec_fast_ok()) ==> (r matches Ok(j)
                && j < self.endpoints@.len() && self.endpoints@[j as int].spec_fast_ok()),
            r matches Ok(j) ==> j < self.endpoints@.len()
                && self.endpoints@[j as int].spec_can_accept()
                && self.endpoints@[j as int].spec_recovery_ok(DEFAULT_COOLDOWN_MS, now_ms),
            r matches Err(e) ==> e is AllEndpointsUnhealthy,
            r is Err <==> (forall|i: int|
                0 <= i < self.endpoints@.len()
                    ==> !(#[trigger] self.endpoints@[i]).spec_recovery_ok(
                    DEFAULT_COOLDOWN_MS,
                    now_ms,
                )),
    {
        self.select_with_cooldown(DEFAULT_COOLDOWN_MS, now_ms)
    }

    /// Number of healthy endpoints.
    pub fn healthy_count(&self) -> (r: usize)
        ensures
            r == count_healthy(self.endpoints@, 0),
    {
        let n = self.endpoints.len();
        let mut count: usize = 0;
        let mut j: usize = n;
        proof {
            lemma_count_healthy_bounds(self.endpoints@, 0);
        }
        while j > 0
            invariant
                j <= n,
                n == self.endpoints@.len(),
                count == count_healthy(self.endpoints@, j as int),
                count_healthy(self.endpoints@, 0) <= n,
            decreases j,
        {
            j = j - 1;
            proof {
                lemma_count_healthy_bounds(self.endpoints@, j as int);
            }
            if self.endpoints[j].healthy {
                count = count + 1;
            }
        }
        count
    }

    /// Total number of in-flight requests over all endpoints.
    pub fn total_in_flight(&self) -> (r: u64)
        requires
            sum_in_flight(self.endpoints@, 0) <= u64::MAX,
        ensures
            r == sum_in_flight(self.endpoints@, 0),
    {
        let n = self.endpoints.len();
        let mut total: u64 = 0;
        let mut j: usize = n;
        while j > 0
            invariant
                j <= n,
                n == self.endpoints@.len(),
                sum_in_flight(self.endpoints@, 0) <= u64::MAX,
                total == sum_in_flight(self.endpoints@, j as int),
            decreases j,
        {
            j = j - 1;
            proof {
                lemma_sum_in_flight_mono(self.endpoints@, 0, j as int);
                lemma_sum_in_flight_nonneg(self.endpoints@, j as int + 1);
            }
            total = total + self.endpoints[j].in_flight as u64;
        }
        total
    }
}

/// The endpoint after a request terminates on it: the outcome is
/// recorded and the slot taken at selection is given back.
pub open spec fn spec_complete(e: Endpoint, success: bool, latency_us: u64, now_ms: u64) -> Endpoint {
    let recorded = if success {
        e.spec_after_success(latency_us)
    } else {
        e.spec_after_failure(now_ms)
    };
    Endpoint { in_flight: (recorded.in_flight - 1) as u32, ..recorded }
}

impl LoadBalancer {
    /// Record a terminal outcome on endpoint `idx` and give its slot
    /// back: a success feeds the latency in and restores health, a
    /// failure feeds the failure streak.
    pub fn complete(&mut self, idx: usize, success: bool, latency_us: u64, now_ms: u64)
        requires
            idx < old(self).endpoints@.len(),
            old(self).endpoints@[idx as int].in_flight >= 1,
            success ==> old(self).endpoints@[idx as int].success_count < u64::MAX
                && old(self).endpoints@[idx as int].total_latency_us + latency_us <= u64::MAX,
            !success ==> old(self).endpoints@[idx as int].failure_count < u64::MAX
                && old(self).endpoints@[idx as int].consecutive_failures < u32::MAX,
        ensures
            final(self).endpoints@.len() == old(self).endpoints@.len(),
            final(self).total_weight == old(self).total_weight,
            forall|j: int| 0 <= j < old(self).endpoints@.len() && j != idx
                ==> final(self).endpoints@[j] == old(self).endpoints@[j],
            final(self).endpoints@[idx as int] == spec_complete(
                old(self).endpoints@[idx as int],
                success,
                latency_us,
                now_ms,
            ),
    {
        if success {
            self.endpoints[idx].record_success(latency_us);
        } else {
            self.endpoints[idx].record_failure(now_ms);
        }
        self.endpoints[idx].release();
    }
}

/// A terminated request bumps its endpoint's outcome count — successes
/// plus failures — by exactly one, whatever the outcome was.
pub proof fn lemma_complete_counts_one(e: Endpoint, success: bool, latency_us: u64, now_ms: u64)
    requires
        e.success_count < u64::MAX,
        e.failure_count < u64::MAX,
    ensures
        spec_complete(e, success, latency_us, now_ms).success_count + spec_complete(
            e,
            success,
            latency_us,
            now_ms,
        ).failure_count == e.success_count + e.failure_count + 1,
{
}

/// Completing a request returns the slot its selection took: acquiring
/// and completing leave `in_flight` exactly where it was.
pub proof fn lemma_acquire_complete_balanced(
    e: Endpoint,
    success: bool,
    latency_us: u64,
    now_ms: u64,
)
    requires
        e.spec_can_accept(),
    ensures
        spec_complete(
            Endpoint { in_flight: (e.in_flight + 1) as u32, ..e },
            success,
            latency_us,
            now_ms,
        ).in_flight == e.in_flight,
{
}

/// Three consecutive failures from a clean streak quarantine an
/// endpoint, whatever the failure times were; the quarantine remembers
/// the time of the third failure.
pub proof fn lemma_three_failures_quarantine(e: Endpoint, t1: u64, t2: u64, t3: u64)
    requires
        e.consecutive_failures == 0,
    ensures
        !e.spec_after_failure(t1).spec_after_failure(t2).spec_after_failure(t3).healthy,
        e.spec_after_failure(t1).spec_after_failure(t2).spec_after_failure(t3).last_health_check
            == Some(t3),
        e.spec_after_failure(t1).spec_after_failure(t2).spec_after_failure(t3).consecutive_failures
            == 3,
{
}

/// A single recorded success resets the failure streak to zero and
/// restores the endpoint to health, from any state.
pub proof fn lemma_success_restores_health(e: Endpoint, latency_us: u64)
    ensures
        e.spec_after_success(latency_us).healthy,
        e.spec_after_success(latency_us).consecutive_failures == 0,
{
}

/// Number of healthy endpoints in `eps[lo ..]`.
pub open spec fn count_healthy(eps: Seq<Endpoint>, lo: int) -> int
    decreases eps.len() - lo,
{
    if lo < 0 || lo >= eps.len() {
        0
    } else {
        (if eps[lo].healthy {
            1int
        } else {
            0int
        }) + count_healthy(eps, lo + 1)
    }
}

/// Sum of the in-flight counters of `eps[lo ..]`.
pub open spec fn sum_in_flight(eps: Seq<Endpoint>, lo: int) -> int
    decreases eps.len() - lo,
{
    if lo < 0 || lo >= eps.len() {
        0
    } else {
        eps[lo].in_flight + sum_in_flight(eps, lo + 1)
    }
}

proof fn lemma_count_healthy_bounds(eps: Seq<Endpoint>, lo: int)
    requires
        0 <= lo <= eps.len(),
    ensures
        0 <= count_healthy(eps, lo) <= eps.len() - lo,
    decreases eps.len() - lo,
{
    if lo < eps.len() {
        lemma_count_healthy_bounds(eps, lo + 1);
    }
}

proof fn lemma_sum_in_flight_nonneg(eps: Seq<Endpoint>, lo: int)
    ensures
        sum_in_flight(eps, lo) >= 0,
    decreases eps.len() - lo,
{
    if 0 <= lo < eps.len() {
        lemma_sum_in_flight_nonneg(eps, lo + 1);
    }
}

proof fn lemma_sum_in_flight_mono(eps: Seq<Endpoint>, lo: int, hi: int)
    requires
        0 <= lo <= hi,
    ensures
        sum_in_flight(eps, lo) >= sum_in_flight(eps, hi),
    decreases hi - lo,
{
    if lo < hi {
        lemma_sum_in_flight_mono(eps, lo + 1, hi);
    }
}

/// Relies on `rand::random_range` over `0 .. n`: a draw below `n`,
/// uniformly distributed; the range must be non-empty.
#[verifier::external_body]
pub(crate) fn random_below(n: u64) -> (r: u64)
    requires
        n >= 1,
    ensures
        r < n,
{
    rand::random_range(0..n)
}

} // verus!
