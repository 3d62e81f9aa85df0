//! The retry state machine for a single request.
//!
//! The caller performs one HTTP attempt at a time and feeds each
//! attempt's result into a [`RetrySession`]; the session decides whether
//! to back off and try again or to close with exactly one terminal
//! outcome. [`run_session`] drives a whole session over a pre-recorded
//! sequence of attempt results.
//!
//! Backoff delays are exact integers: the delay before attempt `n + 1` is
//! `initial · (multiplier_permille / 1000)^(n-1) · (jitter / 1000)` with
//! per-mille integer division at each step, clamped to the maximum
//! backoff; the jitter is drawn uniformly from `[750, 1250)`.

use crate::config::RetryConfig;
use crate::request::{ApiRequest, ApiResponse, ErrorResponse, RequestResult, ResponseMetadata};
use vstd::arithmetic::div_mod::{
    lemma_div_is_ordered, lemma_div_multiples_vanish, lemma_div_pos_is_pos,
};
use vstd::arithmetic::mul::{lemma_mul_inequality, lemma_mul_is_commutative, lemma_mul_nonnegative};
use vstd::prelude::*;

verus! {

/// Statuses that will not resolve by retrying the same request.
pub open spec fn spec_non_retryable(status: Option<u16>) -> bool {
    match status {
        Some(c) => c == 400 || c == 401 || c == 403 || c == 404,
        None => false,
    }
}

/// Whether `status` makes another attempt pointless: client, permission
/// and not-found errors are terminal after a single attempt.
pub fn non_retryable(status: Option<u16>) -> (r: bool)
    ensures
        r == spec_non_retryable(status),
{
    match status {
        Some(c) => c == 400 || c == 401 || c == 403 || c == 404,
        None => false,
    }
}

/// Whether `status` counts as a successful response.
pub fn is_success_status(status: u16) -> (r: bool)
    ensures
        r == (200 <= status < 300),
{
    200 <= status && status < 300
}

/// Cut a response body down to 500 bytes, marking the cut with three
/// trailing dots.
pub fn truncate_error_body(body: Vec<u8>) -> (r: Vec<u8>)
    ensures
        body@.len() <= 500 ==> r@ == body@,
        body@.len() > 500 ==> r@ == body@.subrange(0, 500) + seq![46u8, 46u8, 46u8],
{
    let mut b = body;
    let ghost orig = b@;
    if b.len() > 500 {
        b.truncate(500);
        b.push(46);
        b.push(46);
        b.push(46);
        proof {
            assert(b@ =~= orig.subrange(0, 500) + seq![46u8, 46u8, 46u8]);
        }
    }
    b
}

/// The unjittered backoff value after `steps` doublings (or whatever the
/// per-mille multiplier gives), with integer division at each step.
pub open spec fn spec_scaled_backoff(initial_ms: u64, multiplier_permille: u32, steps: nat) -> int
    decreases steps,
{
    if steps == 0 {
        initial_ms as int
    } else {
        spec_scaled_backoff(initial_ms, multiplier_permille, (steps - 1) as nat)
            * multiplier_permille / 1000
    }
}

/// The delay before attempt `attempt + 1`, for a jitter factor drawn in
/// per-mille: the scaled value times the jitter, clamped to the maximum.
pub open spec fn spec_backoff_ms(cfg: RetryConfig, attempt: u32, jitter_permille: u64) -> int {
    let scaled = spec_scaled_backoff(
        cfg.initial_backoff_ms,
        cfg.multiplier_permille,
        (attempt - 1) as nat,
    );
    let jittered = scaled * jitter_permille / 1000;
    if jittered > cfg.max_backoff_ms {
        cfg.max_backoff_ms as int
    } else {
        jittered
    }
}

proof fn lemma_scaled_nonneg(initial_ms: u64, multiplier_permille: u32, steps: nat)
    ensures
        0 <= spec_scaled_backoff(initial_ms, multiplier_permille, steps),
    decreases steps,
{
    if steps > 0 {
        lemma_scaled_nonneg(initial_ms, multiplier_permille, (steps - 1) as nat);
        let prev = spec_scaled_backoff(initial_ms, multiplier_permille, (steps - 1) as nat);
        lemma_mul_nonnegative(prev, multiplier_permille as int);
        lemma_div_pos_is_pos(prev * multiplier_permille, 1000);
    }
}

/// Scaling a nonnegative value by a per-mille factor of at least 1000
/// does not decrease it.
proof fn lemma_scale_up(x: int, m: int)
    requires
        0 <= x,
        1000 <= m,
    ensures
        x <= x * m / 1000,
{
    lemma_mul_inequality(1000, m, x);
    lemma_mul_is_commutative(1000, x);
    lemma_mul_is_commutative(m, x);
    lemma_div_is_ordered(1000 * x, x * m, 1000);
    lemma_div_multiples_vanish(x, 1000);
}

/// Scaling a nonnegative value by a per-mille factor of at most 1000
/// does not increase it.
proof fn lemma_scale_down(x: int, m: int)
    requires
        0 <= x,
        0 <= m <= 1000,
    ensures
        x * m / 1000 <= x,
{
    lemma_mul_inequality(m, 1000, x);
    lemma_mul_is_commutative(1000, x);
    lemma_mul_is_commutative(m, x);
    lemma_div_is_ordered(x * m, 1000 * x, 1000);
    lemma_div_multiples_vanish(x, 1000);
}

/// Multiplying by a larger per-mille factor gives a delay at least as
/// large.
proof fn lemma_jitter_mono(x: int, j1: int, j2: int)
    requires
        0 <= x,
        0 <= j1 <= j2,
    ensures
        x * j1 / 1000 <= x * j2 / 1000,
{
    lemma_mul_inequality(j1, j2, x);
    lemma_mul_is_commutative(j1, x);
    lemma_mul_is_commutative(j2, x);
    lemma_div_is_ordered(x * j1, x * j2, 1000);
}

/// The backoff for any attempt, at any jitter in `[750, 1250)`, lies
/// between the 0.75-jittered scaled delay and the maximum backoff: the
/// delay never exceeds the configured maximum, and below the clamp it
/// sits inside the jitter band around `initial · multiplier^(attempt-1)`.
pub proof fn lemma_backoff_in_band(cfg: RetryConfig, attempt: u32, jitter_permille: u64)
    requires
        attempt >= 1,
        750 <= jitter_permille < 1250,
    ensures
        0 <= spec_backoff_ms(cfg, attempt, jitter_permille) <= cfg.max_backoff_ms,
        spec_backoff_ms(cfg, attempt, jitter_permille) >= vstd::math::min(
            spec_scaled_backoff(cfg.initial_backoff_ms, cfg.multiplier_permille, (attempt - 1) as nat)
                * 750 / 1000,
            cfg.max_backoff_ms as int,
        ),
        spec_backoff_ms(cfg, attempt, jitter_permille) <= spec_scaled_backoff(
            cfg.initial_backoff_ms,
            cfg.multiplier_permille,
            (attempt - 1) as nat,
        ) * 1250 / 1000,
{
    let s = spec_scaled_backoff(cfg.initial_backoff_ms, cfg.multiplier_permille, (attempt - 1) as nat);
    lemma_scaled_nonneg(cfg.initial_backoff_ms, cfg.multiplier_permille, (attempt - 1) as nat);
    lemma_mul_nonnegative(s, jitter_permille as int);
    lemma_div_pos_is_pos(s * jitter_permille, 1000);
    lemma_jitter_mono(s, 750, jitter_permille as int);
    lemma_jitter_mono(s, jitter_permille as int, 1250);
}

/// Saturation ceiling for the intermediate backoff computation: any
/// scaled value at or above it jitters to more than any `u64` maximum.
const BACKOFF_SAT: u128 = 0x20000000000000000;

spec fn backoff_loop_inv(cfg: RetryConfig, k: u32, v: u128) -> bool {
    let s = spec_scaled_backoff(cfg.initial_backoff_ms, cfg.multiplier_permille, (k - 1) as nat);
    &&& (s <= BACKOFF_SAT ==> v == s)
    &&& (s > BACKOFF_SAT ==> v == BACKOFF_SAT)
    &&& (cfg.multiplier_permille < 1000 ==> s <= cfg.initial_backoff_ms)
}

/// The backoff delay before attempt `attempt + 1`, for a given jitter
/// factor in per-mille.
pub fn backoff_with_jitter(cfg: &RetryConfig, attempt: u32, jitter_permille: u64) -> (r: u64)
    requires
        attempt >= 1,
        750 <= jitter_permille < 1250,
    ensures
        r == spec_backoff_ms(*cfg, attempt, jitter_permille),
{
    let mut v: u128 = cfg.initial_backoff_ms as u128;
    let mut k: u32 = 1;
    while k < attempt
        invariant
            1 <= k <= attempt,
            backoff_loop_inv(*cfg, k, v),
        decreases attempt - k,
    {
        let ghost s = spec_scaled_backoff(
            cfg.initial_backoff_ms,
            cfg.multiplier_permille,
            (k - 1) as nat,
        );
        let ghost s2 = spec_scaled_backoff(cfg.initial_backoff_ms, cfg.multiplier_permille, k as nat);
        proof {
            lemma_scaled_nonneg(cfg.initial_backoff_ms, cfg.multiplier_permille, (k - 1) as nat);
            if s > BACKOFF_SAT {
                // saturated: only reachable with a growing multiplier
                if cfg.multiplier_permille < 1000 {
                    assert(s <= cfg.initial_backoff_ms);
                    assert(false);
                }
                lemma_scale_up(s, cfg.multiplier_permille as int);
                lemma_scale_up(BACKOFF_SAT as int, cfg.multiplier_permille as int);
            }
            if cfg.multiplier_permille < 1000 {
                lemma_scale_down(s, cfg.multiplier_permille as int);
            }
            lemma_mul_nonnegative(v as int, cfg.multiplier_permille as int);
            lemma_div_pos_is_pos(v as int * cfg.multiplier_permille, 1000);
            assert(v <= BACKOFF_SAT);
            lemma_mul_inequality(v as int, BACKOFF_SAT as int, cfg.multiplier_permille as int);
            lemma_mul_inequality(cfg.multiplier_permille as int, 0x100000000, BACKOFF_SAT as int);
            lemma_mul_is_commutative(cfg.multiplier_permille as int, BACKOFF_SAT as int);
            assert(v as int * cfg.multiplier_permille <= BACKOFF_SAT as int * 0x100000000);
        }
        let next = v * (cfg.multiplier_permille as u128) / 1000;
        v = if next > BACKOFF_SAT {
            BACKOFF_SAT
        } else {
            next
        };
        k = k + 1;
    }
    let ghost s = spec_scaled_backoff(
        cfg.initial_backoff_ms,
        cfg.multiplier_permille,
        (attempt - 1) as nat,
    );
    proof {
        lemma_scaled_nonneg(cfg.initial_backoff_ms, cfg.multiplier_permille, (attempt - 1) as nat);
        if s > BACKOFF_SAT {
            // over the ceiling, both the real and the computed delay clamp
            lemma_mul_inequality(750, jitter_permille as int, BACKOFF_SAT as int);
            lemma_mul_is_commutative(750, BACKOFF_SAT as int);
            lemma_mul_is_commutative(jitter_permille as int, BACKOFF_SAT as int);
            lemma_mul_inequality(BACKOFF_SAT as int, s, jitter_permille as int);
            lemma_div_is_ordered(BACKOFF_SAT as int * 750, BACKOFF_SAT as int * jitter_permille, 1000);
            lemma_div_is_ordered(BACKOFF_SAT as int * jitter_permille, s * jitter_permille, 1000);
        }
        lemma_mul_nonnegative(v as int, jitter_permille as int);
        lemma_div_pos_is_pos(v as int * jitter_permille, 1000);
        assert(v <= BACKOFF_SAT);
        lemma_mul_inequality(v as int, BACKOFF_SAT as int, jitter_permille as int);
        lemma_mul_inequality(jitter_permille as int, 1250, BACKOFF_SAT as int);
        lemma_mul_is_commutative(jitter_permille as int, BACKOFF_SAT as int);
        assert(v as int * jitter_permille <= BACKOFF_SAT as int * 1250);
    }
    let jittered = v * (jitter_permille as u128) / 1000;
    if jittered > cfg.max_backoff_ms as u128 {
        cfg.max_backoff_ms
    } else {
        jittered as u64
    }
}

/// The backoff delay before attempt `attempt + 1`, with the jitter drawn
/// uniformly from `[750, 1250)` per-mille.
pub fn calculate_backoff(cfg: &RetryConfig, attempt: u32) -> (r: u64)
    requires
        attempt >= 1,
    ensures
        exists|j: u64| 750 <= j < 1250 && r == spec_backoff_ms(*cfg, attempt, j),
{
    let j = 750 + crate::endpoint::random_below(500);
    backoff_with_jitter(cfg, attempt, j)
}

/// What one HTTP attempt produced, as handed back by the transport.
pub enum AttemptResult {
    /// A response with a successful status whose body parsed as JSON.
    Success {
        /// The raw response body.
        body: String,
    },
    /// Anything else: a transport error, a timeout, an error status, or
    /// a successful status with an unusable body.
    Failed {
        /// Error message describing the failed attempt.
        error: String,
        /// The HTTP status, when a response arrived at all.
        status: Option<u16>,
    },
}

/// What the caller should do next with a request.
pub enum NextStep {
    /// Sleep this many milliseconds, then make another attempt.
    Backoff(u64),
    /// The session is over: emit exactly this one outcome record.
    Done(RequestResult),
}

/// The retry state of one request: attempts made so far, the last error
/// seen, and whether a terminal outcome has been produced.
pub struct RetrySession {
    /// Retry settings driving the session.
    pub cfg: RetryConfig,
    /// Attempts completed so far.
    pub attempts: u32,
    /// Error message of the most recent failed attempt.
    pub last_error: Option<String>,
    /// Status of the most recent failed attempt.
    pub last_status: Option<u16>,
    /// Whether the session has closed with a terminal outcome.
    pub done: bool,
}

impl RetrySession {
    /// A fresh session: no attempts made yet.
    pub fn new(cfg: RetryConfig) -> (s: RetrySession)
        ensures
            s.cfg == cfg,
            s.attempts == 0,
            s.last_error is None,
            s.last_status is None,
            !s.done,
    {
        RetrySession { cfg, attempts: 0, last_error: None, last_status: None, done: false }
    }

    /// Advance the session by one completed attempt. On success the
    /// session closes with a success record carrying the endpoint URL,
    /// the request latency and the attempt count. On a failed attempt it
    /// closes with a failure record echoing the request if the status is
    /// non-retryable or the attempt budget is spent; otherwise it asks
    /// the caller to back off and try again.
    pub fn on_attempt(
        &mut self,
        req: &ApiRequest,
        endpoint_url: &str,
        latency_ms: u64,
        outcome: &AttemptResult,
    ) -> (step: NextStep)
        requires
            !old(self).done,
            old(self).attempts < old(self).cfg.max_attempts,
        ensures
            final(self).cfg == old(self).cfg,
            final(self).attempts == old(self).attempts + 1,
            outcome matches AttemptResult::Success { body } ==> (
                final(self).done
                && final(self).last_error == old(self).last_error
                && final(self).last_status == old(self).last_status
                && (step matches NextStep::Done(rr)
                    && rr matches RequestResult::Success(ar)
                    && ar.input == req.input
                    && ar.response == body
                    && (ar.metadata matches Some(m)
                        && m.endpoint@ == endpoint_url@
                        && m.latency_ms == latency_ms
                        && m.attempts == old(self).attempts + 1))),
            outcome matches AttemptResult::Failed { error, status } ==> (
                final(self).last_status == status
                && (final(self).last_error matches Some(e) && e == error)
                && (final(self).done == (spec_non_retryable(*status)
                    || old(self).attempts + 1 == old(self).cfg.max_attempts))
                && (final(self).done ==> (step matches NextStep::Done(rr)
                    && rr matches RequestResult::Failure(er)
                    && er.input == req.input
                    && er.body == req.body
                    && er.error == error
                    && er.status_code == status
                    && er.line_number == req.line_number
                    && er.attempts == old(self).attempts + 1))
                && (!final(self).done ==> (step matches NextStep::Backoff(d)
                    && (exists|j: u64| 750 <= j < 1250
                        && d == #[trigger] spec_backoff_ms(
                            old(self).cfg, (old(self).attempts + 1) as u32, j))))),
    {
        self.attempts = self.attempts + 1;
        match outcome {
            AttemptResult::Success { body } => {
                self.done = true;
                let input = match &req.input {
                    Some(s) => Some(s.clone()),
                    None => None,
                };
                let metadata = ResponseMetadata {
                    endpoint: endpoint_url.to_owned(),
                    latency_ms,
                    attempts: self.attempts,
                };
                let response = ApiResponse {
                    input,
                    response: body.clone(),
                    metadata: Some(metadata),
                };
                NextStep::Done(RequestResult::Success(response))
            }
            AttemptResult::Failed { error, status } => {
                self.last_error = Some(error.clone());
                self.last_status = *status;
                if non_retryable(*status) || self.attempts == self.cfg.max_attempts {
                    self.done = true;
                    let input = match &req.input {
                        Some(s) => Some(s.clone()),
                        None => None,
                    };
                    let body = match &req.body {
                        Some(s) => Some(s.clone()),
                        None => None,
                    };
                    let record = ErrorResponse {
                        input,
                        body,
                        error: error.clone(),
                        status_code: *status,
                        line_number: req.line_number,
                        attempts: self.attempts,
                    };
                    NextStep::Done(RequestResult::Failure(record))
                } else {
                    let delay = calculate_backoff(&self.cfg, self.attempts);
                    NextStep::Backoff(delay)
                }
            }
        }
    }
}

/// How many attempts a session makes when the transport answers its
/// attempts with `outcomes`, given `max` permitted attempts: it stops at
/// the first success, at the first non-retryable failure, and when the
/// budget is spent.
pub open spec fn spec_attempts_used(outcomes: Seq<AttemptResult>, max: int) -> int
    decreases max,
{
    if max <= 0 || outcomes.len() == 0 {
        0
    } else {
        match outcomes[0] {
            AttemptResult::Success { .. } => 1,
            AttemptResult::Failed { status, .. } => if spec_non_retryable(status) || max == 1 {
                1
            } else {
                1 + spec_attempts_used(outcomes.drop_first(), max - 1)
            },
        }
    }
}

/// Whether a session terminates in success when the transport answers
/// its attempts with `outcomes`, given `max` permitted attempts.
pub open spec fn spec_session_succeeds(outcomes: Seq<AttemptResult>, max: int) -> bool
    decreases max,
{
    if max <= 0 || outcomes.len() == 0 {
        false
    } else {
        match outcomes[0] {
            AttemptResult::Success { .. } => true,
            AttemptResult::Failed { status, .. } => if spec_non_retryable(status) || max == 1 {
                false
            } else {
                spec_session_succeeds(outcomes.drop_first(), max - 1)
            },
        }
    }
}

/// Drive one request's retry loop to its terminal outcome, where
/// `outcomes[i]` is what the transport answered to attempt `i + 1`.
/// Exactly one record comes out; a success record's attempt count lies
/// between 1 and the attempt budget, and both kinds of record echo the
/// request and report the attempt they closed on.
pub fn run_session(
    req: &ApiRequest,
    cfg: RetryConfig,
    endpoint_url: &str,
    latency_ms: u64,
    outcomes: &Vec<AttemptResult>,
) -> (r: RequestResult)
    requires
        cfg.max_attempts >= 1,
        outcomes@.len() >= cfg.max_attempts,
    ensures
        (r is Success) == spec_session_succeeds(outcomes@, cfg.max_attempts as int),
        r matches RequestResult::Success(ar) ==> (
            ar.input == req.input
            && (ar.metadata matches Some(m)
                && 1 <= m.attempts <= cfg.max_attempts
                && m.attempts == spec_attempts_used(outcomes@, cfg.max_attempts as int)
                && m.endpoint@ == endpoint_url@
                && m.latency_ms == latency_ms
                && (outcomes@[m.attempts - 1] matches AttemptResult::Success { body }
                    && ar.response == body))),
        r matches RequestResult::Failure(er) ==> (
            er.input == req.input
            && er.body == req.body
            && er.line_number == req.line_number
            && 1 <= er.attempts <= cfg.max_attempts
            && er.attempts == spec_attempts_used(outcomes@, cfg.max_attempts as int)
            && (outcomes@[er.attempts - 1] matches AttemptResult::Failed { error, status }
                && er.error == error
                && er.status_code == status)),
{
    let max = cfg.max_attempts;
    let ghost full = outcomes@;
    proof {
        assert(full.skip(0) =~= full);
    }
    let mut session = RetrySession::new(cfg);
    let mut i: usize = 0;
    loop
        invariant
            session.cfg == cfg,
            !session.done,
            session.attempts == i,
            i < max,
            max == cfg.max_attempts,
            cfg.max_attempts >= 1,
            full == outcomes@,
            full.len() >= max,
            spec_attempts_used(full, max as int) == i + spec_attempts_used(
                full.skip(i as int),
                max - i,
            ),
            spec_session_succeeds(full, max as int) == spec_session_succeeds(
                full.skip(i as int),
                max - i,
            ),
        decreases max - i,
    {
        let ghost tail = full.skip(i as int);
        proof {
            assert(tail[0] == full[i as int]);
            assert(tail.drop_first() =~= full.skip(i as int + 1));
        }
        let step = session.on_attempt(req, endpoint_url, latency_ms, &outcomes[i]);
        i = i + 1;
        match step {
            NextStep::Done(rr) => {
                return rr;
            }
            NextStep::Backoff(_) => {}
        }
    }
}

} // verus!
