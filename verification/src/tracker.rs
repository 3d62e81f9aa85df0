//! Statistics tracking for request processing.
//!
//! Counters are exact integers; rates are whole requests per second and
//! percentages whole percent. The tracker keeps a sliding window of the
//! completion times of the last second to report an instantaneous rate.
//! Clock readings come in as `now_ms` arguments on a monotonic clock.

use vstd::prelude::*;
use std::collections::VecDeque;

verus! {

/// The window after dropping every entry older than `cutoff` from the
/// front. Entries are in arrival order, so only leading ones can expire.
pub open spec fn spec_prune(s: Seq<u64>, cutoff: int) -> Seq<u64>
    decreases s.len(),
{
    if s.len() == 0 || s[0] >= cutoff {
        s
    } else {
        spec_prune(s.drop_first(), cutoff)
    }
}

/// Tracker of processing statistics.
pub struct StatsTracker {
    /// Time processing started, in milliseconds.
    pub start_ms: u64,
    /// Total requests processed.
    pub total_processed: u64,
    /// Requests that terminated in success.
    pub success_count: u64,
    /// Requests that terminated in failure.
    pub failure_count: u64,
    /// Total latency of successful requests, in microseconds.
    pub total_latency_us: u64,
    /// Completion times of the last second, in arrival order.
    pub recent_requests: VecDeque<u64>,
    /// Total input lines, the processing goal.
    pub total_lines: usize,
}

impl StatsTracker {
    /// A fresh tracker started at time `now_ms`.
    pub fn new(now_ms: u64) -> (t: StatsTracker)
        ensures
            t.start_ms == now_ms,
            t.total_processed == 0,
            t.success_count == 0,
            t.failure_count == 0,
            t.total_latency_us == 0,
            t.recent_requests@.len() == 0,
            t.total_lines == 0,
    {
        StatsTracker {
            start_ms: now_ms,
            total_processed: 0,
            success_count: 0,
            failure_count: 0,
            total_latency_us: 0,
            recent_requests: VecDeque::new(),
            total_lines: 0,
        }
    }

    /// Set the total number of input lines.
    pub fn set_total_lines(&mut self, total: usize)
        ensures
            *final(self) == (StatsTracker { total_lines: total, ..*old(self) }),
    {
        self.total_lines = total;
    }

    /// Expire window entries older than one second before `now_ms`.
    fn prune(&mut self, now_ms: u64)
        ensures
            *final(self) == (StatsTracker {
                recent_requests: final(self).recent_requests,
                ..*old(self)
            }),
            final(self).recent_requests@ == spec_prune(
                old(self).recent_requests@,
                now_ms - 1000,
            ),
    {
        let ghost whole = self.recent_requests@;
        let ghost cutoff = now_ms - 1000int;
        let cut = now_ms.saturating_sub(1000);
        loop
            invariant
                *self == (StatsTracker {
                    recent_requests: self.recent_requests,
                    ..*old(self)
                }),
                cutoff == now_ms - 1000int,
                cut == now_ms.saturating_sub(1000),
                spec_prune(whole, cutoff) == spec_prune(self.recent_requests@, cutoff),
            ensures
                *self == (StatsTracker {
                    recent_requests: self.recent_requests,
                    ..*old(self)
                }),
                self.recent_requests@ == spec_prune(whole, cutoff),
            decreases self.recent_requests@.len(),
        {
            if self.recent_requests.len() == 0 {
                break;
            }
            let first = self.recent_requests[0];
            if first >= cut {
                proof {
                    assert(self.recent_requests@[0] >= cutoff);
                }
                break;
            }
            proof {
                assert(self.recent_requests@[0] < cutoff);
            }
            let ghost before = self.recent_requests@;
            self.recent_requests.pop_front();
            proof {
                assert(self.recent_requests@ =~= before.drop_first());
            }
        }
    }

    /// Push a completion at `now_ms` into the window and expire entries
    /// older than one second.
    fn record_recent(&mut self, now_ms: u64)
        ensures
            *final(self) == (StatsTracker {
                recent_requests: final(self).recent_requests,
                ..*old(self)
            }),
            final(self).recent_requests@ == spec_prune(
                old(self).recent_requests@.push(now_ms),
                now_ms - 1000,
            ),
    {
        self.recent_requests.push_back(now_ms);
        self.prune(now_ms);
    }

    /// Record a request that terminated in success after `latency_us`
    /// microseconds, completing at time `now_ms`.
    pub fn record_success(&mut self, latency_us: u64, now_ms: u64)
        requires
            old(self).total_processed < u64::MAX,
            old(self).success_count < u64::MAX,
            old(self).total_latency_us + latency_us <= u64::MAX,
        ensures
            final(self).total_processed == old(self).total_processed + 1,
            final(self).success_count == old(self).success_count + 1,
            final(self).failure_count == old(self).failure_count,
            final(self).total_latency_us == old(self).total_latency_us + latency_us,
            final(self).start_ms == old(self).start_ms,
            final(self).total_lines == old(self).total_lines,
            final(self).recent_requests@ == spec_prune(
                old(self).recent_requests@.push(now_ms),
                now_ms - 1000,
            ),
    {
        self.total_processed = self.total_processed + 1;
        self.success_count = self.success_count + 1;
        self.total_latency_us = self.total_latency_us + latency_us;
        self.record_recent(now_ms);
    }

    /// Record a request that terminated in failure, completing at time
    /// `now_ms`.
    pub fn record_failure(&mut self, now_ms: u64)
        requires
            old(self).total_processed < u64::MAX,
            old(self).failure_count < u64::MAX,
        ensures
            final(self).total_processed == old(self).total_processed + 1,
            final(self).success_count == old(self).success_count,
            final(self).failure_count == old(self).failure_count + 1,
            final(self).total_latency_us == old(self).total_latency_us,
            final(self).start_ms == old(self).start_ms,
            final(self).total_lines == old(self).total_lines,
            final(self).recent_requests@ == spec_prune(
                old(self).recent_requests@.push(now_ms),
                now_ms - 1000,
            ),
    {
        self.total_processed = self.total_processed + 1;
        self.failure_count = self.failure_count + 1;
        self.record_recent(now_ms);
    }

    /// Number of completions in the last second before `now_ms`, after
    /// expiring older entries.
    pub fn requests_per_second(&mut self, now_ms: u64) -> (r: usize)
        ensures
            *final(self) == (StatsTracker {
                recent_requests: final(self).recent_requests,
                ..*old(self)
            }),
            final(self).recent_requests@ == spec_prune(
                old(self).recent_requests@,
                now_ms - 1000,
            ),
            r == final(self).recent_requests@.len(),
    {
        self.prune(now_ms);
        self.recent_requests.len()
    }

    /// A snapshot of the statistics at time `now_ms`.
    pub fn snapshot(&mut self, now_ms: u64) -> (s: StatsSnapshot)
        requires
            now_ms >= old(self).start_ms,
        ensures
            *final(self) == (StatsTracker {
                recent_requests: final(self).recent_requests,
                ..*old(self)
            }),
            final(self).recent_requests@ == spec_prune(
                old(self).recent_requests@,
                now_ms - 1000,
            ),
            s.elapsed_ms == now_ms - old(self).start_ms,
            s.total_processed == old(self).total_processed,
            s.success_count == old(self).success_count,
            s.failure_count == old(self).failure_count,
            s.total_lines == old(self).total_lines,
            s.avg_latency_ms == spec_avg_latency_ms(
                old(self).total_latency_us,
                old(self).success_count,
            ),
            s.current_rps == final(self).recent_requests@.len(),
            s.overall_rps == spec_overall_rps(old(self).total_processed, s.elapsed_ms),
            s.progress == spec_progress_percent(
                old(self).total_processed,
                old(self).total_lines,
            ),
    {
        let elapsed_ms = now_ms - self.start_ms;
        let avg_latency_ms = if self.success_count == 0 {
            0
        } else {
            self.total_latency_us / self.success_count / 1000
        };
        proof {
            if elapsed_ms > 0 {
                lemma_rps_fits(self.total_processed as int, elapsed_ms as int);
            }
            if self.total_lines > 0 {
                lemma_progress_fits(self.total_processed as int, self.total_lines as int);
            }
        }
        let overall_rps = if elapsed_ms == 0 {
            0
        } else {
            let v = (self.total_processed as u128) * 1000 / (elapsed_ms as u128);
            if v > u64::MAX as u128 {
                u64::MAX
            } else {
                v as u64
            }
        };
        let progress = if self.total_lines == 0 {
            0
        } else {
            let v = (self.total_processed as u128) * 100 / (self.total_lines as u128);
            if v > u64::MAX as u128 {
                u64::MAX
            } else {
                v as u64
            }
        };
        let current = self.requests_per_second(now_ms);
        StatsSnapshot {
            elapsed_ms,
            total_processed: self.total_processed,
            success_count: self.success_count,
            failure_count: self.failure_count,
            avg_latency_ms,
            current_rps: current,
            overall_rps,
            total_lines: self.total_lines,
            progress,
        }
    }
}

/// Average latency in whole milliseconds: zero while no success.
pub open spec fn spec_avg_latency_ms(total_latency_us: u64, success_count: u64) -> int {
    if success_count == 0 {
        0
    } else {
        total_latency_us as int / success_count as int / 1000
    }
}

/// Overall rate in whole requests per second: zero while no time has
/// passed, clamped to `u64::MAX`.
pub open spec fn spec_overall_rps(total_processed: u64, elapsed_ms: u64) -> int {
    if elapsed_ms == 0 {
        0
    } else if total_processed as int * 1000 / elapsed_ms as int > u64::MAX {
        u64::MAX as int
    } else {
        total_processed as int * 1000 / elapsed_ms as int
    }
}

/// Progress toward the goal in whole percent: zero while no goal is
/// set, clamped to `u64::MAX`.
pub open spec fn spec_progress_percent(total_processed: u64, total_lines: usize) -> int {
    if total_lines == 0 {
        0
    } else if total_processed as int * 100 / total_lines as int > u64::MAX {
        u64::MAX as int
    } else {
        total_processed as int * 100 / total_lines as int
    }
}

proof fn lemma_rps_fits(total: int, elapsed: int)
    requires
        0 <= total <= u64::MAX,
        1 <= elapsed,
    ensures
        0 <= total * 1000 / elapsed <= u64::MAX as int * 1000,
{
    vstd::arithmetic::mul::lemma_mul_nonnegative(total, 1000);
    vstd::arithmetic::div_mod::lemma_div_pos_is_pos(total * 1000, elapsed);
    vstd::arithmetic::mul::lemma_mul_inequality(total, u64::MAX as int, 1000);
    vstd::arithmetic::div_mod::lemma_div_is_ordered(
        total * 1000,
        u64::MAX as int * 1000,
        elapsed,
    );
    vstd::arithmetic::div_mod::lemma_div_is_ordered_by_denominator(
        u64::MAX as int * 1000,
        1,
        elapsed,
    );
}

proof fn lemma_progress_fits(total: int, lines: int)
    requires
        0 <= total <= u64::MAX,
        1 <= lines,
    ensures
        0 <= total * 100 / lines <= u64::MAX as int * 100,
{
    vstd::arithmetic::mul::lemma_mul_nonnegative(total, 100);
    vstd::arithmetic::div_mod::lemma_div_pos_is_pos(total * 100, lines);
    vstd::arithmetic::mul::lemma_mul_inequality(total, u64::MAX as int, 100);
    vstd::arithmetic::div_mod::lemma_div_is_ordered(total * 100, u64::MAX as int * 100, lines);
    vstd::arithmetic::div_mod::lemma_div_is_ordered_by_denominator(
        u64::MAX as int * 100,
        1,
        lines,
    );
}

/// A snapshot of the statistics at one moment.
pub struct StatsSnapshot {
    /// Milliseconds since processing started.
    pub elapsed_ms: u64,
    /// Total requests processed.
    pub total_processed: u64,
    /// Requests that terminated in success.
    pub success_count: u64,
    /// Requests that terminated in failure.
    pub failure_count: u64,
    /// Average latency of successful requests in whole milliseconds.
    pub avg_latency_ms: u64,
    /// Completions within the last second.
    pub current_rps: usize,
    /// Overall rate in whole requests per second.
    pub overall_rps: u64,
    /// Total input lines, the processing goal.
    pub total_lines: usize,
    /// Progress toward the goal in whole percent.
    pub progress: u64,
}

impl StatsSnapshot {
    /// Success rate in whole percent; 100 while nothing was processed.
    pub fn success_rate(&self) -> (r: u64)
        requires
            self.success_count <= self.total_processed,
        ensures
            self.total_processed == 0 ==> r == 100,
            self.total_processed > 0 ==> r == self.success_count as int * 100 / self.total_processed as int,
    {
        if self.total_processed == 0 {
            100
        } else {
            let r = ((self.success_count as u128) * 100 / (self.total_processed as u128)) as u64;
            proof {
                vstd::arithmetic::mul::lemma_mul_nonnegative(self.success_count as int, 100);
                vstd::arithmetic::div_mod::lemma_div_pos_is_pos(
                    self.success_count as int * 100,
                    self.total_processed as int,
                );
                vstd::arithmetic::mul::lemma_mul_inequality(
                    self.success_count as int,
                    self.total_processed as int,
                    100,
                );
                vstd::arithmetic::div_mod::lemma_div_is_ordered(
                    self.success_count as int * 100,
                    self.total_processed as int * 100,
                    self.total_processed as int,
                );
                vstd::arithmetic::mul::lemma_mul_is_commutative(
                    self.total_processed as int,
                    100,
                );
                vstd::arithmetic::div_mod::lemma_div_by_multiple(
                    100,
                    self.total_processed as int,
                );
            }
            r
        }
    }

    /// Estimated seconds until the goal is reached, from the overall
    /// rate; absent while the rate or the goal is zero.
    pub fn eta(&self) -> (r: Option<u64>)
        ensures
            (self.overall_rps > 0 && self.total_lines > 0) ==> (r matches Some(secs)
                && secs == spec_remaining(self.total_lines, self.total_processed)
                    / self.overall_rps as int),
            !(self.overall_rps > 0 && self.total_lines > 0) ==> r is None,
    {
        if self.overall_rps > 0 && self.total_lines > 0 {
            let done: u64 = self.total_processed;
            let remaining: u64 = if (self.total_lines as u64) > done {
                self.total_lines as u64 - done
            } else {
                0
            };
            proof {
                vstd::arithmetic::div_mod::lemma_div_pos_is_pos(
                    remaining as int,
                    self.overall_rps as int,
                );
                vstd::arithmetic::div_mod::lemma_div_is_ordered(
                    remaining as int,
                    u64::MAX as int,
                    self.overall_rps as int,
                );
                vstd::arithmetic::div_mod::lemma_div_is_ordered_by_denominator(
                    u64::MAX as int,
                    1,
                    self.overall_rps as int,
                );
            }
            Some(remaining / self.overall_rps)
        } else {
            None
        }
    }
}

/// Lines still to process: the goal minus what was processed, at least
/// zero.
pub open spec fn spec_remaining(total_lines: usize, total_processed: u64) -> int {
    if total_lines > total_processed {
        total_lines as int - total_processed as int
    } else {
        0
    }
}

} // verus!
