//! Per-route health: a failure window that marks a route unhealthy for a
//! while when too many of its recent requests failed.
//!
//! Instants are milliseconds on a monotonic clock chosen by the caller.

use vstd::prelude::*;

verus! {

/// A window older than this (in milliseconds) is started afresh.
pub const MAX_WINDOW_DURATION: u64 = 300000;

/// `fail_ratio` is given in parts per million.
pub const RATIO_SCALE: u64 = 1000000;

/// When a route is marked unhealthy.
#[derive(Clone, Copy, Debug, PartialEq, Eq)]
pub struct RouteFailover {
    /// The number of outcomes per window.
    pub window_size: u64,
    /// A route turns unhealthy once `failures / window_size >= fail_ratio`;
    /// in parts per million, so `1 ..= 1_000_000`.
    pub fail_ratio: u64,
    /// How long an unhealthy route is left alone, in milliseconds.
    pub fail_duration: u64,
}

pub open spec fn failover_wf(f: RouteFailover) -> bool {
    &&& f.window_size >= 1
    &&& 1 <= f.fail_ratio <= RATIO_SCALE
}

#[derive(Clone, Copy, Debug, PartialEq, Eq)]
pub enum RouteStatus {
    Infallible,
    Healthy { remaining: u64, failures: u64, updated_at: u64 },
    Unhealthy { until: u64 },
}

pub open spec fn sat_add(a: u64, b: u64) -> u64 {
    if a as int + b as int > u64::MAX as int {
        u64::MAX
    } else {
        (a + b) as u64
    }
}

pub open spec fn sat_sub(a: u64, b: u64) -> u64 {
    if a < b {
        0
    } else {
        (a - b) as u64
    }
}

/// `failures / window_size >= fail_ratio`.
pub open spec fn ratio_reached(failures: u64, f: RouteFailover) -> bool {
    failures as int * RATIO_SCALE as int >= f.fail_ratio as int * f.window_size as int
}

/// The status a route starts with.
pub open spec fn initial_status(failover: Option<RouteFailover>, now: u64) -> RouteStatus {
    match failover {
        None => RouteStatus::Infallible,
        Some(f) => RouteStatus::Healthy { remaining: f.window_size, failures: 0, updated_at: now },
    }
}

/// Whether a route with this status may be used at `now`.
pub open spec fn available(s: RouteStatus, now: u64) -> bool {
    match s {
        RouteStatus::Unhealthy { until } => until < now,
        _ => true,
    }
}

/// The status after one outcome observed at `now`. Counters saturate rather
/// than wrap.
pub open spec fn next_status(
    s: RouteStatus,
    failover: Option<RouteFailover>,
    is_success: bool,
    now: u64,
) -> RouteStatus {
    let fails: u64 = if is_success {
        0
    } else {
        1
    };
    match (s, failover) {
        (RouteStatus::Healthy { remaining, failures, updated_at }, Some(f)) => {
            let (remaining0, failures0) = if now as int - updated_at as int
                > MAX_WINDOW_DURATION as int {
                (f.window_size, 0u64)
            } else {
                (remaining, failures)
            };
            let remaining1 = sat_sub(remaining0, 1);
            let failures1 = sat_add(failures0, fails);
            if ratio_reached(failures1, f) {
                RouteStatus::Unhealthy { until: sat_add(now, f.fail_duration) }
            } else if remaining1 == 0 {
                RouteStatus::Healthy { remaining: f.window_size, failures: 0, updated_at: now }
            } else {
                RouteStatus::Healthy { remaining: remaining1, failures: failures1, updated_at: now }
            }
        },
        (RouteStatus::Unhealthy { until }, Some(f)) => {
            if now < until {
                s
            } else {
                RouteStatus::Healthy {
                    remaining: sat_sub(f.window_size, fails),
                    failures: fails,
                    updated_at: now,
                }
            }
        },
        _ => s,
    }
}

pub fn initial_route_status(failover: Option<RouteFailover>, now: u64) -> (r: RouteStatus)
    ensures
        r == initial_status(failover, now),
{
    match failover {
        None => RouteStatus::Infallible,
        Some(f) => RouteStatus::Healthy { remaining: f.window_size, failures: 0, updated_at: now },
    }
}

impl RouteStatus {
    /// Whether the route may be used at `now`: always unless it is unhealthy
    /// until `now` or later.
    pub fn is_available(&self, now: u64) -> (r: bool)
        ensures
            r == available(*self, now),
    {
        match self {
            RouteStatus::Unhealthy { until } => *until < now,
            _ => true,
        }
    }

    /// Accounts for one outcome observed at `now`.
    pub fn update(&mut self, failover: Option<RouteFailover>, is_success: bool, now: u64)
        ensures
            *final(self) == next_status(*old(self), failover, is_success, now),
    {
        *self = updated_status(*self, failover, is_success, now);
    }
}

fn updated_status(s: RouteStatus, failover: Option<RouteFailover>, is_success: bool, now: u64) -> (r:
    RouteStatus)
    ensures
        r == next_status(s, failover, is_success, now),
{
    let fails: u64 = if is_success {
        0
    } else {
        1
    };
    match (s, failover) {
        (RouteStatus::Healthy { remaining, failures, updated_at }, Some(f)) => {
            let (remaining0, failures0) = if now > updated_at && now - updated_at
                > MAX_WINDOW_DURATION {
                (f.window_size, 0u64)
            } else {
                (remaining, failures)
            };
            let remaining1 = remaining0.saturating_sub(1);
            let failures1 = failures0.saturating_add(fails);
            proof {
                let a = failures1 as int;
                let b = f.fail_ratio as int;
                let c = f.window_size as int;
                assert(a * 1000000 <= u128::MAX as int) by (nonlinear_arith)
                    requires
                        0 <= a <= u64::MAX as int,
                ;
                assert(b * c <= u128::MAX as int) by (nonlinear_arith)
                    requires
                        0 <= b <= u64::MAX as int,
                        0 <= c <= u64::MAX as int,
                ;
            }
            let reached = (failures1 as u128) * (RATIO_SCALE as u128) >= (f.fail_ratio as u128)
                * (f.window_size as u128);
            if reached {
                RouteStatus::Unhealthy { until: now.saturating_add(f.fail_duration) }
            } else if remaining1 == 0 {
                RouteStatus::Healthy { remaining: f.window_size, failures: 0, updated_at: now }
            } else {
                RouteStatus::Healthy { remaining: remaining1, failures: failures1, updated_at: now }
            }
        },
        (RouteStatus::Unhealthy { until }, Some(f)) => {
            if now < until {
                s
            } else {
                RouteStatus::Healthy {
                    remaining: f.window_size.saturating_sub(fails),
                    failures: fails,
                    updated_at: now,
                }
            }
        },
        _ => s,
    }
}

/// The status after a run of failures observed at the instants `times`.
pub open spec fn after_failures(
    s: RouteStatus,
    f: RouteFailover,
    times: Seq<u64>,
) -> RouteStatus
    decreases times.len(),
{
    if times.len() == 0 {
        s
    } else {
        next_status(after_failures(s, f, times.drop_last()), Some(f), false, times.last())
    }
}

/// A success observed on an infallible route changes nothing.
pub proof fn lemma_success_on_infallible(failover: Option<RouteFailover>, now: u64)
    ensures
        next_status(RouteStatus::Infallible, failover, true, now) == RouteStatus::Infallible,
{
}

/// The fewest failures in one window that reach `fail_ratio`.
pub open spec fn failures_to_demote(f: RouteFailover) -> int {
    (f.fail_ratio as int * f.window_size as int + (RATIO_SCALE - 1)) / RATIO_SCALE as int
}

proof fn lemma_failures_to_demote(f: RouteFailover, k: int)
    requires
        failover_wf(f),
        0 <= k <= u64::MAX,
    ensures
        1 <= failures_to_demote(f) <= f.window_size,
        ratio_reached(k as u64, f) <==> k >= failures_to_demote(f),
{
    let x = f.fail_ratio as int * f.window_size as int;
    let w = f.window_size as int;
    assert(1 <= x <= 1000000 * w) by (nonlinear_arith)
        requires
            1 <= f.fail_ratio <= 1000000,
            w >= 1,
            x == f.fail_ratio as int * w,
    ;
    assert((k as u64) as int == k);
}

/// Starting from a fresh window, a run of failures that reaches
/// `fail_ratio` leaves the route unhealthy until `fail_duration` after the
/// failure that reached it, provided the failures come in order, within one
/// window's duration of its start, and before the first of them is
/// `fail_duration` old. Once that `until` has passed, the route is available
/// again.
pub proof fn lemma_failures_make_unhealthy(f: RouteFailover, start: u64, times: Seq<u64>)
    requires
        failover_wf(f),
        1 <= times.len() <= u64::MAX,
        ratio_reached(times.len() as u64, f),
        forall|i: int| 0 <= i < times.len() ==> start <= #[trigger] times[i] <= start
            + MAX_WINDOW_DURATION,
        forall|i: int, j: int| 0 <= i <= j < times.len() ==> times[i] <= times[j],
        times.last() as int + f.fail_duration as int <= u64::MAX as int,
        times.last() < times[0] as int + f.fail_duration as int,
    ensures
        ({
            let k = failures_to_demote(f);
            let until = (times[k - 1] + f.fail_duration) as u64;
            &&& 1 <= k <= times.len()
            &&& after_failures(
                RouteStatus::Healthy { remaining: f.window_size, failures: 0, updated_at: start },
                f,
                times,
            ) == RouteStatus::Unhealthy { until }
            &&& forall|now: u64| until < now ==> #[trigger] available(RouteStatus::Unhealthy { until }, now)
        }),
{
    lemma_failures_to_demote(f, times.len() as int);
    lemma_failures_prefix(f, start, times, times.len() as int);
    assert(times.subrange(0, times.len() as int) =~= times);
}

proof fn lemma_failures_prefix(f: RouteFailover, start: u64, times: Seq<u64>, k: int)
    requires
        failover_wf(f),
        1 <= times.len() <= u64::MAX,
        forall|i: int| 0 <= i < times.len() ==> start <= #[trigger] times[i] <= start
            + MAX_WINDOW_DURATION,
        forall|i: int, j: int| 0 <= i <= j < times.len() ==> times[i] <= times[j],
        times.last() as int + f.fail_duration as int <= u64::MAX as int,
        times.last() < times[0] as int + f.fail_duration as int,
        0 <= k <= times.len(),
    ensures
        ({
            let s = after_failures(
                RouteStatus::Healthy { remaining: f.window_size, failures: 0, updated_at: start },
                f,
                times.subrange(0, k),
            );
            let k0 = failures_to_demote(f);
            if k < k0 {
                s == RouteStatus::Healthy {
                    remaining: (f.window_size - k) as u64,
                    failures: k as u64,
                    updated_at: if k == 0 {
                        start
                    } else {
                        times[k - 1]
                    },
                }
            } else {
                s == RouteStatus::Unhealthy { until: (times[k0 - 1] + f.fail_duration) as u64 }
            }
        }),
    decreases k,
{
    lemma_failures_to_demote(f, k);
    let k0 = failures_to_demote(f);
    if k == 0 {
        assert(times.subrange(0, 0) =~= Seq::<u64>::empty());
    } else {
        lemma_failures_prefix(f, start, times, k - 1);
        lemma_failures_to_demote(f, k - 1);
        let sub = times.subrange(0, k);
        assert(sub.drop_last() =~= times.subrange(0, k - 1));
        assert(sub.last() == times[k - 1]);
        let now = times[k - 1];
        if k - 1 < k0 {
            let prev_at = if k == 1 {
                start
            } else {
                times[k - 2]
            };
            assert(now as int - prev_at as int <= MAX_WINDOW_DURATION as int);
            assert(((k - 1) as u64) as int == k - 1);
            assert((k as u64) as int == k);
            if k == k0 {
                assert(now <= times.last());
            }
        } else {
            assert(times[0] <= times[k0 - 1]);
            assert(now < times[0] as int + f.fail_duration as int);
        }
    }
}

} // verus!
