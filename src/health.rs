use vstd::prelude::*;

verus! {

/// Health status of one backend as seen by the prober.
#[derive(Clone, Copy, Debug, PartialEq, Eq, Structural)]
pub enum HealthStatus {
    /// No probe has completed yet; the backend is usable.
    Unknown,
    Healthy,
    Unhealthy,
}

/// Health of one backend with its runs of consecutive probe outcomes.
#[derive(Clone, Copy, Debug, PartialEq, Eq, Structural)]
pub struct BackendHealth {
    pub status: HealthStatus,
    pub consecutive_success: u64,
    pub consecutive_failure: u64,
}

/// A counter that stops at the largest `u64`.
pub open spec fn bump(c: u64) -> u64 {
    if c < u64::MAX {
        (c + 1) as u64
    } else {
        c
    }
}

/// Whether a backend in this state may be chosen for a request.
pub open spec fn selectable(h: BackendHealth) -> bool {
    h.status != HealthStatus::Unhealthy
}

/// The state of a backend before any probe.
pub open spec fn fresh_health() -> BackendHealth {
    BackendHealth { status: HealthStatus::Unknown, consecutive_success: 0, consecutive_failure: 0 }
}

/// The state after one probe outcome. An unhealthy backend turns healthy once
/// its run of successes reaches `healthy_threshold`; any other backend turns
/// unhealthy once its run of failures reaches `unhealthy_threshold`.
pub open spec fn next_health(
    h: BackendHealth,
    success: bool,
    healthy_threshold: u64,
    unhealthy_threshold: u64,
) -> BackendHealth {
    if success {
        let s = bump(h.consecutive_success);
        let status = if h.status == HealthStatus::Unhealthy && s < healthy_threshold {
            HealthStatus::Unhealthy
        } else {
            HealthStatus::Healthy
        };
        BackendHealth { status, consecutive_success: s, consecutive_failure: 0 }
    } else {
        let f = bump(h.consecutive_failure);
        let status = if h.status != HealthStatus::Unhealthy && f < unhealthy_threshold {
            HealthStatus::Healthy
        } else {
            HealthStatus::Unhealthy
        };
        BackendHealth { status, consecutive_success: 0, consecutive_failure: f }
    }
}

/// The state after `k` probe outcomes that are all `success`.
pub open spec fn after_run(
    h: BackendHealth,
    success: bool,
    k: nat,
    healthy_threshold: u64,
    unhealthy_threshold: u64,
) -> BackendHealth
    decreases k,
{
    if k == 0 {
        h
    } else {
        next_health(
            after_run(h, success, (k - 1) as nat, healthy_threshold, unhealthy_threshold),
            success,
            healthy_threshold,
            unhealthy_threshold,
        )
    }
}

impl BackendHealth {
    /// A backend that no probe has reached yet.
    pub fn new() -> (r: BackendHealth)
        ensures
            r == fresh_health(),
            selectable(r),
    {
        BackendHealth { status: HealthStatus::Unknown, consecutive_success: 0, consecutive_failure: 0 }
    }

    /// Whether the backend may be chosen; only an unhealthy one may not.
    pub fn is_selectable(&self) -> (r: bool)
        ensures
            r == selectable(*self),
    {
        match self.status {
            HealthStatus::Unhealthy => false,
            _ => true,
        }
    }

    /// Records one probe outcome.
    pub fn observe(&mut self, success: bool, healthy_threshold: u64, unhealthy_threshold: u64)
        ensures
            *final(self) == next_health(*old(self), success, healthy_threshold, unhealthy_threshold),
    {
        if success {
            let s: u64 = if self.consecutive_success < u64::MAX {
                self.consecutive_success + 1
            } else {
                self.consecutive_success
            };
            let was_unhealthy = match self.status {
                HealthStatus::Unhealthy => true,
                _ => false,
            };
            self.status = if was_unhealthy && s < healthy_threshold {
                HealthStatus::Unhealthy
            } else {
                HealthStatus::Healthy
            };
            self.consecutive_success = s;
            self.consecutive_failure = 0;
        } else {
            let f: u64 = if self.consecutive_failure < u64::MAX {
                self.consecutive_failure + 1
            } else {
                self.consecutive_failure
            };
            let was_unhealthy = match self.status {
                HealthStatus::Unhealthy => true,
                _ => false,
            };
            self.status = if !was_unhealthy && f < unhealthy_threshold {
                HealthStatus::Healthy
            } else {
                HealthStatus::Unhealthy
            };
            self.consecutive_success = 0;
            self.consecutive_failure = f;
        }
    }
}

/// Debounce of failures: starting from a usable backend whose failure run is
/// empty, fewer than `n` consecutive failures leave it healthy, and the `n`th
/// failure marks it unhealthy.
pub proof fn lemma_failure_debounce(h: BackendHealth, k: nat, healthy_threshold: u64, n: u64)
    requires
        selectable(h),
        h.consecutive_failure == 0,
        1 <= n < u64::MAX,
        k <= n,
    ensures
        k > 0 ==> after_run(h, false, k, healthy_threshold, n).consecutive_failure == k,
        0 < k < n ==> after_run(h, false, k, healthy_threshold, n).status == HealthStatus::Healthy,
        k < n ==> selectable(after_run(h, false, k, healthy_threshold, n)),
        k == n ==> after_run(h, false, k, healthy_threshold, n).status == HealthStatus::Unhealthy,
    decreases k,
{
    if k > 0 {
        lemma_failure_debounce(h, (k - 1) as nat, healthy_threshold, n);
    }
}

/// Debounce of recovery: starting from an unhealthy backend whose success run
/// is empty, fewer than `n` consecutive successes leave it unhealthy, and the
/// `n`th success marks it healthy.
pub proof fn lemma_success_debounce(h: BackendHealth, k: nat, n: u64, unhealthy_threshold: u64)
    requires
        h.status == HealthStatus::Unhealthy,
        h.consecutive_success == 0,
        1 <= n < u64::MAX,
        k <= n,
    ensures
        k > 0 ==> after_run(h, true, k, n, unhealthy_threshold).consecutive_success == k,
        k < n ==> after_run(h, true, k, n, unhealthy_threshold).status == HealthStatus::Unhealthy,
        k == n ==> after_run(h, true, k, n, unhealthy_threshold).status == HealthStatus::Healthy,
    decreases k,
{
    if k > 0 {
        lemma_success_debounce(h, (k - 1) as nat, n, unhealthy_threshold);
    }
}

/// A backend that has not been probed yet is usable.
pub proof fn lemma_fresh_is_selectable()
    ensures
        selectable(fresh_health()),
        fresh_health().status == HealthStatus::Unknown,
{
}

} // verus!
