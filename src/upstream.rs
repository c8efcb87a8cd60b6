use vstd::prelude::*;
use crate::config::{ConfigError, SelectionType, Timeout, Upstream, UpstreamPassHost};
use crate::probe::{pairs_view, plan_of, ProbePlan};
use crate::select::{nodes_error, opt_int, pool_wf, ring_matches, selected, Pool};
use crate::health::{after_run, selectable, BackendHealth, HealthStatus};
use crate::probe::{failure_threshold, success_threshold};

verus! {

/// One upstream at run time: its configuration, its pool of backends and,
/// when health checking is configured, the plan its prober follows.
pub struct ProxyUpstream {
    pub inner: Upstream,
    pub pool: Pool,
    pub probe: Option<ProbePlan>,
    /// Whether the prober's runtime lets idle threads steal work.
    pub work_stealing: bool,
}

/// A chosen backend with the connection timeouts that apply to it.
#[derive(Clone, Debug)]
pub struct SelectedBackend {
    pub index: usize,
    pub addr: String,
    pub timeout: Option<Timeout>,
}

/// A unit is usable: its pool is well formed and it has a probe plan exactly
/// when health checking is configured, namely the plan of that configuration.
pub open spec fn upstream_wf(u: ProxyUpstream) -> bool {
    &&& pool_wf(u.pool.backends@)
    &&& ring_matches(u.pool)
    &&& match u.inner.checks {
        Some(c) => u.probe matches Some(p) && plan_of(c, p),
        None => u.probe is None,
    }
}

/// Case-insensitive code of an ASCII letter; other characters are kept.
pub open spec fn ascii_fold(c: char) -> u32 {
    if 65 <= c as u32 && c as u32 <= 90 {
        (c as u32 + 32) as u32
    } else {
        c as u32
    }
}

/// Two header names are the same when they match ignoring ASCII case.
pub open spec fn same_name(a: Seq<char>, b: Seq<char>) -> bool {
    &&& a.len() == b.len()
    &&& forall|i: int| 0 <= i < a.len() ==> ascii_fold(#[trigger] a[i]) == ascii_fold(b[i])
}

/// The headers without any named `k`, order kept.
pub open spec fn without_name(hs: Seq<(Seq<char>, Seq<char>)>, k: Seq<char>) -> Seq<(Seq<char>, Seq<char>)>
    decreases hs.len(),
{
    if hs.len() == 0 {
        Seq::empty()
    } else {
        let r = without_name(hs.drop_last(), k);
        if same_name(hs.last().0, k) {
            r
        } else {
            r.push(hs.last())
        }
    }
}

/// Setting a header replaces every header of that name.
pub open spec fn with_header(hs: Seq<(Seq<char>, Seq<char>)>, k: Seq<char>, v: Seq<char>) -> Seq<(Seq<char>, Seq<char>)> {
    without_name(hs, k).push((k, v))
}

/// The headers after setting each configured header in order.
pub open spec fn with_headers(hs: Seq<(Seq<char>, Seq<char>)>, cfg: Seq<(Seq<char>, Seq<char>)>) -> Seq<(Seq<char>, Seq<char>)>
    decreases cfg.len(),
{
    if cfg.len() == 0 {
        hs
    } else {
        with_header(with_headers(hs, cfg.drop_last()), cfg.last().0, cfg.last().1)
    }
}

pub open spec fn configured_headers(u: Upstream) -> Seq<(Seq<char>, Seq<char>)> {
    match u.headers {
        Some(h) => pairs_view(h@),
        None => Seq::empty(),
    }
}

/// The `Host` an upstream rewrites requests to, if it rewrites them.
pub open spec fn host_rewrite_of(u: Upstream) -> Option<Seq<char>> {
    if u.pass_host == UpstreamPassHost::Rewrite {
        match u.upstream_host {
            Some(h) => Some(h@),
            None => None,
        }
    } else {
        None
    }
}

proof fn lemma_without_name_excludes(hs: Seq<(Seq<char>, Seq<char>)>, k: Seq<char>)
    ensures
        forall|i: int| 0 <= i < without_name(hs, k).len() ==> !same_name(#[trigger] without_name(hs, k)[i].0, k),
    decreases hs.len(),
{
    if hs.len() > 0 {
        let r = without_name(hs.drop_last(), k);
        lemma_without_name_excludes(hs.drop_last(), k);
        assert forall|i: int| 0 <= i < without_name(hs, k).len() implies !same_name(
            #[trigger] without_name(hs, k)[i].0,
            k,
        ) by {
            if i < r.len() {
                assert(without_name(hs, k)[i] == r[i]);
            }
        }
    }
}

/// A header set from the configuration overrides the request: afterwards the
/// configured value is the last header and no other header carries that name,
/// whatever the request held before.
pub proof fn lemma_configured_header_wins(hs: Seq<(Seq<char>, Seq<char>)>, k: Seq<char>, v: Seq<char>)
    ensures
        with_header(hs, k, v).last() == (k, v),
        forall|i: int| 0 <= i < with_header(hs, k, v).len() - 1 ==> !same_name(
            #[trigger] with_header(hs, k, v)[i].0,
            k,
        ),
{
    lemma_without_name_excludes(hs, k);
    let w = without_name(hs, k);
    assert forall|i: int| 0 <= i < with_header(hs, k, v).len() - 1 implies !same_name(
        #[trigger] with_header(hs, k, v)[i].0,
        k,
    ) by {
        assert(with_header(hs, k, v)[i] == w[i]);
    }
}

/// The configured failure threshold debounces a health-checked upstream:
/// from a usable backend whose failure run is empty, the probes that
/// `record_probe` applies keep it selectable through fewer than `n`
/// consecutive failures and make it unselectable at the `n`th, where `n` is
/// the TCP or HTTP failure count of the configuration.
pub proof fn lemma_configured_failure_threshold(u: ProxyUpstream, h: BackendHealth, k: nat)
    requires
        upstream_wf(u),
        u.inner.checks is Some,
        1 <= failure_threshold(u.inner.checks.unwrap().active) < u64::MAX,
        k <= failure_threshold(u.inner.checks.unwrap().active),
        selectable(h),
        h.consecutive_failure == 0,
    ensures
        u.probe.unwrap().consecutive_failure == failure_threshold(u.inner.checks.unwrap().active),
        selectable(after_run(h, false, k, u.probe.unwrap().consecutive_success, u.probe.unwrap().consecutive_failure))
            <==> k < failure_threshold(u.inner.checks.unwrap().active),
{
    let p = u.probe.unwrap();
    crate::health::lemma_failure_debounce(h, k, p.consecutive_success, p.consecutive_failure);
}

/// The configured success threshold debounces recovery: an unhealthy backend
/// whose success run is empty stays unselectable through fewer than `n`
/// consecutive successes and becomes selectable at the `n`th, where `n` is the
/// configured success count.
pub proof fn lemma_configured_success_threshold(u: ProxyUpstream, h: BackendHealth, k: nat)
    requires
        upstream_wf(u),
        u.inner.checks is Some,
        1 <= success_threshold(u.inner.checks.unwrap().active) < u64::MAX,
        k <= success_threshold(u.inner.checks.unwrap().active),
        h.status == HealthStatus::Unhealthy,
        h.consecutive_success == 0,
    ensures
        u.probe.unwrap().consecutive_success == success_threshold(u.inner.checks.unwrap().active),
        selectable(after_run(h, true, k, u.probe.unwrap().consecutive_success, u.probe.unwrap().consecutive_failure))
            <==> k >= success_threshold(u.inner.checks.unwrap().active),
{
    let p = u.probe.unwrap();
    crate::health::lemma_success_debounce(h, k, p.consecutive_success, p.consecutive_failure);
}

/// Relies on `str::eq_ignore_ascii_case`: equal length and equal characters
/// once ASCII letters are folded to lower case.
#[verifier::external_body]
fn names_match(a: &str, b: &str) -> (r: bool)
    ensures
        r == same_name(a@, b@),
{
    a.eq_ignore_ascii_case(b)
}

/// Sets header `k` to `v`: removes every header of that name, then appends it.
pub fn set_header(hs: &mut Vec<(String, String)>, k: &String, v: &String)
    ensures
        pairs_view(final(hs)@) == with_header(pairs_view(old(hs)@), k@, v@),
{
    let ghost old_view = pairs_view(hs@);
    let mut out: Vec<(String, String)> = Vec::new();
    let mut i: usize = 0;
    while i < hs.len()
        invariant
            i <= hs@.len(),
            old_view == pairs_view(hs@),
            pairs_view(out@) == without_name(pairs_view(hs@.subrange(0, i as int)), k@),
        decreases hs@.len() - i,
    {
        let ghost sub = pairs_view(hs@.subrange(0, i as int + 1));
        assert(sub.drop_last() =~= pairs_view(hs@.subrange(0, i as int)));
        let name = &hs[i].0;
        let value = &hs[i].1;
        assert(sub.last() == (name@, value@));
        if !names_match(name.as_str(), k.as_str()) {
            out.push((name.clone(), value.clone()));
        }
        assert(pairs_view(out@) =~= without_name(sub, k@));
        i = i + 1;
    }
    assert(hs@.subrange(0, hs@.len() as int) =~= hs@);
    out.push((k.clone(), v.clone()));
    assert(pairs_view(out@) =~= with_header(old_view, k@, v@));
    *hs = out;
}

impl ProxyUpstream {
    /// Builds the run-time unit of an upstream; fails when its node list
    /// cannot form a pool.
    pub fn new_with_health_check(upstream: Upstream, work_stealing: bool) -> (r: Result<ProxyUpstream, ConfigError>)
        ensures
            r is Ok <==> nodes_error(upstream.nodes@) is None,
            r matches Err(e) ==> nodes_error(upstream.nodes@) == Some(e),
            r matches Ok(p) ==> {
                &&& upstream_wf(p)
                &&& p.inner == upstream
                &&& p.work_stealing == work_stealing
                &&& p.pool.backends@.len() == upstream.nodes@.len()
                &&& forall|i: int| #![trigger p.pool.backends@[i]] 0 <= i < upstream.nodes@.len() ==> {
                    &&& p.pool.backends@[i].addr@ == upstream.nodes@[i].addr@
                    &&& p.pool.backends@[i].weight == upstream.nodes@[i].weight
                    &&& p.pool.backends@[i].health == crate::health::fresh_health()
                }
            },
    {
        let pool = match Pool::from_nodes(&upstream.nodes) {
            Ok(p) => p,
            Err(e) => {
                return Err(e);
            },
        };
        let probe = match &upstream.checks {
            Some(c) => Some(ProbePlan::from_config(c)),
            None => None,
        };
        Ok(ProxyUpstream { inner: upstream, pool, probe, work_stealing })
    }

    /// The upstream's identifier.
    pub fn id(&self) -> (r: &String)
        ensures
            r@ == self.inner.id@,
    {
        &self.inner.id
    }

    /// Renames the upstream; nothing else changes.
    pub fn set_id(&mut self, id: String)
        ensures
            final(self).inner == (Upstream { id: id, ..old(self).inner }),
            final(self).pool == old(self).pool,
            final(self).probe == old(self).probe,
            final(self).work_stealing == old(self).work_stealing,
            upstream_wf(*old(self)) ==> upstream_wf(*final(self)),
    {
        self.inner.id = id;
    }

    /// Picks a backend for a request with selection key `key`. `ticket` is the
    /// caller's round-robin counter value and `random` a random number; each is
    /// read only by its own strategy.
    pub fn select_backend(&self, key: &[u8], ticket: u64, random: u64) -> (r: Option<SelectedBackend>)
        requires
            upstream_wf(*self),
        ensures
            selected(self.pool.backends@, self.inner.selection, key@, ticket, random) is None ==> r is None,
            selected(self.pool.backends@, self.inner.selection, key@, ticket, random) matches Some(i) ==> {
                &&& r matches Some(b)
                &&& b.index == i
                &&& b.addr@ == self.pool.backends@[i].addr@
                &&& b.timeout == self.inner.timeout
            },
            (forall|i: int| 0 <= i < self.pool.backends@.len() ==> selectable(#[trigger] self.pool.backends@[i].health))
                ==> r is Some,
            self.pool.backends@.len() == 1 ==> (r is Some <==> selectable(self.pool.backends@[0].health)),
    {
        match self.pool.select(self.inner.selection, key, ticket, random) {
            Some(i) => Some(SelectedBackend {
                index: i,
                addr: self.pool.backends[i].addr.clone(),
                timeout: self.inner.timeout,
            }),
            None => None,
        }
    }

    /// The `Host` header value to send upstream, when the upstream rewrites it.
    pub fn upstream_host_rewrite(&self) -> (r: Option<String>)
        ensures
            match r {
                Some(h) => host_rewrite_of(self.inner) == Some(h@),
                None => host_rewrite_of(self.inner) is None,
            },
    {
        match self.inner.pass_host {
            UpstreamPassHost::Rewrite => match &self.inner.upstream_host {
                Some(h) => Some(h.clone()),
                None => None,
            },
            UpstreamPassHost::Pass => None,
        }
    }

    /// Sets the configured headers on a request's headers, in order; a
    /// configured header replaces any the request already carries.
    pub fn upstream_header_rewrite(&self, upstream_request: &mut Vec<(String, String)>)
        ensures
            pairs_view(final(upstream_request)@) == with_headers(
                pairs_view(old(upstream_request)@),
                configured_headers(self.inner),
            ),
    {
        match &self.inner.headers {
            Some(cfg) => {
                let mut i: usize = 0;
                while i < cfg.len()
                    invariant
                        i <= cfg@.len(),
                        configured_headers(self.inner) == pairs_view(cfg@),
                        pairs_view(upstream_request@) == with_headers(
                            pairs_view(old(upstream_request)@),
                            pairs_view(cfg@.subrange(0, i as int)),
                        ),
                    decreases cfg@.len() - i,
                {
                    let ghost sub = pairs_view(cfg@.subrange(0, i as int + 1));
                    assert(sub.drop_last() =~= pairs_view(cfg@.subrange(0, i as int)));
                    set_header(upstream_request, &cfg[i].0, &cfg[i].1);
                    i = i + 1;
                }
                assert(cfg@.subrange(0, cfg@.len() as int) =~= cfg@);
            },
            None => {},
        }
    }

    /// The number of retries configured for the upstream.
    pub fn get_retries(&self) -> (r: Option<usize>)
        ensures
            match self.inner.retries {
                Some(n) => r == Some(n as usize),
                None => r is None,
            },
    {
        match self.inner.retries {
            Some(n) => Some(n as usize),
            None => None,
        }
    }

    /// The retry timeout configured for the upstream.
    pub fn get_retry_timeout(&self) -> (r: Option<u64>)
        ensures
            r == self.inner.retry_timeout,
    {
        self.inner.retry_timeout
    }

    /// Records one probe outcome for backend `i` with the thresholds of the
    /// upstream's probe plan; an upstream without health checking ignores it.
    pub fn record_probe(&mut self, i: usize, success: bool)
        requires
            upstream_wf(*old(self)),
            i < old(self).pool.backends@.len(),
        ensures
            upstream_wf(*final(self)),
            final(self).inner == old(self).inner,
            final(self).probe == old(self).probe,
            final(self).work_stealing == old(self).work_stealing,
            old(self).probe is None ==> final(self).pool.backends@ == old(self).pool.backends@,
            old(self).probe matches Some(p) ==> {
                &&& final(self).pool.backends@.len() == old(self).pool.backends@.len()
                &&& final(self).pool.backends@[i as int].health == crate::health::next_health(
                    old(self).pool.backends@[i as int].health,
                    success,
                    p.consecutive_success,
                    p.consecutive_failure,
                )
                &&& forall|j: int| 0 <= j < old(self).pool.backends@.len() && j != i ==>
                    final(self).pool.backends@[j] == old(self).pool.backends@[j]
            },
    {
        match &self.probe {
            Some(p) => {
                let ht = p.consecutive_success;
                let ut = p.consecutive_failure;
                let ghost before = self.pool.backends@;
                self.pool.observe(i, success, ht, ut);
                proof {
                    assert forall|j: int| 0 <= j < before.len() implies self.pool.backends@[j].weight
                        == before[j].weight && self.pool.backends@[j].addr == before[j].addr by {
                        if j != i {
                            assert(self.pool.backends@[j] == before[j]);
                        }
                    }
                    crate::select::lemma_same_weights_wf(before, self.pool.backends@);
                }
            },
            None => {},
        }
    }
}

} // verus!
