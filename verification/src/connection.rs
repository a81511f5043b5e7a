//! Connection-pool bookkeeping for a proxy front end: which upstream
//! servers to try, which are currently healthy, and how many requests
//! the per-minute window still allows.
//!
//! The surrounding I/O — timers, TCP probes, request forwarding — is
//! the front end's; every decision over the pool's state is made here.
//! The clock is likewise the front end's: it passes the seconds elapsed
//! since the program started, as an explicit argument rather than any
//! process-wide mutable state.

use rand::Rng;
use rand::SeedableRng;
use vstd::prelude::*;

verus! {

/// The state of the per-minute request window: how many requests it has
/// admitted and at which elapsed-seconds mark it began.
#[derive(Clone, Copy, Debug, PartialEq, Eq, Structural)]
pub struct RequestFrequency {
    pub total: usize,
    pub time_diff: u64,
}

/// The proxy's configuration and mutable pool state.
pub struct ConnectionConfig {
    active_health_check_interval: usize,
    active_health_check_path: String,
    max_requests_per_minute: usize,
    upstream_addresses: Vec<String>,
    success_addresses: Vec<String>,
    request_frequency: RequestFrequency,
}

/// The addresses of `addrs` whose flag in `flags` is set, from
/// position `i` on, keeping their order.
pub open spec fn healthy_subseq(addrs: Seq<String>, flags: Seq<bool>, i: int) -> Seq<String>
    decreases addrs.len() - i,
{
    if i < 0 || i >= addrs.len() {
        Seq::empty()
    } else {
        (if flags[i] {
            seq![addrs[i]]
        } else {
            Seq::empty()
        }) + healthy_subseq(addrs, flags, i + 1)
    }
}

impl ConnectionConfig {
    pub closed spec fn interval(&self) -> usize {
        self.active_health_check_interval
    }

    pub closed spec fn path(&self) -> Seq<char> {
        self.active_health_check_path@
    }

    pub closed spec fn max_rpm(&self) -> usize {
        self.max_requests_per_minute
    }

    pub closed spec fn upstream(&self) -> Seq<String> {
        self.upstream_addresses@
    }

    pub closed spec fn success(&self) -> Seq<String> {
        self.success_addresses@
    }

    pub closed spec fn freq(&self) -> RequestFrequency {
        self.request_frequency
    }

    /// A fresh configuration: every upstream address starts out
    /// healthy, and the request window is empty at mark zero.
    pub fn new(
        active_health_check_interval: usize,
        active_health_check_path: String,
        max_requests_per_minute: usize,
        upstream: Vec<String>,
    ) -> (c: ConnectionConfig)
        ensures
            c.interval() == active_health_check_interval,
            c.path() == active_health_check_path@,
            c.max_rpm() == max_requests_per_minute,
            c.upstream() == upstream@,
            c.success() == upstream@,
            c.freq() == (RequestFrequency { total: 0, time_diff: 0 }),
    {
        let mut success_list: Vec<String> = Vec::new();
        let mut i: usize = 0;
        while i < upstream.len()
            invariant
                i <= upstream@.len(),
                success_list@ =~= upstream@.subrange(0, i as int),
            decreases upstream@.len() - i,
        {
            success_list.push(upstream[i].clone());
            proof {
                assert(success_list@ =~= upstream@.subrange(0, i + 1));
            }
            i += 1;
        }
        proof {
            assert(success_list@ =~= upstream@);
        }
        ConnectionConfig {
            active_health_check_interval,
            active_health_check_path,
            max_requests_per_minute,
            upstream_addresses: upstream,
            success_addresses: success_list,
            request_frequency: RequestFrequency { total: 0, time_diff: 0 },
        }
    }

    pub fn active_health_check_interval(&self) -> (r: usize)
        ensures
            r == self.interval(),
    {
        self.active_health_check_interval
    }

    pub fn active_health_check_path(&self) -> (r: &String)
        ensures
            r@ == self.path(),
    {
        &self.active_health_check_path
    }

    pub fn upstream_addresses(&self) -> (r: &Vec<String>)
        ensures
            r@ == self.upstream(),
    {
        &self.upstream_addresses
    }

    pub fn success_addresses(&self) -> (r: &Vec<String>)
        ensures
            r@ == self.success(),
    {
        &self.success_addresses
    }

    /// The current state of the request window.
    pub fn request_frequency(&self) -> (r: RequestFrequency)
        ensures
            r == self.freq(),
    {
        self.request_frequency
    }

    /// Admits or rejects one request at elapsed-seconds mark `now`.
    /// A zero limit means no limiting.  A window older than a minute is
    /// restarted at `now` with this request as its first; within the
    /// window, the request is admitted exactly while the limit has not
    /// been reached.
    pub fn record_request(&mut self, now: u64) -> (allowed: bool)
        requires
            now >= old(self).freq().time_diff,
        ensures
            final(self).interval() == old(self).interval(),
            final(self).path() == old(self).path(),
            final(self).max_rpm() == old(self).max_rpm(),
            final(self).upstream() == old(self).upstream(),
            final(self).success() == old(self).success(),
            old(self).max_rpm() == 0 ==> allowed && final(self).freq() == old(self).freq(),
            old(self).max_rpm() > 0 && now - old(self).freq().time_diff >= 60 ==> allowed
                && final(self).freq() == (RequestFrequency { total: 1, time_diff: now }),
            old(self).max_rpm() > 0 && now - old(self).freq().time_diff < 60
                && old(self).freq().total >= old(self).max_rpm() ==> !allowed
                && final(self).freq() == old(self).freq(),
            old(self).max_rpm() > 0 && now - old(self).freq().time_diff < 60
                && old(self).freq().total < old(self).max_rpm() ==> allowed
                && final(self).freq() == (RequestFrequency {
                total: (old(self).freq().total + 1) as usize,
                time_diff: old(self).freq().time_diff,
            }),
    {
        if self.max_requests_per_minute == 0 {
            return true;
        }
        let current_diff = now - self.request_frequency.time_diff;
        let need_reset_window = current_diff >= 60;
        let total = self.request_frequency.total;
        if !need_reset_window && total >= self.max_requests_per_minute {
            return false;
        }
        if need_reset_window {
            self.request_frequency = RequestFrequency { total: 1, time_diff: now };
        } else {
            self.request_frequency.total = total + 1;
        }
        true
    }

    /// Picks a healthy upstream to try: `None` exactly when none is
    /// left, otherwise a uniformly drawn position and its address.
    pub fn choose_upstream(&self) -> (r: Option<(usize, String)>)
        ensures
            r is Some <==> self.success().len() > 0,
            r matches Some(p) ==> p.0 < self.success().len() && p.1 == self.success()[p.0 as int],
    {
        let len = self.success_addresses.len();
        if len == 0 {
            return None;
        }
        let idx = random_index(len);
        Some((idx, self.success_addresses[idx].clone()))
    }

    /// Drops the healthy address at `idx` after a failed connection.
    pub fn remove_upstream(&mut self, idx: usize)
        requires
            idx < old(self).success().len(),
        ensures
            final(self).interval() == old(self).interval(),
            final(self).path() == old(self).path(),
            final(self).max_rpm() == old(self).max_rpm(),
            final(self).upstream() == old(self).upstream(),
            final(self).freq() == old(self).freq(),
            final(self).success() == old(self).success().remove(idx as int),
    {
        self.success_addresses.remove(idx);
    }

    /// Applies a health sweep's outcome: an empty result is discarded
    /// (a sweep that found nothing healthy changes nothing), otherwise
    /// it replaces the healthy list.
    pub fn update_success(&mut self, list: Vec<String>)
        ensures
            final(self).interval() == old(self).interval(),
            final(self).path() == old(self).path(),
            final(self).max_rpm() == old(self).max_rpm(),
            final(self).upstream() == old(self).upstream(),
            final(self).freq() == old(self).freq(),
            list@.len() == 0 ==> final(self).success() == old(self).success(),
            list@.len() > 0 ==> final(self).success() == list@,
    {
        if list.len() == 0 {
            return ;
        }
        self.success_addresses = list;
    }
}

/// Keeps the addresses whose probe succeeded, in order.
pub fn select_healthy(addrs: &Vec<String>, healthy: &Vec<bool>) -> (r: Vec<String>)
    requires
        addrs@.len() == healthy@.len(),
    ensures
        r@ == healthy_subseq(addrs@, healthy@, 0),
{
    let mut r: Vec<String> = Vec::new();
    let mut i: usize = 0;
    while i < addrs.len()
        invariant
            addrs@.len() == healthy@.len(),
            i <= addrs@.len(),
            r@ + healthy_subseq(addrs@, healthy@, i as int) =~= healthy_subseq(
                addrs@,
                healthy@,
                0,
            ),
        decreases addrs@.len() - i,
    {
        let ghost prev = r@;
        if healthy[i] {
            r.push(addrs[i].clone());
            proof {
                assert(r@ =~= prev.push(addrs@[i as int]));
                assert(prev.push(addrs@[i as int]) + healthy_subseq(addrs@, healthy@, i + 1)
                    =~= prev + (seq![addrs@[i as int]] + healthy_subseq(addrs@, healthy@, i + 1)));
            }
        } else {
            proof {
                assert(prev + healthy_subseq(addrs@, healthy@, i + 1) =~= prev + (Seq::empty()
                    + healthy_subseq(addrs@, healthy@, i + 1)));
            }
        }
        i += 1;
    }
    proof {
        assert(healthy_subseq(addrs@, healthy@, addrs@.len() as int) =~= Seq::<String>::empty());
        assert(r@ + Seq::<String>::empty() =~= r@);
    }
    r
}

/// Whether a health probe counts as a success: the request went out and
/// the response came back with the OK status code.
pub fn probe_verdict(response_status: Option<u16>) -> (r: bool)
    ensures
        r <==> response_status == Some(200u16),
{
    match response_status {
        Some(code) => code == 200,
        None => false,
    }
}

/// Relies on rand's `StdRng::from_entropy` and `Rng::gen_range`: a
/// freshly seeded generator draws a uniform index below `len`.
#[verifier::external_body]
fn random_index(len: usize) -> (r: usize)
    requires
        len > 0,
    ensures
        r < len,
{
    rand::rngs::StdRng::from_entropy().gen_range(0, len)
}

} // verus!
