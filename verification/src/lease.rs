//! Lease-based leader election: the decision core of the protocol that
//! elects a single active operator replica.
//!
//! The Kubernetes API calls (create, read, replace, delete of the lease
//! object) are performed by the surrounding program; this module decides,
//! from the lease state that came back, whether the lease is stale, who
//! acquired leadership, and what a fresh or renewed lease must hold.

use vstd::prelude::*;

use crate::config::Config;

verus! {

/// Name of the single lease object an operator deployment coordinates on.
pub const CONTROLLER_LEASE_NAME: &'static str = "external-config-operator-leader-election";

/// Seconds a lease is requested for at creation.
pub const LEASE_DURATION_SECONDS: u64 = 20;

/// Seconds after the last renewal before a lease counts as stale.
pub const LEASE_STALE_SECONDS: i64 = 120;

/// Seconds between two renewals of a held lease.
pub const RENEW_PERIOD_SECONDS: u64 = 10;

/// Seconds a replica backs off before retrying a failed claim.
pub const CLAIM_RETRY_SECONDS: u64 = 10;

/// The fields of the coordination lease that the protocol reads and
/// writes. Times are seconds since the Unix epoch.
pub struct LeaseState {
    pub holder_identity: Option<String>,
    pub acquire_time: Option<i64>,
    pub renew_time: Option<i64>,
    pub lease_duration_seconds: u64,
}

/// What a claim attempt decides after re-reading the lease.
pub enum ClaimOutcome {
    Acquired,
    HeldByAnotherPod,
}

/// The full decision of one claim attempt: whether the observed lease must
/// be force-deleted as abandoned, and who holds leadership.
pub struct ClaimDecision {
    pub delete_stale: bool,
    pub outcome: ClaimOutcome,
}

/// A lease is stale when it has been renewed at least once and that
/// renewal lies more than two minutes in the past.
pub open spec fn spec_is_stale(lease: LeaseState, now: i64) -> bool {
    match lease.renew_time {
        Some(t) => now - t > LEASE_STALE_SECONDS,
        None => false,
    }
}

/// A pod has acquired leadership exactly when the lease names it as holder.
pub open spec fn spec_acquired(lease: LeaseState, pod: Seq<char>) -> bool {
    match lease.holder_identity {
        Some(h) => h@ == pod,
        None => false,
    }
}

/// The shape of the lease a pod asks the platform to create for itself:
/// the pod is the holder, acquisition is now, and it was never renewed.
pub open spec fn spec_fresh_lease(l: LeaseState, pod: Seq<char>, now: i64) -> bool {
    &&& l.holder_identity matches Some(h) && h@ == pod
    &&& l.acquire_time == Some(now)
    &&& l.renew_time is None
    &&& l.lease_duration_seconds == LEASE_DURATION_SECONDS
}

/// The decision one claim attempt takes on an observed lease.
pub open spec fn spec_evaluate(lease: LeaseState, pod: Seq<char>, now: i64) -> ClaimDecision {
    ClaimDecision {
        delete_stale: spec_is_stale(lease, now),
        outcome: if spec_acquired(lease, pod) {
            ClaimOutcome::Acquired
        } else {
            ClaimOutcome::HeldByAnotherPod
        },
    }
}

impl LeaseState {
    /// The lease a pod creates when claiming leadership: it names the pod
    /// as holder, records the acquisition time, and has never been renewed.
    pub fn build(pod_name: &String, now: i64) -> (r: LeaseState)
        ensures
            r.holder_identity matches Some(h) && h@ == pod_name@,
            r.acquire_time == Some(now),
            r.renew_time is None,
            r.lease_duration_seconds == LEASE_DURATION_SECONDS,
            spec_fresh_lease(r, pod_name@, now),
            spec_acquired(r, pod_name@),
    {
        LeaseState {
            holder_identity: Some(clone_string(pod_name)),
            acquire_time: Some(now),
            renew_time: None,
            lease_duration_seconds: LEASE_DURATION_SECONDS,
        }
    }

    /// Whether this lease is abandoned: renewed once, but more than two
    /// minutes ago.
    pub fn is_stale(&self, now: i64) -> (r: bool)
        ensures
            r == spec_is_stale(*self, now),
    {
        match &self.renew_time {
            Some(t) => {
                let diff: i128 = (now as i128) - (*t as i128);
                diff > LEASE_STALE_SECONDS as i128
            },
            None => false,
        }
    }

    /// The same lease, renewed now. Only the renewal time changes.
    pub fn renewed(&self, now: i64) -> (r: LeaseState)
        ensures
            r.renew_time == Some(now),
            forall|p: Seq<char>| spec_acquired(r, p) == spec_acquired(*self, p),
            r.acquire_time == self.acquire_time,
            r.lease_duration_seconds == self.lease_duration_seconds,
            !spec_is_stale(r, now),
    {
        LeaseState {
            holder_identity: clone_opt_string(&self.holder_identity),
            acquire_time: self.acquire_time,
            renew_time: Some(now),
            lease_duration_seconds: self.lease_duration_seconds,
        }
    }
}

/// The decision a claim attempt takes on the lease it read back after the
/// unconditional create: a stale lease is ordered deleted (the next
/// attempt will recreate it); leadership belongs to the pod the lease
/// names, and any other holder means the claim failed.
pub fn evaluate_claim(lease: &LeaseState, pod_name: &String, now: i64) -> (r: ClaimDecision)
    ensures
        r == spec_evaluate(*lease, pod_name@, now),
        r.delete_stale == spec_is_stale(*lease, now),
        r.outcome is Acquired <==> spec_acquired(*lease, pod_name@),
{
    let delete_stale = lease.is_stale(now);
    let outcome = match &lease.holder_identity {
        Some(h) => {
            if string_eq(h, pod_name) {
                ClaimOutcome::Acquired
            } else {
                ClaimOutcome::HeldByAnotherPod
            }
        },
        None => ClaimOutcome::HeldByAnotherPod,
    };
    ClaimDecision { delete_stale, outcome }
}

/// Leadership exclusivity: however many replicas race to claim the same
/// lease, the lease object they all read back names one holder, so of all
/// concurrent claim attempts at most one observes itself as holder — two
/// that both decide `Acquired` must be the same pod.
pub proof fn lemma_leadership_exclusive(
    lease: LeaseState,
    pod_a: Seq<char>,
    pod_b: Seq<char>,
    now: i64,
)
    requires
        spec_evaluate(lease, pod_a, now).outcome is Acquired,
        spec_evaluate(lease, pod_b, now).outcome is Acquired,
    ensures
        pod_a == pod_b,
{
}

/// Stale lease reclaim: a claim attempt that observes a lease renewed more
/// than two minutes ago orders its deletion, and a later attempt that
/// recreates the lease for itself observes itself as holder.
pub proof fn lemma_stale_lease_reclaimed(
    lease: LeaseState,
    pod: Seq<char>,
    now: i64,
    later: i64,
    recreated: LeaseState,
)
    requires
        spec_is_stale(lease, now),
        spec_fresh_lease(recreated, pod, later),
    ensures
        spec_evaluate(lease, pod, now).delete_stale,
        spec_evaluate(recreated, pod, later).outcome is Acquired,
{
}

/// The leader elector: holds the process configuration and decides whether
/// leader election runs at all.
pub struct LeaderElection {
    pub config: Config,
}

impl LeaderElection {
    /// Wraps the process configuration.
    pub fn new(config: Config) -> (r: LeaderElection)
        ensures
            r.config == config,
    {
        LeaderElection { config }
    }

    /// Leader election is exercised only when both the pod identity and
    /// the namespace are resolvable from the environment; otherwise the
    /// operator runs unconditionally, as if it always held leadership.
    pub fn enabled(&self) -> (r: bool)
        ensures
            r == (self.config.kubernetes_pod_name is Some
                && self.config.kubernetes_namespace is Some),
    {
        self.config.kubernetes_pod_name.is_some() && self.config.kubernetes_namespace.is_some()
    }
}

/// String equality with the views' equality as its meaning.
pub fn string_eq(a: &String, b: &String) -> (r: bool)
    ensures
        r <==> a@ == b@,
{
    a.eq(b)
}

/// A copy of a string with the same view.
pub fn clone_string(s: &String) -> (r: String)
    ensures
        r@ == s@,
{
    s.clone()
}

/// A copy of an optional string with the same views.
pub fn clone_opt_string(s: &Option<String>) -> (r: Option<String>)
    ensures
        r is Some <==> s is Some,
        r matches Some(x) ==> s matches Some(y) && x@ == y@,
        s matches Some(y) ==> r matches Some(x) && x@ == y@,
{
    match s {
        Some(x) => Some(clone_string(x)),
        None => None,
    }
}

} // verus!
