//! Leader election protocol decisions: exclusivity, staleness, renewal.

use external_config::config::Config;
use external_config::lease::{
    evaluate_claim, ClaimOutcome, LeaderElection, LeaseState, CLAIM_RETRY_SECONDS,
    LEASE_DURATION_SECONDS, LEASE_STALE_SECONDS, RENEW_PERIOD_SECONDS,
};

#[test]
fn fresh_lease_names_its_pod_as_holder() {
    let lease = LeaseState::build(&String::from("pod-a"), 1000);
    assert_eq!(lease.holder_identity.as_deref(), Some("pod-a"));
    assert_eq!(lease.acquire_time, Some(1000));
    assert!(lease.renew_time.is_none());
    assert_eq!(lease.lease_duration_seconds, LEASE_DURATION_SECONDS);
}

#[test]
fn at_most_one_claimant_acquires() {
    let lease = LeaseState::build(&String::from("pod-a"), 1000);
    let a = evaluate_claim(&lease, &String::from("pod-a"), 1000);
    let b = evaluate_claim(&lease, &String::from("pod-b"), 1000);
    assert!(matches!(a.outcome, ClaimOutcome::Acquired));
    assert!(matches!(b.outcome, ClaimOutcome::HeldByAnotherPod));
}

#[test]
fn stale_lease_is_ordered_deleted_then_reclaimed() {
    // A lease renewed more than two minutes ago is deleted by the next
    // claim attempt.
    let held = LeaseState::build(&String::from("pod-a"), 1000).renewed(1000);
    let late = 1000 + LEASE_STALE_SECONDS + 1;
    assert!(held.is_stale(late));
    let decision = evaluate_claim(&held, &String::from("pod-b"), late);
    assert!(decision.delete_stale);
    assert!(matches!(decision.outcome, ClaimOutcome::HeldByAnotherPod));
    // After the deletion, the next attempt recreates the lease and
    // acquires leadership.
    let recreated = LeaseState::build(&String::from("pod-b"), late + 10);
    let second = evaluate_claim(&recreated, &String::from("pod-b"), late + 10);
    assert!(!second.delete_stale);
    assert!(matches!(second.outcome, ClaimOutcome::Acquired));
}

#[test]
fn recently_renewed_lease_is_not_stale() {
    let held = LeaseState::build(&String::from("pod-a"), 1000).renewed(1000);
    assert!(!held.is_stale(1000 + LEASE_STALE_SECONDS));
    let renewed = held.renewed(5000);
    assert_eq!(renewed.renew_time, Some(5000));
    assert!(!renewed.is_stale(5000));
}

#[test]
fn never_renewed_lease_is_never_stale() {
    let lease = LeaseState::build(&String::from("pod-a"), 0);
    assert!(!lease.is_stale(i64::MAX));
}

#[test]
fn election_enabled_needs_pod_and_namespace() {
    let both = LeaderElection::new(Config::new(
        Some(String::from("ns")),
        Some(String::from("pod")),
        None,
        None,
    ));
    assert!(both.enabled());
    let no_pod = LeaderElection::new(Config::new(Some(String::from("ns")), None, None, None));
    assert!(!no_pod.enabled());
    let no_ns = LeaderElection::new(Config::new(None, Some(String::from("pod")), None, None));
    assert!(!no_ns.enabled());
}

#[test]
fn protocol_constants() {
    assert_eq!(LEASE_DURATION_SECONDS, 20);
    assert_eq!(LEASE_STALE_SECONDS, 120);
    assert_eq!(RENEW_PERIOD_SECONDS, 10);
    assert_eq!(CLAIM_RETRY_SECONDS, 10);
}
