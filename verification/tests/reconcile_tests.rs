//! Reconcile decisions, the error policy, finalizer cleanup, and kind
//! scoping.

use external_config::reconcile::{
    cleanup_action, data_map_eq, error_policy, is_namespaced, reconcile_step, requeue_after,
    strip_finalizer, Action, ReconcileOp, DOCUMENT_FINALIZER, ERROR_REQUEUE_SECONDS,
};

fn data(entries: &[(&str, &str)]) -> Vec<(Vec<u8>, Vec<u8>)> {
    entries.iter().map(|(k, v)| (k.as_bytes().to_vec(), v.as_bytes().to_vec())).collect()
}

#[test]
fn missing_target_is_created() {
    let desired = data(&[("config.yaml", "a: 1\n")]);
    assert!(matches!(reconcile_step(None, &desired), ReconcileOp::CreateTarget));
}

#[test]
fn changed_target_is_patched() {
    let live = data(&[("config.yaml", "a: 1\n")]);
    let desired = data(&[("config.yaml", "a: 2\n")]);
    assert!(matches!(reconcile_step(Some(&live), &desired), ReconcileOp::PatchTarget));
}

#[test]
fn unchanged_target_is_left_alone() {
    let live = data(&[("config.yaml", "a: 1\n")]);
    let desired = data(&[("config.yaml", "a: 1\n")]);
    assert!(matches!(reconcile_step(Some(&live), &desired), ReconcileOp::Noop));
}

#[test]
fn second_reconcile_without_upstream_change_is_a_noop() {
    // First pass: the target is missing and gets created with the desired
    // data. Second pass: the live target equals what was just written, so
    // zero patch calls happen.
    let desired = data(&[("config.yaml", "a: 1\n"), ("config.env", "A=1")]);
    assert!(matches!(reconcile_step(None, &desired), ReconcileOp::CreateTarget));
    let written = desired.clone();
    assert!(matches!(reconcile_step(Some(&written), &desired), ReconcileOp::Noop));
}

#[test]
fn data_map_equality_is_order_sensitive() {
    let a = data(&[("a", "1"), ("b", "2")]);
    let b = data(&[("b", "2"), ("a", "1")]);
    assert!(data_map_eq(&a, &a));
    assert!(!data_map_eq(&a, &b));
}

#[test]
fn errors_requeue_after_a_fixed_minute() {
    assert_eq!(ERROR_REQUEUE_SECONDS, 60);
    assert_eq!(error_policy(), Action::Requeue(60));
}

#[test]
fn success_requeues_after_the_refresh_interval() {
    assert_eq!(requeue_after(300), Action::Requeue(300));
    assert_eq!(cleanup_action(), Action::AwaitChange);
}

#[test]
fn cleanup_strips_only_this_operators_finalizer() {
    let finalizers = vec![
        String::from("other.io/keep"),
        String::from(DOCUMENT_FINALIZER),
        String::from("another.io/keep"),
    ];
    let stripped = strip_finalizer(finalizers);
    assert_eq!(
        stripped,
        vec![String::from("other.io/keep"), String::from("another.io/keep")]
    );
}

#[test]
fn cluster_scoped_kinds_are_not_namespaced() {
    assert!(!is_namespaced("Node"));
    assert!(!is_namespaced("Namespace"));
    assert!(!is_namespaced("ClusterRole"));
    assert!(!is_namespaced("ClusterRoleBinding"));
    assert!(!is_namespaced("PersistentVolume"));
    assert!(!is_namespaced("ClusterConfigurationStore"));
    assert!(is_namespaced("ConfigMap"));
    assert!(is_namespaced("ConfigurationStore"));
}
