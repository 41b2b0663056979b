//! Process configuration, the dependency container, error labels, and
//! the small text utilities.

use external_config::claim::{ClaimRef, ConfigInjectionStrategy, RefreshInterval};
use external_config::config::{ascii_lower, Config, ConfigurationManager, DependencyContainer};
use external_config::error::Error;
use external_config::unflatten::{parse_index, split_with_escape};

fn cfg(flag: Option<&str>) -> Config {
    Config::new(
        Some(String::from("default")),
        Some(String::from("pod-0")),
        flag.map(|f| f.as_bytes().to_vec()),
        None,
    )
}

#[test]
fn leader_election_flag_reads_one_and_true() {
    assert!(cfg(Some("1")).enable_leader_election());
    assert!(cfg(Some("true")).enable_leader_election());
    assert!(cfg(Some("TRUE")).enable_leader_election());
    assert!(cfg(Some("True")).enable_leader_election());
    assert!(!cfg(Some("0")).enable_leader_election());
    assert!(!cfg(Some("yes")).enable_leader_election());
    assert!(!cfg(None).enable_leader_election());
}

#[test]
fn config_reports_its_environment() {
    let c = cfg(None);
    assert_eq!(c.kubernetes_namespace().as_deref(), Some("default"));
    assert_eq!(c.kubernetes_pod_name().as_deref(), Some("pod-0"));
    assert!(c.is_in_pod());
    assert!(c.opentelemetry_endpoint_url().is_none());
    let outside = Config::new(None, None, None, None);
    assert!(!outside.is_in_pod());
}

#[test]
fn container_hands_out_its_configuration_manager() {
    let container = DependencyContainer::new(cfg(None));
    let manager: &ConfigurationManager = container.config_manager();
    assert!(manager.config.is_in_pod());
    let direct = DependencyContainer::create_configuration_manager(cfg(None));
    assert!(direct.config.is_in_pod());
}

#[test]
fn ascii_lowercasing_touches_only_letters() {
    assert_eq!(ascii_lower(b"TrUe-42_X"), b"true-42_x".to_vec());
}

#[test]
fn metric_labels_are_the_lowercased_taxonomy_tags() {
    assert_eq!(Error::ParseError.metric_label(), "parseerror");
    assert_eq!(Error::ConfigStoreError.metric_label(), "configstoreerror");
    assert_eq!(Error::LeaseHeldByAnotherPod.metric_label(), "leaseheldbyanotherpod");
    assert_eq!(Error::Cancelled.metric_label(), "cancelled");
    assert_eq!(
        Error::HttpConfigStoreServerError(Vec::new()).metric_label(),
        "httpconfigstoreservererror"
    );
    assert_eq!(Error::IncompatibleFileTypes.metric_label(), "incompatiblefiletypes");
}

#[test]
fn refresh_interval_parses_human_durations() {
    let five = RefreshInterval::from_str("5m").unwrap();
    assert_eq!(five.as_seconds(), 300);
    assert_eq!(five.as_millis(), 300000);
    let mixed = RefreshInterval::from_str("1h 30m").unwrap();
    assert_eq!(mixed.as_seconds(), 5400);
    assert!(RefreshInterval::from_str("soon").is_none());
}

#[test]
fn claims_default_to_the_fallback_strategy() {
    let no_strategy = ClaimRef { from: Vec::new(), strategy: None };
    assert_eq!(no_strategy.effective_strategy(), ConfigInjectionStrategy::Fallback);
    let merge = ClaimRef { from: Vec::new(), strategy: Some(ConfigInjectionStrategy::Merge) };
    assert_eq!(merge.effective_strategy(), ConfigInjectionStrategy::Merge);
}

#[test]
fn split_honors_the_escape_character() {
    let parts = split_with_escape(&b"DB__CONFIG_HOST".to_vec(), b'_', b'_');
    assert_eq!(parts, vec![b"DB_CONFIG".to_vec(), b"HOST".to_vec()]);
    let no_escape = split_with_escape(&b"a.b.c".to_vec(), b'.', b'\\');
    assert_eq!(no_escape, vec![b"a".to_vec(), b"b".to_vec(), b"c".to_vec()]);
    let trailing = split_with_escape(&b"a.".to_vec(), b'.', b'\\');
    assert_eq!(trailing, vec![b"a".to_vec(), b"".to_vec()]);
}

#[test]
fn array_indices_parse_within_the_bound() {
    assert_eq!(parse_index(&b"0".to_vec()), Some(0));
    assert_eq!(parse_index(&b"42".to_vec()), Some(42));
    assert_eq!(parse_index(&b"007".to_vec()), Some(7));
    assert_eq!(parse_index(&b"".to_vec()), None);
    assert_eq!(parse_index(&b"4x".to_vec()), None);
    assert_eq!(parse_index(&b"999999999999".to_vec()), None);
}
