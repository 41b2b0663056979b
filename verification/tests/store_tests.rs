//! Store composition: parameter and header merging, URL building,
//! response classification, and the vault stub.

use external_config::claim::{ConfigStore, CrdConfigMapper, HttpConfig, Provider, VaultConfig};
use external_config::error::Error;
use external_config::store::{
    classify_response, HttpConfigStore, HttpConfigStoreConnectionDetails, VaultConfigStore,
};

fn pairs(entries: &[(&str, &str)]) -> Vec<(Vec<u8>, Vec<u8>)> {
    entries.iter().map(|(k, v)| (k.as_bytes().to_vec(), v.as_bytes().to_vec())).collect()
}

fn store_with(query_params: Vec<(Vec<u8>, Vec<u8>)>) -> HttpConfigStore {
    HttpConfigStore::new(HttpConfigStoreConnectionDetails {
        base_url: b"config.example:8080/v1".to_vec(),
        path: None,
        protocol: None,
        headers: pairs(&[("accept", "application/json")]),
        query_params,
    })
}

#[test]
fn caller_params_override_store_defaults() {
    let store = store_with(pairs(&[("env", "local"), ("team", "core")]));
    let merged = store.merged_query_params(Some(&pairs(&[("env", "dev")])));
    // The store's non-conflicting default survives first, then the
    // caller's entry wins the conflict.
    assert_eq!(merged, pairs(&[("team", "core"), ("env", "dev")]));
}

#[test]
fn distinct_claim_params_give_distinct_requests() {
    // A store configured to answer differently per query parameter value
    // sees the correct distinct parameter for each claim reference.
    let store = store_with(pairs(&[("env", "local")]));
    let for_dev = store.merged_query_params(Some(&pairs(&[("env", "dev")])));
    let for_prod = store.merged_query_params(Some(&pairs(&[("env", "prod")])));
    assert_eq!(for_dev, pairs(&[("env", "dev")]));
    assert_eq!(for_prod, pairs(&[("env", "prod")]));
    assert_ne!(for_dev, for_prod);
}

#[test]
fn absent_caller_params_keep_store_defaults() {
    let store = store_with(pairs(&[("env", "local")]));
    let merged = store.merged_query_params(None);
    assert_eq!(merged, pairs(&[("env", "local")]));
}

#[test]
fn headers_merge_with_caller_winning() {
    let store = store_with(Vec::new());
    let merged = store.merged_headers(Some(&pairs(&[("accept", "text/plain"), ("x-extra", "1")])));
    assert_eq!(merged, pairs(&[("accept", "text/plain"), ("x-extra", "1")]));
}

#[test]
fn processed_url_defaults_to_plain_http() {
    let store = store_with(Vec::new());
    assert_eq!(store.processed_url(), b"http://config.example:8080/v1".to_vec());
}

#[test]
fn processed_url_honors_protocol_and_path() {
    let store = HttpConfigStore::new(HttpConfigStoreConnectionDetails {
        base_url: b"host".to_vec(),
        path: Some(b"/cfg".to_vec()),
        protocol: Some(b"https".to_vec()),
        headers: Vec::new(),
        query_params: Vec::new(),
    });
    assert_eq!(store.processed_url(), b"https://host/cfg".to_vec());
}

#[test]
fn responses_classify_by_status_family() {
    assert_eq!(classify_response(200, b"ok".to_vec()), Ok(b"ok".to_vec()));
    assert_eq!(classify_response(304, b"cache".to_vec()), Ok(b"cache".to_vec()));
    match classify_response(404, b"{\"error\": \"Not found\"}".to_vec()) {
        Err(Error::HttpConfigStoreClientError(body)) => {
            assert_eq!(body, b"{\"error\": \"Not found\"}".to_vec());
        }
        other => panic!("expected a client error, got {:?}", other.is_ok()),
    }
    match classify_response(500, b"{\"error\": \"Internal server error\"}".to_vec()) {
        Err(Error::HttpConfigStoreServerError(body)) => {
            assert_eq!(body, b"{\"error\": \"Internal server error\"}".to_vec());
        }
        other => panic!("expected a server error, got {:?}", other.is_ok()),
    }
}

#[test]
fn vault_stub_answers_its_placeholder() {
    let store = VaultConfigStore::new(CrdConfigMapper::map_vault_config(VaultConfig {
        server: b"vault.example".to_vec(),
    }));
    assert_eq!(store.get_config(None, None), Ok(b"Vault config".to_vec()));
}

#[test]
fn declared_vault_provider_answers_through_the_dispatch() {
    let store = Provider::Vault(VaultConfig { server: b"vault.example".to_vec() })
        .get_config_store();
    assert!(matches!(store, ConfigStore::Vault(_)));
    assert_eq!(store.get_config(None, None), Ok(b"Vault config".to_vec()));
}

#[test]
fn unencodable_url_fails_as_a_client_error_before_the_wire() {
    // A base URL that cannot parse never produces a request: the failure
    // is the pre-call client error with an empty body.
    let store = Provider::Http(HttpConfig {
        url: b"not a url".to_vec(),
        headers: None,
        query_params: None,
    })
    .get_config_store();
    assert_eq!(
        store.get_config(None, None),
        Err(Error::HttpConfigStoreClientError(Vec::new()))
    );
}

#[test]
fn declared_http_store_maps_onto_connection_details() {
    let details = CrdConfigMapper::map_http_config(HttpConfig {
        url: b"cfg.example/path".to_vec(),
        headers: Some(pairs(&[("authorization", "SECRET-REDACTED")])),
        query_params: None,
    });
    assert_eq!(details.base_url, b"cfg.example/path".to_vec());
    assert!(details.path.is_none());
    assert!(details.protocol.is_none());
    assert_eq!(details.headers, pairs(&[("authorization", "SECRET-REDACTED")]));
    assert!(details.query_params.is_empty());
}
