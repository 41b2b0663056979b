//! Claim resolution: fallback and merge strategies over fetched texts,
//! the target data map, and Secret encoding.

use external_config::claim::ConfigInjectionStrategy;
use external_config::error::Error;
use base64::engine::general_purpose::STANDARD;
use base64::Engine;
use external_config::resolve::{
    apply_fallback_strategy, apply_merge_strategy, compose_file, create_target_data,
    encode_secret_data, FileResolution,
};

fn ok(text: &str) -> Result<Vec<u8>, Error> {
    Ok(text.as_bytes().to_vec())
}

#[test]
fn fallback_uses_first_successful_source() {
    let fetches = vec![
        Err(Error::HttpConfigStoreError),
        ok(r#"{"asd": 1}"#),
        ok(r#"{"ignored": true}"#),
    ];
    let out = apply_fallback_strategy(&fetches).unwrap();
    assert_eq!(String::from_utf8(out).unwrap(), "{\n  \"asd\": 1\n}");
}

#[test]
fn fallback_fails_when_every_source_fails() {
    let fetches: Vec<Result<Vec<u8>, Error>> = vec![
        Err(Error::HttpConfigStoreError),
        Err(Error::HttpConfigStoreServerError(b"down".to_vec())),
    ];
    assert_eq!(apply_fallback_strategy(&fetches), Err(Error::ConfigStoreError));
}

#[test]
fn merge_strategy_merges_in_declared_order() {
    let fetches = vec![
        ok(r#"{"dbConfig":{"host":"localhost","timeout":1000}}"#),
        ok(r#"{"dbConfig":{"host":"prod"}}"#),
    ];
    let out = apply_merge_strategy(&fetches, &b"config.json".to_vec()).unwrap().unwrap();
    assert_eq!(
        String::from_utf8(out).unwrap(),
        "{\n  \"dbConfig\": {\n    \"host\": \"prod\",\n    \"timeout\": 1000\n  }\n}"
    );
}

#[test]
fn merge_strategy_renders_in_the_extension_format() {
    let fetches = vec![ok(r#"{"dbConfig":{"host":"test_host"}}"#)];
    let out = apply_merge_strategy(&fetches, &b"config.properties".to_vec()).unwrap().unwrap();
    assert_eq!(String::from_utf8(out).unwrap(), "dbConfig.host=test_host");
}

#[test]
fn merge_strategy_falls_back_to_the_detected_format() {
    // No resolvable extension: the first source's detected format wins.
    let fetches = vec![ok("[dbConfig]\nhost = \"test_host\"\n")];
    let out = apply_merge_strategy(&fetches, &b"config.blob".to_vec()).unwrap().unwrap();
    let text = String::from_utf8(out).unwrap();
    assert!(text.contains("[dbConfig]"));
}

#[test]
fn merge_strategy_aborts_on_a_failed_store() {
    let fetches = vec![
        ok(r#"{"a":1}"#),
        Err(Error::HttpConfigStoreServerError(b"boom".to_vec())),
        ok(r#"{"b":2}"#),
    ];
    let r = apply_merge_strategy(&fetches, &b"config.json".to_vec());
    assert_eq!(r, Err(Error::HttpConfigStoreServerError(b"boom".to_vec())));
}

#[test]
fn merge_strategy_with_no_sources_yields_nothing() {
    let fetches: Vec<Result<Vec<u8>, Error>> = Vec::new();
    assert_eq!(apply_merge_strategy(&fetches, &b"config.json".to_vec()), Ok(None));
}

#[test]
fn compose_file_defaults_to_fallback_rendering() {
    let fetches = vec![ok("KEY=value")];
    let out = compose_file(&ConfigInjectionStrategy::Fallback, &fetches, &b"any.name".to_vec())
        .unwrap()
        .unwrap();
    // Fallback always renders the chosen source as pretty JSON.
    assert_eq!(String::from_utf8(out).unwrap(), "{\n  \"key\": \"value\"\n}");
}

#[test]
fn target_data_keys_files_in_byte_order() {
    let files = vec![
        FileResolution {
            filename: b"b.json".to_vec(),
            strategy: ConfigInjectionStrategy::Merge,
            fetches: vec![ok(r#"{"b":2}"#)],
        },
        FileResolution {
            filename: b"a.json".to_vec(),
            strategy: ConfigInjectionStrategy::Merge,
            fetches: vec![ok(r#"{"a":1}"#)],
        },
    ];
    let data = create_target_data(&files).unwrap();
    assert_eq!(data.len(), 2);
    assert_eq!(data[0].0, b"a.json".to_vec());
    assert_eq!(data[1].0, b"b.json".to_vec());
}

#[test]
fn target_data_aborts_whole_pass_on_one_failed_file() {
    let files = vec![
        FileResolution {
            filename: b"a.json".to_vec(),
            strategy: ConfigInjectionStrategy::Merge,
            fetches: vec![ok(r#"{"a":1}"#)],
        },
        FileResolution {
            filename: b"b.json".to_vec(),
            strategy: ConfigInjectionStrategy::Fallback,
            fetches: vec![Err(Error::HttpConfigStoreError)],
        },
    ];
    assert_eq!(create_target_data(&files), Err(Error::ConfigStoreError));
}

#[test]
fn secret_data_is_the_base64_of_the_config_map_data() {
    let data = vec![
        (b"config.yaml".to_vec(), b"dbConfig:\n  host: test_host\n".to_vec()),
        (b"config.env".to_vec(), b"DB__CONFIG_HOST=test_host".to_vec()),
    ];
    let encoded = encode_secret_data(&data);
    assert_eq!(encoded.len(), data.len());
    for (plain, enc) in data.iter().zip(encoded.iter()) {
        assert_eq!(plain.0, enc.0);
        // The base64-decoded Secret value is textually identical to the
        // ConfigMap value.
        assert_eq!(STANDARD.decode(&enc.1).unwrap(), plain.1);
    }
}
