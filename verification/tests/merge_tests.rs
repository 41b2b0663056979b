//! The merge engine's behavior on the three-store scenario and on key
//! preservation.

use external_config::codec::{convert_to_format, try_parse_file_to_json, ConfigFileType};
use external_config::merge::{merge, merge_all};
use external_config::tree::Tree;

fn parse(text: &str) -> Tree {
    try_parse_file_to_json(&text.as_bytes().to_vec()).expect("content should parse").1
}

fn to_json(tree: &Tree) -> String {
    String::from_utf8(convert_to_format(tree, &ConfigFileType::Json).unwrap()).unwrap()
}

const STORE_A: &str =
    r#"{"dbConfig":{"host":"localhost","logLevels":["INFO","ERROR","DEBUG"],"timeout":1000}}"#;
const STORE_B: &str =
    r#"{"dbConfig":{"host":"dev","logLevels":["INFO","DEBUG"],"logApiKey":"logger_key"}}"#;
const STORE_C: &str = r#"{"dbConfig":{"host":"prod","logLevels":["INFO"]}}"#;

#[test]
fn merge_strategy_three_stores() {
    let a = parse(STORE_A);
    let b = parse(STORE_B);
    let c = parse(STORE_C);
    let merged = merge_all(&vec![a, b, c]);
    // Later sources win on leaves, arrays are fully overwritten, keys
    // only one source holds are retained; the first source's key order
    // is kept and new keys append.
    assert_eq!(
        to_json(&merged),
        "{\n  \"dbConfig\": {\n    \"host\": \"prod\",\n    \"logLevels\": [\n      \"INFO\"\n    ],\n    \"timeout\": 1000,\n    \"logApiKey\": \"logger_key\"\n  }\n}"
    );
}

#[test]
fn merge_all_equals_nested_merges() {
    let a = parse(STORE_A);
    let b = parse(STORE_B);
    let c = parse(STORE_C);
    let folded = merge_all(&vec![a.tree_clone(), b.tree_clone(), c.tree_clone()]);
    let nested = merge(&merge(&a, &b), &c);
    assert!(folded.tree_eq(&nested));
}

#[test]
fn merge_drops_no_keys_in_either_order() {
    let a = parse(r#"{"x":1,"shared":"a"}"#);
    let b = parse(r#"{"y":2,"shared":"b"}"#);
    let ab = merge(&a, &b);
    let ba = merge(&b, &a);
    // Both orders keep every key; only the conflicting leaf differs.
    assert_eq!(to_json(&ab), "{\n  \"x\": 1,\n  \"shared\": \"b\",\n  \"y\": 2\n}");
    assert_eq!(to_json(&ba), "{\n  \"y\": 2,\n  \"shared\": \"a\",\n  \"x\": 1\n}");
}

#[test]
fn merge_overwrites_non_object_pairs() {
    let a = parse(r#"{"v":{"deep":1}}"#);
    let b = parse(r#"{"v":[1,2]}"#);
    let merged = merge(&a, &b);
    assert_eq!(to_json(&merged), "{\n  \"v\": [\n    1,\n    2\n  ]\n}");
}

#[test]
fn merge_recurses_into_objects() {
    let a = parse(r#"{"o":{"keep":"k","change":"old"}}"#);
    let b = parse(r#"{"o":{"change":"new","add":"a"}}"#);
    let merged = merge(&a, &b);
    assert_eq!(
        to_json(&merged),
        "{\n  \"o\": {\n    \"keep\": \"k\",\n    \"change\": \"new\",\n    \"add\": \"a\"\n  }\n}"
    );
}
