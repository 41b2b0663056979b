//! Cross-format rendering and parsing behavior of the codec.

use external_config::codec::{
    convert_to_format, merge_configs, to_file_type, to_file_type_from_filename,
    try_parse_file_to_json, try_parse_from_properties, ConfigFileType,
};
use external_config::error::Error;
use external_config::tree::Tree;

fn parse(text: &str) -> (ConfigFileType, Tree) {
    try_parse_file_to_json(&text.as_bytes().to_vec()).expect("content should parse")
}

fn render(tree: &Tree, ft: ConfigFileType) -> String {
    String::from_utf8(convert_to_format(tree, &ft).expect("render should succeed")).unwrap()
}

const FIXTURE: &str = r#"{"dbConfig":{"host":"test_host","logLevels":["INFO","DEBUG"]}}"#;

#[test]
fn fixture_detects_as_json() {
    let (ft, _) = parse(FIXTURE);
    assert_eq!(ft, ConfigFileType::Json);
}

#[test]
fn fixture_renders_to_yaml() {
    let (_, tree) = parse(FIXTURE);
    assert_eq!(
        render(&tree, ConfigFileType::Yaml),
        "dbConfig:\n  host: test_host\n  logLevels:\n  - INFO\n  - DEBUG\n"
    );
}

#[test]
fn fixture_renders_to_properties() {
    let (_, tree) = parse(FIXTURE);
    assert_eq!(
        render(&tree, ConfigFileType::Properties),
        "dbConfig.host=test_host\ndbConfig.logLevels.0=INFO\ndbConfig.logLevels.1=DEBUG"
    );
}

#[test]
fn fixture_renders_to_env() {
    let (_, tree) = parse(FIXTURE);
    assert_eq!(
        render(&tree, ConfigFileType::EnvFile),
        "DB__CONFIG_HOST=test_host\nDB__CONFIG_LOG__LEVELS_0=INFO\nDB__CONFIG_LOG__LEVELS_1=DEBUG"
    );
}

#[test]
fn fixture_renders_to_json_pretty() {
    let (_, tree) = parse(FIXTURE);
    assert_eq!(
        render(&tree, ConfigFileType::Json),
        "{\n  \"dbConfig\": {\n    \"host\": \"test_host\",\n    \"logLevels\": [\n      \"INFO\",\n      \"DEBUG\"\n    ]\n  }\n}"
    );
}

#[test]
fn fixture_renders_to_toml() {
    let (_, tree) = parse(FIXTURE);
    let toml_text = render(&tree, ConfigFileType::Toml);
    assert!(toml_text.contains("[dbConfig]"));
    assert!(toml_text.contains("host = \"test_host\""));
}

#[test]
fn round_trip_json_is_stable() {
    let (_, t1) = parse(FIXTURE);
    let rendered = render(&t1, ConfigFileType::Json);
    let (ft2, t2) = parse(&rendered);
    assert_eq!(ft2, ConfigFileType::Json);
    assert!(t1.tree_eq(&t2));
}

#[test]
fn round_trip_yaml_is_stable() {
    let (_, t1) = parse(FIXTURE);
    let rendered = render(&t1, ConfigFileType::Yaml);
    let (_, t2) = try_parse_file_to_json(&rendered.as_bytes().to_vec()).unwrap();
    // The YAML text itself must re-render identically.
    let rendered2 = render(&t2, ConfigFileType::Yaml);
    assert_eq!(rendered, rendered2);
}

#[test]
fn round_trip_toml_is_stable() {
    let (_, t1) = parse(FIXTURE);
    let rendered = render(&t1, ConfigFileType::Toml);
    let (ft2, t2) = parse(&rendered);
    assert_eq!(ft2, ConfigFileType::Toml);
    let rendered2 = render(&t2, ConfigFileType::Toml);
    assert_eq!(rendered, rendered2);
}

#[test]
fn properties_round_trip_loses_types() {
    // Numbers and booleans become strings on the way back: expected, not
    // a defect.
    let (_, t1) = parse(r#"{"a":{"n":1,"b":true}}"#);
    let props = render(&t1, ConfigFileType::Properties);
    assert_eq!(props, "a.b=true\na.n=1");
    let t2 = try_parse_from_properties(&props.as_bytes().to_vec()).unwrap();
    let back = render(&t2, ConfigFileType::Json);
    assert_eq!(back, "{\n  \"a\": {\n    \"b\": \"true\",\n    \"n\": \"1\"\n  }\n}");
}

#[test]
fn sniff_chain_prefers_json_over_json5() {
    let (ft, _) = parse(r#"{"a": 1}"#);
    assert_eq!(ft, ConfigFileType::Json);
    // Unquoted keys are JSON5, not JSON.
    let (ft5, _) = parse("{a: 1}");
    assert_eq!(ft5, ConfigFileType::Json5);
}

#[test]
fn sniff_chain_detects_env_before_properties() {
    let (ft, tree) = parse("DB__CONFIG_HOST=test_host");
    assert_eq!(ft, ConfigFileType::EnvFile);
    let back = render(&tree, ConfigFileType::Json);
    assert_eq!(back, "{\n  \"dbConfig\": {\n    \"host\": \"test_host\"\n  }\n}");
}

#[test]
fn sniff_chain_detects_toml() {
    let (ft, tree) = parse("[dbConfig]\nhost = \"test_host\"\n");
    assert_eq!(ft, ConfigFileType::Toml);
    let back = render(&tree, ConfigFileType::Json);
    assert!(back.contains("\"host\": \"test_host\""));
}

#[test]
fn non_object_content_is_rejected_by_structured_parsers() {
    // A bare JSON array is not an object, so the JSON parser rejects it
    // and the chain falls through.
    let r = try_parse_file_to_json(&b"[1,2,3]".to_vec());
    match r {
        Ok((ft, _)) => assert_ne!(ft, ConfigFileType::Json),
        Err(e) => assert!(matches!(e, Error::ParseError)),
    }
}

#[test]
fn file_type_from_filename_covers_all_extensions() {
    assert_eq!(to_file_type_from_filename("config.json"), Some(ConfigFileType::Json));
    assert_eq!(to_file_type_from_filename("config.json5"), Some(ConfigFileType::Json5));
    assert_eq!(to_file_type_from_filename("config.toml"), Some(ConfigFileType::Toml));
    assert_eq!(to_file_type_from_filename("config.yaml"), Some(ConfigFileType::Yaml));
    assert_eq!(to_file_type_from_filename("config.yml"), Some(ConfigFileType::Yaml));
    assert_eq!(
        to_file_type_from_filename("config.properties"),
        Some(ConfigFileType::Properties)
    );
    assert_eq!(to_file_type_from_filename("config.env"), Some(ConfigFileType::EnvFile));
    assert_eq!(to_file_type_from_filename("config.txt"), None);
    assert_eq!(to_file_type_from_filename("config"), None);
    assert_eq!(to_file_type_from_filename(".env"), None);
}

#[test]
fn merge_configs_rejects_mixed_formats() {
    let (_, a) = parse(r#"{"a":1}"#);
    let (_, b) = parse(r#"{"b":2}"#);
    let r = merge_configs((ConfigFileType::Json, a), (ConfigFileType::Toml, b));
    assert!(matches!(r, Err(Error::IncompatibleFileTypes)));
}

#[test]
fn merge_configs_merges_same_format() {
    let (fa, a) = parse(r#"{"a":1}"#);
    let (fb, b) = parse(r#"{"b":2}"#);
    let (ft, merged) = merge_configs((fa, a), (fb, b)).unwrap();
    assert_eq!(ft, ConfigFileType::Json);
    let out = String::from_utf8(convert_to_format(&merged, &ConfigFileType::Json).unwrap())
        .unwrap();
    assert_eq!(out, "{\n  \"a\": 1,\n  \"b\": 2\n}");
    assert_eq!(to_file_type(&(ft, merged)), Ok(ConfigFileType::Json));
}

#[test]
fn toml_rejects_null_documents() {
    let (_, t) = parse(r#"{"a":null}"#);
    let r = convert_to_format(&t, &ConfigFileType::Toml);
    assert!(matches!(r, Err(Error::TomlSerializationError)));
}
