//! The format codec: parsing raw text into the canonical tree and
//! serializing the tree back into any of the supported formats.
//!
//! The outside parsers and serializers (JSON, JSON5, TOML, YAML) are
//! reached through trusted wrappers whose results carry uninterpreted
//! names; the properties and env codecs are implemented and verified in
//! this crate (see `flatten` and `unflatten`).

use serde_json::Value;
use vstd::prelude::*;
use vstd::string::StringSliceAdditionalSpecFns;

use crate::error::Error;
use crate::flatten::{
    spec_flatten, spec_render_pairs, views_of_pairs, KeyTransform, flatten, render_pairs,
};
use crate::tree::{bytes_eq, Tree, TreeV};
use crate::unflatten::{
    canonical_listing, distinct_pair_keys, key_value_pairs_to_json, pairs_as_map, sorted_listing,
    spec_unflatten, tree_opt_view, ParseTransform,
};

verus! {

/// The file formats the codec reads and writes.
#[derive(Clone, Copy, Debug, PartialEq, Eq, Structural)]
pub enum ConfigFileType {
    Json,
    Json5,
    Toml,
    Yaml,
    EnvFile,
    Properties,
}

/// The serde_json value type, carried opaquely through trusted wrappers.
#[verifier::external_type_specification]
#[verifier::external_body]
pub struct ExJsonValue(serde_json::Value);

/// Converts a parsed JSON document into the library's tree, variant by
/// variant. Object entries keep the document's order; numbers keep their
/// decimal text.
#[verifier::external_body]
fn tree_from_json_value(v: Value) -> Tree {
    match v {
        Value::Null => Tree::Null,
        Value::Bool(b) => Tree::Bool(b),
        Value::Number(n) => Tree::Num(n.to_string().into_bytes()),
        Value::String(s) => Tree::Str(s.into_bytes()),
        Value::Array(a) => Tree::Arr(a.into_iter().map(tree_from_json_value).collect()),
        Value::Object(m) => Tree::Obj(
            m.into_iter().map(|e| (e.0.into_bytes(), tree_from_json_value(e.1))).collect(),
        ),
    }
}

/// Converts a library tree into a JSON value, variant by variant; the
/// inverse of `tree_from_json_value` on well-formed trees.
#[verifier::external_body]
fn json_value_from_tree(t: &Tree) -> Value {
    match t {
        Tree::Null => Value::Null,
        Tree::Bool(b) => Value::Bool(*b),
        Tree::Num(n) => match core::str::from_utf8(n).ok().and_then(|s| s.parse().ok()) {
            Some(num) => Value::Number(num),
            None => Value::Null,
        },
        Tree::Str(s) => Value::String(String::from_utf8_lossy(s).into_owned()),
        Tree::Arr(xs) => Value::Array(xs.iter().map(json_value_from_tree).collect()),
        Tree::Obj(xs) => Value::Object(
            xs.iter().map(
                |e| (String::from_utf8_lossy(&e.0).into_owned(), json_value_from_tree(&e.1)),
            ).collect(),
        ),
    }
}

/// The tree a text parses to under the JSON grammar, if any.
pub uninterp spec fn json_tree_of(s: Seq<u8>) -> Option<TreeV>;

/// The tree a text parses to under the JSON5 grammar, if any.
pub uninterp spec fn json5_tree_of(s: Seq<u8>) -> Option<TreeV>;

/// The tree a text parses to under the TOML grammar, if any.
pub uninterp spec fn toml_tree_of(s: Seq<u8>) -> Option<TreeV>;

/// The tree a text parses to under the YAML grammar, if any.
pub uninterp spec fn yaml_tree_of(s: Seq<u8>) -> Option<TreeV>;

/// The pretty-printed JSON text of a tree.
pub uninterp spec fn json_text_of(t: TreeV) -> Seq<u8>;

/// The compact JSON text of a tree.
pub uninterp spec fn json_compact_of(t: TreeV) -> Seq<u8>;

/// The YAML text of a tree, if the tree serializes.
pub uninterp spec fn yaml_text_of(t: TreeV) -> Option<Seq<u8>>;

/// The TOML text of a tree, if the tree serializes.
pub uninterp spec fn toml_text_of(t: TreeV) -> Option<Seq<u8>>;

/// Relies on serde_json::from_str: whether the text parses as JSON, and
/// to which document, depends on the text alone.
#[verifier::external_body]
fn parse_json(content: &Vec<u8>) -> (r: Option<Tree>)
    ensures
        tree_opt_view(r) == json_tree_of(content@),
{
    core::str::from_utf8(content.as_slice()).ok().and_then(
        |s| serde_json::from_str::<serde_json::Value>(s).ok(),
    ).map(tree_from_json_value)
}

/// Relies on json5::from_str: whether the text parses as JSON5, and to
/// which document, depends on the text alone.
#[verifier::external_body]
fn parse_json5(content: &Vec<u8>) -> (r: Option<Tree>)
    ensures
        tree_opt_view(r) == json5_tree_of(content@),
{
    core::str::from_utf8(content.as_slice()).ok().and_then(
        |s| json5::from_str::<serde_json::Value>(s).ok(),
    ).map(tree_from_json_value)
}

/// Relies on toml::from_str and serde_json::to_value: whether the text
/// parses as TOML, and to which document, depends on the text alone.
#[verifier::external_body]
fn parse_toml(content: &Vec<u8>) -> (r: Option<Tree>)
    ensures
        tree_opt_view(r) == toml_tree_of(content@),
{
    core::str::from_utf8(content.as_slice()).ok().and_then(
        |s| toml::from_str::<toml::Value>(s).ok(),
    ).and_then(|t| serde_json::to_value(t).ok()).map(tree_from_json_value)
}

/// Relies on serde_yaml::from_str and serde_json::to_value: whether the
/// text parses as YAML, and to which document, depends on the text alone.
#[verifier::external_body]
fn parse_yaml(content: &Vec<u8>) -> (r: Option<Tree>)
    ensures
        tree_opt_view(r) == yaml_tree_of(content@),
{
    core::str::from_utf8(content.as_slice()).ok().and_then(
        |s| serde_yaml::from_str::<serde_yaml::Value>(s).ok(),
    ).and_then(|y| serde_json::to_value(y).ok()).map(tree_from_json_value)
}

/// Relies on serde_json::to_string_pretty: the pretty JSON text of a
/// document depends on the document alone, and serializing a JSON value
/// cannot fail.
#[verifier::external_body]
pub fn render_json(t: &Tree) -> (r: Vec<u8>)
    ensures
        r@ == json_text_of(t@),
{
    serde_json::to_string_pretty(&json_value_from_tree(t)).unwrap_or_default().into_bytes()
}

/// Relies on serde_json::to_string: the compact JSON text of a document
/// depends on the document alone, and serializing a JSON value cannot fail.
#[verifier::external_body]
pub fn render_json_compact(t: &Tree) -> (r: Vec<u8>)
    ensures
        r@ == json_compact_of(t@),
{
    serde_json::to_string(&json_value_from_tree(t)).unwrap_or_default().into_bytes()
}

/// Relies on serde_yaml::to_string: the YAML text of a document, and
/// whether it serializes at all, depend on the document alone.
#[verifier::external_body]
pub fn render_yaml(t: &Tree) -> (r: Option<Vec<u8>>)
    ensures
        r is Some <==> yaml_text_of(t@) is Some,
        r matches Some(v) ==> yaml_text_of(t@) == Some(v@),
{
    serde_yaml::to_string(&json_value_from_tree(t)).ok().map(|s| s.into_bytes())
}

/// Relies on toml::to_string: the TOML text of a document, and whether it
/// serializes at all (TOML has no null and needs a table at top level),
/// depend on the document alone.
#[verifier::external_body]
pub fn render_toml(t: &Tree) -> (r: Option<Vec<u8>>)
    ensures
        r is Some <==> toml_text_of(t@) is Some,
        r matches Some(v) ==> toml_text_of(t@) == Some(v@),
{
    serde_json::from_value::<toml::Value>(json_value_from_tree(t)).ok().and_then(
        |v| toml::to_string(&v).ok(),
    ).map(|s| s.into_bytes())
}

/// The key-value map a text parses to under Java-properties rules, if any.
pub uninterp spec fn properties_pairs_of(s: Seq<u8>) -> Option<Map<Seq<u8>, Seq<u8>>>;

/// The key-value map a text parses to under env-file rules, if any.
pub uninterp spec fn env_pairs_of(s: Seq<u8>) -> Option<Map<Seq<u8>, Seq<u8>>>;

/// Relies on java_properties::read: whether the text parses, and to which
/// key-value map, depends on the text alone; a parsed file binds each key
/// once and has finitely many keys. The order of the returned pairs is
/// unspecified.
#[verifier::external_body]
fn read_properties(content: &Vec<u8>) -> (r: Option<Vec<(Vec<u8>, Vec<u8>)>>)
    ensures
        r is Some <==> properties_pairs_of(content@) is Some,
        r matches Some(ps) ==> {
            &&& distinct_pair_keys(views_of_pairs(ps@))
            &&& Some(pairs_as_map(views_of_pairs(ps@))) == properties_pairs_of(content@)
            &&& pairs_as_map(views_of_pairs(ps@)).dom().finite()
        },
{
    java_properties::read(content.as_slice()).ok().map(
        |m| m.into_iter().map(|e| (e.0.into_bytes(), e.1.into_bytes())).collect(),
    )
}

/// Relies on env_file_reader::read_str: whether the text parses, and to
/// which key-value map, depends on the text alone; a parsed file binds
/// each key once and has finitely many keys. The order of the returned
/// pairs is unspecified.
#[verifier::external_body]
fn read_env(content: &Vec<u8>) -> (r: Option<Vec<(Vec<u8>, Vec<u8>)>>)
    ensures
        r is Some <==> env_pairs_of(content@) is Some,
        r matches Some(ps) ==> {
            &&& distinct_pair_keys(views_of_pairs(ps@))
            &&& Some(pairs_as_map(views_of_pairs(ps@))) == env_pairs_of(content@)
            &&& pairs_as_map(views_of_pairs(ps@)).dom().finite()
        },
{
    core::str::from_utf8(content.as_slice()).ok().and_then(
        |s| env_file_reader::read_str(s).ok(),
    ).map(|m| m.into_iter().map(|e| (e.0.into_bytes(), e.1.into_bytes())).collect())
}

/// A structured parse is accepted when it yields a well-formed object.
pub open spec fn spec_accept_structured(parsed: Option<TreeV>) -> Option<TreeV> {
    match parsed {
        Some(t) => if t is Obj && t.wf() {
            Some(t)
        } else {
            None
        },
        None => None,
    }
}

/// A key-value parse is accepted when the canonical listing of its map
/// unflattens to a well-formed tree.
pub open spec fn spec_accept_kv(
    m_opt: Option<Map<Seq<u8>, Seq<u8>>>,
    sep: u8,
    esc: Option<u8>,
    tr: ParseTransform,
) -> Option<TreeV> {
    match m_opt {
        Some(m) => match spec_unflatten(sorted_listing(m), sep, esc, tr) {
            Some(t) => if t.wf() {
                Some(t)
            } else {
                None
            },
            None => None,
        },
        None => None,
    }
}

/// The tree the JSON parser accepts, if any.
pub open spec fn spec_parse_json(s: Seq<u8>) -> Option<TreeV> {
    spec_accept_structured(json_tree_of(s))
}

/// The tree the JSON5 parser accepts, if any.
pub open spec fn spec_parse_json5(s: Seq<u8>) -> Option<TreeV> {
    spec_accept_structured(json5_tree_of(s))
}

/// The tree the TOML parser accepts, if any.
pub open spec fn spec_parse_toml(s: Seq<u8>) -> Option<TreeV> {
    spec_accept_structured(toml_tree_of(s))
}

/// The tree the YAML parser accepts, if any.
pub open spec fn spec_parse_yaml(s: Seq<u8>) -> Option<TreeV> {
    spec_accept_structured(yaml_tree_of(s))
}

/// The tree the env-file parser accepts, if any.
pub open spec fn spec_parse_env(s: Seq<u8>) -> Option<TreeV> {
    spec_accept_kv(env_pairs_of(s), 95, Some(95u8), ParseTransform::LowerCamel)
}

/// The tree the properties parser accepts, if any.
pub open spec fn spec_parse_properties(s: Seq<u8>) -> Option<TreeV> {
    spec_accept_kv(properties_pairs_of(s), 46, None, ParseTransform::Identity)
}

/// Accepts a structured parse result: the root must be a well-formed
/// object.
fn accept_structured(parsed: Option<Tree>) -> (r: Result<Tree, Error>)
    ensures
        r is Ok <==> spec_accept_structured(tree_opt_view(parsed)) is Some,
        r matches Ok(t) ==> spec_accept_structured(tree_opt_view(parsed)) == Some(t@),
        r is Err ==> r == Err::<Tree, Error>(Error::ParseError),
{
    match parsed {
        Some(t) => {
            let is_obj = match &t {
                Tree::Obj(_) => true,
                _ => false,
            };
            proof {
                if t@ is Obj {
                    assert(t matches Tree::Obj(_));
                }
            }
            if is_obj && t.check_wf() {
                Ok(t)
            } else {
                Err(Error::ParseError)
            }
        },
        None => Err(Error::ParseError),
    }
}

/// Tries to parse the content as JSON; only a well-formed object is
/// accepted.
pub fn try_parse_from_json(content: &Vec<u8>) -> (r: Result<Tree, Error>)
    ensures
        r is Ok <==> spec_parse_json(content@) is Some,
        r matches Ok(t) ==> spec_parse_json(content@) == Some(t@) && t@.wf(),
        r is Err ==> r == Err::<Tree, Error>(Error::ParseError),
{
    let r = accept_structured(parse_json(content));
    proof {
        if r is Ok {
            assert(spec_parse_json(content@) matches Some(t) && t.wf());
        }
    }
    r
}

/// Tries to parse the content as JSON5; only a well-formed object is
/// accepted.
pub fn try_parse_from_json5(content: &Vec<u8>) -> (r: Result<Tree, Error>)
    ensures
        r is Ok <==> spec_parse_json5(content@) is Some,
        r matches Ok(t) ==> spec_parse_json5(content@) == Some(t@) && t@.wf(),
        r is Err ==> r == Err::<Tree, Error>(Error::ParseError),
{
    let r = accept_structured(parse_json5(content));
    proof {
        if r is Ok {
            assert(spec_parse_json5(content@) matches Some(t) && t.wf());
        }
    }
    r
}

/// Tries to parse the content as TOML; only a well-formed object is
/// accepted.
pub fn try_parse_from_toml(content: &Vec<u8>) -> (r: Result<Tree, Error>)
    ensures
        r is Ok <==> spec_parse_toml(content@) is Some,
        r matches Ok(t) ==> spec_parse_toml(content@) == Some(t@) && t@.wf(),
        r is Err ==> r == Err::<Tree, Error>(Error::ParseError),
{
    let r = accept_structured(parse_toml(content));
    proof {
        if r is Ok {
            assert(spec_parse_toml(content@) matches Some(t) && t.wf());
        }
    }
    r
}

/// Tries to parse the content as YAML; only a well-formed object is
/// accepted.
pub fn try_parse_from_yaml(content: &Vec<u8>) -> (r: Result<Tree, Error>)
    ensures
        r is Ok <==> spec_parse_yaml(content@) is Some,
        r matches Ok(t) ==> spec_parse_yaml(content@) == Some(t@) && t@.wf(),
        r is Err ==> r == Err::<Tree, Error>(Error::ParseError),
{
    let r = accept_structured(parse_yaml(content));
    proof {
        if r is Ok {
            assert(spec_parse_yaml(content@) matches Some(t) && t.wf());
        }
    }
    r
}

/// Accepts a key-value parse result: the pairs, ordered canonically,
/// must unflatten to a well-formed tree.
fn accept_kv(
    raw: Option<Vec<(Vec<u8>, Vec<u8>)>>,
    sep: u8,
    esc: Option<u8>,
    tr: &ParseTransform,
    read_error: Error,
    m_opt: Ghost<Option<Map<Seq<u8>, Seq<u8>>>>,
) -> (r: Result<Tree, Error>)
    requires
        raw matches Some(ps) ==> {
            &&& distinct_pair_keys(views_of_pairs(ps@))
            &&& m_opt@ matches Some(m) && pairs_as_map(views_of_pairs(ps@)) == m
        },
        raw is None ==> m_opt@ is None,
    ensures
        r is Ok <==> spec_accept_kv(m_opt@, sep, esc, *tr) is Some,
        r matches Ok(t) ==> spec_accept_kv(m_opt@, sep, esc, *tr) == Some(t@) && t@.wf(),
        r is Err && m_opt@ is None ==> r == Err::<Tree, Error>(read_error),
        r is Err && m_opt@ is Some ==> r == Err::<Tree, Error>(Error::ParseError),
{
    match raw {
        Some(ps) => {
            let sorted = canonical_listing(&ps);
            match key_value_pairs_to_json(&sorted, sep, esc, tr) {
                Some(t) => {
                    if t.check_wf() {
                        Ok(t)
                    } else {
                        Err(Error::ParseError)
                    }
                },
                None => Err(Error::ParseError),
            }
        },
        None => Err(read_error),
    }
}

/// Tries to parse the content as an env file and rebuild its nested
/// structure: keys split at underscores (a doubled underscore keeps one
/// literal), segments turn lower-camel.
pub fn try_parse_from_env(content: &Vec<u8>) -> (r: Result<Tree, Error>)
    ensures
        r is Ok <==> spec_parse_env(content@) is Some,
        r matches Ok(t) ==> spec_parse_env(content@) == Some(t@) && t@.wf(),
        r is Err && env_pairs_of(content@) is None ==> r == Err::<Tree, Error>(
            Error::EnvFileSerializationError,
        ),
        r is Err && env_pairs_of(content@) is Some ==> r == Err::<Tree, Error>(Error::ParseError),
{
    let raw = read_env(content);
    accept_kv(
        raw,
        95,
        Some(95),
        &ParseTransform::LowerCamel,
        Error::EnvFileSerializationError,
        Ghost(env_pairs_of(content@)),
    )
}

/// Tries to parse the content as a Java properties file and rebuild its
/// nested structure: keys split at dots.
pub fn try_parse_from_properties(content: &Vec<u8>) -> (r: Result<Tree, Error>)
    ensures
        r is Ok <==> spec_parse_properties(content@) is Some,
        r matches Ok(t) ==> spec_parse_properties(content@) == Some(t@) && t@.wf(),
        r is Err && properties_pairs_of(content@) is None ==> r == Err::<Tree, Error>(
            Error::PropertiesSerializationError,
        ),
        r is Err && properties_pairs_of(content@) is Some ==> r == Err::<Tree, Error>(
            Error::ParseError,
        ),
{
    let raw = read_properties(content);
    accept_kv(
        raw,
        46,
        None,
        &ParseTransform::Identity,
        Error::PropertiesSerializationError,
        Ghost(properties_pairs_of(content@)),
    )
}

/// What the sniffing chain accepts: the first parser, in the fixed order
/// JSON, JSON5, env, TOML, YAML, properties, whose parse succeeds.
pub open spec fn spec_sniff(s: Seq<u8>) -> Option<(ConfigFileType, TreeV)> {
    if spec_parse_json(s) is Some {
        Some((ConfigFileType::Json, spec_parse_json(s)->Some_0))
    } else if spec_parse_json5(s) is Some {
        Some((ConfigFileType::Json5, spec_parse_json5(s)->Some_0))
    } else if spec_parse_env(s) is Some {
        Some((ConfigFileType::EnvFile, spec_parse_env(s)->Some_0))
    } else if spec_parse_toml(s) is Some {
        Some((ConfigFileType::Toml, spec_parse_toml(s)->Some_0))
    } else if spec_parse_yaml(s) is Some {
        Some((ConfigFileType::Yaml, spec_parse_yaml(s)->Some_0))
    } else if spec_parse_properties(s) is Some {
        Some((ConfigFileType::Properties, spec_parse_properties(s)->Some_0))
    } else {
        None
    }
}

/// The chain of parsers: each is tried in the fixed order until the first
/// succeeds; the detected format is reported with the tree. When no
/// parser accepts the content, the parse fails.
pub fn try_parse_file_to_json(content: &Vec<u8>) -> (r: Result<(ConfigFileType, Tree), Error>)
    ensures
        r is Ok <==> spec_sniff(content@) is Some,
        r matches Ok(p) ==> spec_sniff(content@) matches Some(q) && q.0 == p.0 && q.1 == p.1@
            && p.1@.wf(),
        r is Err ==> r == Err::<(ConfigFileType, Tree), Error>(Error::ParseError),
{
    match try_parse_from_json(content) {
        Ok(t) => Ok((ConfigFileType::Json, t)),
        Err(_) => match try_parse_from_json5(content) {
            Ok(t) => Ok((ConfigFileType::Json5, t)),
            Err(_) => match try_parse_from_env(content) {
                Ok(t) => Ok((ConfigFileType::EnvFile, t)),
                Err(_) => match try_parse_from_toml(content) {
                    Ok(t) => Ok((ConfigFileType::Toml, t)),
                    Err(_) => match try_parse_from_yaml(content) {
                        Ok(t) => Ok((ConfigFileType::Yaml, t)),
                        Err(_) => match try_parse_from_properties(content) {
                            Ok(t) => Ok((ConfigFileType::Properties, t)),
                            Err(_) => Err(Error::ParseError),
                        },
                    },
                },
            },
        },
    }
}

/// What serialization into a target format yields: the JSON family always
/// serializes; TOML and YAML serialize when the outside serializer
/// accepts the document; properties and env require an object root.
pub open spec fn spec_render(t: TreeV, ft: ConfigFileType) -> Result<Seq<u8>, Error> {
    match ft {
        ConfigFileType::Json => Ok(json_text_of(t)),
        ConfigFileType::Json5 => Ok(json_text_of(t)),
        ConfigFileType::Yaml => match yaml_text_of(t) {
            Some(v) => Ok(v),
            None => Err(Error::YamlSerializationError),
        },
        ConfigFileType::Toml => match toml_text_of(t) {
            Some(v) => Ok(v),
            None => Err(Error::TomlSerializationError),
        },
        ConfigFileType::Properties => if t is Obj {
            Ok(spec_render_pairs(spec_flatten(t, 46, seq![46u8], KeyTransform::Identity)))
        } else {
            Err(Error::EnvFileSerializationError)
        },
        ConfigFileType::EnvFile => if t is Obj {
            Ok(
                spec_render_pairs(
                    spec_flatten(t, 95, seq![95u8, 95u8], KeyTransform::UpperSnake),
                ),
            )
        } else {
            Err(Error::EnvFileSerializationError)
        },
    }
}

/// Serializes a tree into a target format, exactly as `spec_render` says.
pub fn convert_to_format(t: &Tree, file_type: &ConfigFileType) -> (r: Result<Vec<u8>, Error>)
    ensures
        r is Ok <==> spec_render(t@, *file_type) is Ok,
        r matches Ok(v) ==> spec_render(t@, *file_type) == Ok::<Seq<u8>, Error>(v@),
        r matches Err(e) ==> spec_render(t@, *file_type) == Err::<Seq<u8>, Error>(e),
{
    match file_type {
        ConfigFileType::Json => Ok(render_json(t)),
        ConfigFileType::Json5 => Ok(render_json(t)),
        ConfigFileType::Yaml => {
            match render_yaml(t) {
                Some(v) => Ok(v),
                None => Err(Error::YamlSerializationError),
            }
        },
        ConfigFileType::Toml => {
            match render_toml(t) {
                Some(v) => Ok(v),
                None => Err(Error::TomlSerializationError),
            }
        },
        ConfigFileType::Properties => {
            let mut esc: Vec<u8> = Vec::new();
            esc.push(46);
            proof {
                assert(esc@ =~= seq![46u8]);
            }
            json_to_key_value_text(t, 46, esc, KeyTransform::Identity)
        },
        ConfigFileType::EnvFile => {
            let mut esc: Vec<u8> = Vec::new();
            esc.push(95);
            esc.push(95);
            proof {
                assert(esc@ =~= seq![95u8, 95u8]);
            }
            json_to_key_value_text(t, 95, esc, KeyTransform::UpperSnake)
        },
    }
}

/// Renders an object tree as `key=value` lines: the flattened pairs in
/// key order. A non-object root is rejected.
fn json_to_key_value_text(t: &Tree, sep: u8, esc: Vec<u8>, tr: KeyTransform) -> (r: Result<
    Vec<u8>,
    Error,
>)
    ensures
        t@ is Obj ==> (r matches Ok(v) && v@ == spec_render_pairs(
            spec_flatten(t@, sep, esc@, tr),
        )),
        !(t@ is Obj) ==> r == Err::<Vec<u8>, Error>(Error::EnvFileSerializationError),
{
    let is_obj = match t {
        Tree::Obj(_) => true,
        _ => false,
    };
    proof {
        if t@ is Obj {
            assert(t matches Tree::Obj(_));
        }
    }
    if !is_obj {
        return Err(Error::EnvFileSerializationError);
    }
    let pairs = flatten(t, sep, &esc, &tr);
    Ok(render_pairs(&pairs))
}

/// The flattened key-value pairs of an object tree, in key order; the
/// properties and env serializers render these as lines.
pub fn json_to_key_value_pairs(t: &Tree, sep: u8, esc: &Vec<u8>, tr: &KeyTransform) -> (r: Result<
    Vec<(Vec<u8>, Vec<u8>)>,
    Error,
>)
    ensures
        t@ is Obj ==> (r matches Ok(ps) && views_of_pairs(ps@) == spec_flatten(
            t@,
            sep,
            esc@,
            *tr,
        )),
        !(t@ is Obj) ==> r == Err::<Vec<(Vec<u8>, Vec<u8>)>, Error>(
            Error::EnvFileSerializationError,
        ),
{
    let is_obj = match t {
        Tree::Obj(_) => true,
        _ => false,
    };
    proof {
        if t@ is Obj {
            assert(t matches Tree::Obj(_));
        }
    }
    if !is_obj {
        return Err(Error::EnvFileSerializationError);
    }
    Ok(flatten(t, sep, esc, tr))
}

/// Merges two parsed configurations: only documents of one format merge;
/// the source side wins conflicts as in `merge`.
pub fn merge_configs(a: (ConfigFileType, Tree), b: (ConfigFileType, Tree)) -> (r: Result<
    (ConfigFileType, Tree),
    Error,
>)
    requires
        a.1@.wf(),
        b.1@.wf(),
    ensures
        a.0 == b.0 ==> (r matches Ok(c) && c.0 == a.0 && c.1@ == crate::merge::spec_merge(
            a.1@,
            b.1@,
        )),
        a.0 != b.0 ==> r == Err::<(ConfigFileType, Tree), Error>(Error::IncompatibleFileTypes),
{
    if a.0 == b.0 {
        let merged = crate::merge::merge(&a.1, &b.1);
        Ok((a.0, merged))
    } else {
        Err(Error::IncompatibleFileTypes)
    }
}

/// The format tag of a parsed configuration.
pub fn to_file_type(c: &(ConfigFileType, Tree)) -> (r: Result<ConfigFileType, Error>)
    ensures
        r == Ok::<ConfigFileType, Error>(c.0),
{
    Ok(c.0)
}

/// The position of the last dot in a file name, if any.
pub open spec fn last_dot(s: Seq<u8>) -> Option<int>
    decreases s,
{
    if s.len() == 0 {
        None
    } else if s.last() == 46 {
        Some(s.len() - 1)
    } else {
        last_dot(s.drop_last())
    }
}

/// The extension of a file name: the part after the last dot. A name
/// without a dot, or with only a leading dot (a hidden file), has none.
pub open spec fn ext_of(s: Seq<u8>) -> Option<Seq<u8>> {
    match last_dot(s) {
        None => None,
        Some(i) => if i == 0 {
            None
        } else {
            Some(s.subrange(i + 1, s.len() as int))
        },
    }
}

/// The format an extension names, if any.
pub open spec fn format_of_ext(e: Seq<u8>) -> Option<ConfigFileType> {
    if e == seq![106u8, 115u8, 111u8, 110u8] {  // "json"
        Some(ConfigFileType::Json)
    } else if e == seq![106u8, 115u8, 111u8, 110u8, 53u8] {  // "json5"
        Some(ConfigFileType::Json5)
    } else if e == seq![116u8, 111u8, 109u8, 108u8] {  // "toml"
        Some(ConfigFileType::Toml)
    } else if e == seq![121u8, 97u8, 109u8, 108u8] {  // "yaml"
        Some(ConfigFileType::Yaml)
    } else if e == seq![121u8, 109u8, 108u8] {  // "yml"
        Some(ConfigFileType::Yaml)
    } else if e == seq![112u8, 114u8, 111u8, 112u8, 101u8, 114u8, 116u8, 105u8, 101u8, 115u8] {
        // "properties"
        Some(ConfigFileType::Properties)
    } else if e == seq![101u8, 110u8, 118u8] {  // "env"
        Some(ConfigFileType::EnvFile)
    } else {
        None
    }
}

/// The format a file name declares through its extension, if any.
pub open spec fn spec_file_type_of_name(name: Seq<u8>) -> Option<ConfigFileType> {
    match ext_of(name) {
        None => None,
        Some(e) => format_of_ext(e),
    }
}

/// A back-to-front scan finds the last dot.
pub proof fn lemma_last_dot(s: Seq<u8>, i: int)
    requires
        0 <= i <= s.len(),
        forall|k: int| i <= k < s.len() ==> s[k] != 46,
        i > 0 ==> s[i - 1] == 46,
    ensures
        last_dot(s) == if i > 0 {
            Some(i - 1)
        } else {
            None::<int>
        },
    decreases s,
{
    if i == s.len() {
        if i > 0 {
        } else {
        }
    } else {
        assert(s.last() != 46);
        assert forall|k: int| i <= k < s.drop_last().len() implies s.drop_last()[k] != 46 by {
            assert(s.drop_last()[k] == s[k]);
        }
        lemma_last_dot(s.drop_last(), i);
    }
}

/// The format a file name declares, decided on its bytes.
pub fn file_type_of_name_bytes(name: &[u8]) -> (r: Option<ConfigFileType>)
    ensures
        r == spec_file_type_of_name(name@),
{
    let mut i: usize = name.len();
    while i > 0 && name[i - 1] != 46
        invariant
            0 <= i <= name@.len(),
            forall|k: int| i <= k < name@.len() ==> name@[k] != 46,
        decreases i,
    {
        i -= 1;
    }
    proof {
        lemma_last_dot(name@, i as int);
    }
    if i <= 1 {
        // No dot at all, or only a leading dot: no extension.
        return None;
    }
    let mut e: Vec<u8> = Vec::new();
    let mut j: usize = i;
    while j < name.len()
        invariant
            i <= j <= name@.len(),
            1 < i,
            e@ == name@.subrange(i as int, j as int),
        decreases name@.len() - j,
    {
        e.push(name[j]);
        proof {
            assert(e@ =~= name@.subrange(i as int, j + 1));
        }
        j += 1;
    }
    proof {
        assert(e@ == name@.subrange(i as int, name@.len() as int));
        assert(ext_of(name@) == Some(e@));
    }
    let ja: [u8; 4] = [106, 115, 111, 110];
    let j5: [u8; 5] = [106, 115, 111, 110, 53];
    let tm: [u8; 4] = [116, 111, 109, 108];
    let ya: [u8; 4] = [121, 97, 109, 108];
    let ym: [u8; 3] = [121, 109, 108];
    let pr: [u8; 10] = [112, 114, 111, 112, 101, 114, 116, 105, 101, 115];
    let ev: [u8; 3] = [101, 110, 118];
    proof {
        assert(ja@ =~= seq![106u8, 115u8, 111u8, 110u8]);
        assert(j5@ =~= seq![106u8, 115u8, 111u8, 110u8, 53u8]);
        assert(tm@ =~= seq![116u8, 111u8, 109u8, 108u8]);
        assert(ya@ =~= seq![121u8, 97u8, 109u8, 108u8]);
        assert(ym@ =~= seq![121u8, 109u8, 108u8]);
        assert(pr@ =~= seq![112u8, 114u8, 111u8, 112u8, 101u8, 114u8, 116u8, 105u8, 101u8,
            115u8]);
        assert(ev@ =~= seq![101u8, 110u8, 118u8]);
    }
    if bytes_eq(e.as_slice(), ja.as_slice()) {
        Some(ConfigFileType::Json)
    } else if bytes_eq(e.as_slice(), j5.as_slice()) {
        Some(ConfigFileType::Json5)
    } else if bytes_eq(e.as_slice(), tm.as_slice()) {
        Some(ConfigFileType::Toml)
    } else if bytes_eq(e.as_slice(), ya.as_slice()) {
        Some(ConfigFileType::Yaml)
    } else if bytes_eq(e.as_slice(), ym.as_slice()) {
        Some(ConfigFileType::Yaml)
    } else if bytes_eq(e.as_slice(), pr.as_slice()) {
        Some(ConfigFileType::Properties)
    } else if bytes_eq(e.as_slice(), ev.as_slice()) {
        Some(ConfigFileType::EnvFile)
    } else {
        None
    }
}

/// The format a file name declares through its extension.
pub fn to_file_type_from_filename(filename: &str) -> (r: Option<ConfigFileType>)
    ensures
        r == spec_file_type_of_name(filename.spec_bytes()),
{
    file_type_of_name_bytes(filename.as_bytes())
}

} // verus!
