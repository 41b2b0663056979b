//! The error taxonomy of the operator, and the metric label derived from
//! each error's taxonomy tag.

use vstd::prelude::*;

verus! {

/// Every failure the core can surface. Variants that carry bytes hold the
/// response body or message that came with the failure.
#[derive(Debug, PartialEq, Eq)]
pub enum Error {
    JsonSerializationError,
    TomlSerializationError,
    YamlSerializationError,
    PropertiesSerializationError,
    EnvFileSerializationError,
    HttpServerError,
    ConfigStoreError,
    HttpConfigStoreError,
    HttpConfigStoreClientError(Vec<u8>),
    HttpConfigStoreServerError(Vec<u8>),
    KubeError(Vec<u8>),
    KubeClientError(Vec<u8>),
    UnsupportedFileType,
    LeaseHeldByAnotherPod,
    Cancelled,
    IncompatibleFileTypes,
    ParseError,
    FinalizerError(Box<Error>),
    IllegalDocument,
}

/// The metric label of each error: its taxonomy tag, lowercased.
pub open spec fn spec_metric_label(e: Error) -> Seq<char> {
    match e {
        Error::JsonSerializationError => "jsonserializationerror"@,
        Error::TomlSerializationError => "tomlserializationerror"@,
        Error::YamlSerializationError => "yamlserializationerror"@,
        Error::PropertiesSerializationError => "propertiesserializationerror"@,
        Error::EnvFileSerializationError => "envfileserializationerror"@,
        Error::HttpServerError => "httpservererror"@,
        Error::ConfigStoreError => "configstoreerror"@,
        Error::HttpConfigStoreError => "httpconfigstoreerror"@,
        Error::HttpConfigStoreClientError(_) => "httpconfigstoreclienterror"@,
        Error::HttpConfigStoreServerError(_) => "httpconfigstoreservererror"@,
        Error::KubeError(_) => "kubeerror"@,
        Error::KubeClientError(_) => "kubeclienterror"@,
        Error::UnsupportedFileType => "unsupportedfiletype"@,
        Error::LeaseHeldByAnotherPod => "leaseheldbyanotherpod"@,
        Error::Cancelled => "cancelled"@,
        Error::IncompatibleFileTypes => "incompatiblefiletypes"@,
        Error::ParseError => "parseerror"@,
        Error::FinalizerError(_) => "finalizererror"@,
        Error::IllegalDocument => "illegaldocument"@,
    }
}

/// View-level equality of two errors: same taxonomy tag, same carried
/// bytes.
pub open spec fn err_eq(a: Error, b: Error) -> bool
    decreases a,
{
    match (a, b) {
        (Error::HttpConfigStoreClientError(x), Error::HttpConfigStoreClientError(y)) => x@ == y@,
        (Error::HttpConfigStoreServerError(x), Error::HttpConfigStoreServerError(y)) => x@ == y@,
        (Error::KubeError(x), Error::KubeError(y)) => x@ == y@,
        (Error::KubeClientError(x), Error::KubeClientError(y)) => x@ == y@,
        (Error::FinalizerError(x), Error::FinalizerError(y)) => err_eq(*x, *y),
        _ => a == b,
    }
}

/// Every error equals itself at view level.
pub proof fn lemma_err_eq_refl(a: Error)
    ensures
        err_eq(a, a),
    decreases a,
{
    match a {
        Error::FinalizerError(x) => {
            lemma_err_eq_refl(*x);
        },
        _ => {},
    }
}

impl Error {
    /// The label under which this error is counted in metrics.
    pub fn metric_label(&self) -> (r: &'static str)
        ensures
            r@ == spec_metric_label(*self),
    {
        match self {
            Error::JsonSerializationError => "jsonserializationerror",
            Error::TomlSerializationError => "tomlserializationerror",
            Error::YamlSerializationError => "yamlserializationerror",
            Error::PropertiesSerializationError => "propertiesserializationerror",
            Error::EnvFileSerializationError => "envfileserializationerror",
            Error::HttpServerError => "httpservererror",
            Error::ConfigStoreError => "configstoreerror",
            Error::HttpConfigStoreError => "httpconfigstoreerror",
            Error::HttpConfigStoreClientError(_) => "httpconfigstoreclienterror",
            Error::HttpConfigStoreServerError(_) => "httpconfigstoreservererror",
            Error::KubeError(_) => "kubeerror",
            Error::KubeClientError(_) => "kubeclienterror",
            Error::UnsupportedFileType => "unsupportedfiletype",
            Error::LeaseHeldByAnotherPod => "leaseheldbyanotherpod",
            Error::Cancelled => "cancelled",
            Error::IncompatibleFileTypes => "incompatiblefiletypes",
            Error::ParseError => "parseerror",
            Error::FinalizerError(_) => "finalizererror",
            Error::IllegalDocument => "illegaldocument",
        }
    }
}

} // verus!
