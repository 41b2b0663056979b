//! Claim resolution: for each declared file, an ordered list of store
//! fetches combines under a merge-or-fallback policy into one rendered
//! blob, and the blobs form the data of the target object.
//!
//! The fetches themselves are network work performed by the surrounding
//! program; this module takes their outcomes and decides everything else.

use vstd::prelude::*;

use crate::claim::ConfigInjectionStrategy;
use crate::codec::{
    convert_to_format, json_text_of, spec_file_type_of_name, spec_render, spec_sniff,
    try_parse_file_to_json, ConfigFileType, file_type_of_name_bytes,
};
use crate::error::{err_eq, lemma_err_eq_refl, Error};
use crate::flatten::views_of_pairs;
use crate::merge::{lemma_merge_wf, merge, spec_merge};
use crate::tree::{clone_bytes, Tree, TreeV};

verus! {

/// The merge-strategy fold after the first `i` fetches: no sources yet,
/// or the chosen output format with the merged tree so far, or the first
/// failure. The output format is the file name's, when its extension
/// resolves, else the format detected for the first parsed source.
pub open spec fn spec_merge_fold(
    fetches: Seq<Result<Vec<u8>, Error>>,
    ext: Option<ConfigFileType>,
    i: int,
) -> Result<Option<(ConfigFileType, TreeV)>, Error>
    decreases i,
{
    if i <= 0 {
        Ok(None)
    } else {
        match spec_merge_fold(fetches, ext, i - 1) {
            Err(e) => Err(e),
            Ok(st) => match fetches[i - 1] {
                Err(e) => Err(e),
                Ok(text) => match spec_sniff(text@) {
                    None => Err(Error::ParseError),
                    Some(ft_t) => match st {
                        None => Ok(
                            Some(
                                (
                                    match ext {
                                        Some(f) => f,
                                        None => ft_t.0,
                                    },
                                    ft_t.1,
                                ),
                            ),
                        ),
                        Some(acc) => Ok(Some((acc.0, spec_merge(acc.1, ft_t.1)))),
                    },
                },
            },
        }
    }
}

/// What the merge strategy produces for one file: every fetch parsed and
/// merged left to right, the result rendered in the chosen format; no
/// sources yield no blob; any fetch or parse failure aborts the file.
pub open spec fn spec_merge_strategy(
    fetches: Seq<Result<Vec<u8>, Error>>,
    filename: Seq<u8>,
) -> Result<Option<Seq<u8>>, Error> {
    match spec_merge_fold(fetches, spec_file_type_of_name(filename), fetches.len() as int) {
        Err(e) => Err(e),
        Ok(None) => Ok(None),
        Ok(Some(acc)) => match spec_render(acc.1, acc.0) {
            Ok(v) => Ok(Some(v)),
            Err(e) => Err(e),
        },
    }
}

/// What the fallback strategy produces for one file, scanning from entry
/// `i`: the first fetch that parses is rendered as pretty JSON and the
/// rest are ignored; when every entry fails, the store error.
pub open spec fn spec_fallback_from(
    fetches: Seq<Result<Vec<u8>, Error>>,
    i: int,
) -> Result<Seq<u8>, Error>
    decreases fetches.len() - i,
{
    if i < 0 || i >= fetches.len() {
        Err(Error::ConfigStoreError)
    } else {
        match fetches[i] {
            Ok(text) => match spec_sniff(text@) {
                Some(ft_t) => Ok(json_text_of(ft_t.1)),
                None => spec_fallback_from(fetches, i + 1),
            },
            Err(_) => spec_fallback_from(fetches, i + 1),
        }
    }
}

/// Applies the merge strategy to the fetched texts of one file.
pub fn apply_merge_strategy(fetches: &Vec<Result<Vec<u8>, Error>>, filename: &Vec<u8>) -> (r:
    Result<Option<Vec<u8>>, Error>)
    ensures
        r is Ok <==> spec_merge_strategy(fetches@, filename@) is Ok,
        r matches Ok(Some(v)) ==> spec_merge_strategy(fetches@, filename@) == Ok::<
            Option<Seq<u8>>,
            Error,
        >(Some(v@)),
        r matches Ok(None::<Vec<u8>>) ==> spec_merge_strategy(fetches@, filename@) == Ok::<
            Option<Seq<u8>>,
            Error,
        >(None),
        r matches Err(e) ==> (spec_merge_strategy(fetches@, filename@) matches Err(e2)
            && err_eq(e, e2)),
{
    let ghost ext = spec_file_type_of_name(filename@);
    let ext_format = file_type_of_name_bytes(filename.as_slice());
    let mut state: Option<(ConfigFileType, Tree)> = None;
    let mut i: usize = 0;
    while i < fetches.len()
        invariant
            0 <= i <= fetches@.len(),
            ext == spec_file_type_of_name(filename@),
            ext_format == ext,
            match state {
                Some(ref acc) => spec_merge_fold(fetches@, ext, i as int) == Ok::<
                    Option<(ConfigFileType, TreeV)>,
                    Error,
                >(Some((acc.0, acc.1@))) && acc.1@.wf(),
                None => spec_merge_fold(fetches@, ext, i as int) == Ok::<
                    Option<(ConfigFileType, TreeV)>,
                    Error,
                >(None),
            },
        decreases fetches@.len() - i,
    {
        let text = match &fetches[i] {
            Ok(t) => t,
            Err(e) => {
                let err = clone_error(e);
                proof {
                    assert(fetches@[i as int] matches Err(e0) && err_eq(err, e0));
                    assert(spec_merge_fold(fetches@, ext, i + 1) matches Err(e0) && err_eq(
                        err,
                        e0,
                    ));
                    lemma_merge_fold_err(fetches@, ext, i + 1, fetches@.len() as int);
                }
                return Err(err);
            },
        };
        let (detected, tree) = match try_parse_file_to_json(text) {
            Ok(p) => p,
            Err(_) => {
                proof {
                    assert(spec_merge_fold(fetches@, ext, i + 1) == Err::<
                        Option<(ConfigFileType, TreeV)>,
                        Error,
                    >(Error::ParseError));
                    lemma_merge_fold_err(fetches@, ext, i + 1, fetches@.len() as int);
                }
                proof {
                    lemma_err_eq_refl(Error::ParseError);
                }
                return Err(Error::ParseError);
            },
        };
        state = match state {
            None => {
                let fmt = match ext_format {
                    Some(f) => f,
                    None => detected,
                };
                Some((fmt, tree))
            },
            Some(acc) => {
                proof {
                    lemma_merge_wf(acc.1@, tree@);
                }
                let merged = merge(&acc.1, &tree);
                Some((acc.0, merged))
            },
        };
        i += 1;
    }
    match state {
        None => Ok(None),
        Some(acc) => {
            match convert_to_format(&acc.1, &acc.0) {
                Ok(v) => Ok(Some(v)),
                Err(e) => {
                    proof {
                        lemma_err_eq_refl(e);
                    }
                    Err(e)
                },
            }
        },
    }
}

/// Once the merge fold fails, every longer fold carries the same failure.
pub proof fn lemma_merge_fold_err(
    fetches: Seq<Result<Vec<u8>, Error>>,
    ext: Option<ConfigFileType>,
    i: int,
    n: int,
)
    requires
        0 <= i <= n,
        spec_merge_fold(fetches, ext, i) is Err,
    ensures
        spec_merge_fold(fetches, ext, n) == spec_merge_fold(fetches, ext, i),
    decreases n - i,
{
    if i < n {
        lemma_merge_fold_err(fetches, ext, i + 1, n);
    }
}

/// A copy of an error value with the same meaning.
pub fn clone_error(e: &Error) -> (r: Error)
    ensures
        err_eq(r, *e),
    decreases e,
{
    match e {
        Error::JsonSerializationError => Error::JsonSerializationError,
        Error::TomlSerializationError => Error::TomlSerializationError,
        Error::YamlSerializationError => Error::YamlSerializationError,
        Error::PropertiesSerializationError => Error::PropertiesSerializationError,
        Error::EnvFileSerializationError => Error::EnvFileSerializationError,
        Error::HttpServerError => Error::HttpServerError,
        Error::ConfigStoreError => Error::ConfigStoreError,
        Error::HttpConfigStoreError => Error::HttpConfigStoreError,
        Error::HttpConfigStoreClientError(b) => Error::HttpConfigStoreClientError(clone_bytes(b)),
        Error::HttpConfigStoreServerError(b) => Error::HttpConfigStoreServerError(clone_bytes(b)),
        Error::KubeError(b) => Error::KubeError(clone_bytes(b)),
        Error::KubeClientError(b) => Error::KubeClientError(clone_bytes(b)),
        Error::UnsupportedFileType => Error::UnsupportedFileType,
        Error::LeaseHeldByAnotherPod => Error::LeaseHeldByAnotherPod,
        Error::Cancelled => Error::Cancelled,
        Error::IncompatibleFileTypes => Error::IncompatibleFileTypes,
        Error::ParseError => Error::ParseError,
        Error::FinalizerError(inner) => {
            proof {
                assert(decreases_to!(*e => e->FinalizerError_0));
            }
            let c = clone_error(&**inner);
            Error::FinalizerError(Box::new(c))
        },
        Error::IllegalDocument => Error::IllegalDocument,
    }
}

/// Applies the fallback strategy to the fetched texts of one file.
pub fn apply_fallback_strategy(fetches: &Vec<Result<Vec<u8>, Error>>) -> (r: Result<
    Vec<u8>,
    Error,
>)
    ensures
        r is Ok <==> spec_fallback_from(fetches@, 0) is Ok,
        r matches Ok(v) ==> spec_fallback_from(fetches@, 0) == Ok::<Seq<u8>, Error>(v@),
        r is Err ==> r == Err::<Vec<u8>, Error>(Error::ConfigStoreError),
{
    let mut i: usize = 0;
    while i < fetches.len()
        invariant
            0 <= i <= fetches@.len(),
            spec_fallback_from(fetches@, 0) == spec_fallback_from(fetches@, i as int),
        decreases fetches@.len() - i,
    {
        match &fetches[i] {
            Ok(text) => {
                match try_parse_file_to_json(text) {
                    Ok(p) => {
                        let rendered = crate::codec::render_json(&p.1);
                        return Ok(rendered);
                    },
                    Err(_) => {},
                }
            },
            Err(_) => {},
        }
        i += 1;
    }
    Err(Error::ConfigStoreError)
}

/// A fallback failure is always the exhausted-stores error.
pub proof fn lemma_fallback_err(fetches: Seq<Result<Vec<u8>, Error>>, i: int)
    ensures
        spec_fallback_from(fetches, i) is Err ==> spec_fallback_from(fetches, i) == Err::<
            Seq<u8>,
            Error,
        >(Error::ConfigStoreError),
    decreases fetches.len() - i,
{
    if 0 <= i < fetches.len() {
        lemma_fallback_err(fetches, i + 1);
    }
}

/// What one file's resolution produces under its strategy.
pub open spec fn spec_compose(
    strategy: ConfigInjectionStrategy,
    fetches: Seq<Result<Vec<u8>, Error>>,
    filename: Seq<u8>,
) -> Result<Option<Seq<u8>>, Error> {
    match strategy {
        ConfigInjectionStrategy::Merge => spec_merge_strategy(fetches, filename),
        ConfigInjectionStrategy::Fallback => match spec_fallback_from(fetches, 0) {
            Ok(v) => Ok(Some(v)),
            Err(e) => Err(e),
        },
    }
}

/// Resolves one declared file: the fetched texts combine under the
/// claim's strategy into one rendered blob.
pub fn compose_file(
    strategy: &ConfigInjectionStrategy,
    fetches: &Vec<Result<Vec<u8>, Error>>,
    filename: &Vec<u8>,
) -> (r: Result<Option<Vec<u8>>, Error>)
    ensures
        r is Ok <==> spec_compose(*strategy, fetches@, filename@) is Ok,
        r matches Ok(Some(v)) ==> spec_compose(*strategy, fetches@, filename@) == Ok::<
            Option<Seq<u8>>,
            Error,
        >(Some(v@)),
        r matches Ok(None::<Vec<u8>>) ==> spec_compose(*strategy, fetches@, filename@) == Ok::<
            Option<Seq<u8>>,
            Error,
        >(None),
        r matches Err(e) ==> (spec_compose(*strategy, fetches@, filename@) matches Err(e2)
            && err_eq(e, e2)),
{
    match strategy {
        ConfigInjectionStrategy::Merge => apply_merge_strategy(fetches, filename),
        ConfigInjectionStrategy::Fallback => {
            match apply_fallback_strategy(fetches) {
                Ok(v) => Ok(Some(v)),
                Err(e) => {
                    proof {
                        lemma_err_eq_refl(e);
                        lemma_fallback_err(fetches@, 0);
                    }
                    Err(e)
                },
            }
        },
    }
}

/// One declared file with the strategy in force and the outcomes of its
/// store fetches, in declared order.
pub struct FileResolution {
    pub filename: Vec<u8>,
    pub strategy: ConfigInjectionStrategy,
    pub fetches: Vec<Result<Vec<u8>, Error>>,
}

/// The data map after the first `i` files: each resolved blob under its
/// file name, the names in byte order; the first failure aborts.
pub open spec fn spec_target_data(files: Seq<FileResolution>, i: int) -> Result<
    Seq<(Seq<u8>, Seq<u8>)>,
    Error,
>
    decreases i,
{
    if i <= 0 {
        Ok(Seq::empty())
    } else {
        match spec_target_data(files, i - 1) {
            Err(e) => Err(e),
            Ok(acc) => match spec_compose(
                files[i - 1].strategy,
                files[i - 1].fetches@,
                files[i - 1].filename@,
            ) {
                Err(e) => Err(e),
                Ok(None) => Ok(acc),
                Ok(Some(v)) => Ok(crate::flatten::spec_insert(acc, files[i - 1].filename@, v)),
            },
        }
    }
}

/// Once a file fails, every longer prefix carries the same failure.
pub proof fn lemma_target_data_err(files: Seq<FileResolution>, i: int, n: int)
    requires
        0 <= i <= n,
        spec_target_data(files, i) is Err,
    ensures
        spec_target_data(files, n) == spec_target_data(files, i),
    decreases n - i,
{
    if i < n {
        lemma_target_data_err(files, i + 1, n);
    }
}

/// Builds the data of the target object: every declared file resolved
/// under its strategy, the blobs keyed by file name in byte order. A
/// failed file resolution aborts the whole pass, so no partial data map
/// is ever produced.
pub fn create_target_data(files: &Vec<FileResolution>) -> (r: Result<
    Vec<(Vec<u8>, Vec<u8>)>,
    Error,
>)
    ensures
        r is Ok <==> spec_target_data(files@, files@.len() as int) is Ok,
        r matches Ok(d) ==> spec_target_data(files@, files@.len() as int) == Ok::<
            Seq<(Seq<u8>, Seq<u8>)>,
            Error,
        >(views_of_pairs(d@)),
        r matches Err(e) ==> (spec_target_data(files@, files@.len() as int) matches Err(e2)
            && err_eq(e, e2)),
{
    let mut data: Vec<(Vec<u8>, Vec<u8>)> = Vec::new();
    let mut i: usize = 0;
    while i < files.len()
        invariant
            0 <= i <= files@.len(),
            spec_target_data(files@, i as int) == Ok::<Seq<(Seq<u8>, Seq<u8>)>, Error>(
                views_of_pairs(data@),
            ),
        decreases files@.len() - i,
    {
        match compose_file(&files[i].strategy, &files[i].fetches, &files[i].filename) {
            Ok(Some(blob)) => {
                let name = clone_bytes(&files[i].filename);
                crate::flatten::insert_sorted(&mut data, name, blob);
            },
            Ok(None) => {},
            Err(e) => {
                proof {
                    lemma_target_data_err(files@, i + 1, files@.len() as int);
                }
                return Err(e);
            },
        }
        i += 1;
    }
    Ok(data)
}

/// The base64 text of a byte string.
pub uninterp spec fn base64_of(s: Seq<u8>) -> Seq<u8>;

/// Relies on the base64 crate's standard engine: the encoding of a byte
/// string depends on its bytes alone.
#[verifier::external_body]
pub fn encode_base64(v: &Vec<u8>) -> (r: Vec<u8>)
    ensures
        r@ == base64_of(v@),
{
    base64::engine::Engine::encode(
        &base64::engine::general_purpose::STANDARD,
        v.as_slice(),
    ).into_bytes()
}

/// The data of the target Secret: the same logical values as the
/// ConfigMap's, each base64-encoded.
pub fn encode_secret_data(data: &Vec<(Vec<u8>, Vec<u8>)>) -> (r: Vec<(Vec<u8>, Vec<u8>)>)
    ensures
        r@.len() == data@.len(),
        forall|j: int|
            0 <= j < data@.len() ==> (#[trigger] r@[j]).0@ == data@[j].0@ && r@[j].1@ == base64_of(
                data@[j].1@,
            ),
{
    let mut out: Vec<(Vec<u8>, Vec<u8>)> = Vec::new();
    let mut i: usize = 0;
    while i < data.len()
        invariant
            0 <= i <= data@.len(),
            out@.len() == i,
            forall|j: int|
                0 <= j < i ==> (#[trigger] out@[j]).0@ == data@[j].0@ && out@[j].1@ == base64_of(
                    data@[j].1@,
                ),
        decreases data@.len() - i,
    {
        let k = clone_bytes(&data[i].0);
        let v = encode_base64(&data[i].1);
        out.push((k, v));
        i += 1;
    }
    out
}

} // verus!
