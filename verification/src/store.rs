//! Configuration stores: the HTTP store that fetches raw configuration
//! text, and the vault-family stub. Header and query-parameter maps
//! compose with the store's own defaults first and the caller's entries
//! winning, the same later-wins rule as the merge engine, applied at the
//! map level.

use std::time::Duration;

use vstd::prelude::*;

use crate::error::Error;
use crate::tree::{clone_bytes, bytes_eq};
use crate::unflatten::pairs_contain_key;

verus! {

/// The views of a pair vector, shared shape of all the codecs.
pub open spec fn views_of_params(s: Seq<(Vec<u8>, Vec<u8>)>) -> Seq<(Seq<u8>, Seq<u8>)> {
    crate::flatten::views_of_pairs(s)
}

/// The default entries that survive: those whose key the overrides do not
/// bind.
pub open spec fn spec_filter_overridden(
    ds: Seq<(Seq<u8>, Seq<u8>)>,
    os: Seq<(Seq<u8>, Seq<u8>)>,
) -> Seq<(Seq<u8>, Seq<u8>)>
    decreases ds,
{
    if ds.len() == 0 {
        Seq::empty()
    } else {
        (if pairs_contain_key(os, ds[0].0) {
            Seq::empty()
        } else {
            seq![ds[0]]
        }) + spec_filter_overridden(ds.drop_first(), os)
    }
}

/// Defaults first, the caller's entries win: the surviving defaults in
/// their order, then every override in its order.
pub open spec fn spec_override_params(
    ds: Seq<(Seq<u8>, Seq<u8>)>,
    os: Seq<(Seq<u8>, Seq<u8>)>,
) -> Seq<(Seq<u8>, Seq<u8>)> {
    spec_filter_overridden(ds, os) + os
}

/// One more default at the end survives or falls on its own key.
pub proof fn lemma_filter_snoc(
    ds: Seq<(Seq<u8>, Seq<u8>)>,
    e: (Seq<u8>, Seq<u8>),
    os: Seq<(Seq<u8>, Seq<u8>)>,
)
    ensures
        spec_filter_overridden(ds.push(e), os) == spec_filter_overridden(ds, os) + (
        if pairs_contain_key(os, e.0) {
            Seq::<(Seq<u8>, Seq<u8>)>::empty()
        } else {
            seq![e]
        }),
    decreases ds,
{
    let pushed = ds.push(e);
    if ds.len() == 0 {
        assert(pushed[0] == e);
        assert(pushed.drop_first() =~= Seq::<(Seq<u8>, Seq<u8>)>::empty());
        assert(spec_filter_overridden(pushed.drop_first(), os)
            =~= Seq::<(Seq<u8>, Seq<u8>)>::empty());
        assert(spec_filter_overridden(pushed, os) =~= spec_filter_overridden(ds, os) + (
        if pairs_contain_key(os, e.0) {
            Seq::<(Seq<u8>, Seq<u8>)>::empty()
        } else {
            seq![e]
        }));
    } else {
        assert(pushed[0] == ds[0]);
        assert(pushed.drop_first() =~= ds.drop_first().push(e));
        lemma_filter_snoc(ds.drop_first(), e, os);
        assert(spec_filter_overridden(pushed, os) =~= spec_filter_overridden(ds, os) + (
        if pairs_contain_key(os, e.0) {
            Seq::<(Seq<u8>, Seq<u8>)>::empty()
        } else {
            seq![e]
        }));
    }
}

/// Whether a pair vector binds a key, executable.
fn params_contain_key(ps: &Vec<(Vec<u8>, Vec<u8>)>, k: &Vec<u8>) -> (r: bool)
    ensures
        r == pairs_contain_key(views_of_params(ps@), k@),
{
    proof {
        crate::flatten::lemma_views_of_pairs(ps@);
    }
    let ghost pvs = views_of_params(ps@);
    let mut i: usize = 0;
    while i < ps.len()
        invariant
            0 <= i <= ps@.len(),
            pvs == views_of_params(ps@),
            pvs.len() == ps@.len(),
            forall|j: int| 0 <= j < ps@.len() ==> #[trigger] pvs[j] == (ps@[j].0@, ps@[j].1@),
            forall|j: int| 0 <= j < i ==> (#[trigger] pvs[j]).0 != k@,
        decreases ps@.len() - i,
    {
        if bytes_eq(ps[i].0.as_slice(), k.as_slice()) {
            proof {
                assert(pvs[i as int].0 == k@);
            }
            return true;
        }
        i += 1;
    }
    proof {
        if pairs_contain_key(pvs, k@) {
            let j = choose|j: int| 0 <= j < pvs.len() && pvs[j].0 == k@;
            assert(pvs[j].0 != k@);
        }
    }
    false
}

/// Composes a parameter or header map: store defaults first, the given
/// entries override on key conflicts.
pub fn merge_params(
    defaults: &Vec<(Vec<u8>, Vec<u8>)>,
    overrides: &Vec<(Vec<u8>, Vec<u8>)>,
) -> (r: Vec<(Vec<u8>, Vec<u8>)>)
    ensures
        views_of_params(r@) == spec_override_params(
            views_of_params(defaults@),
            views_of_params(overrides@),
        ),
{
    proof {
        crate::flatten::lemma_views_of_pairs(defaults@);
        crate::flatten::lemma_views_of_pairs(overrides@);
    }
    let ghost dvs = views_of_params(defaults@);
    let ghost ovs = views_of_params(overrides@);
    let mut out: Vec<(Vec<u8>, Vec<u8>)> = Vec::new();
    let mut i: usize = 0;
    while i < defaults.len()
        invariant
            0 <= i <= defaults@.len(),
            dvs == views_of_params(defaults@),
            ovs == views_of_params(overrides@),
            dvs.len() == defaults@.len(),
            forall|j: int| 0 <= j < defaults@.len() ==> #[trigger] dvs[j]
                == (defaults@[j].0@, defaults@[j].1@),
            views_of_params(out@) == spec_filter_overridden(dvs.take(i as int), ovs),
        decreases defaults@.len() - i,
    {
        let ghost before = views_of_params(out@);
        if !params_contain_key(overrides, &defaults[i].0) {
            let k = clone_bytes(&defaults[i].0);
            let v = clone_bytes(&defaults[i].1);
            let ghost out_before = out@;
            out.push((k, v));
            proof {
                crate::flatten::lemma_views_of_pairs(out_before);
                crate::flatten::lemma_views_of_pairs(out@);
                assert(views_of_params(out@) =~= before.push((dvs[i as int].0, dvs[i as int].1)));
            }
        }
        proof {
            assert(dvs.take(i + 1).drop_last() =~= dvs.take(i as int));
            assert(dvs.take(i + 1) =~= dvs.take(i as int).push(dvs[i as int]));
            lemma_filter_snoc(dvs.take(i as int), dvs[i as int], ovs);
            if pairs_contain_key(ovs, dvs[i as int].0) {
                assert(views_of_params(out@) =~= spec_filter_overridden(dvs.take(i + 1), ovs));
            } else {
                assert(views_of_params(out@) =~= spec_filter_overridden(dvs.take(i + 1), ovs));
            }
        }
        i += 1;
    }
    proof {
        assert(dvs.take(dvs.len() as int) =~= dvs);
    }
    let mut i: usize = 0;
    while i < overrides.len()
        invariant
            0 <= i <= overrides@.len(),
            dvs == views_of_params(defaults@),
            ovs == views_of_params(overrides@),
            ovs.len() == overrides@.len(),
            forall|j: int| 0 <= j < overrides@.len() ==> #[trigger] ovs[j]
                == (overrides@[j].0@, overrides@[j].1@),
            views_of_params(out@) == spec_filter_overridden(dvs, ovs) + ovs.take(i as int),
        decreases overrides@.len() - i,
    {
        let ghost before = views_of_params(out@);
        let k = clone_bytes(&overrides[i].0);
        let v = clone_bytes(&overrides[i].1);
        let ghost out_before = out@;
        out.push((k, v));
        proof {
            crate::flatten::lemma_views_of_pairs(out_before);
            crate::flatten::lemma_views_of_pairs(out@);
            assert(views_of_params(out@) =~= before.push((ovs[i as int].0, ovs[i as int].1)));
            assert(ovs.take(i + 1) =~= ovs.take(i as int).push(ovs[i as int]));
            assert(views_of_params(out@) =~= spec_filter_overridden(dvs, ovs) + ovs.take(i + 1));
        }
        i += 1;
    }
    proof {
        assert(ovs.take(ovs.len() as int) =~= ovs);
    }
    out
}

/// The connection details of an HTTP-backed store.
pub struct HttpConfigStoreConnectionDetails {
    pub base_url: Vec<u8>,
    pub path: Option<Vec<u8>>,
    pub protocol: Option<Vec<u8>>,
    pub headers: Vec<(Vec<u8>, Vec<u8>)>,
    pub query_params: Vec<(Vec<u8>, Vec<u8>)>,
}

/// A store that answers GET requests with raw configuration text.
pub struct HttpConfigStore {
    pub config: HttpConfigStoreConnectionDetails,
}

/// The URL a store request addresses, before query parameters:
/// `protocol://base_url path`, the protocol defaulting to plain http and
/// the path to empty.
pub open spec fn spec_processed_url(
    protocol: Option<Seq<u8>>,
    base_url: Seq<u8>,
    path: Option<Seq<u8>>,
) -> Seq<u8> {
    (match protocol {
        Some(p) => p,
        None => seq![104u8, 116u8, 116u8, 112u8],  // "http"
    }) + seq![58u8, 47u8, 47u8]  // "://"
    + base_url + (match path {
        Some(p) => p,
        None => Seq::empty(),
    })
}

/// The full request URL with encoded query parameters, if the URL parses.
pub uninterp spec fn url_with_params_of(
    url: Seq<u8>,
    params: Seq<(Seq<u8>, Seq<u8>)>,
) -> Option<Seq<u8>>;

/// Relies on reqwest's Url::parse_with_params: whether the URL parses and
/// how the query string is encoded depend on the URL and parameters alone.
#[verifier::external_body]
fn url_with_params(url: &Vec<u8>, params: &Vec<(Vec<u8>, Vec<u8>)>) -> (r: Option<Vec<u8>>)
    ensures
        r is Some <==> url_with_params_of(url@, views_of_params(params@)) is Some,
        r matches Some(u) ==> url_with_params_of(url@, views_of_params(params@)) == Some(u@),
{
    let s = core::str::from_utf8(url.as_slice()).ok()?;
    let it = params.iter().map(
        |p: &(Vec<u8>, Vec<u8>)|
            (
                String::from_utf8_lossy(p.0.as_slice()).into_owned(),
                String::from_utf8_lossy(p.1.as_slice()).into_owned(),
            ),
    );
    reqwest::Url::parse_with_params(s, it).ok().map(|u| String::from(u).into_bytes())
}

/// Relies on reqwest's blocking client: issues one GET with a five second
/// timeout and hands back whatever status and body came over the wire; a
/// transport failure is a store error. Nothing is promised about the
/// values, which depend on the network. The blocking client panics, by
/// its own documentation, when driven from inside an asynchronous
/// runtime: an async caller must hand this fetch to a blocking thread.
#[verifier::external_body]
fn http_get(url: &Vec<u8>, headers: &Vec<(Vec<u8>, Vec<u8>)>) -> (r: Result<(u16, Vec<u8>), Error>)
    ensures
        r matches Err(e) ==> e is HttpConfigStoreError,
{
    let u = String::from_utf8_lossy(url).into_owned();
    let base = reqwest::blocking::Client::new().get(u).timeout(Duration::from_secs(5));
    let req = headers.iter().fold(base, |rq, h| rq.header(
        String::from_utf8_lossy(&h.0).into_owned(),
        String::from_utf8_lossy(&h.1).into_owned(),
    ));
    let resp = req.send().map_err(|_| Error::HttpConfigStoreError)?;
    let status = resp.status().as_u16();
    resp.bytes().map(|b| (status, b.to_vec())).map_err(|_| Error::HttpConfigStoreError)
}

/// Classifies one HTTP response: a server error keeps its body as a
/// server-side failure, a client error as a client-side failure, anything
/// else hands the body through.
pub fn classify_response(status: u16, body: Vec<u8>) -> (r: Result<Vec<u8>, Error>)
    ensures
        500 <= status < 600 ==> r == Err::<Vec<u8>, Error>(Error::HttpConfigStoreServerError(
            body,
        )),
        400 <= status < 500 ==> r == Err::<Vec<u8>, Error>(Error::HttpConfigStoreClientError(
            body,
        )),
        !(400 <= status < 600) ==> r == Ok::<Vec<u8>, Error>(body),
{
    if 500 <= status && status < 600 {
        Err(Error::HttpConfigStoreServerError(body))
    } else if 400 <= status && status < 500 {
        Err(Error::HttpConfigStoreClientError(body))
    } else {
        Ok(body)
    }
}

impl HttpConfigStore {
    /// Wraps the connection details of one HTTP store.
    pub fn new(config: HttpConfigStoreConnectionDetails) -> (r: HttpConfigStore)
        ensures
            r.config == config,
    {
        HttpConfigStore { config }
    }

    /// The query parameters one request will carry: the store's defaults,
    /// overridden by the caller's.
    pub fn merged_query_params(
        &self,
        query_params: Option<&Vec<(Vec<u8>, Vec<u8>)>>,
    ) -> (r: Vec<(Vec<u8>, Vec<u8>)>)
        ensures
            r@.len() >= 0,
            views_of_params(r@) == match query_params {
                Some(qp) => spec_override_params(
                    views_of_params(self.config.query_params@),
                    views_of_params(qp@),
                ),
                None => spec_override_params(
                    views_of_params(self.config.query_params@),
                    Seq::empty(),
                ),
            },
    {
        match query_params {
            Some(qp) => merge_params(&self.config.query_params, qp),
            None => {
                let empty: Vec<(Vec<u8>, Vec<u8>)> = Vec::new();
                merge_params(&self.config.query_params, &empty)
            },
        }
    }

    /// The headers one request will carry: the store's defaults,
    /// overridden by the caller's.
    pub fn merged_headers(&self, headers: Option<&Vec<(Vec<u8>, Vec<u8>)>>) -> (r: Vec<
        (Vec<u8>, Vec<u8>),
    >)
        ensures
            views_of_params(r@) == match headers {
                Some(hs) => spec_override_params(
                    views_of_params(self.config.headers@),
                    views_of_params(hs@),
                ),
                None => spec_override_params(views_of_params(self.config.headers@), Seq::empty()),
            },
    {
        match headers {
            Some(hs) => merge_params(&self.config.headers, hs),
            None => {
                let empty: Vec<(Vec<u8>, Vec<u8>)> = Vec::new();
                merge_params(&self.config.headers, &empty)
            },
        }
    }

    /// The URL one request addresses, before query parameters.
    pub fn processed_url(&self) -> (r: Vec<u8>)
        ensures
            r@ == spec_processed_url(
                match self.config.protocol {
                    Some(ref p) => Some(p@),
                    None => None,
                },
                self.config.base_url@,
                match self.config.path {
                    Some(ref p) => Some(p@),
                    None => None,
                },
            ),
    {
        let mut url: Vec<u8> = Vec::new();
        match &self.config.protocol {
            Some(p) => {
                let mut pc = clone_bytes(p);
                url.append(&mut pc);
            },
            None => {
                url.push(104);
                url.push(116);
                url.push(116);
                url.push(112);
            },
        }
        url.push(58);
        url.push(47);
        url.push(47);
        let mut b = clone_bytes(&self.config.base_url);
        url.append(&mut b);
        match &self.config.path {
            Some(p) => {
                let mut pc = clone_bytes(p);
                url.append(&mut pc);
            },
            None => {},
        }
        proof {
            assert(url@ =~= spec_processed_url(
                match self.config.protocol {
                    Some(ref p) => Some(p@),
                    None => None,
                },
                self.config.base_url@,
                match self.config.path {
                    Some(ref p) => Some(p@),
                    None => None,
                },
            ));
        }
        url
    }

    /// The full request URL this store addresses for given caller
    /// parameters, if it encodes: the processed URL with the composed
    /// query parameters.
    pub open spec fn spec_request_url(
        &self,
        query_params: Option<&Vec<(Vec<u8>, Vec<u8>)>>,
    ) -> Option<Seq<u8>> {
        url_with_params_of(
            spec_processed_url(
                match self.config.protocol {
                    Some(ref p) => Some(p@),
                    None => None,
                },
                self.config.base_url@,
                match self.config.path {
                    Some(ref p) => Some(p@),
                    None => None,
                },
            ),
            match query_params {
                Some(qp) => spec_override_params(
                    views_of_params(self.config.query_params@),
                    views_of_params(qp@),
                ),
                None => spec_override_params(
                    views_of_params(self.config.query_params@),
                    Seq::empty(),
                ),
            },
        )
    }

    /// Fetches the raw configuration text: one GET against the processed
    /// URL with the composed query parameters and headers, the response
    /// classified by status. A request whose URL does not encode fails as
    /// a client error before anything goes over the wire; whatever comes
    /// back otherwise, a failure is one of the store error kinds, and a
    /// success carries the response body.
    pub fn get_config(
        &self,
        query_params: Option<&Vec<(Vec<u8>, Vec<u8>)>>,
        headers: Option<&Vec<(Vec<u8>, Vec<u8>)>>,
    ) -> (r: Result<Vec<u8>, Error>)
        ensures
            r matches Err(e) ==> {
                ||| e is HttpConfigStoreError
                ||| e is HttpConfigStoreClientError
                ||| e is HttpConfigStoreServerError
            },
            self.spec_request_url(query_params) is None ==> (r matches Err(e) && e matches
                Error::HttpConfigStoreClientError(b) && b@ == Seq::<u8>::empty()),
    {
        let merged_headers = self.merged_headers(headers);
        let merged_params = self.merged_query_params(query_params);
        let base = self.processed_url();
        let url = match url_with_params(&base, &merged_params) {
            Some(u) => u,
            None => {
                let empty_body: Vec<u8> = Vec::new();
                proof {
                    assert(empty_body@ =~= Seq::<u8>::empty());
                }
                return Err(Error::HttpConfigStoreClientError(empty_body));
            },
        };
        match http_get(&url, &merged_headers) {
            Ok((status, body)) => classify_response(status, body),
            Err(e) => Err(e),
        }
    }
}

/// The connection details of a vault-backed store.
pub struct VaultConfigStoreConnectionDetails {
    pub url: Vec<u8>,
    pub headers: Vec<(Vec<u8>, Vec<u8>)>,
    pub query_params: Vec<(Vec<u8>, Vec<u8>)>,
}

/// The vault-family store: interface only, answers a fixed placeholder.
pub struct VaultConfigStore {
    pub config: VaultConfigStoreConnectionDetails,
}

impl VaultConfigStore {
    /// Wraps the connection details of one vault store.
    pub fn new(config: VaultConfigStoreConnectionDetails) -> (r: VaultConfigStore)
        ensures
            r.config == config,
    {
        VaultConfigStore { config }
    }

    /// The placeholder payload of the vault stub.
    pub fn get_config(
        &self,
        query_params: Option<&Vec<(Vec<u8>, Vec<u8>)>>,
        headers: Option<&Vec<(Vec<u8>, Vec<u8>)>>,
    ) -> (r: Result<Vec<u8>, Error>)
        ensures
            r matches Ok(v) && v@ == seq![
                86u8, 97u8, 117u8, 108u8, 116u8, 32u8, 99u8, 111u8, 110u8, 102u8, 105u8, 103u8,
            ],
    {
        let mut v: Vec<u8> = Vec::new();
        v.push(86);
        v.push(97);
        v.push(117);
        v.push(108);
        v.push(116);
        v.push(32);
        v.push(99);
        v.push(111);
        v.push(110);
        v.push(102);
        v.push(105);
        v.push(103);
        proof {
            assert(v@ =~= seq![
                86u8, 97u8, 117u8, 108u8, 116u8, 32u8, 99u8, 111u8, 110u8, 102u8, 105u8, 103u8,
            ]);
        }
        Ok(v)
    }
}

} // verus!
