//! The claim data model: a user's declared intent that a ConfigMap or
//! Secret be populated from named configuration stores.

use vstd::prelude::*;

use crate::store::{
    HttpConfigStore, HttpConfigStoreConnectionDetails, VaultConfigStore,
    VaultConfigStoreConnectionDetails,
};

verus! {

/// The two store resource kinds a claim can reference.
#[derive(Clone, Copy, Debug, PartialEq, Eq, Structural)]
pub enum SupportedConfigurationStoreResourceType {
    ConfigurationStore,
    ClusterConfigurationStore,
}

/// How the entries of a claim's `from` list combine for one file.
#[derive(Clone, Copy, Debug, PartialEq, Eq, Structural)]
pub enum ConfigInjectionStrategy {
    Merge,
    Fallback,
}

/// What the operator does about the target object's lifecycle.
#[derive(Clone, Copy, Debug, PartialEq, Eq, Structural)]
pub enum ClaimCreationPolicy {
    Owned,
    Orphan,
    Merge,
    Unmanaged,
}

/// A reference to a named store of either kind.
pub struct ClaimConfigurationStoreRef {
    pub name: String,
    pub kind: SupportedConfigurationStoreResourceType,
}

/// The target object a claim materializes into.
pub struct ClaimTargetRef {
    pub name: String,
    pub creation_policy: ClaimCreationPolicy,
}

impl core::default::Default for ClaimTargetRef {
    /// An unnamed target with the merge creation policy.
    fn default() -> (r: ClaimTargetRef)
        ensures
            r.name@ == Seq::<char>::empty(),
            r.creation_policy == ClaimCreationPolicy::Merge,
    {
        ClaimTargetRef { name: String::new(), creation_policy: ClaimCreationPolicy::Merge }
    }
}

/// One entry of a claim's `from` list: the store it references and the
/// query parameters this reference adds.
pub struct ClaimRefParametrization {
    pub configuration_store_ref: ClaimConfigurationStoreRef,
    pub configuration_store_params: Option<Vec<(Vec<u8>, Vec<u8>)>>,
}

/// What one declared file resolves from: an ordered, non-empty list of
/// store references and the strategy combining them.
pub struct ClaimRef {
    pub from: Vec<ClaimRefParametrization>,
    pub strategy: Option<ConfigInjectionStrategy>,
}

impl ClaimRef {
    /// The strategy in force: the declared one, or fallback.
    pub fn effective_strategy(&self) -> (r: ConfigInjectionStrategy)
        ensures
            r == match self.strategy {
                Some(s) => s,
                None => ConfigInjectionStrategy::Fallback,
            },
    {
        match &self.strategy {
            Some(s) => *s,
            None => ConfigInjectionStrategy::Fallback,
        }
    }
}

/// The refresh interval of a claim, in whole seconds.
pub struct RefreshInterval {
    pub seconds: u64,
}

/// The duration in seconds a human-readable duration text denotes, if it
/// parses.
pub uninterp spec fn human_duration_secs_of(s: Seq<char>) -> Option<u64>;

impl RefreshInterval {
    /// The interval as whole seconds.
    pub fn as_seconds(&self) -> (r: u64)
        ensures
            r == self.seconds,
    {
        self.seconds
    }

    /// The interval as whole milliseconds.
    pub fn as_millis(&self) -> (r: u128)
        ensures
            r == self.seconds * 1000,
    {
        (self.seconds as u128) * 1000
    }

    /// Relies on humantime::parse_duration: whether a duration text
    /// parses, and to how many seconds, depends on the text alone.
    #[verifier::external_body]
    pub fn from_str(s: &str) -> (r: Option<RefreshInterval>)
        ensures
            r is Some <==> human_duration_secs_of(s@) is Some,
            r matches Some(v) ==> human_duration_secs_of(s@) == Some(v.seconds),
    {
        humantime::parse_duration(s).ok().map(|d| RefreshInterval { seconds: d.as_secs() })
    }
}

/// The default refresh interval: five minutes.
pub const DEFAULT_REFRESH_SECONDS: u64 = 300;

/// The last-synced status of a claim.
pub struct ConfigurationSourceStatus {
    pub last_synced: Option<String>,
}

impl core::default::Default for ConfigurationSourceStatus {
    /// A fresh status: never synced.
    fn default() -> (r: ConfigurationSourceStatus)
        ensures
            r.last_synced is None,
    {
        ConfigurationSourceStatus { last_synced: None }
    }
}

/// The metadata the core reads from a claim object.
pub struct ClaimMetadata {
    pub name: Option<String>,
    pub namespace: Option<String>,
}

/// The declared intent of a ConfigMap claim.
pub struct ConfigMapClaimSpec {
    pub data: Vec<(Vec<u8>, ClaimRef)>,
    pub target: ClaimTargetRef,
    pub refresh_interval: Option<RefreshInterval>,
}

impl core::default::Default for ConfigMapClaimSpec {
    /// An empty claim: no files, default target, default interval.
    fn default() -> (r: ConfigMapClaimSpec)
        ensures
            r.data@.len() == 0,
            r.refresh_interval is None,
            r.target.creation_policy == ClaimCreationPolicy::Merge,
    {
        ConfigMapClaimSpec {
            data: Vec::new(),
            target: core::default::Default::default(),
            refresh_interval: None,
        }
    }
}

/// A claim that materializes a ConfigMap.
pub struct ConfigMapClaim {
    pub metadata: ClaimMetadata,
    pub spec: ConfigMapClaimSpec,
    pub status: Option<ConfigurationSourceStatus>,
}

/// The declared intent of a Secret claim.
pub struct SecretClaimSpec {
    pub data: Vec<(Vec<u8>, ClaimRef)>,
    pub target: ClaimTargetRef,
    pub refresh_interval: Option<RefreshInterval>,
}

impl core::default::Default for SecretClaimSpec {
    /// An empty claim: no files, default target, default interval.
    fn default() -> (r: SecretClaimSpec)
        ensures
            r.data@.len() == 0,
            r.refresh_interval is None,
            r.target.creation_policy == ClaimCreationPolicy::Merge,
    {
        SecretClaimSpec {
            data: Vec::new(),
            target: core::default::Default::default(),
            refresh_interval: None,
        }
    }
}

/// A claim that materializes a Secret.
pub struct SecretClaim {
    pub metadata: ClaimMetadata,
    pub spec: SecretClaimSpec,
    pub status: Option<ConfigurationSourceStatus>,
}

/// Access to the target reference of a claim.
pub trait HasTarget {
    /// The target object this claim materializes into.
    fn get_target(&self) -> &ClaimTargetRef;
}

impl HasTarget for ConfigMapClaim {
    fn get_target(&self) -> (r: &ClaimTargetRef) {
        &self.spec.target
    }
}

impl HasTarget for SecretClaim {
    fn get_target(&self) -> (r: &ClaimTargetRef) {
        &self.spec.target
    }
}

impl ConfigMapClaim {
    /// The refresh interval in force, in seconds: the declared one, or
    /// five minutes.
    pub fn get_refresh_interval(&self) -> (r: u64)
        ensures
            r == match self.spec.refresh_interval {
                Some(v) => v.seconds,
                None => DEFAULT_REFRESH_SECONDS as u64,
            },
    {
        match &self.spec.refresh_interval {
            Some(v) => v.as_seconds(),
            None => DEFAULT_REFRESH_SECONDS,
        }
    }
}

impl SecretClaim {
    /// The refresh interval in force, in seconds: the declared one, or
    /// five minutes.
    pub fn get_refresh_interval(&self) -> (r: u64)
        ensures
            r == match self.spec.refresh_interval {
                Some(v) => v.seconds,
                None => DEFAULT_REFRESH_SECONDS as u64,
            },
    {
        match &self.spec.refresh_interval {
            Some(v) => v.as_seconds(),
            None => DEFAULT_REFRESH_SECONDS,
        }
    }
}

/// The provider of a configuration store resource.
pub enum Provider {
    Http(HttpConfig),
    Vault(VaultConfig),
}

/// The declared connection of an HTTP-backed store.
pub struct HttpConfig {
    pub url: Vec<u8>,
    pub headers: Option<Vec<(Vec<u8>, Vec<u8>)>>,
    pub query_params: Option<Vec<(Vec<u8>, Vec<u8>)>>,
}

/// The declared connection of a vault-backed store.
pub struct VaultConfig {
    pub server: Vec<u8>,
}

/// The declared intent of a namespaced configuration store.
pub struct ConfigurationStoreSpec {
    pub provider: Provider,
}

/// The declared intent of a cluster-scoped configuration store.
pub struct ClusterConfigurationStoreSpec {
    pub provider: Provider,
}

/// A constructed store client of either family.
pub enum ConfigStore {
    Http(HttpConfigStore),
    Vault(VaultConfigStore),
}

impl ConfigStore {
    /// Fetches raw configuration text from whichever family of store this
    /// is; failures are store failures. The vault family is interface
    /// only and always answers its fixed placeholder.
    pub fn get_config(
        &self,
        query_params: Option<&Vec<(Vec<u8>, Vec<u8>)>>,
        headers: Option<&Vec<(Vec<u8>, Vec<u8>)>>,
    ) -> (r: Result<Vec<u8>, crate::error::Error>)
        ensures
            r matches Err(e) ==> {
                ||| e is HttpConfigStoreError
                ||| e is HttpConfigStoreClientError
                ||| e is HttpConfigStoreServerError
            },
            self matches ConfigStore::Vault(_) ==> (r matches Ok(v) && v@ == seq![
                86u8, 97u8, 117u8, 108u8, 116u8, 32u8, 99u8, 111u8, 110u8, 102u8, 105u8, 103u8,
            ]),
            self matches ConfigStore::Http(s) && s.spec_request_url(query_params) is None ==> (r
                matches Err(e) && e matches crate::error::Error::HttpConfigStoreClientError(b)
                && b@ == Seq::<u8>::empty()),
    {
        match self {
            ConfigStore::Http(s) => s.get_config(query_params, headers),
            ConfigStore::Vault(s) => s.get_config(query_params, headers),
        }
    }
}

/// Maps the declared store connection fields onto store clients.
pub struct CrdConfigMapper {}

impl CrdConfigMapper {
    /// The connection details of a declared HTTP store: the URL becomes
    /// the base, protocol and path stay default, absent maps become empty.
    pub fn map_http_config(http_config: HttpConfig) -> (r: HttpConfigStoreConnectionDetails)
        ensures
            r.base_url@ == http_config.url@,
            r.path is None,
            r.protocol is None,
            r.headers@ == match http_config.headers {
                Some(h) => h@,
                None => Seq::<(Vec<u8>, Vec<u8>)>::empty(),
            },
            r.query_params@ == match http_config.query_params {
                Some(q) => q@,
                None => Seq::<(Vec<u8>, Vec<u8>)>::empty(),
            },
    {
        let headers = match http_config.headers {
            Some(h) => h,
            None => {
                let v: Vec<(Vec<u8>, Vec<u8>)> = Vec::new();
                proof {
                    assert(v@ =~= Seq::<(Vec<u8>, Vec<u8>)>::empty());
                }
                v
            },
        };
        let query_params = match http_config.query_params {
            Some(q) => q,
            None => {
                let v: Vec<(Vec<u8>, Vec<u8>)> = Vec::new();
                proof {
                    assert(v@ =~= Seq::<(Vec<u8>, Vec<u8>)>::empty());
                }
                v
            },
        };
        HttpConfigStoreConnectionDetails {
            base_url: http_config.url,
            path: None,
            protocol: None,
            headers,
            query_params,
        }
    }

    /// The connection details of a declared vault store: the server text
    /// becomes the URL, the maps stay empty.
    pub fn map_vault_config(vault_config: VaultConfig) -> (r: VaultConfigStoreConnectionDetails)
        ensures
            r.url@ == vault_config.server@,
            r.headers@.len() == 0,
            r.query_params@.len() == 0,
    {
        VaultConfigStoreConnectionDetails {
            url: vault_config.server,
            headers: Vec::new(),
            query_params: Vec::new(),
        }
    }
}

impl Provider {
    /// The store client this provider declares: the mapped connection
    /// details of the declared fields, so a claim fetches from exactly
    /// the store its resource names.
    pub fn get_config_store(self) -> (r: ConfigStore)
        ensures
            self matches Provider::Http(h) ==> (r matches ConfigStore::Http(s)
                && s.config.base_url@ == h.url@ && s.config.path is None && s.config.protocol
                is None && s.config.headers@ == (match h.headers {
                Some(hs) => hs@,
                None => Seq::<(Vec<u8>, Vec<u8>)>::empty(),
            }) && s.config.query_params@ == (match h.query_params {
                Some(q) => q@,
                None => Seq::<(Vec<u8>, Vec<u8>)>::empty(),
            })),
            self matches Provider::Vault(v) ==> (r matches ConfigStore::Vault(s)
                && s.config.url@ == v.server@ && s.config.headers@.len() == 0
                && s.config.query_params@.len() == 0),
    {
        match self {
            Provider::Http(http_config) => ConfigStore::Http(
                HttpConfigStore::new(CrdConfigMapper::map_http_config(http_config)),
            ),
            Provider::Vault(vault_config) => ConfigStore::Vault(
                VaultConfigStore::new(CrdConfigMapper::map_vault_config(vault_config)),
            ),
        }
    }
}

} // verus!
