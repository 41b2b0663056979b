//! Process configuration, constructed once at startup from the
//! environment and passed by reference through the call graph.

use vstd::prelude::*;

verus! {

/// Truthiness of an environment flag: the ASCII-lowercased text is `1`
/// or `true`.
pub open spec fn spec_flag_enabled(s: Seq<u8>) -> bool {
    ||| ascii_lower_seq(s) == seq![49u8]  // "1"
    ||| ascii_lower_seq(s) == seq![116u8, 114u8, 117u8, 101u8]  // "true"
}

/// ASCII lowercasing of one byte.
pub open spec fn spec_ascii_lower_byte(b: u8) -> u8 {
    if 65 <= b <= 90 {
        (b + 32) as u8
    } else {
        b
    }
}

/// ASCII lowercasing of a byte sequence.
pub open spec fn ascii_lower_seq(s: Seq<u8>) -> Seq<u8> {
    s.map_values(|b: u8| spec_ascii_lower_byte(b))
}

/// ASCII lowercasing, executable.
pub fn ascii_lower(s: &[u8]) -> (r: Vec<u8>)
    ensures
        r@ == ascii_lower_seq(s@),
{
    let mut r: Vec<u8> = Vec::new();
    let mut i: usize = 0;
    while i < s.len()
        invariant
            0 <= i <= s@.len(),
            r@ == ascii_lower_seq(s@).take(i as int),
        decreases s@.len() - i,
    {
        let b = s[i];
        if 65 <= b && b <= 90 {
            r.push(b + 32);
        } else {
            r.push(b);
        }
        proof {
            assert(r@ =~= ascii_lower_seq(s@).take(i + 1));
        }
        i += 1;
    }
    proof {
        assert(r@ =~= ascii_lower_seq(s@));
    }
    r
}

/// The environment-derived settings of one operator process.
pub struct Config {
    pub kubernetes_namespace: Option<String>,
    pub kubernetes_pod_name: Option<String>,
    pub enable_leader_election_flag: Option<Vec<u8>>,
    pub opentelemetry_endpoint_url: Option<String>,
}

impl Config {
    /// Packs the settings read from the environment by the caller.
    pub fn new(
        kubernetes_namespace: Option<String>,
        kubernetes_pod_name: Option<String>,
        enable_leader_election_flag: Option<Vec<u8>>,
        opentelemetry_endpoint_url: Option<String>,
    ) -> (r: Config)
        ensures
            r.kubernetes_namespace == kubernetes_namespace,
            r.kubernetes_pod_name == kubernetes_pod_name,
            r.enable_leader_election_flag == enable_leader_election_flag,
            r.opentelemetry_endpoint_url == opentelemetry_endpoint_url,
    {
        Config {
            kubernetes_namespace,
            kubernetes_pod_name,
            enable_leader_election_flag,
            opentelemetry_endpoint_url,
        }
    }

    /// The namespace the operator runs in, if the environment names one.
    pub fn kubernetes_namespace(&self) -> (r: &Option<String>)
        ensures
            r == &self.kubernetes_namespace,
    {
        &self.kubernetes_namespace
    }

    /// The pod's own name, if the environment names one.
    pub fn kubernetes_pod_name(&self) -> (r: &Option<String>)
        ensures
            r == &self.kubernetes_pod_name,
    {
        &self.kubernetes_pod_name
    }

    /// Whether the process runs inside a pod: the pod name is resolvable.
    pub fn is_in_pod(&self) -> (r: bool)
        ensures
            r == (self.kubernetes_pod_name is Some),
    {
        self.kubernetes_pod_name.is_some()
    }

    /// Whether leader election was switched on: the flag reads `1` or
    /// `true`, letter case ignored. An absent or different flag disables it.
    pub fn enable_leader_election(&self) -> (r: bool)
        ensures
            r == match self.enable_leader_election_flag {
                Some(f) => spec_flag_enabled(f@),
                None => false,
            },
    {
        match &self.enable_leader_election_flag {
            Some(f) => {
                let lowered = ascii_lower(f.as_slice());
                let one: [u8; 1] = [49];
                let tru: [u8; 4] = [116, 114, 117, 101];
                if crate::tree::bytes_eq(lowered.as_slice(), one.as_slice()) {
                    proof {
                        assert(one@ =~= seq![49u8]);
                    }
                    true
                } else if crate::tree::bytes_eq(lowered.as_slice(), tru.as_slice()) {
                    proof {
                        assert(tru@ =~= seq![116u8, 114u8, 117u8, 101u8]);
                    }
                    true
                } else {
                    proof {
                        assert(one@ =~= seq![49u8]);
                        assert(tru@ =~= seq![116u8, 114u8, 117u8, 101u8]);
                    }
                    false
                }
            },
            None => false,
        }
    }

    /// The telemetry endpoint, if the environment names one.
    pub fn opentelemetry_endpoint_url(&self) -> (r: &Option<String>)
        ensures
            r == &self.opentelemetry_endpoint_url,
    {
        &self.opentelemetry_endpoint_url
    }
}

/// The one-time configuration handle the process passes around.
pub struct ConfigurationManager {
    pub config: Config,
}

impl ConfigurationManager {
    /// Wraps a process configuration.
    pub fn new(config: Config) -> (r: ConfigurationManager)
        ensures
            r.config == config,
    {
        ConfigurationManager { config }
    }
}

/// The explicit dependency container: owns the configuration manager and
/// hands out references to it.
pub struct DependencyContainer {
    pub config: ConfigurationManager,
}

impl DependencyContainer {
    /// Builds the container and its configuration manager.
    pub fn new(config: Config) -> (r: DependencyContainer)
        ensures
            r.config.config == config,
    {
        DependencyContainer { config: Self::create_configuration_manager(config) }
    }

    /// Builds the configuration manager the container owns.
    pub fn create_configuration_manager(config: Config) -> (r: ConfigurationManager)
        ensures
            r.config == config,
    {
        ConfigurationManager::new(config)
    }

    /// The configuration manager of this container.
    pub fn config_manager(&self) -> (r: &ConfigurationManager)
        ensures
            r == &self.config,
    {
        &self.config
    }
}

} // verus!
