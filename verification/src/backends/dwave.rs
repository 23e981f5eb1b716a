//! D-Wave quantum annealer: configuration, availability and settings. The
//! chain strength, a floating-point factor, is carried as the bit pattern of
//! its `f64` value.

use vstd::prelude::*;
use super::{is_default_backend_config, QuantumBackendConfig, QuantumBackendInfo, QuantumProvider};
use crate::env::{copy_opt, env_or, first_set, EnvSnapshot};

verus! {

/// D-Wave post-processing mode.
#[derive(Debug, Clone, Copy, PartialEq, Eq, Structural)]
pub enum DWavePostprocessing {
    /// No post-processing.
    Off,
    /// Optimisation post-processing.
    Optimization,
    /// Sampling post-processing.
    Sampling,
}

/// Configuration of the D-Wave backend.
#[derive(Debug, Clone)]
pub struct DWaveConfig {
    /// API token; when unset, `DWAVE_API_TOKEN` is consulted.
    pub api_token: Option<String>,
    /// SAPI endpoint.
    pub api_endpoint: String,
    /// Solver name; when unset, the first available solver.
    pub solver_name: Option<String>,
    /// Samples per problem.
    pub num_reads: usize,
    /// Annealing time in microseconds.
    pub annealing_time_us: u32,
    /// Scale coefficients to the hardware range.
    pub auto_scale: bool,
    /// Chain strength factor (bits of its `f64`); when unset, chosen automatically.
    pub chain_strength_bits: Option<u64>,
    /// Programming thermalization in microseconds.
    pub programming_thermalization_us: u32,
    /// Readout thermalization in microseconds.
    pub readout_thermalization_us: u32,
    /// Reduce correlation between samples.
    pub reduce_intersample_correlation: bool,
    /// Post-processing mode.
    pub postprocessing: DWavePostprocessing,
    /// Settings common to every backend.
    pub common: QuantumBackendConfig,
}

/// The default D-Wave configuration: the cloud SAPI endpoint, 1000 reads of
/// 20 microseconds, auto-scaling on, no post-processing.
pub open spec fn is_default_dwave_config(c: DWaveConfig) -> bool {
    &&& c.api_token is None
    &&& c.api_endpoint@ == "https://cloud.dwavesys.com/sapi/v2"@
    &&& c.solver_name is None
    &&& c.num_reads == 1000
    &&& c.annealing_time_us == 20
    &&& c.auto_scale
    &&& c.chain_strength_bits is None
    &&& c.programming_thermalization_us == 1000
    &&& c.readout_thermalization_us == 0
    &&& c.reduce_intersample_correlation
    &&& c.postprocessing == DWavePostprocessing::Off
    &&& is_default_backend_config(c.common)
}

impl Default for DWaveConfig {
    fn default() -> (c: Self)
        ensures
            is_default_dwave_config(c),
    {
        DWaveConfig {
            api_token: None,
            api_endpoint: "https://cloud.dwavesys.com/sapi/v2".to_owned(),
            solver_name: None,
            num_reads: 1000,
            annealing_time_us: 20,
            auto_scale: true,
            chain_strength_bits: None,
            programming_thermalization_us: 1000,
            readout_thermalization_us: 0,
            reduce_intersample_correlation: true,
            postprocessing: DWavePostprocessing::Off,
            common: QuantumBackendConfig::default(),
        }
    }
}

/// D-Wave quantum annealer backend.
pub struct DWaveBackend {
    config: DWaveConfig,
}

impl DWaveBackend {
    /// The backend's configuration.
    pub closed spec fn spec_config(&self) -> DWaveConfig {
        self.config
    }

    /// The API token in force: the configured one, else the environment's.
    pub open spec fn spec_api_token(&self, env: EnvSnapshot) -> Option<String> {
        if self.spec_config().api_token is Some {
            self.spec_config().api_token
        } else {
            env.dwave_api_token
        }
    }

    /// A backend with the given configuration.
    pub fn new(config: DWaveConfig) -> (b: Self)
        ensures
            b.spec_config() == config,
    {
        DWaveBackend { config }
    }

    /// A backend configured from the environment: token from
    /// `DWAVE_API_TOKEN`, solver from `DWAVE_SOLVER`, endpoint from
    /// `DWAVE_ENDPOINT` (the cloud SAPI), the rest default.
    pub fn from_env(env: &EnvSnapshot) -> (b: Self)
        ensures
            b.spec_config().api_token == env.dwave_api_token,
            b.spec_config().solver_name == env.dwave_solver,
            b.spec_config().api_endpoint@ == (match env.dwave_endpoint {
                Some(s) => s@,
                None => "https://cloud.dwavesys.com/sapi/v2"@,
            }),
            b.spec_config().num_reads == 1000,
            b.spec_config().annealing_time_us == 20,
            b.spec_config().auto_scale,
            b.spec_config().chain_strength_bits is None,
            b.spec_config().programming_thermalization_us == 1000,
            b.spec_config().readout_thermalization_us == 0,
            b.spec_config().reduce_intersample_correlation,
            b.spec_config().postprocessing == DWavePostprocessing::Off,
            is_default_backend_config(b.spec_config().common),
    {
        let d = DWaveConfig::default();
        let config = DWaveConfig {
            api_token: copy_opt(&env.dwave_api_token),
            solver_name: copy_opt(&env.dwave_solver),
            api_endpoint: env_or(&env.dwave_endpoint, "https://cloud.dwavesys.com/sapi/v2"),
            ..d
        };
        Self::new(config)
    }

    /// The API token in force: the configured one, else `DWAVE_API_TOKEN`.
    pub fn get_api_token(&self, env: &EnvSnapshot) -> (t: Option<String>)
        ensures
            t == self.spec_api_token(*env),
    {
        first_set(&self.config.api_token, &env.dwave_api_token)
    }

    /// The current configuration.
    pub fn config(&self) -> (c: &DWaveConfig)
        ensures
            *c == self.spec_config(),
    {
        &self.config
    }

    /// The configuration, for changing it in place.
    pub fn config_mut(&mut self) -> (c: &mut DWaveConfig)
        ensures
            *c == old(self).spec_config(),
            final(self).spec_config() == *final(c),
    {
        &mut self.config
    }
}

impl QuantumBackendInfo for DWaveBackend {
    fn is_available(&self, env: &EnvSnapshot) -> (r: bool)
        ensures
            r == self.spec_api_token(*env) is Some,
    {
        self.get_api_token(env).is_some()
    }

    fn max_qubits(&self) -> (n: usize)
        ensures
            n == 5000,
    {
        5000
    }

    fn name(&self) -> (s: &'static str)
        ensures
            s@ == "D-Wave Quantum Annealer"@,
    {
        "D-Wave Quantum Annealer"
    }

    fn provider(&self) -> (p: QuantumProvider)
        ensures
            p == QuantumProvider::DWave,
    {
        QuantumProvider::DWave
    }
}

/// D-Wave qubit connectivity.
#[derive(Debug, Clone, Copy, PartialEq, Eq, Structural)]
pub enum DWaveTopology {
    /// Chimera (D-Wave 2000Q).
    Chimera,
    /// Pegasus (Advantage).
    Pegasus,
    /// Zephyr (Advantage2).
    Zephyr,
}

/// The display name of a topology.
pub open spec fn topology_name(t: DWaveTopology) -> Seq<char> {
    match t {
        DWaveTopology::Chimera => "Chimera"@,
        DWaveTopology::Pegasus => "Pegasus"@,
        DWaveTopology::Zephyr => "Zephyr"@,
    }
}

impl DWaveTopology {
    /// The topology's display name.
    pub fn to_display_string(&self) -> (s: String)
        ensures
            s@ == topology_name(*self),
    {
        match self {
            DWaveTopology::Chimera => "Chimera".to_owned(),
            DWaveTopology::Pegasus => "Pegasus".to_owned(),
            DWaveTopology::Zephyr => "Zephyr".to_owned(),
        }
    }
}

} // verus!
