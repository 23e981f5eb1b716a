//! Transverse-field Ising problems on annealers: the AWS Braket annealer
//! configuration, the backend preference and its choice, and the settings of
//! the circuit-based solver that carry no floating-point values.

use vstd::prelude::*;
use crate::env::{copy_opt, env_or, first_set, EnvSnapshot};
use crate::text::str_equals;

verus! {

/// The variable domain of a binary quadratic model.
#[derive(Debug, Clone, Copy, PartialEq, Eq, Structural)]
pub enum VarType {
    /// Spins in {-1, +1}.
    SPIN,
    /// Binaries in {0, 1}.
    BINARY,
}

/// Configuration of the D-Wave annealer for TFIM problems. The chain strength, a floating-point
/// factor, is carried as the bit pattern of its `f64` value.
#[derive(Debug)]
pub struct DWaveTFIMConfig {
    /// API token; when unset, `DWAVE_API_TOKEN` is consulted.
    pub api_token: Option<String>,
    /// SAPI endpoint.
    pub api_endpoint: String,
    /// Solver name; when unset, the first available solver.
    pub solver_name: Option<String>,
    /// Samples per problem.
    pub num_reads: usize,
    /// Annealing time in microseconds.
    pub annealing_time_us: u32,
    /// Scale coefficients to the hardware range.
    pub auto_scale: bool,
    /// Chain strength factor (bits of its `f64`); when unset, chosen automatically.
    pub chain_strength_bits: Option<u64>,
    /// Programming thermalization in microseconds.
    pub programming_thermalization_us: u32,
    /// Readout thermalization in microseconds.
    pub readout_thermalization_us: u32,
    /// Reduce correlation between samples.
    pub reduce_intersample_correlation: bool,
    /// Connection timeout in seconds.
    pub timeout_secs: u64,
    /// Retries of an API call.
    pub max_retries: u32,
}

impl Default for DWaveTFIMConfig {
    fn default() -> (c: Self)
        ensures
            c.api_token is None,
            c.api_endpoint@ == "https://cloud.dwavesys.com/sapi/v2"@,
            c.solver_name is None,
            c.num_reads == 1000,
            c.annealing_time_us == 20,
            c.auto_scale,
            c.chain_strength_bits is None,
            c.programming_thermalization_us == 1000,
            c.readout_thermalization_us == 0,
            c.reduce_intersample_correlation,
            c.timeout_secs == 300,
            c.max_retries == 3,
    {
        DWaveTFIMConfig {
            api_token: None,
            api_endpoint: "https://cloud.dwavesys.com/sapi/v2".to_owned(),
            solver_name: None,
            num_reads: 1000,
            annealing_time_us: 20,
            auto_scale: true,
            chain_strength_bits: None,
            programming_thermalization_us: 1000,
            readout_thermalization_us: 0,
            reduce_intersample_correlation: true,
            timeout_secs: 300,
            max_retries: 3,
        }
    }
}

/// TFIM solving on the D-Wave annealer.
pub struct DWaveTFIMSolver {
    config: DWaveTFIMConfig,
}

impl DWaveTFIMSolver {
    /// The solver's configuration.
    pub closed spec fn spec_config(&self) -> DWaveTFIMConfig {
        self.config
    }

    /// Whether a token is in force, configured or from `DWAVE_API_TOKEN`.
    pub open spec fn spec_available(&self, env: EnvSnapshot) -> bool {
        self.spec_config().api_token is Some || env.dwave_api_token is Some
    }

    /// A solver with the given configuration.
    pub fn new(config: DWaveTFIMConfig) -> (s: Self)
        ensures
            s.spec_config() == config,
    {
        DWaveTFIMSolver { config }
    }

    /// A solver with the token from `DWAVE_API_TOKEN` and the solver from
    /// `DWAVE_SOLVER`, the rest default.
    pub fn from_env(env: &EnvSnapshot) -> (s: Self)
        ensures
            s.spec_config().api_token == env.dwave_api_token,
            s.spec_config().solver_name == env.dwave_solver,
            s.spec_config().num_reads == 1000,
            s.spec_config().annealing_time_us == 20,
    {
        let d = DWaveTFIMConfig::default();
        Self::new(DWaveTFIMConfig { api_token: copy_opt(&env.dwave_api_token), solver_name: copy_opt(&env.dwave_solver), ..d })
    }

    /// Whether a token is in force.
    pub fn is_available(&self, env: &EnvSnapshot) -> (r: bool)
        ensures
            r == self.spec_available(*env),
    {
        first_set(&self.config.api_token, &env.dwave_api_token).is_some()
    }

    /// The largest problem: 5000.
    pub fn max_qubits(&self) -> (n: usize)
        ensures
            n == 5000,
    {
        5000
    }

    /// The solver's name.
    pub fn name(&self) -> (s: &'static str)
        ensures
            s@ == "D-Wave Quantum Annealer"@,
    {
        "D-Wave Quantum Annealer"
    }

    /// The hardware topology: Pegasus.
    pub fn topology(&self) -> (s: &'static str)
        ensures
            s@ == "Pegasus"@,
    {
        "Pegasus"
    }
}

/// Configuration of the AWS Braket annealer for TFIM problems.
#[derive(Debug)]
pub struct BraketTFIMConfig {
    pub region: String,
    pub device_arn: String,
    pub num_shots: usize,
    pub s3_bucket: String,
    pub s3_prefix: String,
    pub timeout_secs: u64,
}

/// The default Braket TFIM configuration: D-Wave Advantage in us-west-1.
pub open spec fn is_default_braket_tfim_config(c: BraketTFIMConfig) -> bool {
    &&& c.region@ == "us-west-1"@
    &&& c.device_arn@ == "arn:aws:braket:::device/qpu/d-wave/Advantage_system6"@
    &&& c.num_shots == 1000
    &&& c.s3_bucket@ == "amazon-braket-results"@
    &&& c.s3_prefix@ == "neuroquantum-tfim"@
    &&& c.timeout_secs == 300
}

impl Default for BraketTFIMConfig {
    fn default() -> (c: Self)
        ensures
            is_default_braket_tfim_config(c),
    {
        BraketTFIMConfig {
            region: "us-west-1".to_owned(),
            device_arn: "arn:aws:braket:::device/qpu/d-wave/Advantage_system6".to_owned(),
            num_shots: 1000,
            s3_bucket: "amazon-braket-results".to_owned(),
            s3_prefix: "neuroquantum-tfim".to_owned(),
            timeout_secs: 300,
        }
    }
}

/// TFIM solving on the AWS Braket annealer.
pub struct BraketTFIMSolver {
    config: BraketTFIMConfig,
}

/// The classical retries used when the annealer is unreachable: one per
/// hundred shots, and at least three.
pub open spec fn fallback_retries(shots: usize) -> usize {
    if shots / 100 >= 3 { (shots / 100) as usize } else { 3 }
}

impl BraketTFIMSolver {
    pub closed spec fn spec_config(&self) -> BraketTFIMConfig {
        self.config
    }

    pub fn new(config: BraketTFIMConfig) -> (s: Self)
        ensures
            s.spec_config() == config,
    {
        BraketTFIMSolver { config }
    }

    /// A solver configured from `AWS_REGION` (us-west-1), `BRAKET_DEVICE_ARN`
    /// and `BRAKET_S3_BUCKET`, the rest default.
    pub fn from_env(env: &EnvSnapshot) -> (s: Self)
        ensures
            s.spec_config().region@ == (match env.aws_region {
                Some(r) => r@,
                None => "us-west-1"@,
            }),
            s.spec_config().device_arn@ == (match env.braket_device_arn {
                Some(a) => a@,
                None => "arn:aws:braket:::device/qpu/d-wave/Advantage_system6"@,
            }),
            s.spec_config().s3_bucket@ == (match env.braket_s3_bucket {
                Some(b) => b@,
                None => "amazon-braket-results"@,
            }),
            s.spec_config().num_shots == 1000,
    {
        let d = BraketTFIMConfig::default();
        Self::new(BraketTFIMConfig {
            region: env_or(&env.aws_region, "us-west-1"),
            device_arn: env_or(&env.braket_device_arn, "arn:aws:braket:::device/qpu/d-wave/Advantage_system6"),
            s3_bucket: env_or(&env.braket_s3_bucket, "amazon-braket-results"),
            ..d
        })
    }

    /// Available when both an AWS access key and a secret key are set.
    pub fn is_available(&self, env: &EnvSnapshot) -> (r: bool)
        ensures
            r == (env.aws_access_key_id is Some && env.aws_secret_access_key is Some),
    {
        env.aws_access_key_id.is_some() && env.aws_secret_access_key.is_some()
    }

    pub fn max_qubits(&self) -> (n: usize)
        ensures
            n == 5000,
    {
        5000
    }

    pub fn name(&self) -> (s: &'static str)
        ensures
            s@ == "AWS Braket D-Wave Annealer"@,
    {
        "AWS Braket D-Wave Annealer"
    }

    pub fn topology(&self) -> (s: &'static str)
        ensures
            s@ == "Pegasus"@,
    {
        "Pegasus"
    }

    /// The retries of the classical fallback (see `fallback_retries`).
    pub fn fallback_retries(&self) -> (n: usize)
        ensures
            n == fallback_retries(self.spec_config().num_shots),
    {
        let r = self.config.num_shots / 100;
        if r >= 3 { r } else { 3 }
    }
}

/// Whether a D-Wave token is in force for a TFIM solver: configured, or from
/// `DWAVE_API_TOKEN`.
pub fn dwave_token_present(configured: &Option<String>, env: &EnvSnapshot) -> (r: bool)
    ensures
        r == (configured is Some || env.dwave_api_token is Some),
{
    first_set(configured, &env.dwave_api_token).is_some()
}

/// Which annealing backend a unified TFIM solver prefers.
#[derive(Debug, Clone, Copy, PartialEq, Eq, Structural)]
pub enum TFIMBackendPreference {
    DWave,
    Braket,
    Classical,
    Auto,
}

/// The preference a `TFIM_BACKEND` value selects: dwave, braket or
/// classical exactly; anything else, or nothing, is automatic.
pub open spec fn preference_from(v: Option<Seq<char>>) -> TFIMBackendPreference {
    match v {
        Some(s) => if s == "dwave"@ {
            TFIMBackendPreference::DWave
        } else if s == "braket"@ {
            TFIMBackendPreference::Braket
        } else if s == "classical"@ {
            TFIMBackendPreference::Classical
        } else {
            TFIMBackendPreference::Auto
        },
        None => TFIMBackendPreference::Auto,
    }
}

/// The preference named by `TFIM_BACKEND` (see `preference_from`).
pub fn preference_from_env(env: &EnvSnapshot) -> (p: TFIMBackendPreference)
    ensures
        p == preference_from(match env.tfim_backend { Some(s) => Some(s@), None => None }),
{
    match &env.tfim_backend {
        Some(s) => {
            let v = s.as_str();
            if str_equals(v, "dwave") {
                TFIMBackendPreference::DWave
            } else if str_equals(v, "braket") {
                TFIMBackendPreference::Braket
            } else if str_equals(v, "classical") {
                TFIMBackendPreference::Classical
            } else {
                TFIMBackendPreference::Auto
            }
        },
        None => TFIMBackendPreference::Auto,
    }
}

/// Where a unified TFIM solve runs.
#[derive(Debug, Clone, Copy, PartialEq, Eq, Structural)]
pub enum TFIMRoute {
    DWave,
    Braket,
    Classical,
    /// A forced backend that is not configured.
    Unconfigured,
}

/// The route of a solve: a forced D-Wave or Braket backend when it is
/// configured, classical when forced; in automatic mode the first of D-Wave
/// and Braket that is configured and available, else classical. `None` is an
/// unconfigured backend, `Some(a)` its availability.
pub open spec fn tfim_route(pref: TFIMBackendPreference, dwave: Option<bool>, braket: Option<bool>) -> TFIMRoute {
    match pref {
        TFIMBackendPreference::DWave => if dwave is Some { TFIMRoute::DWave } else { TFIMRoute::Unconfigured },
        TFIMBackendPreference::Braket => if braket is Some { TFIMRoute::Braket } else { TFIMRoute::Unconfigured },
        TFIMBackendPreference::Classical => TFIMRoute::Classical,
        TFIMBackendPreference::Auto => if dwave == Some(true) {
            TFIMRoute::DWave
        } else if braket == Some(true) {
            TFIMRoute::Braket
        } else {
            TFIMRoute::Classical
        },
    }
}

/// Routes a solve (see `tfim_route`).
pub fn route_tfim(pref: TFIMBackendPreference, dwave: Option<bool>, braket: Option<bool>) -> (r: TFIMRoute)
    ensures
        r == tfim_route(pref, dwave, braket),
{
    match pref {
        TFIMBackendPreference::DWave => if dwave.is_some() { TFIMRoute::DWave } else { TFIMRoute::Unconfigured },
        TFIMBackendPreference::Braket => if braket.is_some() { TFIMRoute::Braket } else { TFIMRoute::Unconfigured },
        TFIMBackendPreference::Classical => TFIMRoute::Classical,
        TFIMBackendPreference::Auto => if dwave == Some(true) {
            TFIMRoute::DWave
        } else if braket == Some(true) {
            TFIMRoute::Braket
        } else {
            TFIMRoute::Classical
        },
    }
}

/// Gate-based TFIM hardware.
#[derive(Debug, Clone, Copy, PartialEq, Eq, Structural)]
pub enum QuantumBackend {
    Simulator,
    Superconducting,
    TrappedIon,
    NeutralAtom,
}

/// VQE ansatz circuits for TFIM.
#[derive(Debug, Clone, Copy, PartialEq, Eq, Structural)]
pub enum VQEAnsatz {
    /// Hardware-efficient layers.
    HardwareEfficient { depth: usize },
    /// Unitary coupled cluster.
    UnitaryCoupledCluster,
    /// A custom parameterised circuit.
    Custom { num_parameters: usize },
}


/// A solve runs on D-Wave exactly when D-Wave is forced and configured, or
/// chosen automatically and available; on Braket exactly when Braket is
/// forced and configured, or chosen automatically, available, and D-Wave
/// is not; classically when so forced or when no hardware is available
/// under the automatic choice; and a forced backend that is not configured
/// is reported as such.
pub proof fn lemma_tfim_route_characterised(pref: TFIMBackendPreference, dwave: Option<bool>, braket: Option<bool>)
    ensures
        (tfim_route(pref, dwave, braket) == TFIMRoute::DWave)
            <==> ((pref == TFIMBackendPreference::DWave && dwave is Some) || (pref == TFIMBackendPreference::Auto && dwave == Some(true))),
        (tfim_route(pref, dwave, braket) == TFIMRoute::Braket)
            <==> ((pref == TFIMBackendPreference::Braket && braket is Some)
                || (pref == TFIMBackendPreference::Auto && dwave != Some(true) && braket == Some(true))),
        (tfim_route(pref, dwave, braket) == TFIMRoute::Classical)
            <==> (pref == TFIMBackendPreference::Classical
                || (pref == TFIMBackendPreference::Auto && dwave != Some(true) && braket != Some(true))),
        (tfim_route(pref, dwave, braket) == TFIMRoute::Unconfigured)
            <==> ((pref == TFIMBackendPreference::DWave && dwave is None) || (pref == TFIMBackendPreference::Braket && braket is None)),
{
}

} // verus!
