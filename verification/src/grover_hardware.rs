//! Grover's search on hardware backends: per-provider configuration, the
//! qubit limits each enforces, and the choice of a backend.

use vstd::prelude::*;
use crate::env::{copy_opt, env_or, first_set, EnvSnapshot};
use crate::error::CoreError;
use crate::grover_quantum::GroverQuantumBackend;
use crate::backends::aws_credentials_present;
use crate::text::{contains_seq, decimal, lowercase_eq, lowercase_equals, push_decimal, str_contains, str_equals};

verus! {

/// The message for a problem wider than a backend.
pub open spec fn capacity_message(prefix: Seq<char>, needed: usize, middle: Seq<char>, limit: usize, suffix: Seq<char>) -> Seq<char> {
    prefix + decimal(needed as nat) + middle + decimal(limit as nat) + suffix
}

fn capacity_error(prefix: &str, needed: usize, middle: &str, limit: usize, suffix: &str) -> (e: CoreError)
    ensures
        e matches CoreError::InvalidOperation(m) && m@ == capacity_message(prefix@, needed, middle@, limit, suffix@),
{
    let mut m = String::new();
    m.append(prefix);
    push_decimal(&mut m, needed as u64);
    m.append(middle);
    push_decimal(&mut m, limit as u64);
    m.append(suffix);
    assert(m@ =~= capacity_message(prefix@, needed, middle@, limit, suffix@));
    CoreError::InvalidOperation(m)
}

/// Configuration of Grover's search on IBM Quantum.
#[derive(Debug)]
pub struct IBMGroverConfig {
    /// API token; when unset, `IBM_QUANTUM_API_KEY` is consulted.
    pub api_token: Option<String>,
    /// Runtime API endpoint.
    pub api_endpoint: String,
    /// Backend name.
    pub backend_name: String,
    /// Shots.
    pub num_shots: usize,
    /// Error mitigation.
    pub error_mitigation: bool,
    /// Dynamical decoupling.
    pub dynamic_decoupling: bool,
    /// Qubit limit, if known.
    pub max_qubits: Option<usize>,
    /// Timeout in seconds.
    pub timeout_secs: u64,
    /// Retries.
    pub max_retries: u32,
}

/// The default IBM Grover configuration.
pub open spec fn is_default_ibm_grover_config(c: IBMGroverConfig) -> bool {
    &&& c.api_token is None
    &&& c.api_endpoint@ == "https://api.quantum.ibm.com/runtime"@
    &&& c.backend_name@ == "ibm_brisbane"@
    &&& c.num_shots == 1024
    &&& c.error_mitigation
    &&& c.dynamic_decoupling
    &&& c.max_qubits == Some(127usize)
    &&& c.timeout_secs == 300
    &&& c.max_retries == 3
}

impl Default for IBMGroverConfig {
    fn default() -> (c: Self)
        ensures
            is_default_ibm_grover_config(c),
    {
        IBMGroverConfig {
            api_token: None,
            api_endpoint: "https://api.quantum.ibm.com/runtime".to_owned(),
            backend_name: "ibm_brisbane".to_owned(),
            num_shots: 1024,
            error_mitigation: true,
            dynamic_decoupling: true,
            max_qubits: Some(127),
            timeout_secs: 300,
            max_retries: 3,
        }
    }
}

impl Clone for IBMGroverConfig {
    fn clone(&self) -> (c: Self)
        ensures
            c == *self,
    {
        IBMGroverConfig {
            api_token: copy_opt(&self.api_token),
            api_endpoint: self.api_endpoint.clone(),
            backend_name: self.backend_name.clone(),
            num_shots: self.num_shots,
            error_mitigation: self.error_mitigation,
            dynamic_decoupling: self.dynamic_decoupling,
            max_qubits: self.max_qubits,
            timeout_secs: self.timeout_secs,
            max_retries: self.max_retries,
        }
    }
}

/// Grover's search on IBM Quantum.
pub struct IBMGroverSolver {
    config: IBMGroverConfig,
}

impl IBMGroverSolver {
    /// The solver's configuration.
    pub closed spec fn spec_config(&self) -> IBMGroverConfig {
        self.config
    }

    /// The qubit limit: the configured one, else 127.
    pub open spec fn spec_max_qubits(&self) -> usize {
        match self.spec_config().max_qubits {
            Some(m) => m,
            None => 127,
        }
    }

    /// Whether a token is in force, configured or from `IBM_QUANTUM_API_KEY`.
    pub open spec fn spec_available(&self, env: EnvSnapshot) -> bool {
        self.spec_config().api_token is Some || env.ibm_quantum_api_key is Some
    }

    /// A solver with the given configuration.
    pub fn new(config: IBMGroverConfig) -> (s: Self)
        ensures
            s.spec_config() == config,
    {
        IBMGroverSolver { config }
    }

    /// A solver configured from `IBM_QUANTUM_API_KEY` and
    /// `IBM_QUANTUM_BACKEND` (ibm_brisbane), the rest default.
    pub fn from_env(env: &EnvSnapshot) -> (s: Self)
        ensures
            s.spec_config().api_token == env.ibm_quantum_api_key,
            s.spec_config().backend_name@ == (match env.ibm_quantum_backend {
                Some(b) => b@,
                None => "ibm_brisbane"@,
            }),
            s.spec_config().num_shots == 1024,
            s.spec_config().max_qubits == Some(127usize),
    {
        let d = IBMGroverConfig::default();
        Self::new(IBMGroverConfig {
            api_token: copy_opt(&env.ibm_quantum_api_key),
            backend_name: env_or(&env.ibm_quantum_backend, "ibm_brisbane"),
            ..d
        })
    }

    /// Whether a token is in force.
    pub fn is_available(&self, env: &EnvSnapshot) -> (r: bool)
        ensures
            r == self.spec_available(*env),
    {
        first_set(&self.config.api_token, &env.ibm_quantum_api_key).is_some()
    }

    /// The qubit limit: the configured one, else 127.
    pub fn max_qubits(&self) -> (n: usize)
        ensures
            n == self.spec_max_qubits(),
    {
        match self.config.max_qubits {
            Some(m) => m,
            None => 127,
        }
    }

    /// The solver's name.
    pub fn name(&self) -> (s: &'static str)
        ensures
            s@ == "IBM Quantum Grover"@,
    {
        "IBM Quantum Grover"
    }

    /// Superconducting hardware.
    pub fn backend_type(&self) -> (b: GroverQuantumBackend)
        ensures
            b == GroverQuantumBackend::Superconducting,
    {
        GroverQuantumBackend::Superconducting
    }

    /// Refuses a search wider than a configured qubit limit.
    pub fn check_capacity(&self, num_qubits: usize) -> (r: Result<(), CoreError>)
        ensures
            r is Ok <==> (self.spec_config().max_qubits matches Some(m) ==> num_qubits <= m),
            r matches Err(e) ==> e matches CoreError::InvalidOperation(msg) && msg@ == capacity_message(
                "Problem requires "@,
                num_qubits,
                " qubits but backend "@ + self.spec_config().backend_name@ + " only supports "@,
                self.spec_config().max_qubits.unwrap(),
                " qubits"@,
            ),
    {
        if let Some(m) = self.config.max_qubits {
            if num_qubits > m {
                let mut middle = String::new();
                middle.append(" qubits but backend ");
                middle.append(self.config.backend_name.as_str());
                middle.append(" only supports ");
                let e = capacity_error("Problem requires ", num_qubits, middle.as_str(), m, " qubits");
                return Err(e);
            }
        }
        Ok(())
    }
}

/// Configuration of Grover's search on AWS Braket.
#[derive(Debug)]
pub struct BraketGroverConfig {
    /// AWS region.
    pub region: String,
    /// Device ARN.
    pub device_arn: String,
    /// Shots.
    pub num_shots: usize,
    /// S3 bucket for results.
    pub s3_bucket: Option<String>,
    /// S3 key prefix.
    pub s3_prefix: String,
    /// Qubit limit.
    pub max_qubits: usize,
    /// Seconds between polls.
    pub poll_interval_secs: u64,
    /// Longest wait in seconds.
    pub max_wait_secs: u64,
}

/// The default Braket Grover configuration.
pub open spec fn is_default_braket_grover_config(c: BraketGroverConfig) -> bool {
    &&& c.region@ == "us-east-1"@
    &&& c.device_arn@ == "arn:aws:braket:::device/quantum-simulator/amazon/sv1"@
    &&& c.num_shots == 1024
    &&& c.s3_bucket is None
    &&& c.s3_prefix@ == "grover-results"@
    &&& c.max_qubits == 25
    &&& c.poll_interval_secs == 5
    &&& c.max_wait_secs == 300
}

impl Default for BraketGroverConfig {
    fn default() -> (c: Self)
        ensures
            is_default_braket_grover_config(c),
    {
        BraketGroverConfig {
            region: "us-east-1".to_owned(),
            device_arn: "arn:aws:braket:::device/quantum-simulator/amazon/sv1".to_owned(),
            num_shots: 1024,
            s3_bucket: None,
            s3_prefix: "grover-results".to_owned(),
            max_qubits: 25,
            poll_interval_secs: 5,
            max_wait_secs: 300,
        }
    }
}

impl Clone for BraketGroverConfig {
    fn clone(&self) -> (c: Self)
        ensures
            c == *self,
    {
        BraketGroverConfig {
            region: self.region.clone(),
            device_arn: self.device_arn.clone(),
            num_shots: self.num_shots,
            s3_bucket: copy_opt(&self.s3_bucket),
            s3_prefix: self.s3_prefix.clone(),
            max_qubits: self.max_qubits,
            poll_interval_secs: self.poll_interval_secs,
            max_wait_secs: self.max_wait_secs,
        }
    }
}

/// Grover's search on AWS Braket.
pub struct BraketGroverSolver {
    config: BraketGroverConfig,
}

/// The hardware a Braket device ARN reports: trapped ions for IonQ, else
/// superconducting.
pub open spec fn braket_hardware(arn: Seq<char>) -> GroverQuantumBackend {
    if contains_seq(arn, "ionq"@) {
        GroverQuantumBackend::TrappedIon
    } else {
        GroverQuantumBackend::Superconducting
    }
}

/// The backend that simulates a Braket device locally: trapped ions for
/// IonQ, superconducting for Rigetti, else the simulator.
pub open spec fn braket_simulation_backend(arn: Seq<char>) -> GroverQuantumBackend {
    if contains_seq(arn, "ionq"@) {
        GroverQuantumBackend::TrappedIon
    } else if contains_seq(arn, "rigetti"@) {
        GroverQuantumBackend::Superconducting
    } else {
        GroverQuantumBackend::Simulator
    }
}

impl BraketGroverSolver {
    /// The solver's configuration.
    pub closed spec fn spec_config(&self) -> BraketGroverConfig {
        self.config
    }

    /// A solver with the given configuration.
    pub fn new(config: BraketGroverConfig) -> (s: Self)
        ensures
            s.spec_config() == config,
    {
        BraketGroverSolver { config }
    }

    /// A solver configured from `AWS_REGION`, `AWS_BRAKET_DEVICE_ARN` and
    /// `AWS_BRAKET_S3_BUCKET`, the rest default.
    pub fn from_env(env: &EnvSnapshot) -> (s: Self)
        ensures
            s.spec_config().region@ == (match env.aws_region {
                Some(r) => r@,
                None => "us-east-1"@,
            }),
            s.spec_config().device_arn@ == (match env.aws_braket_device_arn {
                Some(a) => a@,
                None => "arn:aws:braket:::device/quantum-simulator/amazon/sv1"@,
            }),
            s.spec_config().s3_bucket == env.aws_braket_s3_bucket,
            s.spec_config().max_qubits == 25,
    {
        let d = BraketGroverConfig::default();
        Self::new(BraketGroverConfig {
            region: env_or(&env.aws_region, "us-east-1"),
            device_arn: env_or(&env.aws_braket_device_arn, "arn:aws:braket:::device/quantum-simulator/amazon/sv1"),
            s3_bucket: copy_opt(&env.aws_braket_s3_bucket),
            ..d
        })
    }

    /// Whether AWS credentials are reachable.
    pub fn is_available(&self, env: &EnvSnapshot) -> (r: bool)
        ensures
            r == aws_credentials_present(*env),
    {
        env.aws_access_key_id.is_some() || env.aws_session_token.is_some() || env.aws_profile.is_some()
            || env.aws_credentials_file_exists
    }

    /// The qubit limit.
    pub fn max_qubits(&self) -> (n: usize)
        ensures
            n == self.spec_config().max_qubits,
    {
        self.config.max_qubits
    }

    /// The solver's name.
    pub fn name(&self) -> (s: &'static str)
        ensures
            s@ == "AWS Braket Grover"@,
    {
        "AWS Braket Grover"
    }

    /// Trapped ions for an IonQ device, else superconducting.
    pub fn backend_type(&self) -> (b: GroverQuantumBackend)
        ensures
            b == braket_hardware(self.spec_config().device_arn@),
    {
        if str_contains(self.config.device_arn.as_str(), "ionq") {
            GroverQuantumBackend::TrappedIon
        } else {
            GroverQuantumBackend::Superconducting
        }
    }

    /// The backend a local simulation of the device uses.
    pub fn simulation_backend(&self) -> (b: GroverQuantumBackend)
        ensures
            b == braket_simulation_backend(self.spec_config().device_arn@),
    {
        if str_contains(self.config.device_arn.as_str(), "ionq") {
            GroverQuantumBackend::TrappedIon
        } else if str_contains(self.config.device_arn.as_str(), "rigetti") {
            GroverQuantumBackend::Superconducting
        } else {
            GroverQuantumBackend::Simulator
        }
    }

    /// Refuses a search wider than the device.
    pub fn check_capacity(&self, num_qubits: usize) -> (r: Result<(), CoreError>)
        ensures
            r is Ok <==> num_qubits <= self.spec_config().max_qubits,
            r matches Err(e) ==> e matches CoreError::InvalidOperation(msg) && msg@ == capacity_message(
                "Problem requires "@,
                num_qubits,
                " qubits but device only supports "@,
                self.spec_config().max_qubits,
                " qubits"@,
            ),
    {
        if num_qubits > self.config.max_qubits {
            return Err(capacity_error("Problem requires ", num_qubits, " qubits but device only supports ", self.config.max_qubits, " qubits"));
        }
        Ok(())
    }
}

/// Configuration of Grover's search on IonQ.
#[derive(Debug)]
pub struct IonQGroverConfig {
    /// API key; when unset, `IONQ_API_KEY` is consulted.
    pub api_key: Option<String>,
    /// API endpoint.
    pub api_endpoint: String,
    /// Target name.
    pub target: String,
    /// Shots.
    pub num_shots: usize,
    /// Qubit limit.
    pub max_qubits: usize,
    /// Error mitigation level.
    pub error_mitigation_level: u8,
    /// Timeout in seconds.
    pub timeout_secs: u64,
}

/// The default IonQ Grover configuration.
pub open spec fn is_default_ionq_grover_config(c: IonQGroverConfig) -> bool {
    &&& c.api_key is None
    &&& c.api_endpoint@ == "https://api.ionq.co/v0.3"@
    &&& c.target@ == "simulator"@
    &&& c.num_shots == 1024
    &&& c.max_qubits == 25
    &&& c.error_mitigation_level == 1
    &&& c.timeout_secs == 300
}

impl Default for IonQGroverConfig {
    fn default() -> (c: Self)
        ensures
            is_default_ionq_grover_config(c),
    {
        IonQGroverConfig {
            api_key: None,
            api_endpoint: "https://api.ionq.co/v0.3".to_owned(),
            target: "simulator".to_owned(),
            num_shots: 1024,
            max_qubits: 25,
            error_mitigation_level: 1,
            timeout_secs: 300,
        }
    }
}

impl Clone for IonQGroverConfig {
    fn clone(&self) -> (c: Self)
        ensures
            c == *self,
    {
        IonQGroverConfig {
            api_key: copy_opt(&self.api_key),
            api_endpoint: self.api_endpoint.clone(),
            target: self.target.clone(),
            num_shots: self.num_shots,
            max_qubits: self.max_qubits,
            error_mitigation_level: self.error_mitigation_level,
            timeout_secs: self.timeout_secs,
        }
    }
}

/// Grover's search on IonQ.
pub struct IonQGroverSolver {
    config: IonQGroverConfig,
}

impl IonQGroverSolver {
    /// The solver's configuration.
    pub closed spec fn spec_config(&self) -> IonQGroverConfig {
        self.config
    }

    /// Whether a key is in force, configured or from `IONQ_API_KEY`.
    pub open spec fn spec_available(&self, env: EnvSnapshot) -> bool {
        self.spec_config().api_key is Some || env.ionq_api_key is Some
    }

    /// A solver with the given configuration.
    pub fn new(config: IonQGroverConfig) -> (s: Self)
        ensures
            s.spec_config() == config,
    {
        IonQGroverSolver { config }
    }

    /// A solver configured from `IONQ_API_KEY` and `IONQ_TARGET`
    /// (simulator), the rest default.
    pub fn from_env(env: &EnvSnapshot) -> (s: Self)
        ensures
            s.spec_config().api_key == env.ionq_api_key,
            s.spec_config().target@ == (match env.ionq_target {
                Some(t) => t@,
                None => "simulator"@,
            }),
            s.spec_config().max_qubits == 25,
    {
        let d = IonQGroverConfig::default();
        Self::new(IonQGroverConfig {
            api_key: copy_opt(&env.ionq_api_key),
            target: env_or(&env.ionq_target, "simulator"),
            ..d
        })
    }

    /// Whether a key is in force.
    pub fn is_available(&self, env: &EnvSnapshot) -> (r: bool)
        ensures
            r == self.spec_available(*env),
    {
        first_set(&self.config.api_key, &env.ionq_api_key).is_some()
    }

    /// The qubit limit.
    pub fn max_qubits(&self) -> (n: usize)
        ensures
            n == self.spec_config().max_qubits,
    {
        self.config.max_qubits
    }

    /// The solver's name.
    pub fn name(&self) -> (s: &'static str)
        ensures
            s@ == "IonQ Trapped Ion"@,
    {
        "IonQ Trapped Ion"
    }

    /// Trapped-ion hardware.
    pub fn backend_type(&self) -> (b: GroverQuantumBackend)
        ensures
            b == GroverQuantumBackend::TrappedIon,
    {
        GroverQuantumBackend::TrappedIon
    }

    /// Refuses a search wider than the target.
    pub fn check_capacity(&self, num_qubits: usize) -> (r: Result<(), CoreError>)
        ensures
            r is Ok <==> num_qubits <= self.spec_config().max_qubits,
            r matches Err(e) ==> e matches CoreError::InvalidOperation(msg) && msg@ == capacity_message(
                "Problem requires "@,
                num_qubits,
                " qubits but IonQ "@ + self.spec_config().target@ + " only supports "@,
                self.spec_config().max_qubits,
                " qubits"@,
            ),
    {
        if num_qubits > self.config.max_qubits {
            let mut middle = String::new();
            middle.append(" qubits but IonQ ");
            middle.append(self.config.target.as_str());
            middle.append(" only supports ");
            return Err(capacity_error("Problem requires ", num_qubits, middle.as_str(), self.config.max_qubits, " qubits"));
        }
        Ok(())
    }
}

/// The local simulator's qubit check: refused above `max_qubits`.
pub fn check_simulator_capacity(num_qubits: usize, max_qubits: usize) -> (r: Result<(), CoreError>)
    ensures
        r is Ok <==> num_qubits <= max_qubits,
        r matches Err(e) ==> e matches CoreError::InvalidOperation(msg) && msg@ == capacity_message(
            "Problem requires "@,
            num_qubits,
            " qubits but simulator limited to "@,
            max_qubits,
            " qubits for memory reasons"@,
        ),
{
    if num_qubits > max_qubits {
        return Err(capacity_error("Problem requires ", num_qubits, " qubits but simulator limited to ", max_qubits, " qubits for memory reasons"));
    }
    Ok(())
}

/// The shots a simulator search uses: the requested number, or the
/// configured one when zero is requested.
pub fn effective_shots(requested: usize, configured: usize) -> (n: usize)
    ensures
        n == (if requested > 0 { requested } else { configured }),
{
    if requested > 0 { requested } else { configured }
}

/// Configuration of the local state-vector simulator. The noise level, a
/// floating-point fraction, is carried as the bit pattern of its `f64`.
#[derive(Debug, Clone, Copy)]
pub struct SimulatorGroverConfig {
    /// Shots.
    pub num_shots: usize,
    /// Qubit limit (memory).
    pub max_qubits: usize,
    /// Simulate noise.
    pub simulate_noise: bool,
    /// Noise level (bits of its `f64`).
    pub noise_level_bits: u64,
}

/// The bits of the default noise level 0.01.
pub const DEFAULT_NOISE_LEVEL_BITS: u64 = 0x3F847AE147AE147B;

impl Default for SimulatorGroverConfig {
    fn default() -> (c: Self)
        ensures
            c.num_shots == 1024,
            c.max_qubits == 20,
            !c.simulate_noise,
            c.noise_level_bits == DEFAULT_NOISE_LEVEL_BITS,
    {
        SimulatorGroverConfig { num_shots: 1024, max_qubits: 20, simulate_noise: false, noise_level_bits: DEFAULT_NOISE_LEVEL_BITS }
    }
}

/// Grover's search on the local state-vector simulator.
pub struct SimulatorGroverSolver {
    config: SimulatorGroverConfig,
}

impl SimulatorGroverSolver {
    /// The solver's configuration.
    pub closed spec fn spec_config(&self) -> SimulatorGroverConfig {
        self.config
    }

    /// A solver with the given configuration.
    pub fn new(config: SimulatorGroverConfig) -> (s: Self)
        ensures
            s.spec_config() == config,
    {
        SimulatorGroverSolver { config }
    }

    /// Always available.
    pub fn is_available(&self) -> (r: bool)
        ensures
            r,
    {
        true
    }

    /// The configured qubit limit.
    pub fn max_qubits(&self) -> (n: usize)
        ensures
            n == self.spec_config().max_qubits,
    {
        self.config.max_qubits
    }

    /// The solver's name.
    pub fn name(&self) -> (s: &'static str)
        ensures
            s@ == "Local State Vector Simulator"@,
    {
        "Local State Vector Simulator"
    }

    /// Simulation.
    pub fn backend_type(&self) -> (b: GroverQuantumBackend)
        ensures
            b == GroverQuantumBackend::Simulator,
    {
        GroverQuantumBackend::Simulator
    }
}

impl Default for SimulatorGroverSolver {
    fn default() -> (s: Self)
        ensures
            s.spec_config().num_shots == 1024,
            s.spec_config().max_qubits == 20,
            !s.spec_config().simulate_noise,
    {
        SimulatorGroverSolver::new(SimulatorGroverConfig::default())
    }
}

/// Configuration of a unified Grover solver: the hardware backends that are
/// configured, the simulator, and the order in which backends are tried.
#[derive(Debug)]
pub struct UnifiedGroverConfig {
    /// IBM Quantum, when configured.
    pub ibm: Option<IBMGroverConfig>,
    /// AWS Braket, when configured.
    pub braket: Option<BraketGroverConfig>,
    /// IonQ, when configured.
    pub ionq: Option<IonQGroverConfig>,
    /// The local simulator.
    pub simulator: SimulatorGroverConfig,
    /// Backend names in the order they are tried; empty for the default.
    pub backend_priority: Vec<String>,
}

impl Default for UnifiedGroverConfig {
    fn default() -> (c: Self)
        ensures
            c.ibm is None,
            c.braket is None,
            c.ionq is None,
            c.simulator.num_shots == 1024,
            c.simulator.max_qubits == 20,
            c.backend_priority@.len() == 0,
    {
        UnifiedGroverConfig {
            ibm: None,
            braket: None,
            ionq: None,
            simulator: SimulatorGroverConfig::default(),
            backend_priority: Vec::new(),
        }
    }
}

impl UnifiedGroverConfig {
    /// The configuration the environment gives: IBM when
    /// `IBM_QUANTUM_API_KEY` is set (with `IBM_QUANTUM_BACKEND`, else
    /// ibm_brisbane), Braket with its defaults when `AWS_ACCESS_KEY_ID` is
    /// set, IonQ when `IONQ_API_KEY` is set, and the default order.
    pub fn from_env(env: &EnvSnapshot) -> (c: Self)
        ensures
            c.ibm is Some <==> env.ibm_quantum_api_key is Some,
            c.ibm matches Some(i) ==> {
                &&& i.api_token == env.ibm_quantum_api_key
                &&& i.backend_name@ == (match env.ibm_quantum_backend {
                    Some(b) => b@,
                    None => "ibm_brisbane"@,
                })
                &&& i.num_shots == 1024
                &&& i.max_qubits == Some(127usize)
            },
            c.braket is Some <==> env.aws_access_key_id is Some,
            c.braket matches Some(b) ==> is_default_braket_grover_config(b),
            c.ionq is Some <==> env.ionq_api_key is Some,
            c.ionq matches Some(q) ==> {
                &&& q.api_key == env.ionq_api_key
                &&& q.target@ == "simulator"@
                &&& q.max_qubits == 25
            },
            c.simulator.num_shots == 1024,
            c.simulator.max_qubits == 20,
            string_views(c.backend_priority@) == default_priority(),
    {
        let ibm = if env.ibm_quantum_api_key.is_some() {
            let d = IBMGroverConfig::default();
            Some(IBMGroverConfig {
                api_token: copy_opt(&env.ibm_quantum_api_key),
                backend_name: env_or(&env.ibm_quantum_backend, "ibm_brisbane"),
                ..d
            })
        } else {
            None
        };
        let braket = if env.aws_access_key_id.is_some() { Some(BraketGroverConfig::default()) } else { None };
        let ionq = if env.ionq_api_key.is_some() {
            let d = IonQGroverConfig::default();
            Some(IonQGroverConfig { api_key: copy_opt(&env.ionq_api_key), ..d })
        } else {
            None
        };
        UnifiedGroverConfig {
            ibm,
            braket,
            ionq,
            simulator: SimulatorGroverConfig::default(),
            backend_priority: effective_priority(Vec::new()),
        }
    }
}

/// A Grover solver over every configured backend, with the simulator as the
/// fallback.
pub struct UnifiedGroverSolver {
    ibm_solver: Option<IBMGroverSolver>,
    braket_solver: Option<BraketGroverSolver>,
    ionq_solver: Option<IonQGroverSolver>,
    simulator_solver: SimulatorGroverSolver,
    backend_priority: Vec<String>,
}

impl UnifiedGroverSolver {
    /// The backend order in force.
    pub closed spec fn spec_priority(&self) -> Seq<Seq<char>> {
        string_views(self.backend_priority@)
    }

    /// Which hardware backends are configured: IBM, IonQ, Braket.
    pub closed spec fn spec_configured(&self) -> (bool, bool, bool) {
        (self.ibm_solver is Some, self.ionq_solver is Some, self.braket_solver is Some)
    }

    /// Whether IBM is configured, and when it is whether it is available.
    pub closed spec fn spec_ibm(&self, env: EnvSnapshot) -> Option<bool> {
        match self.ibm_solver {
            Some(s) => Some(s.spec_available(env)),
            None => None,
        }
    }

    /// Whether IonQ is configured, and when it is whether it is available.
    pub closed spec fn spec_ionq(&self, env: EnvSnapshot) -> Option<bool> {
        match self.ionq_solver {
            Some(s) => Some(s.spec_available(env)),
            None => None,
        }
    }

    /// Whether Braket is configured, and when it is whether AWS credentials
    /// are reachable.
    pub closed spec fn spec_braket(&self, env: EnvSnapshot) -> Option<bool> {
        match self.braket_solver {
            Some(s) => Some(aws_credentials_present(env)),
            None => None,
        }
    }

    /// A solver over the configured backends; an empty order means the
    /// default one.
    pub fn new(config: UnifiedGroverConfig) -> (s: Self)
        ensures
            s.spec_priority() == (if config.backend_priority@.len() == 0 {
                default_priority()
            } else {
                string_views(config.backend_priority@)
            }),
            s.spec_configured() == (config.ibm is Some, config.ionq is Some, config.braket is Some),
            forall|env: EnvSnapshot| #[trigger] s.spec_ibm(env) == (match config.ibm {
                Some(c) => Some(c.api_token is Some || env.ibm_quantum_api_key is Some),
                None => None,
            }),
            forall|env: EnvSnapshot| #[trigger] s.spec_ionq(env) == (match config.ionq {
                Some(c) => Some(c.api_key is Some || env.ionq_api_key is Some),
                None => None,
            }),
            forall|env: EnvSnapshot| #[trigger] s.spec_braket(env) == (match config.braket {
                Some(c) => Some(aws_credentials_present(env)),
                None => None,
            }),
    {
        let ibm_solver = match config.ibm {
            Some(c) => Some(IBMGroverSolver::new(c)),
            None => None,
        };
        let braket_solver = match config.braket {
            Some(c) => Some(BraketGroverSolver::new(c)),
            None => None,
        };
        let ionq_solver = match config.ionq {
            Some(c) => Some(IonQGroverSolver::new(c)),
            None => None,
        };
        UnifiedGroverSolver {
            ibm_solver,
            braket_solver,
            ionq_solver,
            simulator_solver: SimulatorGroverSolver::new(config.simulator),
            backend_priority: effective_priority(config.backend_priority),
        }
    }

    /// A solver over the backends the environment configures.
    pub fn from_env(env: &EnvSnapshot) -> (s: Self)
        ensures
            s.spec_priority() == default_priority(),
            s.spec_configured() == (env.ibm_quantum_api_key is Some, env.ionq_api_key is Some, env.aws_access_key_id is Some),
            s.spec_ibm(*env) == (if env.ibm_quantum_api_key is Some { Some(true) } else { None::<bool> }),
            s.spec_ionq(*env) == (if env.ionq_api_key is Some { Some(true) } else { None::<bool> }),
            s.spec_braket(*env) == (if env.aws_access_key_id is Some { Some(true) } else { None::<bool> }),
    {
        let config = UnifiedGroverConfig::from_env(env);
        Self::new(config)
    }

    fn availability(&self, env: &EnvSnapshot) -> (a: (Option<bool>, Option<bool>, Option<bool>))
        ensures
            a == (self.spec_ibm(*env), self.spec_ionq(*env), self.spec_braket(*env)),
    {
        let ibm = match &self.ibm_solver {
            Some(s) => Some(s.is_available(env)),
            None => None,
        };
        let ionq = match &self.ionq_solver {
            Some(s) => Some(s.is_available(env)),
            None => None,
        };
        let braket = match &self.braket_solver {
            Some(s) => Some(s.is_available(env)),
            None => None,
        };
        (ibm, ionq, braket)
    }

    /// The backend a search runs on (see `choose_grover_backend`).
    pub fn selected_backend(&self, env: &EnvSnapshot) -> (c: GroverBackendChoice)
        ensures
            c == choose_grover_backend(self.spec_priority(), self.spec_ibm(*env), self.spec_ionq(*env), self.spec_braket(*env)),
    {
        let (ibm, ionq, braket) = self.availability(env);
        select_grover_backend(self.backend_priority.as_slice(), ibm, ionq, braket)
    }

    /// The names of the backends usable now (see `usable_grover_backends`).
    pub fn available_backends(&self, env: &EnvSnapshot) -> (v: Vec<String>)
        ensures
            string_views(v@) == usable_grover_backends(self.spec_ibm(*env), self.spec_ionq(*env), self.spec_braket(*env)),
    {
        let (ibm, ionq, braket) = self.availability(env);
        available_grover_backends(ibm, ionq, braket)
    }

    /// The backend a request by name selects (see `route_by_name`).
    pub fn backend_named(&self, name: &str) -> (r: Result<GroverBackendChoice, CoreError>)
        ensures
            match route_by_name(name@, self.spec_configured().0, self.spec_configured().1, self.spec_configured().2) {
                Ok(c) => r == Ok::<GroverBackendChoice, CoreError>(c),
                Err(m) => r matches Err(CoreError::InvalidOperation(msg)) && msg@ == m,
            },
    {
        route_grover_backend(name, self.ibm_solver.is_some(), self.ionq_solver.is_some(), self.braket_solver.is_some())
    }
}

impl Default for UnifiedGroverSolver {
    fn default() -> (s: Self)
        ensures
            s.spec_priority() == default_priority(),
            s.spec_configured() == (false, false, false),
            forall|env: EnvSnapshot| #[trigger] s.spec_ibm(env) is None,
            forall|env: EnvSnapshot| #[trigger] s.spec_ionq(env) is None,
            forall|env: EnvSnapshot| #[trigger] s.spec_braket(env) is None,
    {
        Self::new(UnifiedGroverConfig::default())
    }
}

/// The backend a unified Grover solver runs a search on.
#[derive(Debug, Clone, Copy, PartialEq, Eq, Structural)]
pub enum GroverBackendChoice {
    IBM,
    IonQ,
    Braket,
    Simulator,
}

/// The default backend order: ibm, ionq, braket, simulator.
pub open spec fn default_priority() -> Seq<Seq<char>> {
    seq!["ibm"@, "ionq"@, "braket"@, "simulator"@]
}

/// The backend chosen by walking `priority`: a configured and available
/// hardware backend named there, or the simulator when `simulator` comes
/// first; unknown names are skipped, and the simulator is the last resort.
/// `None` stands for a backend that is not configured, `Some(a)` for one
/// whose availability is `a`.
pub open spec fn choose_grover_backend(priority: Seq<Seq<char>>, ibm: Option<bool>, ionq: Option<bool>, braket: Option<bool>) -> GroverBackendChoice
    decreases priority.len(),
{
    if priority.len() == 0 {
        GroverBackendChoice::Simulator
    } else if priority[0] == "ibm"@ && ibm == Some(true) {
        GroverBackendChoice::IBM
    } else if priority[0] == "ionq"@ && ionq == Some(true) {
        GroverBackendChoice::IonQ
    } else if priority[0] == "braket"@ && braket == Some(true) {
        GroverBackendChoice::Braket
    } else if priority[0] == "simulator"@ {
        GroverBackendChoice::Simulator
    } else {
        choose_grover_backend(priority.drop_first(), ibm, ionq, braket)
    }
}

/// The views of a list of strings.
pub open spec fn string_views(v: Seq<String>) -> Seq<Seq<char>> {
    v.map_values(|s: String| s@)
}

/// Walks a backend priority list (see `choose_grover_backend`).
pub fn select_grover_backend(priority: &[String], ibm: Option<bool>, ionq: Option<bool>, braket: Option<bool>) -> (c: GroverBackendChoice)
    ensures
        c == choose_grover_backend(string_views(priority@), ibm, ionq, braket),
{
    let ghost all = string_views(priority@);
    let mut i: usize = 0;
    assert(all.subrange(0, all.len() as int) =~= all);
    while i < priority.len()
        invariant
            i <= priority@.len(),
            all == string_views(priority@),
            choose_grover_backend(all, ibm, ionq, braket) == choose_grover_backend(all.subrange(i as int, all.len() as int), ibm, ionq, braket),
        decreases priority@.len() - i,
    {
        let ghost rest = all.subrange(i as int, all.len() as int);
        assert(rest.drop_first() =~= all.subrange(i + 1, all.len() as int));
        assert(rest[0] == priority@[i as int]@);
        let name = priority[i].as_str();
        if str_equals(name, "ibm") && ibm == Some(true) {
            return GroverBackendChoice::IBM;
        }
        if str_equals(name, "ionq") && ionq == Some(true) {
            return GroverBackendChoice::IonQ;
        }
        if str_equals(name, "braket") && braket == Some(true) {
            return GroverBackendChoice::Braket;
        }
        if str_equals(name, "simulator") {
            return GroverBackendChoice::Simulator;
        }
        i = i + 1;
    }
    GroverBackendChoice::Simulator
}

/// The priority list a unified solver uses: the configured one, or the
/// default order when it is empty.
pub fn effective_priority(configured: Vec<String>) -> (v: Vec<String>)
    ensures
        string_views(v@) == (if configured@.len() == 0 { default_priority() } else { string_views(configured@) }),
{
    if configured.len() == 0 {
        let v = vec!["ibm".to_owned(), "ionq".to_owned(), "braket".to_owned(), "simulator".to_owned()];
        assert(string_views(v@) =~= default_priority());
        v
    } else {
        configured
    }
}

/// The names of the backends usable now: each configured and available
/// hardware backend in the order ibm, ionq, braket, then the simulator.
pub open spec fn usable_grover_backends(ibm: Option<bool>, ionq: Option<bool>, braket: Option<bool>) -> Seq<Seq<char>> {
    (if ibm == Some(true) { seq!["ibm"@] } else { seq![] })
        + (if ionq == Some(true) { seq!["ionq"@] } else { seq![] })
        + (if braket == Some(true) { seq!["braket"@] } else { seq![] })
        + seq!["simulator"@]
}

/// Lists the usable backends (see `usable_grover_backends`).
pub fn available_grover_backends(ibm: Option<bool>, ionq: Option<bool>, braket: Option<bool>) -> (v: Vec<String>)
    ensures
        string_views(v@) == usable_grover_backends(ibm, ionq, braket),
{
    let mut v: Vec<String> = Vec::new();
    if ibm == Some(true) {
        v.push("ibm".to_owned());
    }
    if ionq == Some(true) {
        v.push("ionq".to_owned());
    }
    if braket == Some(true) {
        v.push("braket".to_owned());
    }
    v.push("simulator".to_owned());
    assert(string_views(v@) =~= usable_grover_backends(ibm, ionq, braket));
    v
}

/// The backend a request by name selects, compared case-insensitively, or
/// why none does: a hardware backend must be configured, and the name must be
/// one of ibm, ionq, braket, simulator.
pub open spec fn route_by_name(name: Seq<char>, ibm_configured: bool, ionq_configured: bool, braket_configured: bool) -> Result<GroverBackendChoice, Seq<char>> {
    if lowercase_equals(name, "ibm"@) {
        if ibm_configured { Ok(GroverBackendChoice::IBM) } else { Err("IBM Quantum backend not configured"@) }
    } else if lowercase_equals(name, "ionq"@) {
        if ionq_configured { Ok(GroverBackendChoice::IonQ) } else { Err("IonQ backend not configured"@) }
    } else if lowercase_equals(name, "braket"@) {
        if braket_configured { Ok(GroverBackendChoice::Braket) } else { Err("AWS Braket backend not configured"@) }
    } else if lowercase_equals(name, "simulator"@) {
        Ok(GroverBackendChoice::Simulator)
    } else {
        Err("Unknown backend: "@ + name + ". Available: ibm, ionq, braket, simulator"@)
    }
}

/// Picks the backend named by a request (see `route_by_name`).
pub fn route_grover_backend(name: &str, ibm_configured: bool, ionq_configured: bool, braket_configured: bool) -> (r: Result<GroverBackendChoice, CoreError>)
    ensures
        match route_by_name(name@, ibm_configured, ionq_configured, braket_configured) {
            Ok(c) => r == Ok::<GroverBackendChoice, CoreError>(c),
            Err(m) => r matches Err(CoreError::InvalidOperation(msg)) && msg@ == m,
        },
{
    if lowercase_eq(name, "ibm") {
        if ibm_configured { Ok(GroverBackendChoice::IBM) } else { Err(CoreError::invalid_operation("IBM Quantum backend not configured")) }
    } else if lowercase_eq(name, "ionq") {
        if ionq_configured { Ok(GroverBackendChoice::IonQ) } else { Err(CoreError::invalid_operation("IonQ backend not configured")) }
    } else if lowercase_eq(name, "braket") {
        if braket_configured { Ok(GroverBackendChoice::Braket) } else { Err(CoreError::invalid_operation("AWS Braket backend not configured")) }
    } else if lowercase_eq(name, "simulator") {
        Ok(GroverBackendChoice::Simulator)
    } else {
        let mut m = String::new();
        m.append("Unknown backend: ");
        m.append(name);
        m.append(". Available: ibm, ionq, braket, simulator");
        assert(m@ =~= "Unknown backend: "@ + name@ + ". Available: ibm, ionq, braket, simulator"@);
        Err(CoreError::InvalidOperation(m))
    }
}

/// A chosen backend is always usable: a hardware backend only when it is
/// configured and available; otherwise the simulator.
pub proof fn lemma_grover_choice_usable(priority: Seq<Seq<char>>, ibm: Option<bool>, ionq: Option<bool>, braket: Option<bool>)
    ensures
        usable_grover_backends(ibm, ionq, braket).contains(match choose_grover_backend(priority, ibm, ionq, braket) {
            GroverBackendChoice::IBM => "ibm"@,
            GroverBackendChoice::IonQ => "ionq"@,
            GroverBackendChoice::Braket => "braket"@,
            GroverBackendChoice::Simulator => "simulator"@,
        }),
    decreases priority.len(),
{
    let u = usable_grover_backends(ibm, ionq, braket);
    assert(u[u.len() - 1] == "simulator"@);
    if priority.len() > 0 {
        lemma_grover_choice_usable(priority.drop_first(), ibm, ionq, braket);
        if ibm == Some(true) {
            assert(u[0] == "ibm"@);
        }
        if ionq == Some(true) {
            let k = if ibm == Some(true) { 1int } else { 0int };
            assert(u[k] == "ionq"@);
        }
        if braket == Some(true) {
            let k = (if ibm == Some(true) { 1int } else { 0int }) + (if ionq == Some(true) { 1int } else { 0int });
            assert(u[k] == "braket"@);
        }
    } else {
    }
}


/// The backend a priority entry selects on its own: a named hardware
/// backend when it is configured and available, the simulator for
/// `simulator`, nothing otherwise.
pub open spec fn entry_backend(name: Seq<char>, ibm: Option<bool>, ionq: Option<bool>, braket: Option<bool>) -> Option<GroverBackendChoice> {
    if name == "ibm"@ {
        if ibm == Some(true) { Some(GroverBackendChoice::IBM) } else { None }
    } else if name == "ionq"@ {
        if ionq == Some(true) { Some(GroverBackendChoice::IonQ) } else { None }
    } else if name == "braket"@ {
        if braket == Some(true) { Some(GroverBackendChoice::Braket) } else { None }
    } else if name == "simulator"@ {
        Some(GroverBackendChoice::Simulator)
    } else {
        None
    }
}

/// The chosen backend is the one selected by the first priority entry that
/// selects one (so a first entry naming a configured and available backend
/// selects it, whichever backend it names), and the simulator when no entry
/// does.
pub proof fn lemma_grover_choice_first_entry(priority: Seq<Seq<char>>, ibm: Option<bool>, ionq: Option<bool>, braket: Option<bool>)
    ensures
        forall|i: int| 0 <= i < priority.len() && (#[trigger] entry_backend(priority[i], ibm, ionq, braket)) is Some
            && (forall|j: int| 0 <= j < i ==> entry_backend(priority[j], ibm, ionq, braket) is None)
            ==> choose_grover_backend(priority, ibm, ionq, braket) == entry_backend(priority[i], ibm, ionq, braket)->0,
        (forall|j: int| 0 <= j < priority.len() ==> entry_backend(priority[j], ibm, ionq, braket) is None)
            ==> choose_grover_backend(priority, ibm, ionq, braket) == GroverBackendChoice::Simulator,
        priority.len() > 0 && priority[0] == "ibm"@ && ibm == Some(true)
            ==> choose_grover_backend(priority, ibm, ionq, braket) == GroverBackendChoice::IBM,
        priority.len() > 0 && priority[0] == "ionq"@ && ionq == Some(true)
            ==> choose_grover_backend(priority, ibm, ionq, braket) == GroverBackendChoice::IonQ,
        priority.len() > 0 && priority[0] == "braket"@ && braket == Some(true)
            ==> choose_grover_backend(priority, ibm, ionq, braket) == GroverBackendChoice::Braket,
        priority.len() > 0 && priority[0] == "simulator"@
            ==> choose_grover_backend(priority, ibm, ionq, braket) == GroverBackendChoice::Simulator,
    decreases priority.len(),
{
    reveal_strlit("ibm");
    reveal_strlit("ionq");
    reveal_strlit("braket");
    reveal_strlit("simulator");
    assert("ibm"@ != "ionq"@ && "ibm"@ != "braket"@ && "ibm"@ != "simulator"@) by {
        assert("ibm"@[1] != "ionq"@[1]);
        assert("ibm"@.len() != "braket"@.len());
        assert("ibm"@.len() != "simulator"@.len());
    }
    assert("ionq"@ != "braket"@ && "ionq"@ != "simulator"@) by {
        assert("ionq"@.len() != "braket"@.len());
        assert("ionq"@.len() != "simulator"@.len());
    }
    assert("braket"@ != "simulator"@) by {
        assert("braket"@.len() != "simulator"@.len());
    }
    if priority.len() > 0 {
        let rest = priority.drop_first();
        lemma_grover_choice_first_entry(rest, ibm, ionq, braket);
        if entry_backend(priority[0], ibm, ionq, braket) is None {
            assert(choose_grover_backend(priority, ibm, ionq, braket) == choose_grover_backend(rest, ibm, ionq, braket));
            assert forall|i: int| 0 <= i < priority.len() && (#[trigger] entry_backend(priority[i], ibm, ionq, braket)) is Some
                && (forall|j: int| 0 <= j < i ==> entry_backend(priority[j], ibm, ionq, braket) is None)
                implies choose_grover_backend(priority, ibm, ionq, braket) == entry_backend(priority[i], ibm, ionq, braket)->0 by {
                assert(i > 0);
                assert(rest[i - 1] == priority[i]);
                assert forall|j: int| 0 <= j < i - 1 implies entry_backend(rest[j], ibm, ionq, braket) is None by {
                    assert(rest[j] == priority[j + 1]);
                }
                assert(entry_backend(rest[i - 1], ibm, ionq, braket) is Some);
            }
            if forall|j: int| 0 <= j < priority.len() ==> entry_backend(priority[j], ibm, ionq, braket) is None {
                assert forall|j: int| 0 <= j < rest.len() implies entry_backend(rest[j], ibm, ionq, braket) is None by {
                    assert(rest[j] == priority[j + 1]);
                }
            }
        } else {
            assert forall|i: int| 0 <= i < priority.len() && (#[trigger] entry_backend(priority[i], ibm, ionq, braket)) is Some
                && (forall|j: int| 0 <= j < i ==> entry_backend(priority[j], ibm, ionq, braket) is None)
                implies choose_grover_backend(priority, ibm, ionq, braket) == entry_backend(priority[i], ibm, ionq, braket)->0 by {
                if i > 0 {
                    assert(entry_backend(priority[0], ibm, ionq, braket) is None);
                }
            }
        }
    }
}


/// A request by name gets the backend it names, compared case-insensitively,
/// whenever that backend is configured (the simulator always), and never a
/// backend it does not name or one that is not configured; a name that is
/// no backend's is refused.
pub proof fn lemma_route_by_name_honours_request(name: Seq<char>, ibm_configured: bool, ionq_configured: bool, braket_configured: bool)
    ensures
        lowercase_equals(name, "ibm"@) && ibm_configured
            ==> route_by_name(name, ibm_configured, ionq_configured, braket_configured) == Ok::<GroverBackendChoice, Seq<char>>(GroverBackendChoice::IBM),
        lowercase_equals(name, "ionq"@) && ionq_configured
            ==> route_by_name(name, ibm_configured, ionq_configured, braket_configured) == Ok::<GroverBackendChoice, Seq<char>>(GroverBackendChoice::IonQ),
        lowercase_equals(name, "braket"@) && braket_configured
            ==> route_by_name(name, ibm_configured, ionq_configured, braket_configured) == Ok::<GroverBackendChoice, Seq<char>>(GroverBackendChoice::Braket),
        lowercase_equals(name, "simulator"@)
            ==> route_by_name(name, ibm_configured, ionq_configured, braket_configured) == Ok::<GroverBackendChoice, Seq<char>>(GroverBackendChoice::Simulator),
        route_by_name(name, ibm_configured, ionq_configured, braket_configured) matches Ok(c) ==> match c {
            GroverBackendChoice::IBM => lowercase_equals(name, "ibm"@) && ibm_configured,
            GroverBackendChoice::IonQ => lowercase_equals(name, "ionq"@) && ionq_configured,
            GroverBackendChoice::Braket => lowercase_equals(name, "braket"@) && braket_configured,
            GroverBackendChoice::Simulator => lowercase_equals(name, "simulator"@),
        },
        !lowercase_equals(name, "ibm"@) && !lowercase_equals(name, "ionq"@) && !lowercase_equals(name, "braket"@)
            && !lowercase_equals(name, "simulator"@)
            ==> route_by_name(name, ibm_configured, ionq_configured, braket_configured) is Err,
{
    reveal_strlit("ibm");
    reveal_strlit("ionq");
    reveal_strlit("braket");
    reveal_strlit("simulator");
}

} // verus!
