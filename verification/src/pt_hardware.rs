//! Parallel tempering on hardware backends: per-provider configuration,
//! availability, and the choice of a backend for a problem size.

use vstd::prelude::*;
use crate::env::{copy_opt, env_or, first_set, EnvSnapshot};

verus! {

/// A parallel-tempering backend.
#[derive(Debug, Clone, Copy, PartialEq, Eq, Structural)]
pub enum PTBackendType {
    IBMQuantum,
    AWSBraket,
    DWave,
    IonQ,
    LocalSimulator,
}

/// The display name of a backend type.
pub open spec fn pt_backend_name(t: PTBackendType) -> Seq<char> {
    match t {
        PTBackendType::IBMQuantum => "IBM Quantum"@,
        PTBackendType::AWSBraket => "AWS Braket"@,
        PTBackendType::DWave => "D-Wave"@,
        PTBackendType::IonQ => "IonQ"@,
        PTBackendType::LocalSimulator => "Local Simulator"@,
    }
}

impl PTBackendType {
    /// The backend type's display name.
    pub fn to_display_string(&self) -> (s: String)
        ensures
            s@ == pt_backend_name(*self),
    {
        match self {
            PTBackendType::IBMQuantum => "IBM Quantum".to_owned(),
            PTBackendType::AWSBraket => "AWS Braket".to_owned(),
            PTBackendType::DWave => "D-Wave".to_owned(),
            PTBackendType::IonQ => "IonQ".to_owned(),
            PTBackendType::LocalSimulator => "Local Simulator".to_owned(),
        }
    }
}

/// The parallel-tempering backend of a quantum simulation.
#[derive(Debug, Clone, Copy, PartialEq, Eq, Structural)]
pub enum QuantumBackend {
    /// Path-integral Monte Carlo.
    PathIntegralMonteCarlo,
    /// Quantum Monte Carlo.
    QuantumMonteCarlo,
    /// Quantum annealing.
    QuantumAnnealing,
    /// Hybrid classical-quantum.
    Hybrid,
}

impl Default for QuantumBackend {
    fn default() -> (b: Self)
        ensures
            b == QuantumBackend::PathIntegralMonteCarlo,
    {
        QuantumBackend::PathIntegralMonteCarlo
    }
}

/// IBM Quantum parallel-tempering configuration (QITE thermal states).
#[derive(Debug)]
pub struct IBMPTConfig {
    pub api_token: Option<String>,
    pub api_endpoint: String,
    pub backend_name: String,
    pub num_shots: usize,
    pub error_mitigation: bool,
    pub dynamic_decoupling: bool,
    pub max_qubits: Option<usize>,
    pub timeout_secs: u64,
    pub max_retries: u32,
    pub use_qite: bool,
    pub qite_trotter_steps: usize,
}

/// The default IBM parallel-tempering configuration.
pub open spec fn is_default_ibm_pt_config(c: IBMPTConfig) -> bool {
    &&& c.api_token is None
    &&& c.api_endpoint@ == "https://api.quantum.ibm.com/runtime"@
    &&& c.backend_name@ == "ibm_brisbane"@
    &&& c.num_shots == 1024
    &&& c.error_mitigation
    &&& c.dynamic_decoupling
    &&& c.max_qubits == Some(127usize)
    &&& c.timeout_secs == 600
    &&& c.max_retries == 3
    &&& c.use_qite
    &&& c.qite_trotter_steps == 10
}

impl Default for IBMPTConfig {
    fn default() -> (c: Self)
        ensures
            is_default_ibm_pt_config(c),
    {
        IBMPTConfig {
            api_token: None,
            api_endpoint: "https://api.quantum.ibm.com/runtime".to_owned(),
            backend_name: "ibm_brisbane".to_owned(),
            num_shots: 1024,
            error_mitigation: true,
            dynamic_decoupling: true,
            max_qubits: Some(127),
            timeout_secs: 600,
            max_retries: 3,
            use_qite: true,
            qite_trotter_steps: 10,
        }
    }
}

impl Clone for IBMPTConfig {
    fn clone(&self) -> (c: Self)
        ensures
            c == *self,
    {
        IBMPTConfig {
            api_token: copy_opt(&self.api_token),
            api_endpoint: self.api_endpoint.clone(),
            backend_name: self.backend_name.clone(),
            num_shots: self.num_shots,
            error_mitigation: self.error_mitigation,
            dynamic_decoupling: self.dynamic_decoupling,
            max_qubits: self.max_qubits,
            timeout_secs: self.timeout_secs,
            max_retries: self.max_retries,
            use_qite: self.use_qite,
            qite_trotter_steps: self.qite_trotter_steps,
        }
    }
}

/// AWS Braket parallel-tempering configuration.
#[derive(Debug)]
pub struct BraketPTConfig {
    pub aws_access_key_id: Option<String>,
    pub aws_secret_access_key: Option<String>,
    pub aws_region: String,
    pub s3_bucket: String,
    pub device_arn: String,
    pub num_shots: usize,
    pub max_qubits: Option<usize>,
    pub timeout_secs: u64,
    pub use_hybrid_solver: bool,
}

/// The default Braket parallel-tempering configuration (IonQ Aria).
pub open spec fn is_default_braket_pt_config(c: BraketPTConfig) -> bool {
    &&& c.aws_access_key_id is None
    &&& c.aws_secret_access_key is None
    &&& c.aws_region@ == "us-east-1"@
    &&& c.s3_bucket@ == "amazon-braket-results"@
    &&& c.device_arn@ == "arn:aws:braket:us-east-1::device/qpu/ionq/Aria-1"@
    &&& c.num_shots == 1000
    &&& c.max_qubits == Some(25usize)
    &&& c.timeout_secs == 600
    &&& !c.use_hybrid_solver
}

impl Default for BraketPTConfig {
    fn default() -> (c: Self)
        ensures
            is_default_braket_pt_config(c),
    {
        BraketPTConfig {
            aws_access_key_id: None,
            aws_secret_access_key: None,
            aws_region: "us-east-1".to_owned(),
            s3_bucket: "amazon-braket-results".to_owned(),
            device_arn: "arn:aws:braket:us-east-1::device/qpu/ionq/Aria-1".to_owned(),
            num_shots: 1000,
            max_qubits: Some(25),
            timeout_secs: 600,
            use_hybrid_solver: false,
        }
    }
}

impl Clone for BraketPTConfig {
    fn clone(&self) -> (c: Self)
        ensures
            c == *self,
    {
        BraketPTConfig {
            aws_access_key_id: copy_opt(&self.aws_access_key_id),
            aws_secret_access_key: copy_opt(&self.aws_secret_access_key),
            aws_region: self.aws_region.clone(),
            s3_bucket: self.s3_bucket.clone(),
            device_arn: self.device_arn.clone(),
            num_shots: self.num_shots,
            max_qubits: self.max_qubits,
            timeout_secs: self.timeout_secs,
            use_hybrid_solver: self.use_hybrid_solver,
        }
    }
}

/// D-Wave parallel-tempering configuration (reverse annealing).
#[derive(Debug)]
pub struct DWavePTConfig {
    pub api_token: Option<String>,
    pub api_endpoint: String,
    pub solver_name: Option<String>,
    pub num_reads: usize,
    pub annealing_time_us: u64,
    pub auto_scale: bool,
    pub use_reverse_annealing: bool,
    pub pause_duration_us: u64,
    pub max_qubits: Option<usize>,
    pub timeout_secs: u64,
}

/// The default D-Wave parallel-tempering configuration.
pub open spec fn is_default_dwave_pt_config(c: DWavePTConfig) -> bool {
    &&& c.api_token is None
    &&& c.api_endpoint@ == "https://cloud.dwavesys.com/sapi/v2"@
    &&& c.solver_name is None
    &&& c.num_reads == 1000
    &&& c.annealing_time_us == 20
    &&& c.auto_scale
    &&& c.use_reverse_annealing
    &&& c.pause_duration_us == 100
    &&& c.max_qubits == Some(5000usize)
    &&& c.timeout_secs == 300
}

impl Default for DWavePTConfig {
    fn default() -> (c: Self)
        ensures
            is_default_dwave_pt_config(c),
    {
        DWavePTConfig {
            api_token: None,
            api_endpoint: "https://cloud.dwavesys.com/sapi/v2".to_owned(),
            solver_name: None,
            num_reads: 1000,
            annealing_time_us: 20,
            auto_scale: true,
            use_reverse_annealing: true,
            pause_duration_us: 100,
            max_qubits: Some(5000),
            timeout_secs: 300,
        }
    }
}

impl Clone for DWavePTConfig {
    fn clone(&self) -> (c: Self)
        ensures
            c == *self,
    {
        DWavePTConfig {
            api_token: copy_opt(&self.api_token),
            api_endpoint: self.api_endpoint.clone(),
            solver_name: copy_opt(&self.solver_name),
            num_reads: self.num_reads,
            annealing_time_us: self.annealing_time_us,
            auto_scale: self.auto_scale,
            use_reverse_annealing: self.use_reverse_annealing,
            pause_duration_us: self.pause_duration_us,
            max_qubits: self.max_qubits,
            timeout_secs: self.timeout_secs,
        }
    }
}

/// IonQ parallel-tempering configuration.
#[derive(Debug)]
pub struct IonQPTConfig {
    pub api_key: Option<String>,
    pub api_endpoint: String,
    pub target: String,
    pub num_shots: usize,
    pub max_qubits: Option<usize>,
    pub timeout_secs: u64,
    pub error_mitigation_level: u8,
}

/// The default IonQ parallel-tempering configuration (Aria).
pub open spec fn is_default_ionq_pt_config(c: IonQPTConfig) -> bool {
    &&& c.api_key is None
    &&& c.api_endpoint@ == "https://api.ionq.co/v0.3"@
    &&& c.target@ == "qpu.aria-1"@
    &&& c.num_shots == 1024
    &&& c.max_qubits == Some(25usize)
    &&& c.timeout_secs == 600
    &&& c.error_mitigation_level == 1
}

impl Default for IonQPTConfig {
    fn default() -> (c: Self)
        ensures
            is_default_ionq_pt_config(c),
    {
        IonQPTConfig {
            api_key: None,
            api_endpoint: "https://api.ionq.co/v0.3".to_owned(),
            target: "qpu.aria-1".to_owned(),
            num_shots: 1024,
            max_qubits: Some(25),
            timeout_secs: 600,
            error_mitigation_level: 1,
        }
    }
}

impl Clone for IonQPTConfig {
    fn clone(&self) -> (c: Self)
        ensures
            c == *self,
    {
        IonQPTConfig {
            api_key: copy_opt(&self.api_key),
            api_endpoint: self.api_endpoint.clone(),
            target: self.target.clone(),
            num_shots: self.num_shots,
            max_qubits: self.max_qubits,
            timeout_secs: self.timeout_secs,
            error_mitigation_level: self.error_mitigation_level,
        }
    }
}

/// Local simulator configuration.
#[derive(Debug, Clone, Copy)]
pub struct SimulatorPTConfig {
    pub max_qubits: usize,
    pub num_sweeps: usize,
}

impl Default for SimulatorPTConfig {
    fn default() -> (c: Self)
        ensures
            c.max_qubits == 20,
            c.num_sweeps == 1000,
    {
        SimulatorPTConfig { max_qubits: 20, num_sweeps: 1000 }
    }
}

/// IBM Quantum parallel tempering.
pub struct IBMParallelTemperingSolver {
    config: IBMPTConfig,
}

impl IBMParallelTemperingSolver {
    pub closed spec fn spec_config(&self) -> IBMPTConfig {
        self.config
    }

    /// Whether a token is in force, configured or from `IBM_QUANTUM_API_KEY`.
    pub open spec fn spec_available(&self, env: EnvSnapshot) -> bool {
        self.spec_config().api_token is Some || env.ibm_quantum_api_key is Some
    }

    /// The qubit limit: the configured one, else 127.
    pub open spec fn spec_max_qubits(&self) -> usize {
        match self.spec_config().max_qubits {
            Some(m) => m,
            None => 127,
        }
    }

    pub fn new(config: IBMPTConfig) -> (s: Self)
        ensures
            s.spec_config() == config,
    {
        IBMParallelTemperingSolver { config }
    }

    /// A solver configured from `IBM_QUANTUM_API_KEY` and
    /// `IBM_QUANTUM_BACKEND` (ibm_brisbane), the rest default.
    pub fn from_env(env: &EnvSnapshot) -> (s: Self)
        ensures
            s.spec_config().api_token == env.ibm_quantum_api_key,
            s.spec_config().backend_name@ == (match env.ibm_quantum_backend {
                Some(b) => b@,
                None => "ibm_brisbane"@,
            }),
            s.spec_config().max_qubits == Some(127usize),
    {
        let d = IBMPTConfig::default();
        Self::new(IBMPTConfig {
            api_token: copy_opt(&env.ibm_quantum_api_key),
            backend_name: env_or(&env.ibm_quantum_backend, "ibm_brisbane"),
            ..d
        })
    }

    pub fn is_available(&self, env: &EnvSnapshot) -> (r: bool)
        ensures
            r == self.spec_available(*env),
    {
        first_set(&self.config.api_token, &env.ibm_quantum_api_key).is_some()
    }

    pub fn max_qubits(&self) -> (n: usize)
        ensures
            n == self.spec_max_qubits(),
    {
        match self.config.max_qubits {
            Some(m) => m,
            None => 127,
        }
    }

    pub fn name(&self) -> (s: &'static str)
        ensures
            s@ == "IBM Quantum Parallel Tempering"@,
    {
        "IBM Quantum Parallel Tempering"
    }

    pub fn backend_type(&self) -> (t: PTBackendType)
        ensures
            t == PTBackendType::IBMQuantum,
    {
        PTBackendType::IBMQuantum
    }
}

/// AWS Braket parallel tempering.
pub struct BraketParallelTemperingSolver {
    config: BraketPTConfig,
}

impl BraketParallelTemperingSolver {
    pub closed spec fn spec_config(&self) -> BraketPTConfig {
        self.config
    }

    /// Whether credentials are reachable: a configured access key,
    /// `AWS_ACCESS_KEY_ID` or `AWS_PROFILE`.
    pub open spec fn spec_available(&self, env: EnvSnapshot) -> bool {
        self.spec_config().aws_access_key_id is Some || env.aws_access_key_id is Some || env.aws_profile is Some
    }

    /// The qubit limit: the configured one, else 25.
    pub open spec fn spec_max_qubits(&self) -> usize {
        match self.spec_config().max_qubits {
            Some(m) => m,
            None => 25,
        }
    }

    pub fn new(config: BraketPTConfig) -> (s: Self)
        ensures
            s.spec_config() == config,
    {
        BraketParallelTemperingSolver { config }
    }

    /// A solver configured from the AWS variables: access key, secret,
    /// region (us-east-1), bucket (amazon-braket-results) and device ARN
    /// (IonQ Aria), the rest default.
    pub fn from_env(env: &EnvSnapshot) -> (s: Self)
        ensures
            s.spec_config().aws_access_key_id == env.aws_access_key_id,
            s.spec_config().aws_secret_access_key == env.aws_secret_access_key,
            s.spec_config().aws_region@ == (match env.aws_region {
                Some(r) => r@,
                None => "us-east-1"@,
            }),
            s.spec_config().s3_bucket@ == (match env.aws_braket_s3_bucket {
                Some(b) => b@,
                None => "amazon-braket-results"@,
            }),
            s.spec_config().device_arn@ == (match env.aws_braket_device_arn {
                Some(a) => a@,
                None => "arn:aws:braket:us-east-1::device/qpu/ionq/Aria-1"@,
            }),
            s.spec_config().max_qubits == Some(25usize),
    {
        let d = BraketPTConfig::default();
        Self::new(BraketPTConfig {
            aws_access_key_id: copy_opt(&env.aws_access_key_id),
            aws_secret_access_key: copy_opt(&env.aws_secret_access_key),
            aws_region: env_or(&env.aws_region, "us-east-1"),
            s3_bucket: env_or(&env.aws_braket_s3_bucket, "amazon-braket-results"),
            device_arn: env_or(&env.aws_braket_device_arn, "arn:aws:braket:us-east-1::device/qpu/ionq/Aria-1"),
            ..d
        })
    }

    pub fn is_available(&self, env: &EnvSnapshot) -> (r: bool)
        ensures
            r == self.spec_available(*env),
    {
        self.config.aws_access_key_id.is_some() || env.aws_access_key_id.is_some() || env.aws_profile.is_some()
    }

    pub fn max_qubits(&self) -> (n: usize)
        ensures
            n == self.spec_max_qubits(),
    {
        match self.config.max_qubits {
            Some(m) => m,
            None => 25,
        }
    }

    pub fn name(&self) -> (s: &'static str)
        ensures
            s@ == "AWS Braket Parallel Tempering"@,
    {
        "AWS Braket Parallel Tempering"
    }

    pub fn backend_type(&self) -> (t: PTBackendType)
        ensures
            t == PTBackendType::AWSBraket,
    {
        PTBackendType::AWSBraket
    }
}

/// D-Wave parallel tempering.
pub struct DWaveParallelTemperingSolver {
    config: DWavePTConfig,
}

impl DWaveParallelTemperingSolver {
    pub closed spec fn spec_config(&self) -> DWavePTConfig {
        self.config
    }

    /// Whether a token is in force, configured or from `DWAVE_API_TOKEN`.
    pub open spec fn spec_available(&self, env: EnvSnapshot) -> bool {
        self.spec_config().api_token is Some || env.dwave_api_token is Some
    }

    /// The qubit limit: the configured one, else 5000.
    pub open spec fn spec_max_qubits(&self) -> usize {
        match self.spec_config().max_qubits {
            Some(m) => m,
            None => 5000,
        }
    }

    pub fn new(config: DWavePTConfig) -> (s: Self)
        ensures
            s.spec_config() == config,
    {
        DWaveParallelTemperingSolver { config }
    }

    /// A solver configured from `DWAVE_API_TOKEN` and `DWAVE_SOLVER`, the
    /// rest default.
    pub fn from_env(env: &EnvSnapshot) -> (s: Self)
        ensures
            s.spec_config().api_token == env.dwave_api_token,
            s.spec_config().solver_name == env.dwave_solver,
            s.spec_config().max_qubits == Some(5000usize),
    {
        let d = DWavePTConfig::default();
        Self::new(DWavePTConfig {
            api_token: copy_opt(&env.dwave_api_token),
            solver_name: copy_opt(&env.dwave_solver),
            ..d
        })
    }

    pub fn is_available(&self, env: &EnvSnapshot) -> (r: bool)
        ensures
            r == self.spec_available(*env),
    {
        first_set(&self.config.api_token, &env.dwave_api_token).is_some()
    }

    pub fn max_qubits(&self) -> (n: usize)
        ensures
            n == self.spec_max_qubits(),
    {
        match self.config.max_qubits {
            Some(m) => m,
            None => 5000,
        }
    }

    pub fn name(&self) -> (s: &'static str)
        ensures
            s@ == "D-Wave Parallel Tempering"@,
    {
        "D-Wave Parallel Tempering"
    }

    pub fn backend_type(&self) -> (t: PTBackendType)
        ensures
            t == PTBackendType::DWave,
    {
        PTBackendType::DWave
    }
}

/// IonQ parallel tempering.
pub struct IonQParallelTemperingSolver {
    config: IonQPTConfig,
}

impl IonQParallelTemperingSolver {
    pub closed spec fn spec_config(&self) -> IonQPTConfig {
        self.config
    }

    /// Whether a key is in force, configured or from `IONQ_API_KEY`.
    pub open spec fn spec_available(&self, env: EnvSnapshot) -> bool {
        self.spec_config().api_key is Some || env.ionq_api_key is Some
    }

    /// The qubit limit: the configured one, else 25.
    pub open spec fn spec_max_qubits(&self) -> usize {
        match self.spec_config().max_qubits {
            Some(m) => m,
            None => 25,
        }
    }

    pub fn new(config: IonQPTConfig) -> (s: Self)
        ensures
            s.spec_config() == config,
    {
        IonQParallelTemperingSolver { config }
    }

    /// A solver configured from `IONQ_API_KEY` and `IONQ_TARGET`
    /// (qpu.aria-1), the rest default.
    pub fn from_env(env: &EnvSnapshot) -> (s: Self)
        ensures
            s.spec_config().api_key == env.ionq_api_key,
            s.spec_config().target@ == (match env.ionq_target {
                Some(t) => t@,
                None => "qpu.aria-1"@,
            }),
            s.spec_config().max_qubits == Some(25usize),
    {
        let d = IonQPTConfig::default();
        Self::new(IonQPTConfig {
            api_key: copy_opt(&env.ionq_api_key),
            target: env_or(&env.ionq_target, "qpu.aria-1"),
            ..d
        })
    }

    pub fn is_available(&self, env: &EnvSnapshot) -> (r: bool)
        ensures
            r == self.spec_available(*env),
    {
        first_set(&self.config.api_key, &env.ionq_api_key).is_some()
    }

    pub fn max_qubits(&self) -> (n: usize)
        ensures
            n == self.spec_max_qubits(),
    {
        match self.config.max_qubits {
            Some(m) => m,
            None => 25,
        }
    }

    pub fn name(&self) -> (s: &'static str)
        ensures
            s@ == "IonQ Parallel Tempering"@,
    {
        "IonQ Parallel Tempering"
    }

    pub fn backend_type(&self) -> (t: PTBackendType)
        ensures
            t == PTBackendType::IonQ,
    {
        PTBackendType::IonQ
    }
}

/// Local classical parallel tempering (always available).
pub struct SimulatorParallelTemperingSolver {
    config: SimulatorPTConfig,
}

impl SimulatorParallelTemperingSolver {
    pub closed spec fn spec_config(&self) -> SimulatorPTConfig {
        self.config
    }

    pub fn new(config: SimulatorPTConfig) -> (s: Self)
        ensures
            s.spec_config() == config,
    {
        SimulatorParallelTemperingSolver { config }
    }

    /// The simulator with its default limits (20 qubits, 1000 sweeps).
    pub fn default_simulator() -> (s: Self)
        ensures
            s.spec_config().max_qubits == 20,
            s.spec_config().num_sweeps == 1000,
    {
        Self::new(SimulatorPTConfig::default())
    }

    /// Always available.
    pub fn is_available(&self) -> (r: bool)
        ensures
            r,
    {
        true
    }

    pub fn max_qubits(&self) -> (n: usize)
        ensures
            n == self.spec_config().max_qubits,
    {
        self.config.max_qubits
    }

    pub fn name(&self) -> (s: &'static str)
        ensures
            s@ == "Local Simulator"@,
    {
        "Local Simulator"
    }

    pub fn backend_type(&self) -> (t: PTBackendType)
        ensures
            t == PTBackendType::LocalSimulator,
    {
        PTBackendType::LocalSimulator
    }
}

/// Configuration of the unified parallel-tempering solver.
#[derive(Debug)]
pub struct UnifiedPTConfig {
    /// Backends to try, in order.
    pub backend_preference: Vec<PTBackendType>,
    pub ibm_config: Option<IBMPTConfig>,
    pub braket_config: Option<BraketPTConfig>,
    pub dwave_config: Option<DWavePTConfig>,
    pub ionq_config: Option<IonQPTConfig>,
    pub simulator_config: SimulatorPTConfig,
    /// Fall back to the local simulator.
    pub fallback_to_simulator: bool,
}

/// The default order: D-Wave, IBM Quantum, AWS Braket, IonQ, local simulator.
pub open spec fn default_pt_preference() -> Seq<PTBackendType> {
    seq![PTBackendType::DWave, PTBackendType::IBMQuantum, PTBackendType::AWSBraket, PTBackendType::IonQ, PTBackendType::LocalSimulator]
}

impl Default for UnifiedPTConfig {
    fn default() -> (c: Self)
        ensures
            c.backend_preference@ == default_pt_preference(),
            c.ibm_config is None,
            c.braket_config is None,
            c.dwave_config is None,
            c.ionq_config is None,
            c.simulator_config.max_qubits == 20,
            c.simulator_config.num_sweeps == 1000,
            c.fallback_to_simulator,
    {
        let v = vec![PTBackendType::DWave, PTBackendType::IBMQuantum, PTBackendType::AWSBraket, PTBackendType::IonQ, PTBackendType::LocalSimulator];
        assert(v@ =~= default_pt_preference());
        UnifiedPTConfig {
            backend_preference: v,
            ibm_config: None,
            braket_config: None,
            dwave_config: None,
            ionq_config: None,
            simulator_config: SimulatorPTConfig::default(),
            fallback_to_simulator: true,
        }
    }
}

/// What the unified solver knows of one hardware backend when choosing: not
/// configured (`None`), or its availability and qubit limit.
pub type BackendState = Option<(bool, usize)>;

/// Whether a backend in state `s` can take `n` qubits.
pub open spec fn can_take(s: BackendState, n: usize) -> bool {
    s matches Some((available, max)) && available && n <= max
}

/// The backend chosen for `n` qubits by walking `prefs`: the first listed
/// hardware backend that is configured, available and large enough, or the
/// simulator when it is listed first among the usable ones and takes `n`
/// qubits with fallback enabled; after the list, the simulator if fallback is
/// enabled, else nothing.
pub open spec fn choose_pt_backend(
    prefs: Seq<PTBackendType>,
    n: usize,
    ibm: BackendState,
    braket: BackendState,
    dwave: BackendState,
    ionq: BackendState,
    sim_max: usize,
    fallback: bool,
) -> Option<PTBackendType>
    decreases prefs.len(),
{
    if prefs.len() == 0 {
        if fallback { Some(PTBackendType::LocalSimulator) } else { None }
    } else {
        let t = prefs[0];
        let takes = match t {
            PTBackendType::IBMQuantum => can_take(ibm, n),
            PTBackendType::AWSBraket => can_take(braket, n),
            PTBackendType::DWave => can_take(dwave, n),
            PTBackendType::IonQ => can_take(ionq, n),
            PTBackendType::LocalSimulator => fallback && n <= sim_max,
        };
        if takes {
            Some(t)
        } else {
            choose_pt_backend(prefs.drop_first(), n, ibm, braket, dwave, ionq, sim_max, fallback)
        }
    }
}

/// The backends usable now: each configured and available hardware backend
/// in the order IBM Quantum, AWS Braket, D-Wave, IonQ, then the simulator if
/// fallback is enabled.
pub open spec fn usable_pt_backends(ibm: BackendState, braket: BackendState, dwave: BackendState, ionq: BackendState, fallback: bool) -> Seq<PTBackendType> {
    (if ibm matches Some((a, _)) && a { seq![PTBackendType::IBMQuantum] } else { seq![] })
        + (if braket matches Some((a, _)) && a { seq![PTBackendType::AWSBraket] } else { seq![] })
        + (if dwave matches Some((a, _)) && a { seq![PTBackendType::DWave] } else { seq![] })
        + (if ionq matches Some((a, _)) && a { seq![PTBackendType::IonQ] } else { seq![] })
        + (if fallback { seq![PTBackendType::LocalSimulator] } else { seq![] })
}

/// The unified parallel-tempering solver: it runs a problem on the first
/// preferred backend that can take it.
pub struct UnifiedPTSolver {
    backend_preference: Vec<PTBackendType>,
    fallback_to_simulator: bool,
    ibm_solver: Option<IBMParallelTemperingSolver>,
    braket_solver: Option<BraketParallelTemperingSolver>,
    dwave_solver: Option<DWaveParallelTemperingSolver>,
    ionq_solver: Option<IonQParallelTemperingSolver>,
    simulator_solver: SimulatorParallelTemperingSolver,
}

impl UnifiedPTSolver {
    pub closed spec fn spec_preference(&self) -> Seq<PTBackendType> {
        self.backend_preference@
    }

    pub closed spec fn spec_fallback(&self) -> bool {
        self.fallback_to_simulator
    }

    pub closed spec fn spec_sim_max(&self) -> usize {
        self.simulator_solver.spec_config().max_qubits
    }

    /// The state of the IBM backend in `env`.
    pub closed spec fn spec_ibm(&self, env: EnvSnapshot) -> BackendState {
        match self.ibm_solver {
            Some(s) => Some((s.spec_available(env), s.spec_max_qubits())),
            None => None,
        }
    }

    /// The state of the Braket backend in `env`.
    pub closed spec fn spec_braket(&self, env: EnvSnapshot) -> BackendState {
        match self.braket_solver {
            Some(s) => Some((s.spec_available(env), s.spec_max_qubits())),
            None => None,
        }
    }

    /// The state of the D-Wave backend in `env`.
    pub closed spec fn spec_dwave(&self, env: EnvSnapshot) -> BackendState {
        match self.dwave_solver {
            Some(s) => Some((s.spec_available(env), s.spec_max_qubits())),
            None => None,
        }
    }

    /// The state of the IonQ backend in `env`.
    pub closed spec fn spec_ionq(&self, env: EnvSnapshot) -> BackendState {
        match self.ionq_solver {
            Some(s) => Some((s.spec_available(env), s.spec_max_qubits())),
            None => None,
        }
    }

    /// A solver built from a configuration: one backend per configured
    /// provider.
    pub fn new(config: UnifiedPTConfig) -> (s: Self)
        ensures
            s.spec_preference() == config.backend_preference@,
            s.spec_fallback() == config.fallback_to_simulator,
            s.spec_sim_max() == config.simulator_config.max_qubits,
            forall|env: EnvSnapshot| #[trigger] s.spec_ibm(env) == (match config.ibm_config {
                Some(c) => Some((c.api_token is Some || env.ibm_quantum_api_key is Some, match c.max_qubits { Some(m) => m, None => 127usize })),
                None => None,
            }),
            forall|env: EnvSnapshot| #[trigger] s.spec_braket(env) == (match config.braket_config {
                Some(c) => Some((c.aws_access_key_id is Some || env.aws_access_key_id is Some || env.aws_profile is Some, match c.max_qubits { Some(m) => m, None => 25usize })),
                None => None,
            }),
            forall|env: EnvSnapshot| #[trigger] s.spec_dwave(env) == (match config.dwave_config {
                Some(c) => Some((c.api_token is Some || env.dwave_api_token is Some, match c.max_qubits { Some(m) => m, None => 5000usize })),
                None => None,
            }),
            forall|env: EnvSnapshot| #[trigger] s.spec_ionq(env) == (match config.ionq_config {
                Some(c) => Some((c.api_key is Some || env.ionq_api_key is Some, match c.max_qubits { Some(m) => m, None => 25usize })),
                None => None,
            }),
    {
        let UnifiedPTConfig { backend_preference, ibm_config, braket_config, dwave_config, ionq_config, simulator_config, fallback_to_simulator } = config;
        let ibm_solver = match ibm_config { Some(c) => Some(IBMParallelTemperingSolver::new(c)), None => None };
        let braket_solver = match braket_config { Some(c) => Some(BraketParallelTemperingSolver::new(c)), None => None };
        let dwave_solver = match dwave_config { Some(c) => Some(DWaveParallelTemperingSolver::new(c)), None => None };
        let ionq_solver = match ionq_config { Some(c) => Some(IonQParallelTemperingSolver::new(c)), None => None };
        UnifiedPTSolver {
            backend_preference,
            fallback_to_simulator,
            ibm_solver,
            braket_solver,
            dwave_solver,
            ionq_solver,
            simulator_solver: SimulatorParallelTemperingSolver::new(simulator_config),
        }
    }

    /// A solver holding each provider configured from `env` that is
    /// available there, the default preference order, and the default
    /// simulator with fallback.
    pub fn from_env(env: &EnvSnapshot) -> (s: Self)
        ensures
            s.spec_preference() == default_pt_preference(),
            s.spec_fallback(),
            s.spec_sim_max() == 20,
            s.spec_ibm(*env) == (if env.ibm_quantum_api_key is Some { Some((true, 127usize)) } else { None }),
            s.spec_braket(*env) == (if env.aws_access_key_id is Some || env.aws_profile is Some { Some((true, 25usize)) } else { None }),
            s.spec_dwave(*env) == (if env.dwave_api_token is Some { Some((true, 5000usize)) } else { None }),
            s.spec_ionq(*env) == (if env.ionq_api_key is Some { Some((true, 25usize)) } else { None }),
    {
        let ibm = IBMParallelTemperingSolver::from_env(env);
        let ibm_solver = if ibm.is_available(env) { Some(ibm) } else { None };
        let braket = BraketParallelTemperingSolver::from_env(env);
        let braket_solver = if braket.is_available(env) { Some(braket) } else { None };
        let dwave = DWaveParallelTemperingSolver::from_env(env);
        let dwave_solver = if dwave.is_available(env) { Some(dwave) } else { None };
        let ionq = IonQParallelTemperingSolver::from_env(env);
        let ionq_solver = if ionq.is_available(env) { Some(ionq) } else { None };
        let d = UnifiedPTConfig::default();
        UnifiedPTSolver {
            backend_preference: d.backend_preference,
            fallback_to_simulator: true,
            ibm_solver,
            braket_solver,
            dwave_solver,
            ionq_solver,
            simulator_solver: SimulatorParallelTemperingSolver::default_simulator(),
        }
    }

    fn takes(&self, t: PTBackendType, n: usize, env: &EnvSnapshot) -> (r: bool)
        ensures
            r == (match t {
                PTBackendType::IBMQuantum => can_take(self.spec_ibm(*env), n),
                PTBackendType::AWSBraket => can_take(self.spec_braket(*env), n),
                PTBackendType::DWave => can_take(self.spec_dwave(*env), n),
                PTBackendType::IonQ => can_take(self.spec_ionq(*env), n),
                PTBackendType::LocalSimulator => self.spec_fallback() && n <= self.spec_sim_max(),
            }),
    {
        match t {
            PTBackendType::IBMQuantum => match &self.ibm_solver {
                Some(s) => s.is_available(env) && n <= s.max_qubits(),
                None => false,
            },
            PTBackendType::AWSBraket => match &self.braket_solver {
                Some(s) => s.is_available(env) && n <= s.max_qubits(),
                None => false,
            },
            PTBackendType::DWave => match &self.dwave_solver {
                Some(s) => s.is_available(env) && n <= s.max_qubits(),
                None => false,
            },
            PTBackendType::IonQ => match &self.ionq_solver {
                Some(s) => s.is_available(env) && n <= s.max_qubits(),
                None => false,
            },
            PTBackendType::LocalSimulator => self.fallback_to_simulator && n <= self.simulator_solver.max_qubits(),
        }
    }

    /// The backend that runs a problem of `num_qubits` spins (see
    /// `choose_pt_backend`).
    pub fn select_backend(&self, num_qubits: usize, env: &EnvSnapshot) -> (r: Option<PTBackendType>)
        ensures
            r == choose_pt_backend(
                self.spec_preference(),
                num_qubits,
                self.spec_ibm(*env),
                self.spec_braket(*env),
                self.spec_dwave(*env),
                self.spec_ionq(*env),
                self.spec_sim_max(),
                self.spec_fallback(),
            ),
    {
        let ghost prefs = self.spec_preference();
        let mut i: usize = 0;
        assert(prefs.subrange(0, prefs.len() as int) =~= prefs);
        while i < self.backend_preference.len()
            invariant
                i <= prefs.len(),
                prefs == self.backend_preference@,
                choose_pt_backend(prefs, num_qubits, self.spec_ibm(*env), self.spec_braket(*env), self.spec_dwave(*env), self.spec_ionq(*env), self.spec_sim_max(), self.spec_fallback())
                    == choose_pt_backend(prefs.subrange(i as int, prefs.len() as int), num_qubits, self.spec_ibm(*env), self.spec_braket(*env), self.spec_dwave(*env), self.spec_ionq(*env), self.spec_sim_max(), self.spec_fallback()),
            decreases prefs.len() - i,
        {
            let ghost rest = prefs.subrange(i as int, prefs.len() as int);
            assert(rest.drop_first() =~= prefs.subrange(i + 1, prefs.len() as int));
            let t = self.backend_preference[i];
            assert(rest[0] == t);
            if self.takes(t, num_qubits, env) {
                return Some(t);
            }
            i = i + 1;
        }
        if self.fallback_to_simulator {
            Some(PTBackendType::LocalSimulator)
        } else {
            None
        }
    }

    /// The backends usable now (see `usable_pt_backends`).
    pub fn available_backends(&self, env: &EnvSnapshot) -> (v: Vec<PTBackendType>)
        ensures
            v@ == usable_pt_backends(self.spec_ibm(*env), self.spec_braket(*env), self.spec_dwave(*env), self.spec_ionq(*env), self.spec_fallback()),
    {
        let mut v: Vec<PTBackendType> = Vec::new();
        if let Some(s) = &self.ibm_solver {
            if s.is_available(env) {
                v.push(PTBackendType::IBMQuantum);
            }
        }
        if let Some(s) = &self.braket_solver {
            if s.is_available(env) {
                v.push(PTBackendType::AWSBraket);
            }
        }
        if let Some(s) = &self.dwave_solver {
            if s.is_available(env) {
                v.push(PTBackendType::DWave);
            }
        }
        if let Some(s) = &self.ionq_solver {
            if s.is_available(env) {
                v.push(PTBackendType::IonQ);
            }
        }
        if self.fallback_to_simulator {
            v.push(PTBackendType::LocalSimulator);
        }
        assert(v@ =~= usable_pt_backends(self.spec_ibm(*env), self.spec_braket(*env), self.spec_dwave(*env), self.spec_ionq(*env), self.spec_fallback()));
        v
    }
}

impl Default for UnifiedPTSolver {
    fn default() -> (s: Self)
        ensures
            s.spec_preference() == default_pt_preference(),
            s.spec_fallback(),
            s.spec_sim_max() == 20,
            forall|env: EnvSnapshot| #[trigger] s.spec_ibm(env) is None,
            forall|env: EnvSnapshot| #[trigger] s.spec_braket(env) is None,
            forall|env: EnvSnapshot| #[trigger] s.spec_dwave(env) is None,
            forall|env: EnvSnapshot| #[trigger] s.spec_ionq(env) is None,
    {
        Self::new(UnifiedPTConfig::default())
    }
}

/// The backend chosen for a problem is one that can take it: a hardware
/// backend that is configured, available and large enough, or the local
/// simulator with fallback enabled. With fallback enabled a backend is always
/// chosen.
pub proof fn lemma_pt_choice_sound(
    prefs: Seq<PTBackendType>,
    n: usize,
    ibm: BackendState,
    braket: BackendState,
    dwave: BackendState,
    ionq: BackendState,
    sim_max: usize,
    fallback: bool,
)
    ensures
        fallback ==> choose_pt_backend(prefs, n, ibm, braket, dwave, ionq, sim_max, fallback) is Some,
        match choose_pt_backend(prefs, n, ibm, braket, dwave, ionq, sim_max, fallback) {
            Some(PTBackendType::IBMQuantum) => can_take(ibm, n),
            Some(PTBackendType::AWSBraket) => can_take(braket, n),
            Some(PTBackendType::DWave) => can_take(dwave, n),
            Some(PTBackendType::IonQ) => can_take(ionq, n),
            Some(PTBackendType::LocalSimulator) => fallback,
            None => !fallback,
        },
    decreases prefs.len(),
{
    if prefs.len() > 0 {
        lemma_pt_choice_sound(prefs.drop_first(), n, ibm, braket, dwave, ionq, sim_max, fallback);
    }
}


/// Whether the backend `t` takes `n` qubits on its own (the simulator only
/// with fallback enabled and within its limit).
pub open spec fn pt_entry_takes(
    t: PTBackendType,
    n: usize,
    ibm: BackendState,
    braket: BackendState,
    dwave: BackendState,
    ionq: BackendState,
    sim_max: usize,
    fallback: bool,
) -> bool {
    match t {
        PTBackendType::IBMQuantum => ibm matches Some((a, m)) && a && n <= m,
        PTBackendType::AWSBraket => braket matches Some((a, m)) && a && n <= m,
        PTBackendType::DWave => dwave matches Some((a, m)) && a && n <= m,
        PTBackendType::IonQ => ionq matches Some((a, m)) && a && n <= m,
        PTBackendType::LocalSimulator => fallback && n <= sim_max,
    }
}

/// The chosen backend is the first preference that takes the problem (so a
/// first preference that takes it is chosen, whichever it is); when none
/// does, the simulator with fallback enabled, and nothing without.
pub proof fn lemma_pt_choice_first_taker(
    prefs: Seq<PTBackendType>,
    n: usize,
    ibm: BackendState,
    braket: BackendState,
    dwave: BackendState,
    ionq: BackendState,
    sim_max: usize,
    fallback: bool,
)
    ensures
        forall|i: int| 0 <= i < prefs.len() && #[trigger] pt_entry_takes(prefs[i], n, ibm, braket, dwave, ionq, sim_max, fallback)
            && (forall|j: int| 0 <= j < i ==> !pt_entry_takes(prefs[j], n, ibm, braket, dwave, ionq, sim_max, fallback))
            ==> choose_pt_backend(prefs, n, ibm, braket, dwave, ionq, sim_max, fallback) == Some(prefs[i]),
        (forall|j: int| 0 <= j < prefs.len() ==> !pt_entry_takes(prefs[j], n, ibm, braket, dwave, ionq, sim_max, fallback))
            ==> choose_pt_backend(prefs, n, ibm, braket, dwave, ionq, sim_max, fallback)
                == (if fallback { Some(PTBackendType::LocalSimulator) } else { None }),
    decreases prefs.len(),
{
    if prefs.len() > 0 {
        let rest = prefs.drop_first();
        lemma_pt_choice_first_taker(rest, n, ibm, braket, dwave, ionq, sim_max, fallback);
        if !pt_entry_takes(prefs[0], n, ibm, braket, dwave, ionq, sim_max, fallback) {
            assert forall|i: int| 0 <= i < prefs.len() && #[trigger] pt_entry_takes(prefs[i], n, ibm, braket, dwave, ionq, sim_max, fallback)
                && (forall|j: int| 0 <= j < i ==> !pt_entry_takes(prefs[j], n, ibm, braket, dwave, ionq, sim_max, fallback))
                implies choose_pt_backend(prefs, n, ibm, braket, dwave, ionq, sim_max, fallback) == Some(prefs[i]) by {
                assert(i > 0);
                assert(rest[i - 1] == prefs[i]);
                assert forall|j: int| 0 <= j < i - 1 implies !pt_entry_takes(rest[j], n, ibm, braket, dwave, ionq, sim_max, fallback) by {
                    assert(rest[j] == prefs[j + 1]);
                }
                assert(pt_entry_takes(rest[i - 1], n, ibm, braket, dwave, ionq, sim_max, fallback));
            }
            if forall|j: int| 0 <= j < prefs.len() ==> !pt_entry_takes(prefs[j], n, ibm, braket, dwave, ionq, sim_max, fallback) {
                assert forall|j: int| 0 <= j < rest.len() implies !pt_entry_takes(rest[j], n, ibm, braket, dwave, ionq, sim_max, fallback) by {
                    assert(rest[j] == prefs[j + 1]);
                }
            }
        } else {
            assert forall|i: int| 0 <= i < prefs.len() && #[trigger] pt_entry_takes(prefs[i], n, ibm, braket, dwave, ionq, sim_max, fallback)
                && (forall|j: int| 0 <= j < i ==> !pt_entry_takes(prefs[j], n, ibm, braket, dwave, ionq, sim_max, fallback))
                implies choose_pt_backend(prefs, n, ibm, braket, dwave, ionq, sim_max, fallback) == Some(prefs[i]) by {
                if i > 0 {
                    assert(!pt_entry_takes(prefs[0], n, ibm, braket, dwave, ionq, sim_max, fallback));
                }
            }
        }
    }
}

} // verus!
