//! QUBO solving on hardware backends: the IBM QAOA and D-Wave hybrid
//! configurations, the variational settings, and the choice of a backend.

use vstd::prelude::*;
use crate::env::{copy_opt, env_or, first_set, EnvSnapshot};
use crate::error::CoreError;
use crate::grover_hardware::string_views;
use crate::text::{decimal, push_decimal, str_equals};

verus! {

/// How a QUBO problem is solved.
#[derive(Debug, Clone, Copy, PartialEq, Eq, Structural)]
pub enum QuboQuantumBackend {
    /// Variational quantum eigensolver.
    VQE,
    /// Quantum approximate optimisation.
    QAOA,
    /// Quantum annealing (D-Wave style).
    QuantumAnnealing,
    /// Simulated quantum annealing (path-integral Monte Carlo).
    SimulatedQuantumAnnealing,
    /// Classical simulated annealing.
    ClassicalFallback,
}

impl Default for QuboQuantumBackend {
    fn default() -> (b: Self)
        ensures
            b == QuboQuantumBackend::SimulatedQuantumAnnealing,
    {
        QuboQuantumBackend::SimulatedQuantumAnnealing
    }
}

/// VQE ansatz circuits.
#[derive(Debug, Clone, Copy, PartialEq, Eq, Structural)]
pub enum VqeAnsatz {
    HardwareEfficient,
    UCCSD,
    ProblemSpecific,
}

impl Default for VqeAnsatz {
    fn default() -> (a: Self)
        ensures
            a == VqeAnsatz::HardwareEfficient,
    {
        VqeAnsatz::HardwareEfficient
    }
}

/// Classical optimisers for variational algorithms.
#[derive(Debug, Clone, Copy, PartialEq, Eq, Structural)]
pub enum ClassicalOptimizer {
    COBYLA,
    SLSQP,
    SPSA,
    Adam,
}

impl Default for ClassicalOptimizer {
    fn default() -> (o: Self)
        ensures
            o == ClassicalOptimizer::COBYLA,
    {
        ClassicalOptimizer::COBYLA
    }
}

/// A cloud quantum backend that is named but not yet wired to a service: it
/// is never available.
pub struct CloudQuantumBackend {
    provider: String,
    api_key: Option<String>,
}

impl CloudQuantumBackend {
    pub closed spec fn spec_provider(&self) -> Seq<char> {
        self.provider@
    }

    pub closed spec fn spec_api_key(&self) -> Option<Seq<char>> {
        match self.api_key {
            Some(k) => Some(k@),
            None => None,
        }
    }

    /// A backend for the named provider, without a key.
    pub fn new(provider: &str) -> (b: Self)
        ensures
            b.spec_provider() == provider@,
            b.spec_api_key() is None,
    {
        CloudQuantumBackend { provider: provider.to_owned(), api_key: None }
    }

    /// The backend with an API key set.
    pub fn with_api_key(self, api_key: &str) -> (b: Self)
        ensures
            b.spec_provider() == self.spec_provider(),
            b.spec_api_key() == Some(api_key@),
    {
        CloudQuantumBackend { provider: self.provider, api_key: Some(api_key.to_owned()) }
    }

    /// Never available: cloud backends need configuration.
    pub fn is_available(&self) -> (r: bool)
        ensures
            !r,
    {
        false
    }

    /// The provider name.
    pub fn name(&self) -> (s: &str)
        ensures
            s@ == self.spec_provider(),
    {
        self.provider.as_str()
    }
}

/// The classical optimiser of IBM's QAOA loop.
#[derive(Debug, Clone, Copy, PartialEq, Eq, Structural)]
pub enum IBMOptimizer {
    COBYLA,
    SLSQP,
    SPSA,
    NFT,
}

impl Default for IBMOptimizer {
    fn default() -> (o: Self)
        ensures
            o == IBMOptimizer::COBYLA,
    {
        IBMOptimizer::COBYLA
    }
}

/// IBM Quantum QAOA configuration.
#[derive(Debug)]
pub struct IBMConfig {
    /// API token; when unset, `IBM_QUANTUM_TOKEN` is consulted.
    pub api_token: Option<String>,
    pub api_endpoint: String,
    pub backend_name: String,
    /// QAOA layers.
    pub qaoa_depth: usize,
    pub num_shots: usize,
    pub max_iterations: usize,
    pub optimizer: IBMOptimizer,
    pub error_mitigation: bool,
    pub dynamic_decoupling: bool,
    pub timeout_secs: u64,
    /// Qubit limit, if any.
    pub max_qubits: Option<usize>,
}

/// The default IBM QAOA configuration.
pub open spec fn is_default_ibm_qubo_config(c: IBMConfig) -> bool {
    &&& c.api_token is None
    &&& c.api_endpoint@ == "https://api.quantum-computing.ibm.com"@
    &&& c.backend_name@ == "ibmq_qasm_simulator"@
    &&& c.qaoa_depth == 3
    &&& c.num_shots == 1024
    &&& c.max_iterations == 100
    &&& c.optimizer == IBMOptimizer::COBYLA
    &&& c.error_mitigation
    &&& c.dynamic_decoupling
    &&& c.timeout_secs == 600
    &&& c.max_qubits is None
}

impl Default for IBMConfig {
    fn default() -> (c: Self)
        ensures
            is_default_ibm_qubo_config(c),
    {
        IBMConfig {
            api_token: None,
            api_endpoint: "https://api.quantum-computing.ibm.com".to_owned(),
            backend_name: "ibmq_qasm_simulator".to_owned(),
            qaoa_depth: 3,
            num_shots: 1024,
            max_iterations: 100,
            optimizer: IBMOptimizer::COBYLA,
            error_mitigation: true,
            dynamic_decoupling: true,
            timeout_secs: 600,
            max_qubits: None,
        }
    }
}

/// QUBO solving with QAOA on IBM Quantum.
pub struct IBMQUBOSolver {
    config: IBMConfig,
}

/// The message for a problem larger than the qubit limit.
pub open spec fn size_message(n: usize, max: usize) -> Seq<char> {
    "Problem size "@ + decimal(n as nat) + " exceeds maximum qubits "@ + decimal(max as nat)
}

impl IBMQUBOSolver {
    pub closed spec fn spec_config(&self) -> IBMConfig {
        self.config
    }

    /// Whether a token is in force, configured or from `IBM_QUANTUM_TOKEN`.
    pub open spec fn spec_available(&self, env: EnvSnapshot) -> bool {
        self.spec_config().api_token is Some || env.ibm_quantum_token is Some
    }

    /// The variable limit: the configured qubit limit, else 100.
    pub open spec fn spec_max_variables(&self) -> usize {
        match self.spec_config().max_qubits {
            Some(m) => m,
            None => 100,
        }
    }

    pub fn new(config: IBMConfig) -> (s: Self)
        ensures
            s.spec_config() == config,
    {
        IBMQUBOSolver { config }
    }

    /// A solver configured from `IBM_QUANTUM_TOKEN` and `IBM_QUANTUM_BACKEND`
    /// (ibmq_qasm_simulator), the rest default.
    pub fn from_env(env: &EnvSnapshot) -> (s: Self)
        ensures
            s.spec_config().api_token == env.ibm_quantum_token,
            s.spec_config().backend_name@ == (match env.ibm_quantum_backend {
                Some(b) => b@,
                None => "ibmq_qasm_simulator"@,
            }),
            s.spec_config().qaoa_depth == 3,
            s.spec_config().max_qubits is None,
    {
        let d = IBMConfig::default();
        Self::new(IBMConfig {
            api_token: copy_opt(&env.ibm_quantum_token),
            backend_name: env_or(&env.ibm_quantum_backend, "ibmq_qasm_simulator"),
            ..d
        })
    }

    pub fn is_available(&self, env: &EnvSnapshot) -> (r: bool)
        ensures
            r == self.spec_available(*env),
    {
        first_set(&self.config.api_token, &env.ibm_quantum_token).is_some()
    }

    pub fn max_variables(&self) -> (n: usize)
        ensures
            n == self.spec_max_variables(),
    {
        match self.config.max_qubits {
            Some(m) => m,
            None => 100,
        }
    }

    pub fn name(&self) -> (s: &'static str)
        ensures
            s@ == "IBM Quantum QAOA"@,
    {
        "IBM Quantum QAOA"
    }

    pub fn backend_type(&self) -> (b: QuboQuantumBackend)
        ensures
            b == QuboQuantumBackend::QAOA,
    {
        QuboQuantumBackend::QAOA
    }

    /// Refuses a problem with more variables than a configured qubit limit.
    pub fn check_capacity(&self, num_vars: usize) -> (r: Result<(), CoreError>)
        ensures
            r is Ok <==> (self.spec_config().max_qubits matches Some(m) ==> num_vars <= m),
            r matches Err(e) ==> e matches CoreError::InvalidOperation(msg) && msg@ == size_message(num_vars, self.spec_config().max_qubits.unwrap()),
    {
        if let Some(m) = self.config.max_qubits {
            if num_vars > m {
                let mut msg = String::new();
                msg.append("Problem size ");
                push_decimal(&mut msg, num_vars as u64);
                msg.append(" exceeds maximum qubits ");
                push_decimal(&mut msg, m as u64);
                assert(msg@ =~= size_message(num_vars, m));
                return Err(CoreError::InvalidOperation(msg));
            }
        }
        Ok(())
    }
}

/// Configuration of the D-Wave annealer for QUBO problems. The chain strength, a floating-point
/// factor, is carried as the bit pattern of its `f64` value.
#[derive(Debug)]
pub struct DWaveConfig {
    /// API token; when unset, `DWAVE_API_TOKEN` is consulted.
    pub api_token: Option<String>,
    /// SAPI endpoint.
    pub api_endpoint: String,
    /// Solver name; when unset, the first available solver.
    pub solver_name: Option<String>,
    /// Samples per problem.
    pub num_reads: usize,
    /// Annealing time in microseconds.
    pub annealing_time_us: u32,
    /// Scale coefficients to the hardware range.
    pub auto_scale: bool,
    /// Chain strength factor (bits of its `f64`); when unset, chosen automatically.
    pub chain_strength_bits: Option<u64>,
    /// Programming thermalization in microseconds.
    pub programming_thermalization_us: u32,
    /// Readout thermalization in microseconds.
    pub readout_thermalization_us: u32,
    /// Reduce correlation between samples.
    pub reduce_intersample_correlation: bool,
    /// Connection timeout in seconds.
    pub timeout_secs: u64,
    /// Retries of an API call.
    pub max_retries: u32,
}

impl Default for DWaveConfig {
    fn default() -> (c: Self)
        ensures
            c.api_token is None,
            c.api_endpoint@ == "https://cloud.dwavesys.com/sapi/v2"@,
            c.solver_name is None,
            c.num_reads == 1000,
            c.annealing_time_us == 20,
            c.auto_scale,
            c.chain_strength_bits is None,
            c.programming_thermalization_us == 1000,
            c.readout_thermalization_us == 0,
            c.reduce_intersample_correlation,
            c.timeout_secs == 300,
            c.max_retries == 3,
    {
        DWaveConfig {
            api_token: None,
            api_endpoint: "https://cloud.dwavesys.com/sapi/v2".to_owned(),
            solver_name: None,
            num_reads: 1000,
            annealing_time_us: 20,
            auto_scale: true,
            chain_strength_bits: None,
            programming_thermalization_us: 1000,
            readout_thermalization_us: 0,
            reduce_intersample_correlation: true,
            timeout_secs: 300,
            max_retries: 3,
        }
    }
}

/// QUBO solving on the D-Wave annealer.
pub struct DWaveQUBOSolver {
    config: DWaveConfig,
}

impl DWaveQUBOSolver {
    /// The solver's configuration.
    pub closed spec fn spec_config(&self) -> DWaveConfig {
        self.config
    }

    /// Whether a token is in force, configured or from `DWAVE_API_TOKEN`.
    pub open spec fn spec_available(&self, env: EnvSnapshot) -> bool {
        self.spec_config().api_token is Some || env.dwave_api_token is Some
    }

    /// A solver with the given configuration.
    pub fn new(config: DWaveConfig) -> (s: Self)
        ensures
            s.spec_config() == config,
    {
        DWaveQUBOSolver { config }
    }

    /// A solver with the token from `DWAVE_API_TOKEN` and the solver from
    /// `DWAVE_SOLVER`, the rest default.
    pub fn from_env(env: &EnvSnapshot) -> (s: Self)
        ensures
            s.spec_config().api_token == env.dwave_api_token,
            s.spec_config().solver_name == env.dwave_solver,
            s.spec_config().num_reads == 1000,
            s.spec_config().annealing_time_us == 20,
    {
        let d = DWaveConfig::default();
        Self::new(DWaveConfig { api_token: copy_opt(&env.dwave_api_token), solver_name: copy_opt(&env.dwave_solver), ..d })
    }

    /// Whether a token is in force.
    pub fn is_available(&self, env: &EnvSnapshot) -> (r: bool)
        ensures
            r == self.spec_available(*env),
    {
        first_set(&self.config.api_token, &env.dwave_api_token).is_some()
    }

    /// The largest problem: 5000.
    pub fn max_variables(&self) -> (n: usize)
        ensures
            n == 5000,
    {
        5000
    }

    /// The solver's name.
    pub fn name(&self) -> (s: &'static str)
        ensures
            s@ == "D-Wave Quantum Annealer"@,
    {
        "D-Wave Quantum Annealer"
    }

    /// Quantum annealing.
    pub fn backend_type(&self) -> (b: QuboQuantumBackend)
        ensures
            b == QuboQuantumBackend::QuantumAnnealing,
    {
        QuboQuantumBackend::QuantumAnnealing
    }
}

/// D-Wave Leap hybrid solver configuration.
#[derive(Debug)]
pub struct HybridSolverConfig {
    /// API token; when unset, `DWAVE_API_TOKEN` is consulted.
    pub api_token: Option<String>,
    pub api_endpoint: String,
    pub solver_name: String,
    pub time_limit_secs: u64,
    pub min_samples: usize,
    pub max_samples: usize,
    pub timeout_secs: u64,
}

/// The default hybrid solver configuration.
pub open spec fn is_default_hybrid_config(c: HybridSolverConfig) -> bool {
    &&& c.api_token is None
    &&& c.api_endpoint@ == "https://cloud.dwavesys.com/sapi/v2"@
    &&& c.solver_name@ == "hybrid_binary_quadratic_model_version2"@
    &&& c.time_limit_secs == 5
    &&& c.min_samples == 1
    &&& c.max_samples == 100
    &&& c.timeout_secs == 600
}

impl Default for HybridSolverConfig {
    fn default() -> (c: Self)
        ensures
            is_default_hybrid_config(c),
    {
        HybridSolverConfig {
            api_token: None,
            api_endpoint: "https://cloud.dwavesys.com/sapi/v2".to_owned(),
            solver_name: "hybrid_binary_quadratic_model_version2".to_owned(),
            time_limit_secs: 5,
            min_samples: 1,
            max_samples: 100,
            timeout_secs: 600,
        }
    }
}

/// QUBO solving with D-Wave's Leap hybrid solver.
pub struct HybridQUBOSolver {
    config: HybridSolverConfig,
}

impl HybridQUBOSolver {
    pub closed spec fn spec_config(&self) -> HybridSolverConfig {
        self.config
    }

    /// Whether a token is in force, configured or from `DWAVE_API_TOKEN`.
    pub open spec fn spec_available(&self, env: EnvSnapshot) -> bool {
        self.spec_config().api_token is Some || env.dwave_api_token is Some
    }

    pub fn new(config: HybridSolverConfig) -> (s: Self)
        ensures
            s.spec_config() == config,
    {
        HybridQUBOSolver { config }
    }

    /// A solver with the token from `DWAVE_API_TOKEN`, the rest default.
    pub fn from_env(env: &EnvSnapshot) -> (s: Self)
        ensures
            s.spec_config().api_token == env.dwave_api_token,
            s.spec_config().time_limit_secs == 5,
    {
        let d = HybridSolverConfig::default();
        Self::new(HybridSolverConfig { api_token: copy_opt(&env.dwave_api_token), ..d })
    }

    pub fn is_available(&self, env: &EnvSnapshot) -> (r: bool)
        ensures
            r == self.spec_available(*env),
    {
        first_set(&self.config.api_token, &env.dwave_api_token).is_some()
    }

    pub fn max_variables(&self) -> (n: usize)
        ensures
            n == 1_000_000,
    {
        1_000_000
    }

    pub fn name(&self) -> (s: &'static str)
        ensures
            s@ == "D-Wave Leap Hybrid"@,
    {
        "D-Wave Leap Hybrid"
    }

    pub fn backend_type(&self) -> (b: QuboQuantumBackend)
        ensures
            b == QuboQuantumBackend::QuantumAnnealing,
    {
        QuboQuantumBackend::QuantumAnnealing
    }
}

/// The backend a unified QUBO solver uses.
#[derive(Debug, Clone, Copy, PartialEq, Eq, Structural)]
pub enum QuboBackendChoice {
    DWave,
    IBM,
    Hybrid,
    SimulatedAnnealing,
}

/// The largest QUBO problem the D-Wave annealer takes.
pub open spec fn dwave_qubo_limit() -> usize {
    5000
}

/// The backend for a problem of `n` variables: the hybrid solver when the
/// problem exceeds the hybrid threshold and the hybrid solver is configured
/// and available; otherwise the first name of `priority` that selects a
/// configured, available and large enough backend (dwave up to 5000
/// variables, ibm up to its limit, hybrid any size); otherwise simulated
/// annealing. `None` is an unconfigured backend, `Some(a)` its availability
/// (with the limit, for IBM).
pub open spec fn choose_qubo_backend(
    priority: Seq<Seq<char>>,
    n: usize,
    hybrid_threshold: usize,
    dwave: Option<bool>,
    ibm: Option<(bool, usize)>,
    hybrid: Option<bool>,
) -> QuboBackendChoice {
    if n > hybrid_threshold && hybrid == Some(true) {
        QuboBackendChoice::Hybrid
    } else {
        walk_qubo_priority(priority, n, dwave, ibm, hybrid)
    }
}

/// The priority walk of `choose_qubo_backend`.
pub open spec fn walk_qubo_priority(priority: Seq<Seq<char>>, n: usize, dwave: Option<bool>, ibm: Option<(bool, usize)>, hybrid: Option<bool>) -> QuboBackendChoice
    decreases priority.len(),
{
    if priority.len() == 0 {
        QuboBackendChoice::SimulatedAnnealing
    } else if priority[0] == "dwave"@ && dwave == Some(true) && n <= dwave_qubo_limit() {
        QuboBackendChoice::DWave
    } else if priority[0] == "ibm"@ && (ibm matches Some((a, max)) && a && n <= max) {
        QuboBackendChoice::IBM
    } else if priority[0] == "hybrid"@ && hybrid == Some(true) {
        QuboBackendChoice::Hybrid
    } else {
        walk_qubo_priority(priority.drop_first(), n, dwave, ibm, hybrid)
    }
}

/// Chooses the QUBO backend (see `choose_qubo_backend`).
pub fn select_qubo_backend(
    priority: &[String],
    n: usize,
    hybrid_threshold: usize,
    dwave: Option<bool>,
    ibm: Option<(bool, usize)>,
    hybrid: Option<bool>,
) -> (c: QuboBackendChoice)
    ensures
        c == choose_qubo_backend(string_views(priority@), n, hybrid_threshold, dwave, ibm, hybrid),
{
    if n > hybrid_threshold && hybrid == Some(true) {
        return QuboBackendChoice::Hybrid;
    }
    let ghost all = string_views(priority@);
    assert(all.subrange(0, all.len() as int) =~= all);
    let mut i: usize = 0;
    while i < priority.len()
        invariant
            i <= priority@.len(),
            all == string_views(priority@),
            !(n > hybrid_threshold && hybrid == Some(true)),
            walk_qubo_priority(all, n, dwave, ibm, hybrid) == walk_qubo_priority(all.subrange(i as int, all.len() as int), n, dwave, ibm, hybrid),
        decreases priority@.len() - i,
    {
        let ghost rest = all.subrange(i as int, all.len() as int);
        assert(rest.drop_first() =~= all.subrange(i + 1, all.len() as int));
        assert(rest[0] == priority@[i as int]@);
        let name = priority[i].as_str();
        if str_equals(name, "dwave") && dwave == Some(true) && n <= 5000 {
            return QuboBackendChoice::DWave;
        }
        if str_equals(name, "ibm") {
            if let Some((a, max)) = ibm {
                if a && n <= max {
                    return QuboBackendChoice::IBM;
                }
            }
        }
        if str_equals(name, "hybrid") && hybrid == Some(true) {
            return QuboBackendChoice::Hybrid;
        }
        i = i + 1;
    }
    QuboBackendChoice::SimulatedAnnealing
}

/// The default QUBO backend order: dwave, ibm, hybrid, simulated_annealing.
pub fn default_qubo_priority() -> (v: Vec<String>)
    ensures
        string_views(v@) == seq!["dwave"@, "ibm"@, "hybrid"@, "simulated_annealing"@],
{
    let v = vec!["dwave".to_owned(), "ibm".to_owned(), "hybrid".to_owned(), "simulated_annealing".to_owned()];
    assert(string_views(v@) =~= seq!["dwave"@, "ibm"@, "hybrid"@, "simulated_annealing"@]);
    v
}

/// The default hybrid threshold, in variables.
pub const DEFAULT_HYBRID_THRESHOLD: usize = 5000;


/// The backend a QUBO priority entry selects on its own for `n` variables:
/// D-Wave when available and within its limit, IBM when available and
/// within its qubit limit, the hybrid solver when available; nothing for
/// other entries.
pub open spec fn qubo_entry_backend(name: Seq<char>, n: usize, dwave: Option<bool>, ibm: Option<(bool, usize)>, hybrid: Option<bool>) -> Option<QuboBackendChoice> {
    if name == "dwave"@ {
        if dwave == Some(true) && n <= 5000 { Some(QuboBackendChoice::DWave) } else { None }
    } else if name == "ibm"@ {
        if ibm matches Some((a, m)) && a && n <= m { Some(QuboBackendChoice::IBM) } else { None }
    } else if name == "hybrid"@ {
        if hybrid == Some(true) { Some(QuboBackendChoice::Hybrid) } else { None }
    } else {
        None
    }
}

/// A problem above the hybrid threshold goes to an available hybrid solver;
/// otherwise the chosen backend is the one selected by the first priority
/// entry that selects one, and simulated annealing when none does.
pub proof fn lemma_qubo_choice_first_entry(
    priority: Seq<Seq<char>>,
    n: usize,
    hybrid_threshold: usize,
    dwave: Option<bool>,
    ibm: Option<(bool, usize)>,
    hybrid: Option<bool>,
)
    ensures
        n > hybrid_threshold && hybrid == Some(true)
            ==> choose_qubo_backend(priority, n, hybrid_threshold, dwave, ibm, hybrid) == QuboBackendChoice::Hybrid,
        !(n > hybrid_threshold && hybrid == Some(true)) ==> {
            &&& forall|i: int| 0 <= i < priority.len() && (#[trigger] qubo_entry_backend(priority[i], n, dwave, ibm, hybrid)) is Some
                && (forall|j: int| 0 <= j < i ==> qubo_entry_backend(priority[j], n, dwave, ibm, hybrid) is None)
                ==> choose_qubo_backend(priority, n, hybrid_threshold, dwave, ibm, hybrid)
                    == qubo_entry_backend(priority[i], n, dwave, ibm, hybrid)->0
            &&& (forall|j: int| 0 <= j < priority.len() ==> qubo_entry_backend(priority[j], n, dwave, ibm, hybrid) is None)
                ==> choose_qubo_backend(priority, n, hybrid_threshold, dwave, ibm, hybrid) == QuboBackendChoice::SimulatedAnnealing
        },
{
    lemma_qubo_walk_first_entry(priority, n, dwave, ibm, hybrid);
}

proof fn lemma_qubo_walk_first_entry(priority: Seq<Seq<char>>, n: usize, dwave: Option<bool>, ibm: Option<(bool, usize)>, hybrid: Option<bool>)
    ensures
        forall|i: int| 0 <= i < priority.len() && (#[trigger] qubo_entry_backend(priority[i], n, dwave, ibm, hybrid)) is Some
            && (forall|j: int| 0 <= j < i ==> qubo_entry_backend(priority[j], n, dwave, ibm, hybrid) is None)
            ==> walk_qubo_priority(priority, n, dwave, ibm, hybrid) == qubo_entry_backend(priority[i], n, dwave, ibm, hybrid)->0,
        (forall|j: int| 0 <= j < priority.len() ==> qubo_entry_backend(priority[j], n, dwave, ibm, hybrid) is None)
            ==> walk_qubo_priority(priority, n, dwave, ibm, hybrid) == QuboBackendChoice::SimulatedAnnealing,
    decreases priority.len(),
{
    reveal_strlit("dwave");
    reveal_strlit("ibm");
    reveal_strlit("hybrid");
    assert("dwave"@ != "ibm"@ && "dwave"@ != "hybrid"@ && "ibm"@ != "hybrid"@) by {
        assert("dwave"@.len() != "ibm"@.len());
        assert("dwave"@[0] != "hybrid"@[0]);
        assert("ibm"@.len() != "hybrid"@.len());
    }
    if priority.len() > 0 {
        let rest = priority.drop_first();
        lemma_qubo_walk_first_entry(rest, n, dwave, ibm, hybrid);
        if qubo_entry_backend(priority[0], n, dwave, ibm, hybrid) is None {
            assert(walk_qubo_priority(priority, n, dwave, ibm, hybrid) == walk_qubo_priority(rest, n, dwave, ibm, hybrid));
            assert forall|i: int| 0 <= i < priority.len() && (#[trigger] qubo_entry_backend(priority[i], n, dwave, ibm, hybrid)) is Some
                && (forall|j: int| 0 <= j < i ==> qubo_entry_backend(priority[j], n, dwave, ibm, hybrid) is None)
                implies walk_qubo_priority(priority, n, dwave, ibm, hybrid) == qubo_entry_backend(priority[i], n, dwave, ibm, hybrid)->0 by {
                assert(i > 0);
                assert(rest[i - 1] == priority[i]);
                assert forall|j: int| 0 <= j < i - 1 implies qubo_entry_backend(rest[j], n, dwave, ibm, hybrid) is None by {
                    assert(rest[j] == priority[j + 1]);
                }
                assert(qubo_entry_backend(rest[i - 1], n, dwave, ibm, hybrid) is Some);
            }
            if forall|j: int| 0 <= j < priority.len() ==> qubo_entry_backend(priority[j], n, dwave, ibm, hybrid) is None {
                assert forall|j: int| 0 <= j < rest.len() implies qubo_entry_backend(rest[j], n, dwave, ibm, hybrid) is None by {
                    assert(rest[j] == priority[j + 1]);
                }
            }
        } else {
            assert forall|i: int| 0 <= i < priority.len() && (#[trigger] qubo_entry_backend(priority[i], n, dwave, ibm, hybrid)) is Some
                && (forall|j: int| 0 <= j < i ==> qubo_entry_backend(priority[j], n, dwave, ibm, hybrid) is None)
                implies walk_qubo_priority(priority, n, dwave, ibm, hybrid) == qubo_entry_backend(priority[i], n, dwave, ibm, hybrid)->0 by {
                if i > 0 {
                    assert(qubo_entry_backend(priority[0], n, dwave, ibm, hybrid) is None);
                }
            }
        }
    }
}

} // verus!
