//! IBM Quantum: configuration, availability and Grover programs in OpenQASM 3.

use vstd::prelude::*;
use super::{is_default_backend_config, QuantumBackendConfig, QuantumBackendInfo, QuantumProvider};
use super::qasm::{grover_qasm, grover_qasm_text};
use crate::env::{copy_opt, env_or, first_set, EnvSnapshot};

verus! {

/// Configuration of the IBM Quantum backend.
#[derive(Debug, Clone)]
pub struct IBMQuantumConfig {
    /// API token; when unset, `IBM_QUANTUM_API_KEY` is consulted.
    pub api_token: Option<String>,
    /// Runtime API endpoint.
    pub api_endpoint: String,
    /// Backend (processor) name.
    pub backend_name: String,
    /// Shots per circuit.
    pub num_shots: usize,
    /// Error mitigation.
    pub error_mitigation: bool,
    /// Dynamical decoupling.
    pub dynamic_decoupling: bool,
    /// Qubit limit of the processor, if known.
    pub max_qubits: Option<usize>,
    /// Settings common to every backend.
    pub common: QuantumBackendConfig,
}

/// The default IBM configuration: ibm_brisbane (127-qubit Eagle), 1024 shots,
/// error mitigation and dynamical decoupling on.
pub open spec fn is_default_ibm_config(c: IBMQuantumConfig) -> bool {
    &&& c.api_token is None
    &&& c.api_endpoint@ == "https://api.quantum.ibm.com/runtime"@
    &&& c.backend_name@ == "ibm_brisbane"@
    &&& c.num_shots == 1024
    &&& c.error_mitigation
    &&& c.dynamic_decoupling
    &&& c.max_qubits == Some(127usize)
    &&& is_default_backend_config(c.common)
}

impl Default for IBMQuantumConfig {
    fn default() -> (c: Self)
        ensures
            is_default_ibm_config(c),
    {
        IBMQuantumConfig {
            api_token: None,
            api_endpoint: "https://api.quantum.ibm.com/runtime".to_owned(),
            backend_name: "ibm_brisbane".to_owned(),
            num_shots: 1024,
            error_mitigation: true,
            dynamic_decoupling: true,
            max_qubits: Some(127),
            common: QuantumBackendConfig::default(),
        }
    }
}

/// IBM Quantum backend for superconducting gate-based processors.
pub struct IBMQuantumBackend {
    config: IBMQuantumConfig,
}

impl IBMQuantumBackend {
    /// The backend's configuration.
    pub closed spec fn spec_config(&self) -> IBMQuantumConfig {
        self.config
    }

    /// The API token in force: the configured one, else the environment's.
    pub open spec fn spec_api_token(&self, env: EnvSnapshot) -> Option<String> {
        if self.spec_config().api_token is Some {
            self.spec_config().api_token
        } else {
            env.ibm_quantum_api_key
        }
    }

    /// A backend with the given configuration.
    pub fn new(config: IBMQuantumConfig) -> (b: Self)
        ensures
            b.spec_config() == config,
    {
        IBMQuantumBackend { config }
    }

    /// A backend configured from the environment: token from
    /// `IBM_QUANTUM_API_KEY`, backend from `IBM_QUANTUM_BACKEND`
    /// (ibm_brisbane), endpoint from `IBM_QUANTUM_ENDPOINT`, the rest default.
    pub fn from_env(env: &EnvSnapshot) -> (b: Self)
        ensures
            b.spec_config().api_token == env.ibm_quantum_api_key,
            b.spec_config().backend_name@ == (match env.ibm_quantum_backend {
                Some(s) => s@,
                None => "ibm_brisbane"@,
            }),
            b.spec_config().api_endpoint@ == (match env.ibm_quantum_endpoint {
                Some(s) => s@,
                None => "https://api.quantum.ibm.com/runtime"@,
            }),
            b.spec_config().num_shots == 1024,
            b.spec_config().error_mitigation,
            b.spec_config().dynamic_decoupling,
            b.spec_config().max_qubits == Some(127usize),
            is_default_backend_config(b.spec_config().common),
    {
        let d = IBMQuantumConfig::default();
        let config = IBMQuantumConfig {
            api_token: copy_opt(&env.ibm_quantum_api_key),
            backend_name: env_or(&env.ibm_quantum_backend, "ibm_brisbane"),
            api_endpoint: env_or(&env.ibm_quantum_endpoint, "https://api.quantum.ibm.com/runtime"),
            ..d
        };
        Self::new(config)
    }

    /// The API token in force: the configured one, else `IBM_QUANTUM_API_KEY`.
    pub fn get_api_token(&self, env: &EnvSnapshot) -> (t: Option<String>)
        ensures
            t == self.spec_api_token(*env),
    {
        first_set(&self.config.api_token, &env.ibm_quantum_api_key)
    }

    /// The current configuration.
    pub fn config(&self) -> (c: &IBMQuantumConfig)
        ensures
            *c == self.spec_config(),
    {
        &self.config
    }

    /// The configuration, for changing it in place.
    pub fn config_mut(&mut self) -> (c: &mut IBMQuantumConfig)
        ensures
            *c == old(self).spec_config(),
            final(self).spec_config() == *final(c),
    {
        &mut self.config
    }

    /// Grover's search as an OpenQASM 3 program: Hadamards on every qubit,
    /// `num_iterations` rounds of an oracle per marked state followed by the
    /// diffusion operator, and a measurement of every qubit.
    pub fn build_grover_qasm(&self, num_qubits: usize, marked_states: &[usize], num_iterations: usize) -> (qasm: String)
        requires
            num_iterations == 0 || marked_states@.len() == 0 || num_qubits <= usize::BITS,
        ensures
            qasm@ == grover_qasm(num_qubits as nat, marked_states@, num_iterations as nat),
    {
        grover_qasm_text(num_qubits, marked_states, num_iterations)
    }
}

impl QuantumBackendInfo for IBMQuantumBackend {
    fn is_available(&self, env: &EnvSnapshot) -> (r: bool)
        ensures
            r == (self.spec_api_token(*env) is Some),
    {
        self.get_api_token(env).is_some()
    }

    fn max_qubits(&self) -> (n: usize)
        ensures
            n == (match self.spec_config().max_qubits {
                Some(m) => m,
                None => 127,
            }),
    {
        match self.config.max_qubits {
            Some(m) => m,
            None => 127,
        }
    }

    fn name(&self) -> (s: &'static str)
        ensures
            s@ == "IBM Quantum"@,
    {
        "IBM Quantum"
    }

    fn provider(&self) -> (p: QuantumProvider)
        ensures
            p == QuantumProvider::IBMQuantum,
    {
        QuantumProvider::IBMQuantum
    }
}

/// IBM processor families.
#[derive(Debug, Clone, Copy, PartialEq, Eq, Structural)]
pub enum IBMProcessorFamily {
    /// Eagle, 127 qubits.
    Eagle,
    /// Heron, 133 qubits with better fidelity.
    Heron,
    /// Osprey, 433 qubits.
    Osprey,
    /// Simulator.
    Simulator,
}

/// The state of an IBM Quantum job.
#[derive(Debug, Clone, Copy, PartialEq, Eq, Structural)]
pub enum IBMJobStatus {
    Queued,
    Running,
    Completed,
    Failed,
    Cancelled,
}

/// What IBM Quantum reports about a job.
#[derive(Debug, Clone)]
pub struct IBMJobInfo {
    /// Job identifier.
    pub job_id: String,
    /// Current status.
    pub status: IBMJobStatus,
    /// Backend name.
    pub backend: String,
    /// Creation time.
    pub created: Option<String>,
    /// Completion time.
    pub finished: Option<String>,
    /// Position in the queue.
    pub queue_position: Option<usize>,
}

} // verus!
