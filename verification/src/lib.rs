//! Verified core of the NeuroQuantum quantum backends: configuration defaults,
//! backend selection, circuit construction, search oracles, access-pattern
//! bookkeeping and post-quantum token handling.

pub mod backends;
pub mod env;
pub mod error;
pub mod gate_semantics;
pub mod grover;
pub mod grover_hardware;
pub mod grover_quantum;
pub mod ising;
pub mod plasticity;
pub mod position_laws;
pub mod pqcrypto;
pub mod processor;
pub mod pt_hardware;
pub mod quantum;
pub mod qubo;
pub mod text;
pub mod tfim;
