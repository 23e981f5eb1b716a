# neuroquantum_core

The core of the NeuroQuantum quantum backends as a verified library.

- `src/` is checked by Verus. It holds backend configuration and selection
  (IBM Quantum, AWS Braket, D-Wave, IonQ, the local simulator), Grover
  circuits and oracles, OpenQASM generation, spin/index encodings of Ising
  states, access-pattern bookkeeping for neural plasticity (with consolidation
  and temporal reorganisation), and post-quantum
  key handling (ML-KEM-768, ML-DSA-65, base64 token claims). Every public
  function carries a contract; the cryptography and base64 coding are done
  by their crates behind small trusted wrappers whose contracts are stated in
  `src/pqcrypto.rs`.
- `tests/` exercises the library with concrete values.
- `app/` is ordinary Rust around the library: reading the process
  environment, the floating-point state-vector simulators, plasticity
  scores and the consolidation plans drawn from them, and copies of library types with serde and thiserror derives.
