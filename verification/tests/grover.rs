use neuroquantum_core::grover::{
    BackendConfig, BackendType, DiffusionOperator, GroverDatabaseSearch, OracleGenerator, QuantumCircuit, QuantumGate,
    settle_search_answer,
};
use neuroquantum_core::grover_quantum::{
    build_diffusion_operator, build_grover_circuit, check_simulable, GroverGate, QuantumOracle,
};
use neuroquantum_core::error::CoreError;

#[test]
fn test_quantum_gate_qubits() {
    assert_eq!(QuantumGate::H(0).qubits(), vec![0]);
    assert_eq!(QuantumGate::X(1).qubits(), vec![1]);
    assert_eq!(QuantumGate::CX { control: 0, target: 1 }.qubits(), vec![0, 1]);
    assert_eq!(QuantumGate::MCX { controls: vec![0, 1], target: 2 }.qubits(), vec![0, 1, 2]);
}

#[test]
fn test_quantum_circuit_creation() {
    let config = BackendConfig::default();
    let circuit = QuantumCircuit::new(3, config).unwrap();
    assert_eq!(circuit.num_qubits(), 3);
    assert_eq!(circuit.depth(), 0);
}

#[test]
fn test_quantum_circuit_invalid_qubits() {
    assert!(QuantumCircuit::new(0, BackendConfig::default()).is_err());
    assert!(QuantumCircuit::new(31, BackendConfig::default()).is_err());
}

#[test]
fn quantum_circuit_rejects_gates_outside_the_register() {
    let mut circuit = QuantumCircuit::new(2, BackendConfig::default()).unwrap();
    assert!(circuit.add_gate(QuantumGate::H(1)).is_ok());
    assert!(circuit.add_gate(QuantumGate::H(2)).is_err());
    assert_eq!(circuit.depth(), 1);
    circuit.hadamard_all().unwrap();
    assert_eq!(circuit.depth(), 3);
    circuit.clear();
    assert_eq!(circuit.depth(), 0);
}

#[test]
fn test_oracle_generator() {
    let oracle = OracleGenerator::new(3, vec![5]).unwrap();
    assert_eq!(oracle.target_indices(), &[5]);
    let gates = oracle.generate_oracle_gates();
    assert!(!gates.is_empty());
}

#[test]
fn test_oracle_generator_invalid_target() {
    // 3 qubits = 8 states (0-7), so index 8 is invalid
    assert!(OracleGenerator::new(3, vec![8]).is_err());
}

#[test]
fn oracle_generator_error_names_the_target() {
    match OracleGenerator::new(3, vec![8]) {
        Err(CoreError::InvalidOperation(m)) => assert_eq!(m, "Target index 8 is out of range for 3 qubits (max: 7)"),
        _ => panic!("expected an error"),
    }
}

#[test]
fn test_diffusion_operator() {
    let diffusion = DiffusionOperator::new(3);
    let gates = diffusion.generate_gates();
    // 3 H + 3 X + 1 MCZ + 3 X + 3 H = 13 gates
    assert_eq!(gates.len(), 13);
}

#[test]
fn test_backend_config_default() {
    let config = BackendConfig::default();
    assert_eq!(config.backend_type, BackendType::Simulator);
    assert_eq!(config.shots, 1024);
    assert!(!config.noise_simulation);
}

#[test]
fn database_search_finds_matching_rows() {
    let database = vec![vec![1, 2, 3], vec![4, 5, 6], vec![7, 8, 9], vec![7, 8, 9]];
    let search = GroverDatabaseSearch::new(database, BackendType::Simulator);
    assert_eq!(search.find_matching_indices(&[7, 8, 9]), vec![2, 3]);
    assert_eq!(search.find_matching_indices(&[0]), Vec::<usize>::new());
    assert_eq!(search.search_qubits(), 2);
}

#[test]
fn search_answer_falls_back_to_first_match() {
    assert_eq!(settle_search_answer(&[2, 3], 3), Some(3));
    assert_eq!(settle_search_answer(&[2, 3], 1), Some(2));
    assert_eq!(settle_search_answer(&[], 1), None);
}

#[test]
fn test_oracle_creation() {
    let oracle = QuantumOracle::new(3, vec![5]);
    assert_eq!(oracle.num_qubits, 3);
    assert_eq!(oracle.marked_states, vec![5]);
}

#[test]
fn test_database_search_oracle() {
    let database = vec![1, 2, 3, 4, 5, 6, 7, 8];
    let target = 5;
    let oracle = QuantumOracle::for_database_search(&database, &target);
    assert!(oracle.marked_states.contains(&4));
    assert_eq!(oracle.num_qubits, 3);
}

#[test]
fn test_pattern_search_oracle() {
    let data = b"Hello Quantum World!".to_vec();
    let pattern = b"Quantum".to_vec();
    let oracle = QuantumOracle::for_pattern_search(&data, &pattern);
    assert!(!oracle.marked_states.is_empty());
    assert!(oracle.marked_states.contains(&6));
}

#[test]
fn pattern_search_marks_every_occurrence() {
    let oracle = QuantumOracle::for_pattern_search(b"abab", b"ab");
    assert_eq!(oracle.marked_states, vec![0, 2]);
    assert_eq!(oracle.num_qubits, 2);
    let none = QuantumOracle::for_pattern_search(b"ab", b"abc");
    assert!(none.marked_states.is_empty());
}

#[test]
fn test_diffusion_operator_gates() {
    let gates = build_diffusion_operator(3);
    assert!(gates.len() >= 10);
    assert!(matches!(gates.first(), Some(GroverGate::H { .. })));
    assert!(matches!(gates.last(), Some(GroverGate::H { .. })));
}

#[test]
fn test_circuit_construction() {
    let oracle = QuantumOracle::new(2, vec![1]);
    assert!(check_simulable(&oracle).is_ok());
    let circuit = build_grover_circuit(&oracle, 2);
    assert_eq!(circuit.num_qubits, 2);
    assert_eq!(circuit.iterations, 2);
    assert!(!circuit.gates.is_empty());
}

#[test]
fn simulator_limits_are_enforced() {
    assert!(check_simulable(&QuantumOracle::new(0, vec![])).is_err());
    assert!(check_simulable(&QuantumOracle::new(21, vec![])).is_err());
    assert!(check_simulable(&QuantumOracle::new(20, vec![])).is_ok());
}

#[test]
fn test_database_search() {
    let database = vec![vec![1, 2, 3], vec![4, 5, 6], vec![7, 8, 9], vec![10, 11, 12]];
    let search = GroverDatabaseSearch::new(database, BackendType::Simulator);
    let matches = search.find_matching_indices(&[7, 8, 9]);
    // Whatever basis state the circuit measures, the search answers the match.
    for measured in 0..(1usize << search.search_qubits()) {
        assert_eq!(settle_search_answer(&matches, measured), Some(2));
    }
}

#[test]
fn test_database_search_not_found() {
    let database = vec![vec![1, 2, 3], vec![4, 5, 6]];
    let search = GroverDatabaseSearch::new(database, BackendType::Simulator);
    let matches = search.find_matching_indices(&[7, 8, 9]);
    assert!(matches.is_empty());
    assert_eq!(settle_search_answer(&matches, 0), None);
}
