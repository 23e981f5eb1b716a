use neuroquantum_core::processor::{ByteOracle, DatabaseOracle, Oracle};
use neuroquantum_core::quantum::QuantumError;
use neuroquantum_core::text::{lowercase_eq, parse_usize, str_contains};

#[test]
fn database_oracle_marks_equal_entries() {
    let oracle = DatabaseOracle::new(vec![1u8, 2, 3, 4], 3u8);
    assert!(oracle.is_target(2));
    assert!(!oracle.is_target(1));
    assert!(!oracle.is_target(4));
    assert!(!oracle.is_target(usize::MAX));
}

#[test]
fn byte_oracle_marks_pattern_starts() {
    let oracle = ByteOracle::new(vec![1, 2, 3, 1, 2], vec![1, 2]);
    assert!(oracle.is_target(0));
    assert!(!oracle.is_target(1));
    assert!(oracle.is_target(3));
    assert!(!oracle.is_target(4));
    assert!(!oracle.is_target(usize::MAX));
}

#[test]
fn quantum_error_messages() {
    assert_eq!(
        QuantumError::SearchFailed { message: "boom".to_string() }.to_display_string(),
        "Quantum search failed: boom"
    );
    assert_eq!(
        QuantumError::AnnealingFailed { iterations: 42 }.to_display_string(),
        "Quantum annealing did not converge: 42 iterations"
    );
    assert_eq!(
        QuantumError::SuperpositionFailed { reason: "r".to_string() }.to_display_string(),
        "Superposition query failed: r"
    );
    assert_eq!(
        QuantumError::InvalidState { details: "d".to_string() }.to_display_string(),
        "Invalid quantum state: d"
    );
    assert_eq!(QuantumError::HardwareUnavailable.to_display_string(), "Hardware acceleration unavailable");
}

#[test]
fn text_helpers() {
    assert_eq!(parse_usize("127"), Some(127));
    assert_eq!(parse_usize("+5"), Some(5));
    assert_eq!(parse_usize("12a"), None);
    assert_eq!(parse_usize(""), None);
    assert_eq!(parse_usize("18446744073709551616"), None);
    assert!(lowercase_eq("IBM", "ibm"));
    assert!(!lowercase_eq("IBMX", "ibm"));
    assert!(str_contains("arn:aws:braket:::device/qpu/ionq", "ionq"));
    assert!(!str_contains("ion", "ionq"));
}

use neuroquantum_core::env::EnvSnapshot;
use neuroquantum_core::qubo::{default_qubo_priority, select_qubo_backend, QuboBackendChoice, DEFAULT_HYBRID_THRESHOLD};
use neuroquantum_core::tfim::{preference_from_env, route_tfim, BraketTFIMConfig, BraketTFIMSolver, TFIMBackendPreference, TFIMRoute};

#[test]
fn qubo_backend_selection() {
    let priority = default_qubo_priority();
    assert_eq!(
        select_qubo_backend(&priority, 10, DEFAULT_HYBRID_THRESHOLD, None, None, None),
        QuboBackendChoice::SimulatedAnnealing
    );
    assert_eq!(
        select_qubo_backend(&priority, 10, DEFAULT_HYBRID_THRESHOLD, Some(true), Some((true, 100)), None),
        QuboBackendChoice::DWave
    );
    assert_eq!(
        select_qubo_backend(&priority, 6000, DEFAULT_HYBRID_THRESHOLD, Some(true), Some((true, 10000)), Some(true)),
        QuboBackendChoice::Hybrid
    );
    assert_eq!(
        select_qubo_backend(&priority, 6000, DEFAULT_HYBRID_THRESHOLD, Some(true), Some((true, 10000)), None),
        QuboBackendChoice::IBM
    );
}

#[test]
fn tfim_routing() {
    let mut env = EnvSnapshot::empty();
    assert_eq!(preference_from_env(&env), TFIMBackendPreference::Auto);
    env.tfim_backend = Some("braket".to_string());
    assert_eq!(preference_from_env(&env), TFIMBackendPreference::Braket);
    assert_eq!(route_tfim(TFIMBackendPreference::Braket, None, None), TFIMRoute::Unconfigured);
    assert_eq!(route_tfim(TFIMBackendPreference::Auto, Some(false), Some(true)), TFIMRoute::Braket);
    assert_eq!(route_tfim(TFIMBackendPreference::Auto, None, None), TFIMRoute::Classical);
}

#[test]
fn braket_tfim_solver_needs_both_keys() {
    let solver = BraketTFIMSolver::new(BraketTFIMConfig::default());
    let mut env = EnvSnapshot::empty();
    assert!(!solver.is_available(&env));
    env.aws_access_key_id = Some("a".to_string());
    assert!(!solver.is_available(&env));
    env.aws_secret_access_key = Some("b".to_string());
    assert!(solver.is_available(&env));
    assert_eq!(solver.max_qubits(), 5000);
}

use neuroquantum_core::ising::{config_to_index, index_to_config};
use neuroquantum_core::quantum::{classical_search, grover_oracle_marks};

#[test]
fn test_config_to_index_roundtrip() {
    let config = vec![1, -1, 1, 1];
    let index = config_to_index(&config);
    let recovered = index_to_config(4, index);
    assert_eq!(config, recovered);
}

#[test]
fn config_index_values() {
    assert_eq!(config_to_index(&[1, -1, 1, 1]), 0b1101);
    assert_eq!(config_to_index(&[]), 0);
    assert_eq!(index_to_config(3, 0b101), vec![1, -1, 1]);
    for index in 0..16usize {
        assert_eq!(config_to_index(&index_to_config(4, index)), index);
    }
}

#[test]
fn classical_search_lists_every_window_match() {
    assert_eq!(classical_search(b"abcabcab", b"ab"), vec![0, 3, 6]);
    assert_eq!(classical_search(b"aaa", b"aa"), vec![0, 1]);
    assert_eq!(classical_search(b"a", b"ab"), Vec::<usize>::new());
}

#[test]
fn grover_oracle_marks_positions() {
    assert_eq!(grover_oracle_marks(b"xabx", "ab"), vec![false, true, false, false]);
    assert_eq!(grover_oracle_marks(b"", "ab"), vec![false]);
    assert_eq!(grover_oracle_marks(b"abc", ""), vec![false, false, false]);
    assert_eq!(grover_oracle_marks(b"a", "ab"), vec![false]);
}
