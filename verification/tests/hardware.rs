use neuroquantum_core::env::EnvSnapshot;
use neuroquantum_core::grover_hardware::{
    available_grover_backends, check_simulator_capacity, effective_shots, route_grover_backend, select_grover_backend,
    BraketGroverConfig, BraketGroverSolver, GroverBackendChoice, IBMGroverConfig, IBMGroverSolver, IonQGroverConfig,
    IonQGroverSolver, SimulatorGroverConfig, SimulatorGroverSolver, UnifiedGroverConfig, UnifiedGroverSolver,
};
use neuroquantum_core::grover_quantum::GroverQuantumBackend;
use neuroquantum_core::pt_hardware::{DWavePTConfig, IBMPTConfig, PTBackendType, UnifiedPTSolver};
use neuroquantum_core::qubo::{HybridSolverConfig, IBMConfig, IBMOptimizer, IBMQUBOSolver};
use neuroquantum_core::error::CoreError;

#[test]
fn grover_hardware_backends_test_ibm_config_default() {
    let config = IBMGroverConfig::default();
    assert_eq!(config.num_shots, 1024);
    assert!(config.error_mitigation);
    assert!(config.dynamic_decoupling);
    assert!(config.api_token.is_none());
    assert_eq!(config.backend_name, "ibm_brisbane");
}

#[test]
fn test_ibm_config_custom() {
    let config = IBMGroverConfig {
        api_token: Some("test-token".to_string()),
        backend_name: "ibm_kyoto".to_string(),
        num_shots: 2048,
        max_qubits: Some(50),
        ..Default::default()
    };
    assert_eq!(config.num_shots, 2048);
    assert_eq!(config.backend_name, "ibm_kyoto");
    assert_eq!(config.max_qubits, Some(50));
}

#[test]
fn test_ibm_solver_not_available_without_token() {
    let config = IBMGroverConfig::default();
    let solver = IBMGroverSolver::new(config);
    assert!(!solver.is_available(&EnvSnapshot::empty()));
    assert_eq!(solver.name(), "IBM Quantum Grover");
    assert_eq!(solver.backend_type(), GroverQuantumBackend::Superconducting);
}

#[test]
fn test_ibm_solver_max_qubits() {
    let config = IBMGroverConfig { max_qubits: Some(127), ..Default::default() };
    let solver = IBMGroverSolver::new(config);
    assert_eq!(solver.max_qubits(), 127);
}

#[test]
fn ibm_grover_solver_refuses_wide_problems() {
    let solver = IBMGroverSolver::new(IBMGroverConfig { max_qubits: Some(4), ..Default::default() });
    assert!(solver.check_capacity(4).is_ok());
    match solver.check_capacity(5) {
        Err(CoreError::InvalidOperation(m)) => assert!(m.contains('5') && m.contains('4')),
        _ => panic!("expected a capacity error"),
    }
}

#[test]
fn grover_hardware_backends_test_braket_config_default() {
    let config = BraketGroverConfig::default();
    assert_eq!(config.region, "us-east-1");
    assert_eq!(config.num_shots, 1024);
    assert_eq!(config.max_qubits, 25);
}

#[test]
fn test_braket_config_custom() {
    let config = BraketGroverConfig {
        device_arn: "arn:aws:braket:us-east-1::device/qpu/ionq/Aria-1".to_string(),
        num_shots: 4096,
        s3_bucket: Some("my-bucket".to_string()),
        ..Default::default()
    };
    assert!(config.device_arn.contains("ionq"));
    assert_eq!(config.num_shots, 4096);
    assert!(config.s3_bucket.is_some());
}

#[test]
fn test_braket_solver_backend_type() {
    let ionq_config = BraketGroverConfig {
        device_arn: "arn:aws:braket:us-east-1::device/qpu/ionq/Aria-1".to_string(),
        ..Default::default()
    };
    let ionq_solver = BraketGroverSolver::new(ionq_config);
    assert_eq!(ionq_solver.backend_type(), GroverQuantumBackend::TrappedIon);

    let rigetti_config = BraketGroverConfig {
        device_arn: "arn:aws:braket:us-west-1::device/qpu/rigetti/Aspen-M-3".to_string(),
        ..Default::default()
    };
    let rigetti_solver = BraketGroverSolver::new(rigetti_config);
    assert_eq!(rigetti_solver.backend_type(), GroverQuantumBackend::Superconducting);
}

#[test]
fn grover_hardware_backends_test_ionq_config_default() {
    let config = IonQGroverConfig::default();
    assert_eq!(config.target, "simulator");
    assert_eq!(config.num_shots, 1024);
    assert_eq!(config.max_qubits, 25);
    assert_eq!(config.error_mitigation_level, 1);
}

#[test]
fn test_ionq_solver_not_available_without_key() {
    let config = IonQGroverConfig::default();
    let solver = IonQGroverSolver::new(config);
    assert!(!solver.is_available(&EnvSnapshot::empty()));
    assert_eq!(solver.name(), "IonQ Trapped Ion");
    assert_eq!(solver.backend_type(), GroverQuantumBackend::TrappedIon);
}

#[test]
fn grover_backend_selection_follows_priority() {
    let priority = vec!["ionq".to_string(), "ibm".to_string(), "simulator".to_string()];
    assert_eq!(select_grover_backend(&priority, Some(true), Some(true), None), GroverBackendChoice::IonQ);
    assert_eq!(select_grover_backend(&priority, Some(true), Some(false), None), GroverBackendChoice::IBM);
    assert_eq!(select_grover_backend(&priority, None, None, None), GroverBackendChoice::Simulator);
    assert_eq!(available_grover_backends(None, None, None), vec!["simulator".to_string()]);
    assert_eq!(
        available_grover_backends(Some(true), Some(false), Some(true)),
        vec!["ibm".to_string(), "braket".to_string(), "simulator".to_string()]
    );
}

#[test]
fn grover_backend_routing_by_name() {
    assert_eq!(route_grover_backend("simulator", false, false, false).unwrap(), GroverBackendChoice::Simulator);
    assert!(route_grover_backend("ibm", false, false, false).is_err());
    assert_eq!(route_grover_backend("ibm", true, false, false).unwrap(), GroverBackendChoice::IBM);
    assert!(route_grover_backend("nonsense", true, true, true).is_err());
}

#[test]
fn simulator_capacity_and_shots() {
    assert!(check_simulator_capacity(20, 20).is_ok());
    assert!(check_simulator_capacity(21, 20).is_err());
    assert_eq!(effective_shots(0, 1024), 1024);
    assert_eq!(effective_shots(256, 1024), 256);
}

#[test]
fn parallel_tempering_hardware_backends_test_ibm_config_default() {
    let config = IBMPTConfig::default();
    assert_eq!(config.backend_name, "ibm_brisbane");
    assert_eq!(config.num_shots, 1024);
    assert!(config.error_mitigation);
}

#[test]
fn parallel_tempering_hardware_backends_test_dwave_config_default() {
    let config = DWavePTConfig::default();
    assert_eq!(config.num_reads, 1000);
    assert!(config.auto_scale);
    assert!(config.use_reverse_annealing);
}

#[test]
fn test_unified_solver_creation() {
    let solver = UnifiedPTSolver::default();
    let available = solver.available_backends(&EnvSnapshot::empty());
    assert!(available.contains(&PTBackendType::LocalSimulator));
}

#[test]
fn unified_pt_solver_selects_simulator_without_credentials() {
    let solver = UnifiedPTSolver::default();
    assert_eq!(solver.select_backend(4, &EnvSnapshot::empty()), Some(PTBackendType::LocalSimulator));
}

#[test]
fn test_backend_type_display() {
    assert_eq!(PTBackendType::IBMQuantum.to_display_string(), "IBM Quantum");
    assert_eq!(PTBackendType::DWave.to_display_string(), "D-Wave");
    assert_eq!(PTBackendType::LocalSimulator.to_display_string(), "Local Simulator");
}

#[test]
fn qubo_hardware_backends_test_ibm_config_default() {
    let config = IBMConfig::default();
    assert_eq!(config.qaoa_depth, 3);
    assert_eq!(config.num_shots, 1024);
    assert_eq!(config.optimizer, IBMOptimizer::COBYLA);
}

#[test]
fn test_hybrid_config_default() {
    let config = HybridSolverConfig::default();
    assert_eq!(config.time_limit_secs, 5);
    assert_eq!(config.min_samples, 1);
}

#[test]
fn test_ibm_solver_availability() {
    let config = IBMConfig::default();
    let solver = IBMQUBOSolver::new(config);
    assert!(!solver.is_available(&EnvSnapshot::empty()));
}

#[test]
fn test_simulator_config_default() {
    let config = SimulatorGroverConfig::default();
    assert_eq!(config.num_shots, 1024);
    assert_eq!(config.max_qubits, 20);
    assert!(!config.simulate_noise);
    assert_eq!(f64::from_bits(config.noise_level_bits), 0.01);
}

#[test]
fn test_simulator_always_available() {
    let config = SimulatorGroverConfig::default();
    let solver = SimulatorGroverSolver::new(config);
    assert!(solver.is_available());
    assert_eq!(solver.name(), "Local State Vector Simulator");
    assert_eq!(solver.backend_type(), GroverQuantumBackend::Simulator);
}

#[test]
fn test_unified_config_default() {
    let config = UnifiedGroverConfig::default();
    assert!(config.ibm.is_none());
    assert!(config.braket.is_none());
    assert!(config.ionq.is_none());
}

#[test]
fn test_unified_solver_available_backends() {
    let config = UnifiedGroverConfig::default();
    let solver = UnifiedGroverSolver::new(config);
    let backends = solver.available_backends(&EnvSnapshot::empty());
    assert!(backends.contains(&"simulator".to_string()));
}

#[test]
fn unified_grover_solver_from_environment() {
    let mut env = EnvSnapshot::empty();
    env.ionq_api_key = Some("k".to_string());
    let solver = UnifiedGroverSolver::from_env(&env);
    assert_eq!(solver.available_backends(&env), vec!["ionq".to_string(), "simulator".to_string()]);
    assert_eq!(solver.selected_backend(&env), GroverBackendChoice::IonQ);
    assert!(solver.backend_named("IBM").is_err());
    assert_eq!(solver.backend_named("IonQ").unwrap(), GroverBackendChoice::IonQ);
    assert_eq!(UnifiedGroverSolver::default().selected_backend(&env), GroverBackendChoice::Simulator);
}

use neuroquantum_core::qubo::{DWaveConfig, DWaveQUBOSolver};
use neuroquantum_core::tfim::{DWaveTFIMConfig, DWaveTFIMSolver};

#[test]
fn qubo_hardware_backends_test_dwave_config_default() {
    let config = DWaveConfig::default();
    assert_eq!(config.num_reads, 1000);
    assert_eq!(config.annealing_time_us, 20);
    assert!(config.auto_scale);
}

#[test]
fn test_dwave_solver_availability() {
    let config = DWaveConfig::default();
    let solver = DWaveQUBOSolver::new(config);
    assert!(!solver.is_available(&EnvSnapshot::empty()));
}

#[test]
fn dwave_tfim_solver_settings() {
    let solver = DWaveTFIMSolver::new(DWaveTFIMConfig::default());
    assert_eq!(solver.topology(), "Pegasus");
    assert_eq!(solver.max_qubits(), 5000);
    let mut env = EnvSnapshot::empty();
    assert!(!solver.is_available(&env));
    env.dwave_api_token = Some("t".to_string());
    assert!(solver.is_available(&env));
    assert!(DWaveQUBOSolver::from_env(&env).is_available(&EnvSnapshot::empty()));
}
