use neuroquantum_core::backends::braket::{classify_device_arn, BraketBackend, BraketConfig, BraketDeviceType};
use neuroquantum_core::backends::dwave::{DWaveBackend, DWaveConfig, DWaveTopology};
use neuroquantum_core::backends::ibm::{IBMQuantumBackend, IBMQuantumConfig};
use neuroquantum_core::backends::ionq::{half_angle, IonQBackend, IonQConfig, IonQGate, IonQTarget, FRAC_PI_2_BITS, FRAC_PI_4_BITS};
use neuroquantum_core::backends::{QuantumBackendConfig, QuantumBackendFactory, QuantumBackendInfo, QuantumProvider};
use neuroquantum_core::env::EnvSnapshot;

#[test]
fn braket_test_braket_config_default() {
    let config = BraketConfig::default();
    assert_eq!(config.region, "us-east-1");
    assert!(config.device_arn.contains("simulator"));
    assert_eq!(config.num_shots, 1024);
    assert_eq!(config.max_qubits, 34);
}

#[test]
fn test_braket_backend_creation() {
    let backend = BraketBackend::from_env(&EnvSnapshot::empty());
    assert_eq!(backend.name(), "AWS Braket");
    assert_eq!(backend.provider(), QuantumProvider::AWSBraket);
}

#[test]
fn test_device_type_detection() {
    let config = BraketConfig {
        device_arn: "arn:aws:braket:us-east-1::device/qpu/ionq/Aria-1".to_string(),
        ..BraketConfig::default()
    };
    let backend = BraketBackend::new(config);
    assert_eq!(backend.device_type(), BraketDeviceType::IonQ);

    let config = BraketConfig {
        device_arn: "arn:aws:braket:::device/qpu/d-wave/Advantage_system6".to_string(),
        ..BraketConfig::default()
    };
    let backend = BraketBackend::new(config);
    assert_eq!(backend.device_type(), BraketDeviceType::DWave);
    assert!(backend.is_annealer());

    let config = BraketConfig {
        device_arn: "arn:aws:braket:us-west-1::device/qpu/rigetti/Aspen-M-3".to_string(),
        ..BraketConfig::default()
    };
    let backend = BraketBackend::new(config);
    assert_eq!(backend.device_type(), BraketDeviceType::Rigetti);
    assert!(backend.is_gate_based());
}

#[test]
fn braket_device_classification_covers_every_family() {
    assert_eq!(classify_device_arn("arn:aws:braket:eu-west-2::device/qpu/oqc/Lucy"), BraketDeviceType::OQC);
    assert_eq!(
        classify_device_arn("arn:aws:braket:::device/quantum-simulator/amazon/sv1"),
        BraketDeviceType::Simulator
    );
    assert_eq!(classify_device_arn("arn:aws:braket:::device/qpu/other/Thing"), BraketDeviceType::Unknown);
    assert_eq!(BraketDeviceType::DWave.to_display_string(), "D-Wave");
}

#[test]
fn braket_credentials_come_from_the_environment() {
    let backend = BraketBackend::from_env(&EnvSnapshot::empty());
    let bare = EnvSnapshot::empty();
    assert!(!backend.has_credentials(&bare));
    let mut with_keys = EnvSnapshot::empty();
    with_keys.aws_access_key_id = Some("AKIA".to_string());
    with_keys.aws_secret_access_key = Some("not-a-real-secret".to_string());
    assert!(backend.has_credentials(&with_keys));
}

#[test]
fn dwave_test_dwave_config_default() {
    let config = DWaveConfig::default();
    assert!(config.api_endpoint.contains("dwavesys.com"));
    assert_eq!(config.num_reads, 1000);
    assert_eq!(config.annealing_time_us, 20);
    assert!(config.auto_scale);
}

#[test]
fn test_dwave_backend_creation() {
    let backend = DWaveBackend::from_env(&EnvSnapshot::empty());
    assert_eq!(backend.name(), "D-Wave Quantum Annealer");
    assert_eq!(backend.provider(), QuantumProvider::DWave);
}

#[test]
fn dwave_availability_follows_token() {
    let backend = DWaveBackend::from_env(&EnvSnapshot::empty());
    assert!(!backend.is_available(&EnvSnapshot::empty()));
    let mut env = EnvSnapshot::empty();
    env.dwave_api_token = Some("t".to_string());
    env.dwave_solver = Some("Advantage_system6.4".to_string());
    assert!(backend.is_available(&env));
    let configured = DWaveBackend::from_env(&env);
    assert_eq!(configured.config().solver_name.as_deref(), Some("Advantage_system6.4"));
    assert_eq!(configured.get_api_token(&EnvSnapshot::empty()), Some("t".to_string()));
}

#[test]
fn test_topology_display() {
    assert_eq!(DWaveTopology::Pegasus.to_display_string(), "Pegasus");
    assert_eq!(DWaveTopology::Zephyr.to_display_string(), "Zephyr");
    assert_eq!(DWaveTopology::Chimera.to_display_string(), "Chimera");
}

#[test]
fn ibm_test_ibm_config_default() {
    let config = IBMQuantumConfig::default();
    assert_eq!(config.backend_name, "ibm_brisbane");
    assert_eq!(config.num_shots, 1024);
    assert!(config.error_mitigation);
    assert!(config.dynamic_decoupling);
    assert_eq!(config.max_qubits, Some(127));
}

#[test]
fn test_ibm_backend_creation() {
    let backend = IBMQuantumBackend::from_env(&EnvSnapshot::empty());
    assert_eq!(backend.name(), "IBM Quantum");
    assert_eq!(backend.provider(), QuantumProvider::IBMQuantum);
}

#[test]
fn test_grover_qasm_generation() {
    let backend = IBMQuantumBackend::from_env(&EnvSnapshot::empty());
    let qasm = backend.build_grover_qasm(3, &[5], 1);
    assert!(qasm.contains("OPENQASM 3.0"));
    assert!(qasm.contains("qubit[3] q"));
    assert!(qasm.contains("measure"));
}

#[test]
fn grover_qasm_exact_text_for_one_qubit() {
    let backend = IBMQuantumBackend::from_env(&EnvSnapshot::empty());
    let qasm = backend.build_grover_qasm(1, &[0], 1);
    let expected = "OPENQASM 3.0;\ninclude \"stdgates.inc\";\n\nqubit[1] q;\nbit[1] c;\n\nh q[0];\n\n// Oracle for state 0\nx q[0];\nx q[0];\n// Diffusion operator\nh q[0];\nx q[0];\nh q[0];\nh q[0];\nx q[0];\nh q[0];\n\nc[0] = measure q[0];\n";
    assert_eq!(qasm, expected);
}

#[test]
fn ibm_token_prefers_configuration_over_environment() {
    let backend = IBMQuantumBackend::from_env(&EnvSnapshot::empty());
    assert_eq!(backend.get_api_token(&EnvSnapshot::empty()), None);
    let mut env = EnvSnapshot::empty();
    env.ibm_quantum_api_key = Some("from-env".to_string());
    assert_eq!(backend.get_api_token(&env), Some("from-env".to_string()));
    assert!(backend.is_available(&env));
}

#[test]
fn ionq_test_ionq_config_default() {
    let config = IonQConfig::default();
    assert_eq!(config.target, IonQTarget::Simulator);
    assert_eq!(config.num_shots, 1024);
    assert_eq!(config.error_mitigation, 1);
}

#[test]
fn test_ionq_backend_creation() {
    let backend = IonQBackend::from_env(&EnvSnapshot::empty());
    assert_eq!(backend.name(), "IonQ Trapped-Ion");
    assert_eq!(backend.provider(), QuantumProvider::IonQ);
}

#[test]
fn test_ionq_target_display() {
    assert_eq!(IonQTarget::Aria.to_display_string(), "qpu.aria-1");
    assert_eq!(IonQTarget::Forte.to_display_string(), "qpu.forte-1");
    assert_eq!(IonQTarget::Simulator.to_display_string(), "simulator");
}

#[test]
fn test_ionq_target_max_qubits() {
    assert_eq!(IonQTarget::Aria.max_qubits(), 25);
    assert_eq!(IonQTarget::Forte.max_qubits(), 36);
    assert_eq!(IonQTarget::Simulator.max_qubits(), 29);
}

#[test]
fn test_grover_circuit_generation() {
    let backend = IonQBackend::from_env(&EnvSnapshot::empty());
    let circuit = backend.build_grover_circuit(3, &[5], 1);
    assert_eq!(circuit.qubits, 3);
    assert!(!circuit.circuit.is_empty());
}

#[test]
fn native_gate_rendering() {
    let backend = IonQBackend::from_env(&EnvSnapshot::empty());
    let circuit = backend.build_circuit(
        2,
        &[IonQGate::H { target: 0 }, IonQGate::Z { target: 1 }, IonQGate::CZ { control: 0, target: 1 }, IonQGate::GPi { target: 1, phase_bits: 7 }],
    );
    let native = backend.to_native_gates(&circuit);
    assert_eq!(native.qubits, 2);
    assert_eq!(native.circuit.len(), 5);
    assert!(matches!(native.circuit[0], IonQGate::GPi2 { target: 0, phase_bits: 0 }));
    assert!(matches!(native.circuit[1], IonQGate::GPi2 { target: 1, phase_bits: 0 }));
    assert!(matches!(native.circuit[2], IonQGate::GPi2 { target: 1, phase_bits: 0 }));
    match &native.circuit[3] {
        IonQGate::MS { targets, phase_bits, angle_bits } => {
            assert_eq!(targets, &vec![0, 1]);
            assert_eq!(phase_bits, &vec![0, 0]);
            assert_eq!(*angle_bits, FRAC_PI_4_BITS);
            assert_eq!(f64::from_bits(*angle_bits), std::f64::consts::FRAC_PI_4);
        },
        other => panic!("unexpected gate {other:?}"),
    }
    assert!(matches!(native.circuit[4], IonQGate::GPi { target: 1, phase_bits: 7 }));
}

#[test]
fn ionq_target_from_name_round_trips_display() {
    for t in [IonQTarget::Aria, IonQTarget::Forte, IonQTarget::Simulator] {
        assert_eq!(IonQTarget::from_name(&t.to_display_string()), t);
    }
    assert_eq!(IonQTarget::from_name("unknown"), IonQTarget::Simulator);
}

#[test]
fn test_quantum_provider_display() {
    assert_eq!(QuantumProvider::IBMQuantum.to_display_string(), "IBM Quantum");
    assert_eq!(QuantumProvider::DWave.to_display_string(), "D-Wave");
    assert_eq!(QuantumProvider::AWSBraket.to_display_string(), "AWS Braket");
    assert_eq!(QuantumProvider::IonQ.to_display_string(), "IonQ");
    assert_eq!(QuantumProvider::LocalSimulator.to_display_string(), "Local Simulator");
}

#[test]
fn test_default_config() {
    let config = QuantumBackendConfig::default();
    assert_eq!(config.timeout_secs, 300);
    assert_eq!(config.max_retries, 3);
    assert!(!config.verbose);
    assert!(config.fallback_to_simulation);
}

#[test]
fn test_available_providers_always_includes_simulator() {
    let providers = QuantumBackendFactory::available_providers(&EnvSnapshot::empty());
    assert!(providers.contains(&QuantumProvider::LocalSimulator));
}

#[test]
fn best_provider_is_simulator_without_credentials() {
    let env = EnvSnapshot::empty();
    assert_eq!(QuantumBackendFactory::best_provider_for_algorithm("qubo", &env), QuantumProvider::LocalSimulator);
    let mut env = EnvSnapshot::empty();
    env.ionq_api_key = Some("k".to_string());
    let best = QuantumBackendFactory::best_provider_for_algorithm("grover", &env);
    assert!(QuantumBackendFactory::available_providers(&env).contains(&best));
}

fn is_native_gate(g: &IonQGate) -> bool {
    matches!(g, IonQGate::GPi { .. } | IonQGate::GPi2 { .. } | IonQGate::MS { .. })
}

#[test]
fn native_rendering_of_rotations_cnot_and_swap() {
    let backend = IonQBackend::from_env(&EnvSnapshot::empty());
    let pi = std::f64::consts::PI.to_bits();
    let circuit = backend.build_circuit(
        2,
        &[
            IonQGate::Rz { target: 0, rotation_bits: pi },
            IonQGate::Rx { target: 1, rotation_bits: pi },
            IonQGate::Ry { target: 0, rotation_bits: pi },
            IonQGate::CNOT { control: 0, target: 1 },
            IonQGate::SWAP { targets: vec![0, 1] },
            IonQGate::SWAP { targets: vec![0] },
        ],
    );
    let native = backend.to_native_gates(&circuit);
    // Rz 2, Rx 4, Ry 8, CNOT 3, SWAP 9, short SWAP 0.
    assert_eq!(native.circuit.len(), 26);
    assert!(native.circuit.iter().all(is_native_gate));
    assert!(matches!(native.circuit[0], IonQGate::GPi { target: 0, phase_bits: 0 }));
    assert!(matches!(native.circuit[1], IonQGate::GPi { target: 0, phase_bits } if phase_bits == FRAC_PI_2_BITS));
    assert!(matches!(native.circuit[2], IonQGate::GPi2 { target: 1, phase_bits: 0 }));
    assert!(matches!(native.circuit[5], IonQGate::GPi2 { target: 1, phase_bits: 0 }));
    // Ry starts with Rz(-pi/2): GPi(0), GPi(-pi/4).
    assert!(matches!(native.circuit[7], IonQGate::GPi { target: 0, phase_bits } if f64::from_bits(phase_bits) == -std::f64::consts::FRAC_PI_4));
    // CNOT: GPi2 on the target, MS, GPi2 on the target.
    assert!(matches!(native.circuit[14], IonQGate::GPi2 { target: 1, phase_bits: 0 }));
    assert!(matches!(&native.circuit[15], IonQGate::MS { targets, .. } if targets == &vec![0, 1]));
    // The SWAP's second CNOT runs from qubit 1 to qubit 0.
    assert!(matches!(&native.circuit[21], IonQGate::MS { targets, .. } if targets == &vec![1, 0]));
}

#[test]
fn half_angle_matches_float_halving() {
    let values = [
        0.0f64, -0.0, 1.0, -3.5, std::f64::consts::PI, 1e-300, f64::MIN_POSITIVE, f64::MIN_POSITIVE * 1.5,
        5e-324, 1.5e-323, 2.5e-323, -7e-320, f64::MAX, f64::INFINITY, f64::NEG_INFINITY,
    ];
    for v in values {
        assert_eq!(half_angle(v.to_bits()), (v / 2.0).to_bits(), "halving {v}");
    }
    assert!(f64::from_bits(half_angle(f64::NAN.to_bits())).is_nan());
}

#[test]
fn session_token_alone_is_no_factory_credential() {
    let mut env = EnvSnapshot::empty();
    env.aws_session_token = Some("token".to_string());
    assert_eq!(QuantumBackendFactory::available_providers(&env), vec![QuantumProvider::LocalSimulator]);
    assert_eq!(QuantumBackendFactory::best_provider_for_algorithm("grover", &env), QuantumProvider::LocalSimulator);
    // Braket's own check does count the session token.
    let braket = BraketBackend::from_env(&env);
    assert!(braket.has_credentials(&env));
    env.aws_profile = Some("default".to_string());
    assert_eq!(
        QuantumBackendFactory::available_providers(&env),
        vec![QuantumProvider::LocalSimulator, QuantumProvider::AWSBraket]
    );
}

#[test]
fn provider_choice_ignores_case_of_algorithm() {
    let mut env = EnvSnapshot::empty();
    env.ionq_api_key = Some("k".to_string());
    env.dwave_api_token = Some("t".to_string());
    for name in ["grover", "qubo", "tfim", "parallel_tempering", "sorting"] {
        assert_eq!(
            QuantumBackendFactory::best_provider_for_algorithm(&name.to_ascii_uppercase(), &env),
            QuantumBackendFactory::best_provider_for_algorithm(name, &env)
        );
    }
    assert_eq!(QuantumBackendFactory::best_provider_for_algorithm("GROVER", &env), QuantumProvider::IonQ);
    assert_eq!(QuantumBackendFactory::best_provider_for_algorithm("sorting", &env), QuantumProvider::LocalSimulator);
}

#[test]
fn braket_config_mut_changes_only_the_device() {
    let config = BraketConfig::default();
    let region = config.region.clone();
    let mut backend = BraketBackend::new(config);
    backend.config_mut().device_arn = "arn:aws:braket:::device/qpu/d-wave/Advantage_system6".to_string();
    assert_eq!(backend.config().device_arn, "arn:aws:braket:::device/qpu/d-wave/Advantage_system6");
    assert!(backend.is_annealer());
    assert!(!backend.is_gate_based());
    assert_eq!(backend.config().region, region);
}

#[test]
fn grover_qasm_layout() {
    let backend = IBMQuantumBackend::new(IBMQuantumConfig::default());
    let other = IBMQuantumBackend::from_env(&EnvSnapshot::empty());
    let qasm = backend.build_grover_qasm(3, &[1, 6], 2);
    assert!(qasm.starts_with("OPENQASM 3.0;"));
    assert!(qasm.contains("qubit[3] q;"));
    assert!(qasm.contains("bit[3] c;"));
    assert_eq!(qasm.lines().filter(|l| l.trim() == "// Diffusion operator").count(), 2);
    assert_eq!(qasm.lines().filter(|l| l.trim().starts_with("// Oracle for state ")).count(), 4);
    let last: Vec<&str> = qasm.lines().filter(|l| !l.trim().is_empty()).map(|l| l.trim()).collect();
    let n = last.len();
    assert_eq!(&last[n - 3..], &["c[0] = measure q[0];", "c[1] = measure q[1];", "c[2] = measure q[2];"]);
    assert_eq!(qasm, other.build_grover_qasm(3, &[1, 6], 2));
}
