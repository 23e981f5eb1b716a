//! AWS Braket: configuration, device classification and availability.

use vstd::prelude::*;
use super::{aws_credentials_present, is_default_backend_config, QuantumBackendConfig, QuantumBackendInfo, QuantumProvider};
use crate::env::{copy_opt, env_or, EnvSnapshot};
use crate::text::{contains_seq, parse_usize, parse_usize_spec, str_contains};

verus! {

/// Configuration of the AWS Braket backend.
#[derive(Debug, Clone)]
pub struct BraketConfig {
    /// AWS region.
    pub region: String,
    /// Device ARN (Amazon Resource Name).
    pub device_arn: String,
    /// Shots per measurement.
    pub num_shots: usize,
    /// S3 bucket for results.
    pub s3_bucket: Option<String>,
    /// S3 key prefix for results.
    pub s3_prefix: String,
    /// Largest number of qubits the device accepts.
    pub max_qubits: usize,
    /// Seconds between result polls.
    pub poll_interval_secs: u64,
    /// Longest wait for a result, in seconds.
    pub max_wait_secs: u64,
    /// Settings common to every backend.
    pub common: QuantumBackendConfig,
}

/// The default Braket configuration: the SV1 simulator in us-east-1.
pub open spec fn is_default_braket_config(c: BraketConfig) -> bool {
    &&& c.region@ == "us-east-1"@
    &&& c.device_arn@ == "arn:aws:braket:::device/quantum-simulator/amazon/sv1"@
    &&& c.num_shots == 1024
    &&& c.s3_bucket is None
    &&& c.s3_prefix@ == "braket-results"@
    &&& c.max_qubits == 34
    &&& c.poll_interval_secs == 5
    &&& c.max_wait_secs == 600
    &&& is_default_backend_config(c.common)
}

impl Default for BraketConfig {
    fn default() -> (c: Self)
        ensures
            is_default_braket_config(c),
    {
        BraketConfig {
            region: "us-east-1".to_owned(),
            device_arn: "arn:aws:braket:::device/quantum-simulator/amazon/sv1".to_owned(),
            num_shots: 1024,
            s3_bucket: None,
            s3_prefix: "braket-results".to_owned(),
            max_qubits: 34,
            poll_interval_secs: 5,
            max_wait_secs: 600,
            common: QuantumBackendConfig::default(),
        }
    }
}

/// The kind of device a Braket ARN names.
#[derive(Debug, Clone, Copy, PartialEq, Eq, Structural)]
pub enum BraketDeviceType {
    /// IonQ trapped-ion.
    IonQ,
    /// Rigetti superconducting.
    Rigetti,
    /// OQC superconducting.
    OQC,
    /// D-Wave quantum annealer.
    DWave,
    /// Amazon simulator (SV1, DM1, TN1).
    Simulator,
    /// Anything else.
    Unknown,
}

/// The display name of a device type.
pub open spec fn device_type_name(t: BraketDeviceType) -> Seq<char> {
    match t {
        BraketDeviceType::IonQ => "IonQ"@,
        BraketDeviceType::Rigetti => "Rigetti"@,
        BraketDeviceType::OQC => "OQC"@,
        BraketDeviceType::DWave => "D-Wave"@,
        BraketDeviceType::Simulator => "Simulator"@,
        BraketDeviceType::Unknown => "Unknown"@,
    }
}

impl BraketDeviceType {
    /// The device type's display name.
    pub fn to_display_string(&self) -> (s: String)
        ensures
            s@ == device_type_name(*self),
    {
        match self {
            BraketDeviceType::IonQ => "IonQ".to_owned(),
            BraketDeviceType::Rigetti => "Rigetti".to_owned(),
            BraketDeviceType::OQC => "OQC".to_owned(),
            BraketDeviceType::DWave => "D-Wave".to_owned(),
            BraketDeviceType::Simulator => "Simulator".to_owned(),
            BraketDeviceType::Unknown => "Unknown".to_owned(),
        }
    }
}

/// The device type an ARN names: the first vendor marker the ARN contains,
/// checked in the order ionq, rigetti, oqc, d-wave or dwave, simulator.
pub open spec fn device_type_of(arn: Seq<char>) -> BraketDeviceType {
    if contains_seq(arn, "ionq"@) {
        BraketDeviceType::IonQ
    } else if contains_seq(arn, "rigetti"@) {
        BraketDeviceType::Rigetti
    } else if contains_seq(arn, "oqc"@) {
        BraketDeviceType::OQC
    } else if contains_seq(arn, "d-wave"@) || contains_seq(arn, "dwave"@) {
        BraketDeviceType::DWave
    } else if contains_seq(arn, "simulator"@) {
        BraketDeviceType::Simulator
    } else {
        BraketDeviceType::Unknown
    }
}

/// Classifies a device ARN as `device_type_of` says.
pub fn classify_device_arn(arn: &str) -> (t: BraketDeviceType)
    ensures
        t == device_type_of(arn@),
{
    if str_contains(arn, "ionq") {
        BraketDeviceType::IonQ
    } else if str_contains(arn, "rigetti") {
        BraketDeviceType::Rigetti
    } else if str_contains(arn, "oqc") {
        BraketDeviceType::OQC
    } else if str_contains(arn, "d-wave") || str_contains(arn, "dwave") {
        BraketDeviceType::DWave
    } else if str_contains(arn, "simulator") {
        BraketDeviceType::Simulator
    } else {
        BraketDeviceType::Unknown
    }
}

/// Whether a device type is gate-based (every known kind except D-Wave).
pub open spec fn is_gate_based_type(t: BraketDeviceType) -> bool {
    t is IonQ || t is Rigetti || t is OQC || t is Simulator
}

/// An ARN that names D-Wave and no earlier vendor marker is an annealer's:
/// its device is D-Wave, which is not gate-based.
pub proof fn lemma_dwave_arn_is_annealer(arn: Seq<char>)
    requires
        contains_seq(arn, "d-wave"@) || contains_seq(arn, "dwave"@),
        !contains_seq(arn, "ionq"@),
        !contains_seq(arn, "rigetti"@),
        !contains_seq(arn, "oqc"@),
    ensures
        device_type_of(arn) is DWave,
        !is_gate_based_type(device_type_of(arn)),
{
}

/// AWS Braket backend for multi-vendor quantum access.
pub struct BraketBackend {
    config: BraketConfig,
}

impl BraketBackend {
    /// The backend's configuration.
    pub closed spec fn spec_config(&self) -> BraketConfig {
        self.config
    }

    /// A backend with the given configuration.
    pub fn new(config: BraketConfig) -> (b: Self)
        ensures
            b.spec_config() == config,
    {
        BraketBackend { config }
    }

    /// A backend configured from the environment: region, device ARN and S3
    /// bucket from `AWS_REGION`, `AWS_BRAKET_DEVICE_ARN` and
    /// `AWS_BRAKET_S3_BUCKET`, the qubit limit parsed from
    /// `AWS_BRAKET_MAX_QUBITS` (34 when unset or not a number), and the
    /// defaults for everything else.
    pub fn from_env(env: &EnvSnapshot) -> (b: Self)
        ensures
            b.spec_config().region@ == (match env.aws_region {
                Some(s) => s@,
                None => "us-east-1"@,
            }),
            b.spec_config().device_arn@ == (match env.aws_braket_device_arn {
                Some(s) => s@,
                None => "arn:aws:braket:::device/quantum-simulator/amazon/sv1"@,
            }),
            b.spec_config().s3_bucket == env.aws_braket_s3_bucket,
            b.spec_config().max_qubits == (match env.aws_braket_max_qubits {
                Some(s) => match parse_usize_spec(s@) {
                    Some(n) => n,
                    None => 34,
                },
                None => 34,
            }),
            b.spec_config().num_shots == 1024,
            b.spec_config().s3_prefix@ == "braket-results"@,
            b.spec_config().poll_interval_secs == 5,
            b.spec_config().max_wait_secs == 600,
            is_default_backend_config(b.spec_config().common),
    {
        let max_qubits = match &env.aws_braket_max_qubits {
            Some(s) => match parse_usize(s.as_str()) {
                Some(n) => n,
                None => 34,
            },
            None => 34,
        };
        let d = BraketConfig::default();
        let config = BraketConfig {
            region: env_or(&env.aws_region, "us-east-1"),
            device_arn: env_or(
                &env.aws_braket_device_arn,
                "arn:aws:braket:::device/quantum-simulator/amazon/sv1",
            ),
            s3_bucket: copy_opt(&env.aws_braket_s3_bucket),
            max_qubits,
            ..d
        };
        Self::new(config)
    }

    /// Whether AWS credentials are reachable from `env`.
    pub fn has_credentials(&self, env: &EnvSnapshot) -> (r: bool)
        ensures
            r == aws_credentials_present(*env),
    {
        env.aws_access_key_id.is_some() || env.aws_session_token.is_some()
            || env.aws_profile.is_some() || env.aws_credentials_file_exists
    }

    /// The current configuration.
    pub fn config(&self) -> (c: &BraketConfig)
        ensures
            *c == self.spec_config(),
    {
        &self.config
    }

    /// The configuration, for changing it in place.
    pub fn config_mut(&mut self) -> (c: &mut BraketConfig)
        ensures
            *c == old(self).spec_config(),
            final(self).spec_config() == *final(c),
    {
        &mut self.config
    }

    /// The device type named by the configured ARN.
    pub fn device_type(&self) -> (t: BraketDeviceType)
        ensures
            t == device_type_of(self.spec_config().device_arn@),
    {
        classify_device_arn(self.config.device_arn.as_str())
    }

    /// Whether the device is a quantum annealer (D-Wave).
    pub fn is_annealer(&self) -> (r: bool)
        ensures
            r == (device_type_of(self.spec_config().device_arn@) is DWave),
    {
        match self.device_type() {
            BraketDeviceType::DWave => true,
            _ => false,
        }
    }

    /// Whether the device is gate-based: IonQ, Rigetti, OQC or a simulator.
    pub fn is_gate_based(&self) -> (r: bool)
        ensures
            r == is_gate_based_type(device_type_of(self.spec_config().device_arn@)),
    {
        match self.device_type() {
            BraketDeviceType::IonQ => true,
            BraketDeviceType::Rigetti => true,
            BraketDeviceType::OQC => true,
            BraketDeviceType::Simulator => true,
            _ => false,
        }
    }
}

impl QuantumBackendInfo for BraketBackend {
    fn is_available(&self, env: &EnvSnapshot) -> (r: bool)
        ensures
            r == aws_credentials_present(*env),
    {
        self.has_credentials(env)
    }

    fn max_qubits(&self) -> (n: usize)
        ensures
            n == self.spec_config().max_qubits,
    {
        self.config.max_qubits
    }

    fn name(&self) -> (s: &'static str)
        ensures
            s@ == "AWS Braket"@,
    {
        "AWS Braket"
    }

    fn provider(&self) -> (p: QuantumProvider)
        ensures
            p == QuantumProvider::AWSBraket,
    {
        QuantumProvider::AWSBraket
    }
}

/// The variable domain of an annealing problem.
#[derive(Debug, Clone, Copy, PartialEq, Eq, Structural)]
pub enum BraketProblemType {
    /// Ising spins in {-1, +1}.
    Ising,
    /// QUBO binary variables in {0, 1}.
    Qubo,
}

/// The state of a Braket task.
#[derive(Debug, Clone, Copy, PartialEq, Eq, Structural)]
pub enum BraketTaskStatus {
    Queued,
    Running,
    Completed,
    Failed,
    Cancelled,
}

/// What Braket reports about a task.
#[derive(Debug, Clone)]
pub struct BraketTaskInfo {
    /// Task ARN.
    pub task_arn: String,
    /// Current status.
    pub status: BraketTaskStatus,
    /// Device ARN.
    pub device_arn: String,
    /// S3 output location.
    pub s3_output: Option<String>,
    /// Creation time.
    pub created: Option<String>,
    /// Completion time.
    pub finished: Option<String>,
}

} // verus!
