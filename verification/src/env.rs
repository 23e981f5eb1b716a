//! The environment variables that backend configuration reads, captured as
//! plain values so that configuration logic can be checked without touching
//! the process environment.

use vstd::prelude::*;

verus! {

/// The values of the environment variables the backends consult, each
/// `None` when unset (or not valid Unicode), and whether an AWS shared
/// credentials file exists under `$HOME/.aws/credentials`.
pub struct EnvSnapshot {
    pub ibm_quantum_api_key: Option<String>,
    pub ibm_quantum_backend: Option<String>,
    pub ibm_quantum_endpoint: Option<String>,
    pub ibm_quantum_token: Option<String>,
    pub dwave_api_token: Option<String>,
    pub dwave_solver: Option<String>,
    pub dwave_endpoint: Option<String>,
    pub aws_access_key_id: Option<String>,
    pub aws_secret_access_key: Option<String>,
    pub aws_session_token: Option<String>,
    pub aws_profile: Option<String>,
    pub aws_region: Option<String>,
    pub aws_braket_device_arn: Option<String>,
    pub aws_braket_s3_bucket: Option<String>,
    pub aws_braket_max_qubits: Option<String>,
    pub braket_device_arn: Option<String>,
    pub braket_s3_bucket: Option<String>,
    pub ionq_api_key: Option<String>,
    pub ionq_target: Option<String>,
    pub tfim_backend: Option<String>,
    pub aws_credentials_file_exists: bool,
}

impl EnvSnapshot {
    /// An environment in which nothing is set.
    pub fn empty() -> (e: EnvSnapshot)
        ensures
            e.ibm_quantum_api_key is None,
            e.ibm_quantum_backend is None,
            e.ibm_quantum_endpoint is None,
            e.ibm_quantum_token is None,
            e.dwave_api_token is None,
            e.dwave_solver is None,
            e.dwave_endpoint is None,
            e.aws_access_key_id is None,
            e.aws_secret_access_key is None,
            e.aws_session_token is None,
            e.aws_profile is None,
            e.aws_region is None,
            e.aws_braket_device_arn is None,
            e.aws_braket_s3_bucket is None,
            e.aws_braket_max_qubits is None,
            e.braket_device_arn is None,
            e.braket_s3_bucket is None,
            e.ionq_api_key is None,
            e.ionq_target is None,
            e.tfim_backend is None,
            !e.aws_credentials_file_exists,
    {
        EnvSnapshot {
            ibm_quantum_api_key: None,
            ibm_quantum_backend: None,
            ibm_quantum_endpoint: None,
            ibm_quantum_token: None,
            dwave_api_token: None,
            dwave_solver: None,
            dwave_endpoint: None,
            aws_access_key_id: None,
            aws_secret_access_key: None,
            aws_session_token: None,
            aws_profile: None,
            aws_region: None,
            aws_braket_device_arn: None,
            aws_braket_s3_bucket: None,
            aws_braket_max_qubits: None,
            braket_device_arn: None,
            braket_s3_bucket: None,
            ionq_api_key: None,
            ionq_target: None,
            tfim_backend: None,
            aws_credentials_file_exists: false,
        }
    }
}

/// A copy of an optional string.
pub fn copy_opt(o: &Option<String>) -> (r: Option<String>)
    ensures
        r == *o,
{
    match o {
        Some(s) => Some(s.clone()),
        None => None,
    }
}

/// The first of two optional strings that is set: a configured value, else
/// the environment's.
pub fn first_set(configured: &Option<String>, from_env: &Option<String>) -> (r: Option<String>)
    ensures
        r == (if configured is Some { *configured } else { *from_env }),
{
    match configured {
        Some(s) => Some(s.clone()),
        None => copy_opt(from_env),
    }
}

/// An environment value, or `default` when it is unset.
pub fn env_or(from_env: &Option<String>, default: &str) -> (r: String)
    ensures
        r@ == (match *from_env {
            Some(s) => s@,
            None => default@,
        }),
{
    match from_env {
        Some(s) => s.clone(),
        None => default.to_owned(),
    }
}

} // verus!
