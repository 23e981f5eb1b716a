//! Quantum hardware backends: the providers, the settings they share, the
//! information every backend reports, and the choice of a provider for an
//! algorithm.

pub mod braket;
pub mod dwave;
pub mod ibm;
pub mod ionq;
pub mod qasm;
pub mod qasm_lines;

use vstd::prelude::*;
use crate::env::EnvSnapshot;
use crate::text::{ascii_uppercase, lemma_lowercase_equals_upper, lowercase_eq, lowercase_equals};

verus! {

/// A quantum computing provider.
#[derive(Debug, Clone, Copy, PartialEq, Eq, Structural, Hash)]
pub enum QuantumProvider {
    /// IBM Quantum, superconducting gate-based.
    IBMQuantum,
    /// AWS Braket, multi-vendor access.
    AWSBraket,
    /// D-Wave quantum annealing.
    DWave,
    /// IonQ trapped-ion gate-based.
    IonQ,
    /// Local classical simulation.
    LocalSimulator,
}

/// The display name of a provider.
pub open spec fn provider_name(p: QuantumProvider) -> Seq<char> {
    match p {
        QuantumProvider::IBMQuantum => "IBM Quantum"@,
        QuantumProvider::AWSBraket => "AWS Braket"@,
        QuantumProvider::DWave => "D-Wave"@,
        QuantumProvider::IonQ => "IonQ"@,
        QuantumProvider::LocalSimulator => "Local Simulator"@,
    }
}

impl QuantumProvider {
    /// The provider's display name, e.g. `IBM Quantum`.
    pub fn to_display_string(&self) -> (s: String)
        ensures
            s@ == provider_name(*self),
    {
        match self {
            QuantumProvider::IBMQuantum => "IBM Quantum".to_owned(),
            QuantumProvider::AWSBraket => "AWS Braket".to_owned(),
            QuantumProvider::DWave => "D-Wave".to_owned(),
            QuantumProvider::IonQ => "IonQ".to_owned(),
            QuantumProvider::LocalSimulator => "Local Simulator".to_owned(),
        }
    }
}

/// Connection settings common to every backend.
#[derive(Debug, Clone)]
pub struct QuantumBackendConfig {
    /// Connection timeout in seconds.
    pub timeout_secs: u64,
    /// Maximum number of retry attempts.
    pub max_retries: u32,
    /// Verbose logging.
    pub verbose: bool,
    /// Fall back to local simulation when the hardware is unavailable.
    pub fallback_to_simulation: bool,
}

/// The default common settings: 300 s timeout, 3 retries, quiet, with
/// fallback to simulation.
pub open spec fn is_default_backend_config(c: QuantumBackendConfig) -> bool {
    &&& c.timeout_secs == 300
    &&& c.max_retries == 3
    &&& !c.verbose
    &&& c.fallback_to_simulation
}

impl Default for QuantumBackendConfig {
    fn default() -> (c: Self)
        ensures
            is_default_backend_config(c),
    {
        QuantumBackendConfig {
            timeout_secs: 300,
            max_retries: 3,
            verbose: false,
            fallback_to_simulation: true,
        }
    }
}

/// What every backend reports about itself. Availability depends on the
/// credentials found in the environment, which the caller passes in.
pub trait QuantumBackendInfo {
    /// Whether the backend is configured and usable.
    fn is_available(&self, env: &EnvSnapshot) -> bool;

    /// The largest number of qubits (or variables) the backend handles.
    fn max_qubits(&self) -> usize;

    /// The backend's name for logs and diagnostics.
    fn name(&self) -> &'static str;

    /// The provider behind the backend.
    fn provider(&self) -> QuantumProvider;
}

/// Chooses providers according to the credentials in the environment.
pub struct QuantumBackendFactory;

/// Whether AWS credentials are reachable: an access key, a session token, a
/// profile, or a shared credentials file.
pub open spec fn aws_credentials_present(env: EnvSnapshot) -> bool {
    ||| env.aws_access_key_id is Some
    ||| env.aws_session_token is Some
    ||| env.aws_profile is Some
    ||| env.aws_credentials_file_exists
}

/// Whether the provider factory counts AWS credentials as present: an access
/// key, a profile, or a shared credentials file (a session token alone does
/// not count here).
pub open spec fn factory_aws_credentials(env: EnvSnapshot) -> bool {
    ||| env.aws_access_key_id is Some
    ||| env.aws_profile is Some
    ||| env.aws_credentials_file_exists
}

/// The providers that the environment makes available, in the order in which
/// they are checked: the local simulator always, then IBM Quantum, D-Wave,
/// AWS Braket and IonQ when their credentials are set.
pub open spec fn available_providers_spec(env: EnvSnapshot) -> Seq<QuantumProvider> {
    seq![QuantumProvider::LocalSimulator]
        + (if env.ibm_quantum_api_key is Some { seq![QuantumProvider::IBMQuantum] } else { seq![] })
        + (if env.dwave_api_token is Some { seq![QuantumProvider::DWave] } else { seq![] })
        + (if factory_aws_credentials(env) { seq![QuantumProvider::AWSBraket] } else { seq![] })
        + (if env.ionq_api_key is Some { seq![QuantumProvider::IonQ] } else { seq![] })
}

/// The first of `prefs` that `available` contains, else the local simulator.
pub open spec fn first_available(prefs: Seq<QuantumProvider>, available: Seq<QuantumProvider>) -> QuantumProvider
    decreases prefs.len(),
{
    if prefs.len() == 0 {
        QuantumProvider::LocalSimulator
    } else if available.contains(prefs[0]) {
        prefs[0]
    } else {
        first_available(prefs.drop_first(), available)
    }
}

/// The providers preferred for an algorithm, best first; the algorithm name is
/// compared case-insensitively. Unknown algorithms prefer nothing.
pub open spec fn algorithm_preferences(algorithm: Seq<char>) -> Seq<QuantumProvider> {
    if lowercase_equals(algorithm, "grover"@) || lowercase_equals(algorithm, "grovers"@)
        || lowercase_equals(algorithm, "grover_search"@) {
        seq![QuantumProvider::IonQ, QuantumProvider::IBMQuantum, QuantumProvider::AWSBraket]
    } else if lowercase_equals(algorithm, "qubo"@) || lowercase_equals(algorithm, "qaoa"@)
        || lowercase_equals(algorithm, "optimization"@) {
        seq![QuantumProvider::DWave, QuantumProvider::IBMQuantum, QuantumProvider::AWSBraket]
    } else if lowercase_equals(algorithm, "tfim"@) || lowercase_equals(algorithm, "ising"@)
        || lowercase_equals(algorithm, "annealing"@) {
        seq![QuantumProvider::DWave, QuantumProvider::AWSBraket]
    } else if lowercase_equals(algorithm, "parallel_tempering"@) || lowercase_equals(
        algorithm,
        "pt"@,
    ) || lowercase_equals(algorithm, "thermal"@) {
        seq![QuantumProvider::DWave, QuantumProvider::IBMQuantum, QuantumProvider::IonQ]
    } else {
        seq![]
    }
}

fn provider_listed(v: &Vec<QuantumProvider>, p: QuantumProvider) -> (r: bool)
    ensures
        r == v@.contains(p),
{
    let mut i: usize = 0;
    while i < v.len()
        invariant
            i <= v@.len(),
            forall|j: int| 0 <= j < i ==> v@[j] != p,
        decreases v@.len() - i,
    {
        if v[i] == p {
            assert(v@[i as int] == p);
            return true;
        }
        i = i + 1;
    }
    false
}

fn first_listed(prefs: &Vec<QuantumProvider>, available: &Vec<QuantumProvider>) -> (r: QuantumProvider)
    ensures
        r == first_available(prefs@, available@),
{
    let mut i: usize = 0;
    assert(prefs@.subrange(0, prefs@.len() as int) =~= prefs@);
    while i < prefs.len()
        invariant
            i <= prefs@.len(),
            first_available(prefs@, available@) == first_available(
                prefs@.subrange(i as int, prefs@.len() as int),
                available@,
            ),
        decreases prefs@.len() - i,
    {
        let ghost rest = prefs@.subrange(i as int, prefs@.len() as int);
        assert(rest.drop_first() =~= prefs@.subrange(i + 1, prefs@.len() as int));
        if provider_listed(available, prefs[i]) {
            return prefs[i];
        }
        i = i + 1;
    }
    assert(prefs@.subrange(i as int, prefs@.len() as int) =~= Seq::<QuantumProvider>::empty());
    QuantumProvider::LocalSimulator
}

impl QuantumBackendFactory {
    /// The providers available in `env`, in the order of
    /// `available_providers_spec`; the local simulator is always among them.
    pub fn available_providers(env: &EnvSnapshot) -> (v: Vec<QuantumProvider>)
        ensures
            v@ == available_providers_spec(*env),
    {
        let mut v: Vec<QuantumProvider> = Vec::new();
        v.push(QuantumProvider::LocalSimulator);
        if env.ibm_quantum_api_key.is_some() {
            v.push(QuantumProvider::IBMQuantum);
        }
        if env.dwave_api_token.is_some() {
            v.push(QuantumProvider::DWave);
        }
        if env.aws_access_key_id.is_some() || env.aws_profile.is_some() || env.aws_credentials_file_exists {
            v.push(QuantumProvider::AWSBraket);
        }
        if env.ionq_api_key.is_some() {
            v.push(QuantumProvider::IonQ);
        }
        assert(v@ =~= available_providers_spec(*env));
        v
    }

    fn preferences(algorithm: &str) -> (v: Vec<QuantumProvider>)
        ensures
            v@ == algorithm_preferences(algorithm@),
    {
        if lowercase_eq(algorithm, "grover") || lowercase_eq(algorithm, "grovers")
            || lowercase_eq(algorithm, "grover_search") {
            let v = vec![QuantumProvider::IonQ, QuantumProvider::IBMQuantum, QuantumProvider::AWSBraket];
            assert(v@ =~= algorithm_preferences(algorithm@));
            v
        } else if lowercase_eq(algorithm, "qubo") || lowercase_eq(algorithm, "qaoa")
            || lowercase_eq(algorithm, "optimization") {
            let v = vec![QuantumProvider::DWave, QuantumProvider::IBMQuantum, QuantumProvider::AWSBraket];
            assert(v@ =~= algorithm_preferences(algorithm@));
            v
        } else if lowercase_eq(algorithm, "tfim") || lowercase_eq(algorithm, "ising")
            || lowercase_eq(algorithm, "annealing") {
            let v = vec![QuantumProvider::DWave, QuantumProvider::AWSBraket];
            assert(v@ =~= algorithm_preferences(algorithm@));
            v
        } else if lowercase_eq(algorithm, "parallel_tempering") || lowercase_eq(algorithm, "pt")
            || lowercase_eq(algorithm, "thermal") {
            let v = vec![QuantumProvider::DWave, QuantumProvider::IBMQuantum, QuantumProvider::IonQ];
            assert(v@ =~= algorithm_preferences(algorithm@));
            v
        } else {
            let v: Vec<QuantumProvider> = Vec::new();
            assert(v@ =~= algorithm_preferences(algorithm@));
            v
        }
    }

    /// The best available provider for an algorithm: the first of the
    /// algorithm's preferred providers that `env` makes available, else the
    /// local simulator.
    pub fn best_provider_for_algorithm(algorithm: &str, env: &EnvSnapshot) -> (p: QuantumProvider)
        ensures
            p == first_available(algorithm_preferences(algorithm@), available_providers_spec(*env)),
    {
        let available = Self::available_providers(env);
        let prefs = Self::preferences(algorithm);
        first_listed(&prefs, &available)
    }
}

proof fn lemma_keyword_upper(s: Seq<char>, t: Seq<char>)
    requires
        forall|i: int| 0 <= i < t.len() ==> (97 <= (#[trigger] t[i]) as u32 && t[i] as u32 <= 122) || t[i] == '_',
    ensures
        lowercase_equals(ascii_uppercase(s), t) == lowercase_equals(s, t),
{
    assert forall|i: int| 0 <= i < t.len() implies !(65 <= (#[trigger] t[i]) as u32 && t[i] as u32 <= 90) by {
        assert((97 <= t[i] as u32 && t[i] as u32 <= 122) || t[i] == '_');
    }
    lemma_lowercase_equals_upper(s, t);
}

/// The choice of provider for an algorithm does not depend on the case of
/// the algorithm's name: upper-casing its ASCII letters chooses the same
/// provider in the same environment.
pub proof fn lemma_provider_choice_ignores_case(algorithm: Seq<char>, env: EnvSnapshot)
    ensures
        first_available(algorithm_preferences(ascii_uppercase(algorithm)), available_providers_spec(env))
            == first_available(algorithm_preferences(algorithm), available_providers_spec(env)),
{
    reveal_strlit("grover");
    reveal_strlit("grovers");
    reveal_strlit("grover_search");
    reveal_strlit("qubo");
    reveal_strlit("qaoa");
    reveal_strlit("optimization");
    reveal_strlit("tfim");
    reveal_strlit("ising");
    reveal_strlit("annealing");
    reveal_strlit("parallel_tempering");
    reveal_strlit("pt");
    reveal_strlit("thermal");
    lemma_keyword_upper(algorithm, "grover"@);
    lemma_keyword_upper(algorithm, "grovers"@);
    lemma_keyword_upper(algorithm, "grover_search"@);
    lemma_keyword_upper(algorithm, "qubo"@);
    lemma_keyword_upper(algorithm, "qaoa"@);
    lemma_keyword_upper(algorithm, "optimization"@);
    lemma_keyword_upper(algorithm, "tfim"@);
    lemma_keyword_upper(algorithm, "ising"@);
    lemma_keyword_upper(algorithm, "annealing"@);
    lemma_keyword_upper(algorithm, "parallel_tempering"@);
    lemma_keyword_upper(algorithm, "pt"@);
    lemma_keyword_upper(algorithm, "thermal"@);
    assert(algorithm_preferences(ascii_uppercase(algorithm)) == algorithm_preferences(algorithm));
}

/// A provider chosen for an algorithm is always one the environment makes
/// available.
pub proof fn lemma_best_provider_is_available(algorithm: Seq<char>, env: EnvSnapshot)
    ensures
        available_providers_spec(env).contains(
            first_available(algorithm_preferences(algorithm), available_providers_spec(env)),
        ),
{
    let avail = available_providers_spec(env);
    assert(avail[0] == QuantumProvider::LocalSimulator);
    lemma_first_available_in(algorithm_preferences(algorithm), avail);
}

proof fn lemma_first_available_in(prefs: Seq<QuantumProvider>, available: Seq<QuantumProvider>)
    requires
        available.contains(QuantumProvider::LocalSimulator),
    ensures
        available.contains(first_available(prefs, available)),
    decreases prefs.len(),
{
    if prefs.len() > 0 && !available.contains(prefs[0]) {
        lemma_first_available_in(prefs.drop_first(), available);
    }
}


/// The provider chosen from a preference list is the first preferred
/// provider that is available (so an available first preference is always
/// chosen), and the local simulator when none is.
pub proof fn lemma_first_available_is_first_preference(prefs: Seq<QuantumProvider>, available: Seq<QuantumProvider>)
    ensures
        forall|i: int| 0 <= i < prefs.len() && available.contains(#[trigger] prefs[i])
            && (forall|j: int| 0 <= j < i ==> !available.contains(prefs[j]))
            ==> first_available(prefs, available) == prefs[i],
        (forall|j: int| 0 <= j < prefs.len() ==> !available.contains(prefs[j]))
            ==> first_available(prefs, available) == QuantumProvider::LocalSimulator,
    decreases prefs.len(),
{
    if prefs.len() > 0 {
        let rest = prefs.drop_first();
        lemma_first_available_is_first_preference(rest, available);
        if !available.contains(prefs[0]) {
            assert forall|i: int| 0 <= i < prefs.len() && available.contains(#[trigger] prefs[i])
                && (forall|j: int| 0 <= j < i ==> !available.contains(prefs[j]))
                implies first_available(prefs, available) == prefs[i] by {
                assert(i > 0);
                assert(rest[i - 1] == prefs[i]);
                assert forall|j: int| 0 <= j < i - 1 implies !available.contains(rest[j]) by {
                    assert(rest[j] == prefs[j + 1]);
                }
            }
            if forall|j: int| 0 <= j < prefs.len() ==> !available.contains(prefs[j]) {
                assert forall|j: int| 0 <= j < rest.len() implies !available.contains(rest[j]) by {
                    assert(rest[j] == prefs[j + 1]);
                }
            }
        } else {
            assert forall|i: int| 0 <= i < prefs.len() && available.contains(#[trigger] prefs[i])
                && (forall|j: int| 0 <= j < i ==> !available.contains(prefs[j]))
                implies first_available(prefs, available) == prefs[i] by {
                if i > 0 {
                    assert(!available.contains(prefs[0]));
                }
            }
        }
    }
}

} // verus!
