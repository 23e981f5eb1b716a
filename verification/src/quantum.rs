//! The quantum-inspired search over a byte string: which positions the
//! search oracle marks, the classical scan it falls back to, and the errors
//! of the quantum search, annealing and superposition algorithms.

use vstd::prelude::*;
use crate::grover_quantum::{bytes_occur_at, occurrences};
use crate::text::{decimal, occurs_at, push_decimal};
use vstd::utf8::encode_utf8;

verus! {

/// Why a quantum algorithm failed.
#[derive(Debug)]
pub enum QuantumError {
    /// The search could not be carried out.
    SearchFailed { message: String },
    /// Annealing stopped before it converged.
    AnnealingFailed { iterations: usize },
    /// A superposition query could not be answered.
    SuperpositionFailed { reason: String },
    /// A quantum state is malformed.
    InvalidState { details: String },
    /// No accelerator is available.
    HardwareUnavailable,
}

/// The message of an error.
pub open spec fn quantum_error_text(e: QuantumError) -> Seq<char> {
    match e {
        QuantumError::SearchFailed { message } => "Quantum search failed: "@ + message@,
        QuantumError::AnnealingFailed { iterations } =>
            "Quantum annealing did not converge: "@ + decimal(iterations as nat) + " iterations"@,
        QuantumError::SuperpositionFailed { reason } => "Superposition query failed: "@ + reason@,
        QuantumError::InvalidState { details } => "Invalid quantum state: "@ + details@,
        QuantumError::HardwareUnavailable => "Hardware acceleration unavailable"@,
    }
}

impl QuantumError {
    /// The message of this error, as it is shown to a user.
    pub fn to_display_string(&self) -> (s: String)
        ensures
            s@ == quantum_error_text(*self),
    {
        let mut s = String::new();
        match self {
            QuantumError::SearchFailed { message } => {
                s.append("Quantum search failed: ");
                s.append(message.as_str());
            },
            QuantumError::AnnealingFailed { iterations } => {
                s.append("Quantum annealing did not converge: ");
                push_decimal(&mut s, *iterations as u64);
                s.append(" iterations");
            },
            QuantumError::SuperpositionFailed { reason } => {
                s.append("Superposition query failed: ");
                s.append(reason.as_str());
            },
            QuantumError::InvalidState { details } => {
                s.append("Invalid quantum state: ");
                s.append(details.as_str());
            },
            QuantumError::HardwareUnavailable => {
                s.append("Hardware acceleration unavailable");
            },
        }
        s
    }
}

/// The number of windows of width `width` over `len` items.
pub open spec fn window_count(len: nat, width: nat) -> nat {
    if len >= width { (len - width + 1) as nat } else { 0 }
}

/// The start of every window of `data` equal to `query`, in increasing
/// order: the classical scan behind the quantum search.
pub fn classical_search(data: &[u8], query: &[u8]) -> (indices: Vec<usize>)
    requires
        query.len() > 0,
    ensures
        indices@ == occurrences(data@, query@, window_count(data@.len(), query@.len())),
{
    let mut indices: Vec<usize> = Vec::new();
    if data.len() < query.len() {
        return indices;
    }
    let last = data.len() - query.len();
    let mut i: usize = 0;
    while i <= last
        invariant
            last == data@.len() - query@.len(),
            query@.len() > 0,
            data@.len() <= usize::MAX,
            i <= last + 1,
            indices@ == occurrences(data@, query@, i as nat),
        decreases last + 1 - i,
    {
        if bytes_occur_at(data, query, i) {
            indices.push(i);
        }
        i = i + 1;
    }
    indices
}

/// The marks of the search oracle over `data`: position `i` is marked when
/// `query` occurs there. With no data, an empty query or data shorter than
/// the query nothing is marked, over `max(data.len(), 1)` positions.
pub open spec fn oracle_marks(data: Seq<u8>, query: Seq<u8>) -> Seq<bool> {
    if data.len() == 0 || query.len() == 0 || data.len() < query.len() {
        Seq::new(if data.len() > 0 { data.len() } else { 1 }, |i: int| false)
    } else {
        Seq::new(data.len(), |i: int| occurs_at(data, query, i))
    }
}

/// Computes the oracle's marks for a text query (see `oracle_marks`, over
/// the query's UTF-8 bytes).
pub fn grover_oracle_marks(data: &[u8], query: &str) -> (marks: Vec<bool>)
    ensures
        marks@ == oracle_marks(data@, encode_utf8(query@)),
{
    let q = query.as_bytes();
    if data.len() == 0 || q.len() == 0 || data.len() < q.len() {
        let n = if data.len() > 0 { data.len() } else { 1 };
        let mut marks: Vec<bool> = Vec::new();
        let mut i: usize = 0;
        while i < n
            invariant
                i <= n,
                marks@.len() == i,
                forall|j: int| 0 <= j < i ==> !marks@[j],
            decreases n - i,
        {
            marks.push(false);
            i = i + 1;
        }
        assert(marks@ =~= oracle_marks(data@, encode_utf8(query@)));
        return marks;
    }
    let mut marks: Vec<bool> = Vec::new();
    let mut i: usize = 0;
    while i < data.len()
        invariant
            i <= data.len(),
            q@ == encode_utf8(query@),
            marks@.len() == i,
            forall|j: int| 0 <= j < i ==> marks@[j] == occurs_at(data@, q@, j),
        decreases data.len() - i,
    {
        let hit = bytes_occur_at(data, q, i);
        marks.push(hit);
        i = i + 1;
    }
    assert(marks@ =~= oracle_marks(data@, encode_utf8(query@)));
    marks
}

} // verus!
