//! Grover's search as a gate circuit: the oracle for a set of marked states,
//! oracles built from a database or a byte pattern, the diffusion operator
//! and the assembled circuit.

use vstd::prelude::*;
use crate::backends::qasm::{bit_clear, lemma_shift_bit};
use crate::error::CoreError;
use crate::grover::{index_width, register_width};
use crate::text::occurs_at;
use vstd::std_specs::cmp::PartialEqSpec;

verus! {

/// Where a Grover search runs.
#[derive(Debug, Clone, Copy, PartialEq, Eq, Structural)]
pub enum GroverQuantumBackend {
    /// State-vector simulation.
    Simulator,
    /// Superconducting qubits (IBM, Rigetti).
    Superconducting,
    /// Trapped ions (IonQ).
    TrappedIon,
    /// Neutral atoms.
    NeutralAtom,
    /// Classical fallback.
    ClassicalFallback,
}

impl Default for GroverQuantumBackend {
    fn default() -> (b: Self)
        ensures
            b == GroverQuantumBackend::Simulator,
    {
        GroverQuantumBackend::Simulator
    }
}

/// A gate of a Grover circuit. Rotation angles are carried as the bit
/// pattern of their `f64` value (`f64::to_bits`).
#[derive(Debug, Clone)]
pub enum GroverGate {
    H { qubit: usize },
    X { qubit: usize },
    Z { qubit: usize },
    RZ { qubit: usize, angle_bits: u64 },
    CNOT { control: usize, target: usize },
    CZ { control: usize, target: usize },
    MCX { controls: Vec<usize>, target: usize },
    MCZ { controls: Vec<usize>, target: usize },
    Phase { qubit: usize, angle_bits: u64 },
}

/// A Grover gate as a mathematical value.
pub enum GroverGateSpec {
    H { qubit: usize },
    X { qubit: usize },
    Z { qubit: usize },
    RZ { qubit: usize, angle_bits: u64 },
    CNOT { control: usize, target: usize },
    CZ { control: usize, target: usize },
    MCX { controls: Seq<usize>, target: usize },
    MCZ { controls: Seq<usize>, target: usize },
    Phase { qubit: usize, angle_bits: u64 },
}

impl View for GroverGate {
    type V = GroverGateSpec;

    open spec fn view(&self) -> GroverGateSpec {
        match *self {
            GroverGate::H { qubit } => GroverGateSpec::H { qubit },
            GroverGate::X { qubit } => GroverGateSpec::X { qubit },
            GroverGate::Z { qubit } => GroverGateSpec::Z { qubit },
            GroverGate::RZ { qubit, angle_bits } => GroverGateSpec::RZ { qubit, angle_bits },
            GroverGate::CNOT { control, target } => GroverGateSpec::CNOT { control, target },
            GroverGate::CZ { control, target } => GroverGateSpec::CZ { control, target },
            GroverGate::MCX { controls, target } => GroverGateSpec::MCX { controls: controls@, target },
            GroverGate::MCZ { controls, target } => GroverGateSpec::MCZ { controls: controls@, target },
            GroverGate::Phase { qubit, angle_bits } => GroverGateSpec::Phase { qubit, angle_bits },
        }
    }
}

/// A Grover gate sequence as mathematical values.
pub open spec fn view_grover_gates(gs: Seq<GroverGate>) -> Seq<GroverGateSpec> {
    gs.map_values(|g: GroverGate| g@)
}

proof fn lemma_view_push(gs: Seq<GroverGate>, g: GroverGate)
    ensures
        view_grover_gates(gs.push(g)) == view_grover_gates(gs).push(g@),
{
    assert(view_grover_gates(gs.push(g)) =~= view_grover_gates(gs).push(g@));
}

/// How the oracle marks states.
#[derive(Debug, Clone, Copy, PartialEq, Eq, Structural)]
pub enum OracleType {
    /// Phase flip of the marked states.
    PhaseFlip,
    /// Boolean oracle with an ancilla qubit.
    BooleanWithAncilla,
}

impl Default for OracleType {
    fn default() -> (t: Self)
        ensures
            t == OracleType::PhaseFlip,
    {
        OracleType::PhaseFlip
    }
}

/// The oracle of a Grover search: the register width and the basis states it
/// marks.
#[derive(Debug, Clone)]
pub struct QuantumOracle {
    /// Register width.
    pub num_qubits: usize,
    /// The marked basis states.
    pub marked_states: Vec<usize>,
    /// How states are marked.
    pub oracle_type: OracleType,
}

/// The positions `i < k` of `db` whose entry equals `target` under the
/// element type's equality.
pub open spec fn equal_positions<T: PartialEq>(db: Seq<T>, target: T, k: nat) -> Seq<usize>
    decreases k,
{
    if k == 0 {
        Seq::empty()
    } else if db[k - 1].eq_spec(&target) {
        equal_positions(db, target, (k - 1) as nat).push((k - 1) as usize)
    } else {
        equal_positions(db, target, (k - 1) as nat)
    }
}

/// The positions `i < k` at which `pattern` occurs in `data`.
pub open spec fn occurrences(data: Seq<u8>, pattern: Seq<u8>, k: nat) -> Seq<usize>
    decreases k,
{
    if k == 0 {
        Seq::empty()
    } else if occurs_at(data, pattern, k - 1) {
        occurrences(data, pattern, (k - 1) as nat).push((k - 1) as usize)
    } else {
        occurrences(data, pattern, (k - 1) as nat)
    }
}

/// The number of candidate start positions of `pattern` in `data`:
/// `data.len().saturating_sub(pattern.len()) + 1`.
pub open spec fn candidate_starts(data_len: nat, pattern_len: nat) -> nat {
    if data_len >= pattern_len {
        (data_len - pattern_len + 1) as nat
    } else {
        1
    }
}

pub(crate) fn bytes_occur_at(data: &[u8], pattern: &[u8], i: usize) -> (r: bool)
    ensures
        r == occurs_at(data@, pattern@, i as int),
{
    if pattern.len() > data.len() || i > data.len() - pattern.len() {
        return false;
    }
    let dl = data.len();
    let mut k: usize = 0;
    while k < pattern.len()
        invariant
            k <= pattern@.len(),
            dl == data@.len(),
            i + pattern@.len() <= data@.len(),
            forall|j: int| 0 <= j < k ==> data@[i + j] == pattern@[j],
        decreases pattern@.len() - k,
    {
        if data[i + k] != pattern[k] {
            assert(data@.subrange(i as int, i + pattern@.len())[k as int] != pattern@[k as int]);
            return false;
        }
        k = k + 1;
    }
    assert(data@.subrange(i as int, i + pattern@.len()) =~= pattern@);
    true
}

/// The qubits `0..k`, in order.
pub open spec fn all_qubits(k: nat) -> Seq<usize> {
    Seq::new(k, |i: int| i as usize)
}

/// X gates on the qubits among `0..k` whose bit in `state` is clear.
pub open spec fn state_flips(state: usize, k: nat) -> Seq<GroverGateSpec>
    decreases k,
{
    if k == 0 {
        Seq::empty()
    } else if bit_clear(state, (k - 1) as nat) {
        state_flips(state, (k - 1) as nat).push(GroverGateSpec::X { qubit: (k - 1) as usize })
    } else {
        state_flips(state, (k - 1) as nat)
    }
}

/// The oracle for one marked state on `n` qubits: X on its clear bits, a Z on
/// qubit `n-1` controlled by every qubit (omitted with no qubits), and the
/// same X gates again.
pub open spec fn mark_state(state: usize, n: nat) -> Seq<GroverGateSpec> {
    state_flips(state, n) + (if n > 0 {
        seq![GroverGateSpec::MCZ { controls: all_qubits(n), target: (n - 1) as usize }]
    } else {
        Seq::empty()
    }) + state_flips(state, n)
}

/// The oracles for the first `k` marked states.
pub open spec fn mark_states(marked: Seq<usize>, n: nat, k: nat) -> Seq<GroverGateSpec>
    decreases k,
{
    if k == 0 {
        Seq::empty()
    } else {
        mark_states(marked, n, (k - 1) as nat) + mark_state(marked[k - 1], n)
    }
}

fn all_qubits_vec(k: usize) -> (v: Vec<usize>)
    ensures
        v@ == all_qubits(k as nat),
{
    let mut v: Vec<usize> = Vec::new();
    let mut i: usize = 0;
    while i < k
        invariant
            i <= k,
            v@ == all_qubits(i as nat),
        decreases k - i,
    {
        v.push(i);
        assert(v@ =~= all_qubits((i + 1) as nat));
        i = i + 1;
    }
    v
}

fn push_state_flips(gates: &mut Vec<GroverGate>, state: usize, n: usize)
    requires
        n <= usize::BITS,
    ensures
        view_grover_gates(final(gates)@) == view_grover_gates(old(gates)@) + state_flips(state, n as nat),
{
    let ghost start = view_grover_gates(gates@);
    let mut q: usize = 0;
    while q < n
        invariant
            q <= n,
            n <= usize::BITS,
            view_grover_gates(gates@) == start + state_flips(state, q as nat),
        decreases n - q,
    {
        proof { lemma_shift_bit(state, q); }
        if (state >> q) & 1 == 0 {
            proof { lemma_view_push(gates@, GroverGate::X { qubit: q }); }
            gates.push(GroverGate::X { qubit: q });
        }
        assert(view_grover_gates(gates@) =~= start + state_flips(state, (q + 1) as nat));
        q = q + 1;
    }
}

impl QuantumOracle {
    /// A phase-flip oracle marking `marked_states` on `num_qubits` qubits.
    pub fn new(num_qubits: usize, marked_states: Vec<usize>) -> (o: Self)
        ensures
            o.num_qubits == num_qubits,
            o.marked_states == marked_states,
            o.oracle_type == OracleType::PhaseFlip,
    {
        QuantumOracle { num_qubits, marked_states, oracle_type: OracleType::PhaseFlip }
    }

    /// The oracle marking the positions of `database` equal to `target`, on a
    /// register just wide enough to index the database (at least one qubit).
    /// Which positions are equal is decided by the element type's `==`.
    pub fn for_database_search<T: PartialEq + Clone>(database: &[T], target: &T) -> (o: Self)
        ensures
            o.num_qubits == index_width(database@.len()),
            o.oracle_type == OracleType::PhaseFlip,
            T::obeys_eq_spec() ==> o.marked_states@ == equal_positions(database@, *target, database@.len()),
    {
        let mut marked: Vec<usize> = Vec::new();
        let mut i: usize = 0;
        while i < database.len()
            invariant
                i <= database@.len(),
                T::obeys_eq_spec() ==> marked@ == equal_positions(database@, *target, i as nat),
            decreases database@.len() - i,
        {
            if database[i] == *target {
                marked.push(i);
            }
            i = i + 1;
        }
        let num_qubits = register_width(database.len());
        Self::new(num_qubits, marked)
    }

    /// The oracle marking every position at which `pattern` occurs in `data`
    /// (an empty pattern occurs everywhere, end included), on a register just
    /// wide enough to index `data` (at least one qubit).
    pub fn for_pattern_search(data: &[u8], pattern: &[u8]) -> (o: Self)
        ensures
            o.num_qubits == index_width(data@.len()),
            o.oracle_type == OracleType::PhaseFlip,
            o.marked_states@ == occurrences(data@, pattern@, candidate_starts(data@.len(), pattern@.len())),
    {
        let last = if data.len() >= pattern.len() { data.len() - pattern.len() } else { 0 };
        let mut marked: Vec<usize> = Vec::new();
        let mut i: usize = 0;
        loop
            invariant_except_break
                i <= last,
                last == (if data@.len() >= pattern@.len() { data@.len() - pattern@.len() } else { 0 }),
                marked@ == occurrences(data@, pattern@, i as nat),
            ensures
                marked@ == occurrences(data@, pattern@, (last + 1) as nat),
            decreases last - i,
        {
            if bytes_occur_at(data, pattern, i) {
                marked.push(i);
            }
            if i == last {
                break;
            }
            i = i + 1;
        }
        let num_qubits = register_width(data.len());
        Self::new(num_qubits, marked)
    }

    /// The oracle's gates: for each marked state in order, X on its clear
    /// bits, a Z on the last qubit controlled by every qubit, and the same X
    /// gates again (see `mark_state`).
    pub fn to_gates(&self) -> (gates: Vec<GroverGate>)
        requires
            self.marked_states@.len() == 0 || self.num_qubits <= usize::BITS,
        ensures
            view_grover_gates(gates@) == mark_states(self.marked_states@, self.num_qubits as nat, self.marked_states@.len()),
    {
        let n = self.num_qubits;
        let mut gates: Vec<GroverGate> = Vec::new();
        let mut k: usize = 0;
        while k < self.marked_states.len()
            invariant
                k <= self.marked_states@.len(),
                n == self.num_qubits,
                self.marked_states@.len() == 0 || n <= usize::BITS,
                view_grover_gates(gates@) == mark_states(self.marked_states@, n as nat, k as nat),
            decreases self.marked_states@.len() - k,
        {
            let state = self.marked_states[k];
            push_state_flips(&mut gates, state, n);
            if n > 0 {
                let g = GroverGate::MCZ { controls: all_qubits_vec(n), target: n - 1 };
                proof { lemma_view_push(gates@, g); }
                gates.push(g);
            }
            push_state_flips(&mut gates, state, n);
            assert(view_grover_gates(gates@) =~= mark_states(self.marked_states@, n as nat, (k + 1) as nat));
            k = k + 1;
        }
        gates
    }
}

/// A gate on each of the qubits `0..k`: H when `h`, else X.
pub open spec fn each(k: nat, h: bool) -> Seq<GroverGateSpec>
    decreases k,
{
    if k == 0 {
        Seq::empty()
    } else {
        each((k - 1) as nat, h).push(
            if h {
                GroverGateSpec::H { qubit: (k - 1) as usize }
            } else {
                GroverGateSpec::X { qubit: (k - 1) as usize }
            },
        )
    }
}

/// The diffusion operator on `n` qubits: H and X on every qubit, a Z on the
/// last qubit controlled by every qubit (omitted with no qubits), then X and
/// H on every qubit.
pub open spec fn grover_diffusion(n: nat) -> Seq<GroverGateSpec> {
    each(n, true) + each(n, false) + (if n > 0 {
        seq![GroverGateSpec::MCZ { controls: all_qubits(n), target: (n - 1) as usize }]
    } else {
        Seq::empty()
    }) + each(n, false) + each(n, true)
}

fn push_each(gates: &mut Vec<GroverGate>, n: usize, h: bool)
    ensures
        view_grover_gates(final(gates)@) == view_grover_gates(old(gates)@) + each(n as nat, h),
{
    let ghost start = view_grover_gates(gates@);
    let mut q: usize = 0;
    while q < n
        invariant
            q <= n,
            view_grover_gates(gates@) == start + each(q as nat, h),
        decreases n - q,
    {
        let g = if h { GroverGate::H { qubit: q } } else { GroverGate::X { qubit: q } };
        proof { lemma_view_push(gates@, g); }
        gates.push(g);
        assert(view_grover_gates(gates@) =~= start + each((q + 1) as nat, h));
        q = q + 1;
    }
}

/// The gates of the diffusion operator on `num_qubits` qubits (see
/// `grover_diffusion`).
pub fn build_diffusion_operator(num_qubits: usize) -> (gates: Vec<GroverGate>)
    ensures
        view_grover_gates(gates@) == grover_diffusion(num_qubits as nat),
{
    let mut gates: Vec<GroverGate> = Vec::new();
    assert(view_grover_gates(gates@) =~= Seq::<GroverGateSpec>::empty());
    push_each(&mut gates, num_qubits, true);
    push_each(&mut gates, num_qubits, false);
    if num_qubits > 0 {
        let g = GroverGate::MCZ { controls: all_qubits_vec(num_qubits), target: num_qubits - 1 };
        proof { lemma_view_push(gates@, g); }
        gates.push(g);
    }
    push_each(&mut gates, num_qubits, false);
    push_each(&mut gates, num_qubits, true);
    assert(view_grover_gates(gates@) =~= grover_diffusion(num_qubits as nat));
    gates
}

/// Whether a gate acts on two or more qubits.
pub open spec fn is_entangling(g: GroverGateSpec) -> bool {
    g is CNOT || g is CZ || g is MCX || g is MCZ
}

/// The number of multi-qubit gates among the first `k`.
pub open spec fn entangling_count(gs: Seq<GroverGateSpec>, k: nat) -> nat
    decreases k,
{
    if k == 0 {
        0
    } else {
        entangling_count(gs, (k - 1) as nat) + if is_entangling(gs[k - 1]) { 1nat } else { 0nat }
    }
}

/// The circuit depth estimate: the number of multi-qubit gates, plus one.
pub fn calculate_circuit_depth(gates: &[GroverGate]) -> (d: usize)
    requires
        gates@.len() < usize::MAX,
    ensures
        d == entangling_count(view_grover_gates(gates@), gates@.len()) + 1,
{
    let mut count: usize = 0;
    let mut i: usize = 0;
    while i < gates.len()
        invariant
            i <= gates@.len(),
            gates@.len() < usize::MAX,
            count == entangling_count(view_grover_gates(gates@), i as nat),
            count <= i,
        decreases gates@.len() - i,
    {
        let multi = match &gates[i] {
            GroverGate::CNOT { .. } => true,
            GroverGate::CZ { .. } => true,
            GroverGate::MCX { .. } => true,
            GroverGate::MCZ { .. } => true,
            _ => false,
        };
        assert(view_grover_gates(gates@)[i as int] == gates@[i as int]@);
        if multi {
            count = count + 1;
        }
        i = i + 1;
    }
    count + 1
}

/// A Grover circuit as handed to a backend.
#[derive(Debug, Clone)]
pub struct GroverCircuit {
    /// Register width.
    pub num_qubits: usize,
    /// Whether an ancilla qubit is used.
    pub uses_ancilla: bool,
    /// The gates, in order.
    pub gates: Vec<GroverGate>,
    /// Depth estimate (multi-qubit gates plus one).
    pub depth: usize,
    /// Grover iterations.
    pub iterations: usize,
}

/// `k` Grover iterations: the oracle, then the diffusion operator.
pub open spec fn rounds(marked: Seq<usize>, n: nat, k: nat) -> Seq<GroverGateSpec>
    decreases k,
{
    if k == 0 {
        Seq::empty()
    } else {
        rounds(marked, n, (k - 1) as nat) + mark_states(marked, n, marked.len()) + grover_diffusion(n)
    }
}

/// The Grover circuit's gates: H on every qubit, then the iterations.
pub open spec fn grover_gates(marked: Seq<usize>, n: nat, iterations: nat) -> Seq<GroverGateSpec> {
    each(n, true) + rounds(marked, n, iterations)
}

fn append_all(gates: &mut Vec<GroverGate>, more: Vec<GroverGate>)
    ensures
        view_grover_gates(final(gates)@) == view_grover_gates(old(gates)@) + view_grover_gates(more@),
{
    let ghost start = view_grover_gates(gates@);
    let mut more = more;
    let ghost all = more@;
    let mut rest: Vec<GroverGate> = Vec::new();
    let mut i: usize = 0;
    let n = more.len();
    while i < n
        invariant
            i <= n,
            n == all.len(),
            view_grover_gates(gates@) == start + view_grover_gates(all.subrange(0, i as int)),
            more@ == all,
        decreases n - i,
    {
        let g = more[i].clone_gate();
        proof { lemma_view_push(gates@, g); }
        gates.push(g);
        assert(view_grover_gates(all.subrange(0, (i + 1) as int)) =~= view_grover_gates(all.subrange(0, i as int)).push(all[i as int]@));
        i = i + 1;
    }
    assert(all.subrange(0, n as int) =~= all);
}

impl GroverGate {
    /// A copy of this gate.
    pub fn clone_gate(&self) -> (g: GroverGate)
        ensures
            g@ == self@,
    {
        match self {
            GroverGate::H { qubit } => GroverGate::H { qubit: *qubit },
            GroverGate::X { qubit } => GroverGate::X { qubit: *qubit },
            GroverGate::Z { qubit } => GroverGate::Z { qubit: *qubit },
            GroverGate::RZ { qubit, angle_bits } => GroverGate::RZ { qubit: *qubit, angle_bits: *angle_bits },
            GroverGate::CNOT { control, target } => GroverGate::CNOT { control: *control, target: *target },
            GroverGate::CZ { control, target } => GroverGate::CZ { control: *control, target: *target },
            GroverGate::MCX { controls, target } => GroverGate::MCX { controls: controls.clone(), target: *target },
            GroverGate::MCZ { controls, target } => GroverGate::MCZ { controls: controls.clone(), target: *target },
            GroverGate::Phase { qubit, angle_bits } => GroverGate::Phase { qubit: *qubit, angle_bits: *angle_bits },
        }
    }
}

/// Assembles the Grover circuit for an oracle with a given number of
/// iterations: Hadamards on every qubit, then per iteration the oracle's
/// gates and the diffusion operator; the depth is the number of multi-qubit
/// gates plus one, and no ancilla is used.
pub fn build_grover_circuit(oracle: &QuantumOracle, iterations: usize) -> (c: GroverCircuit)
    requires
        oracle.marked_states@.len() == 0 || oracle.num_qubits <= usize::BITS,
        grover_gates(oracle.marked_states@, oracle.num_qubits as nat, iterations as nat).len() < usize::MAX,
    ensures
        c.num_qubits == oracle.num_qubits,
        !c.uses_ancilla,
        c.iterations == iterations,
        view_grover_gates(c.gates@) == grover_gates(oracle.marked_states@, oracle.num_qubits as nat, iterations as nat),
        c.depth == entangling_count(view_grover_gates(c.gates@), c.gates@.len()) + 1,
{
    let n = oracle.num_qubits;
    let mut gates: Vec<GroverGate> = Vec::new();
    assert(view_grover_gates(gates@) =~= Seq::<GroverGateSpec>::empty());
    push_each(&mut gates, n, true);
    let mut it: usize = 0;
    while it < iterations
        invariant
            it <= iterations,
            n == oracle.num_qubits,
            oracle.marked_states@.len() == 0 || n <= usize::BITS,
            view_grover_gates(gates@) == each(n as nat, true) + rounds(oracle.marked_states@, n as nat, it as nat),
        decreases iterations - it,
    {
        append_all(&mut gates, oracle.to_gates());
        append_all(&mut gates, build_diffusion_operator(n));
        assert(view_grover_gates(gates@) =~= each(n as nat, true) + rounds(oracle.marked_states@, n as nat, (it + 1) as nat));
        it = it + 1;
    }
    let depth = calculate_circuit_depth(gates.as_slice());
    GroverCircuit { num_qubits: n, uses_ancilla: false, gates, depth, iterations }
}

/// Whether the local simulator accepts an oracle: 1 to 20 qubits.
pub open spec fn simulable_oracle(o: QuantumOracle) -> bool {
    1 <= o.num_qubits <= 20
}

/// Checks that the local simulator can run an oracle: at least one qubit, and
/// at most 20.
pub fn check_simulable(oracle: &QuantumOracle) -> (r: Result<(), CoreError>)
    ensures
        r is Ok <==> simulable_oracle(*oracle),
        oracle.num_qubits == 0 ==> (r matches Err(CoreError::InvalidOperation(m)) && m@ == "Oracle must have at least 1 qubit"@),
        oracle.num_qubits > 20 ==> (r matches Err(CoreError::InvalidOperation(m)) && m@ == "Oracle exceeds maximum qubit limit (20) for simulation"@),
{
    if oracle.num_qubits == 0 {
        return Err(CoreError::invalid_operation("Oracle must have at least 1 qubit"));
    }
    if oracle.num_qubits > 20 {
        return Err(CoreError::invalid_operation("Oracle exceeds maximum qubit limit (20) for simulation"));
    }
    Ok(())
}

} // verus!
