//! Gate-level circuits for Grover's search: gates, circuits that check their
//! qubit indices, the phase oracle, the diffusion operator, and the database
//! lookup that decides which entries an oracle marks.

use vstd::prelude::*;
use crate::backends::qasm::{bit_clear, lemma_shift_bit};
use crate::error::CoreError;
use crate::text::{decimal, push_decimal};

verus! {

/// A gate of a Grover circuit. A phase angle is carried as the bit pattern of
/// its `f64` value (`f64::to_bits`), which no circuit logic inspects.
#[derive(Debug, Clone, PartialEq, Eq)]
pub enum QuantumGate {
    /// Hadamard.
    H(usize),
    /// Pauli X.
    X(usize),
    /// Pauli Z.
    Z(usize),
    /// Controlled NOT.
    CX { control: usize, target: usize },
    /// Controlled Z.
    CZ { control: usize, target: usize },
    /// Multi-controlled X.
    MCX { controls: Vec<usize>, target: usize },
    /// Multi-controlled Z.
    MCZ { controls: Vec<usize>, target: usize },
    /// Measurement of one qubit.
    Measure(usize),
    /// Phase rotation of one qubit.
    Phase { qubit: usize, angle_bits: u64 },
}

/// A gate as a mathematical value: controls are a sequence.
pub enum GateSpec {
    H(usize),
    X(usize),
    Z(usize),
    CX { control: usize, target: usize },
    CZ { control: usize, target: usize },
    MCX { controls: Seq<usize>, target: usize },
    MCZ { controls: Seq<usize>, target: usize },
    Measure(usize),
    Phase { qubit: usize, angle_bits: u64 },
}

impl View for QuantumGate {
    type V = GateSpec;

    open spec fn view(&self) -> GateSpec {
        match *self {
            QuantumGate::H(q) => GateSpec::H(q),
            QuantumGate::X(q) => GateSpec::X(q),
            QuantumGate::Z(q) => GateSpec::Z(q),
            QuantumGate::CX { control, target } => GateSpec::CX { control, target },
            QuantumGate::CZ { control, target } => GateSpec::CZ { control, target },
            QuantumGate::MCX { controls, target } => GateSpec::MCX { controls: controls@, target },
            QuantumGate::MCZ { controls, target } => GateSpec::MCZ { controls: controls@, target },
            QuantumGate::Measure(q) => GateSpec::Measure(q),
            QuantumGate::Phase { qubit, angle_bits } => GateSpec::Phase { qubit, angle_bits },
        }
    }
}

/// A gate sequence as mathematical values.
pub open spec fn view_gates(gs: Seq<QuantumGate>) -> Seq<GateSpec> {
    gs.map_values(|g: QuantumGate| g@)
}

/// The qubits a gate acts on, controls before target.
pub open spec fn gate_qubits(g: GateSpec) -> Seq<usize> {
    match g {
        GateSpec::H(q) => seq![q],
        GateSpec::X(q) => seq![q],
        GateSpec::Z(q) => seq![q],
        GateSpec::Measure(q) => seq![q],
        GateSpec::Phase { qubit, .. } => seq![qubit],
        GateSpec::CX { control, target } => seq![control, target],
        GateSpec::CZ { control, target } => seq![control, target],
        GateSpec::MCX { controls, target } => controls.push(target),
        GateSpec::MCZ { controls, target } => controls.push(target),
    }
}

impl QuantumGate {
    /// The qubits this gate acts on, controls before target.
    pub fn qubits(&self) -> (v: Vec<usize>)
        ensures
            v@ == gate_qubits(self@),
    {
        match self {
            QuantumGate::H(q) => vec![*q],
            QuantumGate::X(q) => vec![*q],
            QuantumGate::Z(q) => vec![*q],
            QuantumGate::Measure(q) => vec![*q],
            QuantumGate::Phase { qubit, .. } => vec![*qubit],
            QuantumGate::CX { control, target } => vec![*control, *target],
            QuantumGate::CZ { control, target } => vec![*control, *target],
            QuantumGate::MCX { controls, target } => {
                let mut v = controls.clone();
                v.push(*target);
                v
            },
            QuantumGate::MCZ { controls, target } => {
                let mut v = controls.clone();
                v.push(*target);
                v
            },
        }
    }
}

/// Where a circuit runs.
#[derive(Debug, Clone, Copy, PartialEq, Eq, Structural)]
pub enum BackendType {
    /// Local state-vector simulation.
    Simulator,
    /// IBM Quantum.
    IBMQuantum,
    /// IonQ.
    IonQ,
    /// Rigetti.
    Rigetti,
}

impl Default for BackendType {
    fn default() -> (t: Self)
        ensures
            t == BackendType::Simulator,
    {
        BackendType::Simulator
    }
}

/// Settings of the backend a circuit targets.
#[derive(Debug, Clone)]
pub struct BackendConfig {
    /// Backend kind.
    pub backend_type: BackendType,
    /// API key for hardware backends.
    pub api_key: Option<String>,
    /// Measurement shots.
    pub shots: usize,
    /// Simulate noise.
    pub noise_simulation: bool,
    /// Largest circuit depth accepted.
    pub max_circuit_depth: usize,
}

/// The default backend settings: the simulator, 1024 shots, no noise.
pub open spec fn is_default_backend_config(c: BackendConfig) -> bool {
    &&& c.backend_type == BackendType::Simulator
    &&& c.api_key is None
    &&& c.shots == 1024
    &&& !c.noise_simulation
    &&& c.max_circuit_depth == 1000
}

impl Default for BackendConfig {
    fn default() -> (c: Self)
        ensures
            is_default_backend_config(c),
    {
        BackendConfig {
            backend_type: BackendType::Simulator,
            api_key: None,
            shots: 1024,
            noise_simulation: false,
            max_circuit_depth: 1000,
        }
    }
}

/// Whether a qubit count is one a circuit accepts: 1 to 30.
pub open spec fn valid_qubit_count(n: usize) -> bool {
    1 <= n <= 30
}

/// Whether every qubit a gate acts on is below `n`.
pub open spec fn gate_fits(g: GateSpec, n: usize) -> bool {
    forall|i: int| 0 <= i < gate_qubits(g).len() ==> gate_qubits(g)[i] < n
}

/// The first qubit of `qs` at or above `n`.
pub open spec fn first_out_of_range(qs: Seq<usize>, n: usize) -> usize
    decreases qs.len(),
{
    if qs.len() == 0 {
        0
    } else if qs[0] >= n {
        qs[0]
    } else {
        first_out_of_range(qs.drop_first(), n)
    }
}

/// The message for a qubit outside a circuit.
pub open spec fn qubit_range_message(q: usize, n: usize) -> Seq<char> {
    "Qubit "@ + decimal(q as nat) + " is out of range for circuit with "@ + decimal(n as nat)
        + " qubits"@
}

/// A gate sequence over a fixed number of qubits in which every gate acts
/// only on qubits of the circuit.
#[derive(Debug)]
pub struct QuantumCircuit {
    num_qubits: usize,
    gates: Vec<QuantumGate>,
    backend_config: BackendConfig,
}

impl QuantumCircuit {
    /// Every circuit has 1 to 30 qubits, and each gate fits them.
    #[verifier::type_invariant]
    spec fn wf(self) -> bool {
        &&& valid_qubit_count(self.num_qubits)
        &&& forall|i: int| 0 <= i < self.gates@.len() ==> gate_fits(#[trigger] self.gates@[i]@, self.num_qubits)
    }

    /// The number of qubits.
    pub closed spec fn spec_num_qubits(&self) -> usize {
        self.num_qubits
    }

    /// The gates, in order.
    pub closed spec fn spec_gates(&self) -> Seq<GateSpec> {
        view_gates(self.gates@)
    }

    /// The backend settings.
    pub closed spec fn spec_backend_config(&self) -> BackendConfig {
        self.backend_config
    }

    /// An empty circuit on `num_qubits` qubits; refused unless 1 to 30.
    pub fn new(num_qubits: usize, backend_config: BackendConfig) -> (r: Result<Self, CoreError>)
        ensures
            valid_qubit_count(num_qubits) <==> r is Ok,
            r matches Ok(c) ==> c.spec_num_qubits() == num_qubits && c.spec_gates().len() == 0
                && c.spec_backend_config() == backend_config,
            r matches Err(e) ==> e matches CoreError::InvalidOperation(m) && m@
                == "Invalid qubit count: must be between 1 and 30"@,
    {
        if num_qubits == 0 || num_qubits > 30 {
            return Err(CoreError::invalid_operation("Invalid qubit count: must be between 1 and 30"));
        }
        Ok(QuantumCircuit { num_qubits, gates: Vec::new(), backend_config })
    }

    /// Appends a gate; refused, leaving the circuit unchanged, when that gate
    /// acts on a qubit outside the circuit.
    pub fn add_gate(&mut self, gate: QuantumGate) -> (r: Result<(), CoreError>)
        ensures
            final(self).spec_num_qubits() == old(self).spec_num_qubits(),
            final(self).spec_backend_config() == old(self).spec_backend_config(),
            r is Ok <==> gate_fits(gate@, old(self).spec_num_qubits()),
            r is Ok ==> final(self).spec_gates() == old(self).spec_gates().push(gate@),
            r is Err ==> final(self).spec_gates() == old(self).spec_gates(),
            r matches Err(e) ==> e matches CoreError::InvalidOperation(m) && m@ == qubit_range_message(
                first_out_of_range(gate_qubits(gate@), old(self).spec_num_qubits()),
                old(self).spec_num_qubits(),
            ),
    {
        let qs = gate.qubits();
        let mut i: usize = 0;
        assert(qs@.subrange(0, qs@.len() as int) =~= qs@);
        while i < qs.len()
            invariant
                i <= qs@.len(),
                qs@ == gate_qubits(gate@),
                forall|j: int| 0 <= j < i ==> qs@[j] < self.num_qubits,
                first_out_of_range(qs@, self.num_qubits) == first_out_of_range(
                    qs@.subrange(i as int, qs@.len() as int),
                    self.num_qubits,
                ),
            decreases qs@.len() - i,
        {
            let ghost rest = qs@.subrange(i as int, qs@.len() as int);
            assert(rest.drop_first() =~= qs@.subrange(i + 1, qs@.len() as int));
            if qs[i] >= self.num_qubits {
                let mut msg = String::new();
                msg.append("Qubit ");
                push_decimal(&mut msg, qs[i] as u64);
                msg.append(" is out of range for circuit with ");
                push_decimal(&mut msg, self.num_qubits as u64);
                msg.append(" qubits");
                assert(msg@ =~= qubit_range_message(qs@[i as int], self.num_qubits));
                return Err(CoreError::InvalidOperation(msg));
            }
            i = i + 1;
        }
        proof { use_type_invariant(&*self); }
        proof { lemma_view_push(self.gates@, gate); }
        let mut gates: Vec<QuantumGate> = Vec::new();
        std::mem::swap(&mut gates, &mut self.gates);
        gates.push(gate);
        self.gates = gates;
        proof {
            assert forall|k: int| 0 <= k < self.gates@.len() implies gate_fits(
                #[trigger] self.gates@[k]@,
                self.num_qubits,
            ) by {
                if k < self.gates@.len() - 1 {
                    assert(self.gates@[k] == old(self).gates@[k]);
                }
            }
        }
        Ok(())
    }

    /// Appends a Hadamard on every qubit.
    pub fn hadamard_all(&mut self) -> (r: Result<(), CoreError>)
        ensures
            r is Ok,
            final(self).spec_num_qubits() == old(self).spec_num_qubits(),
            final(self).spec_backend_config() == old(self).spec_backend_config(),
            final(self).spec_gates() == old(self).spec_gates() + hadamards(
                old(self).spec_num_qubits() as nat,
            ),
    {
        let n = self.num_qubits;
        let ghost start = self.spec_gates();
        let mut q: usize = 0;
        while q < n
            invariant
                q <= n,
                n == self.spec_num_qubits(),
                self.spec_num_qubits() == old(self).spec_num_qubits(),
                self.spec_backend_config() == old(self).spec_backend_config(),
                self.spec_gates() == start + hadamards(q as nat),
            decreases n - q,
        {
            let r = self.add_gate(QuantumGate::H(q));
            assert(gate_qubits(QuantumGate::H(q)@) =~= seq![q]);
            assert(r is Ok);
            assert(self.spec_gates() =~= start + hadamards((q + 1) as nat));
            q = q + 1;
        }
        Ok(())
    }

    /// The number of qubits.
    pub fn num_qubits(&self) -> (n: usize)
        ensures
            n == self.spec_num_qubits(),
    {
        self.num_qubits
    }

    /// The gates, in order.
    pub fn gates(&self) -> (g: &[QuantumGate])
        ensures
            view_gates(g@) == self.spec_gates(),
            valid_qubit_count(self.spec_num_qubits()),
            forall|i: int| 0 <= i < g@.len() ==> gate_fits(#[trigger] g@[i]@, self.spec_num_qubits()),
    {
        proof { use_type_invariant(self); }
        self.gates.as_slice()
    }

    /// The depth, counted as the number of gates.
    pub fn depth(&self) -> (d: usize)
        ensures
            d == self.spec_gates().len(),
    {
        self.gates.len()
    }

    /// Removes every gate.
    pub fn clear(&mut self)
        ensures
            final(self).spec_gates().len() == 0,
            final(self).spec_num_qubits() == old(self).spec_num_qubits(),
            final(self).spec_backend_config() == old(self).spec_backend_config(),
    {
        proof { use_type_invariant(&*self); }
        self.gates = Vec::new();
    }

    /// The backend settings.
    pub fn backend_config(&self) -> (c: &BackendConfig)
        ensures
            *c == self.spec_backend_config(),
    {
        &self.backend_config
    }
}

/// Hadamards on qubits `0..k`, in order.
pub open spec fn hadamards(k: nat) -> Seq<GateSpec>
    decreases k,
{
    if k == 0 {
        Seq::empty()
    } else {
        hadamards((k - 1) as nat).push(GateSpec::H((k - 1) as usize))
    }
}

/// X gates on qubits `0..k`, in order.
pub open spec fn paulis(k: nat) -> Seq<GateSpec>
    decreases k,
{
    if k == 0 {
        Seq::empty()
    } else {
        paulis((k - 1) as nat).push(GateSpec::X((k - 1) as usize))
    }
}

/// The qubits `0..k`, in order.
pub open spec fn qubit_range(k: nat) -> Seq<usize> {
    Seq::new(k, |i: int| i as usize)
}

/// The qubits among `0..k` whose bit in `state` is clear, in order.
pub open spec fn clear_bits(state: usize, k: nat) -> Seq<usize>
    decreases k,
{
    if k == 0 {
        Seq::empty()
    } else if bit_clear(state, (k - 1) as nat) {
        clear_bits(state, (k - 1) as nat).push((k - 1) as usize)
    } else {
        clear_bits(state, (k - 1) as nat)
    }
}

/// X gates on the given qubits, in the given order.
pub open spec fn x_gates(qs: Seq<usize>) -> Seq<GateSpec> {
    Seq::new(qs.len(), |i: int| GateSpec::X(qs[i]))
}

/// The phase-flip oracle for one target on `n > 0` qubits: X on the clear
/// bits, a Z on qubit `n-1` controlled by qubits `0..n-1`, then X on the
/// clear bits in reverse order.
pub open spec fn oracle_for_target(target: usize, n: nat) -> Seq<GateSpec> {
    x_gates(clear_bits(target, n)) + seq![
        GateSpec::MCZ { controls: qubit_range((n - 1) as nat), target: (n - 1) as usize },
    ] + x_gates(clear_bits(target, n).reverse())
}

/// The oracles for the first `k` targets, in order.
pub open spec fn oracles_for(targets: Seq<usize>, n: nat, k: nat) -> Seq<GateSpec>
    decreases k,
{
    if k == 0 {
        Seq::empty()
    } else {
        oracles_for(targets, n, (k - 1) as nat) + oracle_for_target(targets[k - 1], n)
    }
}

/// The diffusion operator on `n` qubits: H and X on every qubit, a Z on
/// qubit `n-1` controlled by the others (a plain Z on qubit 0 when there is a
/// single qubit), then X and H on every qubit.
pub open spec fn diffusion_gates(n: nat) -> Seq<GateSpec> {
    hadamards(n) + paulis(n) + (if n > 1 {
        seq![GateSpec::MCZ { controls: qubit_range((n - 1) as nat), target: (n - 1) as usize }]
    } else {
        seq![GateSpec::Z(0)]
    }) + paulis(n) + hadamards(n)
}

/// The message for a target index beyond the search space.
pub open spec fn target_range_message(idx: usize, n: usize, max: usize) -> Seq<char> {
    "Target index "@ + decimal(idx as nat) + " is out of range for "@ + decimal(n as nat)
        + " qubits (max: "@ + decimal(max as nat) + ")"@
}

/// The first index of `ts` at or above `bound`.
pub open spec fn first_at_or_above(ts: Seq<usize>, bound: nat) -> usize
    decreases ts.len(),
{
    if ts.len() == 0 {
        0
    } else if ts[0] >= bound {
        ts[0]
    } else {
        first_at_or_above(ts.drop_first(), bound)
    }
}

/// The oracle marking a set of basis states of a `num_qubits`-qubit register.
#[derive(Debug, Clone)]
pub struct OracleGenerator {
    target_indices: Vec<usize>,
    num_qubits: usize,
}

/// `2^n` as a natural number.
pub open spec fn search_space(n: nat) -> nat {
    vstd::arithmetic::power2::pow2(n)
}

fn qubit_range_vec(k: usize) -> (v: Vec<usize>)
    ensures
        v@ == qubit_range(k as nat),
{
    let mut v: Vec<usize> = Vec::new();
    let mut i: usize = 0;
    while i < k
        invariant
            i <= k,
            v@ == qubit_range(i as nat),
        decreases k - i,
    {
        v.push(i);
        assert(v@ =~= qubit_range((i + 1) as nat));
        i = i + 1;
    }
    v
}

fn clear_bits_vec(state: usize, n: usize) -> (v: Vec<usize>)
    requires
        n <= usize::BITS,
    ensures
        v@ == clear_bits(state, n as nat),
{
    let mut v: Vec<usize> = Vec::new();
    let mut q: usize = 0;
    while q < n
        invariant
            q <= n,
            n <= usize::BITS,
            v@ == clear_bits(state, q as nat),
        decreases n - q,
    {
        proof { lemma_shift_bit(state, q); }
        if (state >> q) & 1 == 0 {
            v.push(q);
        }
        q = q + 1;
    }
    v
}

proof fn lemma_view_push(gs: Seq<QuantumGate>, g: QuantumGate)
    ensures
        view_gates(gs.push(g)) == view_gates(gs).push(g@),
{
    assert(view_gates(gs.push(g)) =~= view_gates(gs).push(g@));
}

impl OracleGenerator {
    /// The marked indices.
    pub closed spec fn spec_targets(&self) -> Seq<usize> {
        self.target_indices@
    }

    /// The register width.
    pub closed spec fn spec_num_qubits(&self) -> usize {
        self.num_qubits
    }

    /// An oracle marking `target_indices` on `num_qubits` qubits; refused
    /// when an index is not below `2^num_qubits`, naming the first such index.
    /// The width must be below the machine word size, where `1 << n` is
    /// defined.
    pub fn new(num_qubits: usize, target_indices: Vec<usize>) -> (r: Result<Self, CoreError>)
        requires
            num_qubits < usize::BITS,
        ensures
            r is Ok <==> (forall|i: int| 0 <= i < target_indices@.len() ==> target_indices@[i]
                < search_space(num_qubits as nat)),
            r matches Ok(o) ==> o.spec_targets() == target_indices@ && o.spec_num_qubits()
                == num_qubits,
            r matches Err(e) ==> e matches CoreError::InvalidOperation(m) && m@ == target_range_message(
                first_at_or_above(target_indices@, search_space(num_qubits as nat)),
                num_qubits,
                (search_space(num_qubits as nat) - 1) as usize,
            ),
    {
        proof {
            lemma_pow2_fits(num_qubits);
            vstd::bits::lemma_usize_shl_is_mul(1, num_qubits);
            vstd::arithmetic::power2::lemma_pow2_pos(num_qubits as nat);
        }
        let max_index: usize = 1usize << num_qubits;
        assert(max_index as nat == search_space(num_qubits as nat));
        let mut i: usize = 0;
        assert(target_indices@.subrange(0, target_indices@.len() as int) =~= target_indices@);
        while i < target_indices.len()
            invariant
                i <= target_indices@.len(),
                max_index as nat == search_space(num_qubits as nat),
                max_index >= 1,
                forall|j: int| 0 <= j < i ==> target_indices@[j] < max_index,
                first_at_or_above(target_indices@, max_index as nat) == first_at_or_above(
                    target_indices@.subrange(i as int, target_indices@.len() as int),
                    max_index as nat,
                ),
            decreases target_indices@.len() - i,
        {
            let ghost rest = target_indices@.subrange(i as int, target_indices@.len() as int);
            assert(rest.drop_first() =~= target_indices@.subrange(i + 1, target_indices@.len() as int));
            let idx = target_indices[i];
            if idx >= max_index {
                let mut msg = String::new();
                msg.append("Target index ");
                push_decimal(&mut msg, idx as u64);
                msg.append(" is out of range for ");
                push_decimal(&mut msg, num_qubits as u64);
                msg.append(" qubits (max: ");
                push_decimal(&mut msg, (max_index - 1) as u64);
                msg.append(")");
                assert(msg@ =~= target_range_message(idx, num_qubits, (max_index - 1) as usize));
                return Err(CoreError::InvalidOperation(msg));
            }
            i = i + 1;
        }
        Ok(OracleGenerator { target_indices, num_qubits })
    }

    /// The oracle gates: for each target in order, X on its clear bits, the
    /// multi-controlled Z, and X on the clear bits in reverse.
    pub fn generate_oracle_gates(&self) -> (gates: Vec<QuantumGate>)
        requires
            self.spec_num_qubits() > 0 || self.spec_targets().len() == 0,
            self.spec_num_qubits() <= usize::BITS,
        ensures
            view_gates(gates@) == oracles_for(
                self.spec_targets(),
                self.spec_num_qubits() as nat,
                self.spec_targets().len(),
            ),
    {
        let n = self.num_qubits;
        let mut gates: Vec<QuantumGate> = Vec::new();
        let mut k: usize = 0;
        while k < self.target_indices.len()
            invariant
                k <= self.target_indices@.len(),
                n == self.num_qubits,
                n > 0 || self.target_indices@.len() == 0,
                n <= usize::BITS,
                view_gates(gates@) == oracles_for(self.target_indices@, n as nat, k as nat),
            decreases self.target_indices@.len() - k,
        {
            let target = self.target_indices[k];
            let flips = clear_bits_vec(target, n);
            let ghost before = view_gates(gates@);
            let mut f: usize = 0;
            while f < flips.len()
                invariant
                    f <= flips@.len(),
                    view_gates(gates@) == before + x_gates(flips@.subrange(0, f as int)),
                decreases flips@.len() - f,
            {
                proof { lemma_view_push(gates@, QuantumGate::X(flips@[f as int])); }
                gates.push(QuantumGate::X(flips[f]));
                assert(x_gates(flips@.subrange(0, (f + 1) as int)) =~= x_gates(flips@.subrange(0, f as int)).push(GateSpec::X(flips@[f as int])));
                f = f + 1;
            }
            let controls = qubit_range_vec(n - 1);
            let mcz = QuantumGate::MCZ { controls, target: n - 1 };
            proof { lemma_view_push(gates@, mcz); }
            gates.push(mcz);
            let ghost mid = view_gates(gates@);
            let mut r: usize = flips.len();
            while r > 0
                invariant
                    r <= flips@.len(),
                    view_gates(gates@) == mid + x_gates(flips@.reverse().subrange(0, (flips@.len() - r) as int)),
                decreases r,
            {
                proof { lemma_view_push(gates@, QuantumGate::X(flips@[r - 1])); }
                gates.push(QuantumGate::X(flips[r - 1]));
                assert(flips@.reverse()[(flips@.len() - r) as int] == flips@[r - 1]);
                assert(x_gates(flips@.reverse().subrange(0, (flips@.len() - r + 1) as int)) =~= x_gates(flips@.reverse().subrange(0, (flips@.len() - r) as int)).push(GateSpec::X(flips@[r - 1])));
                r = r - 1;
            }
            assert(flips@.subrange(0, flips@.len() as int) =~= flips@);
            assert(flips@.reverse().subrange(0, flips@.len() as int) =~= flips@.reverse());
            assert(view_gates(gates@) =~= oracles_for(self.target_indices@, n as nat, (k + 1) as nat));
            k = k + 1;
        }
        gates
    }

    /// The marked indices.
    pub fn target_indices(&self) -> (t: &[usize])
        ensures
            t@ == self.spec_targets(),
    {
        self.target_indices.as_slice()
    }
}

/// `2^n` fits in a machine word for `n` below the word size.
proof fn lemma_pow2_fits(n: usize)
    requires
        n < usize::BITS,
    ensures
        vstd::arithmetic::power2::pow2(n as nat) <= usize::MAX,
{
    vstd::arithmetic::power2::lemma2_to64();
    if usize::BITS == 64 {
        vstd::arithmetic::power2::lemma_pow2_strictly_increases(n as nat, 64);
    } else {
        vstd::arithmetic::power2::lemma_pow2_strictly_increases(n as nat, 32);
    }
}

/// The diffusion (inversion about the mean) operator.
#[derive(Debug, Clone)]
pub struct DiffusionOperator {
    num_qubits: usize,
}

fn push_each(gates: &mut Vec<QuantumGate>, n: usize, h: bool)
    ensures
        view_gates(final(gates)@) == view_gates(old(gates)@) + (if h { hadamards(n as nat) } else { paulis(n as nat) }),
{
    let ghost start = view_gates(gates@);
    let mut q: usize = 0;
    while q < n
        invariant
            q <= n,
            view_gates(gates@) == start + (if h { hadamards(q as nat) } else { paulis(q as nat) }),
        decreases n - q,
    {
        let g = if h { QuantumGate::H(q) } else { QuantumGate::X(q) };
        proof { lemma_view_push(gates@, g); }
        gates.push(g);
        assert(view_gates(gates@) =~= start + (if h { hadamards((q + 1) as nat) } else { paulis((q + 1) as nat) }));
        q = q + 1;
    }
}

impl DiffusionOperator {
    /// The register width.
    pub closed spec fn spec_num_qubits(&self) -> usize {
        self.num_qubits
    }

    /// The diffusion operator on `num_qubits` qubits.
    pub fn new(num_qubits: usize) -> (d: Self)
        ensures
            d.spec_num_qubits() == num_qubits,
    {
        DiffusionOperator { num_qubits }
    }

    /// The gates of the diffusion operator (see `diffusion_gates`).
    pub fn generate_gates(&self) -> (gates: Vec<QuantumGate>)
        ensures
            view_gates(gates@) == diffusion_gates(self.spec_num_qubits() as nat),
    {
        let n = self.num_qubits;
        let mut gates: Vec<QuantumGate> = Vec::new();
        assert(view_gates(gates@) =~= Seq::<GateSpec>::empty());
        push_each(&mut gates, n, true);
        push_each(&mut gates, n, false);
        if n > 1 {
            let controls = qubit_range_vec(n - 1);
            let g = QuantumGate::MCZ { controls, target: n - 1 };
            proof { lemma_view_push(gates@, g); }
            gates.push(g);
        } else {
            proof { lemma_view_push(gates@, QuantumGate::Z(0)); }
            gates.push(QuantumGate::Z(0));
        }
        push_each(&mut gates, n, false);
        push_each(&mut gates, n, true);
        assert(view_gates(gates@) =~= diffusion_gates(n as nat));
        gates
    }
}


/// Whether every gate of a sequence fits `n` qubits.
pub open spec fn all_fit(gs: Seq<GateSpec>, n: usize) -> bool {
    forall|i: int| 0 <= i < gs.len() ==> gate_fits(#[trigger] gs[i], n)
}

proof fn lemma_clear_bits_below(state: usize, k: nat)
    ensures
        forall|i: int| 0 <= i < clear_bits(state, k).len() ==> #[trigger] clear_bits(state, k)[i] < k,
    decreases k,
{
    if k > 0 {
        lemma_clear_bits_below(state, (k - 1) as nat);
        let prev = clear_bits(state, (k - 1) as nat);
        if bit_clear(state, (k - 1) as nat) {
            assert forall|i: int| 0 <= i < clear_bits(state, k).len() implies #[trigger] clear_bits(state, k)[i] < k by {
                if i < prev.len() {
                    assert(clear_bits(state, k)[i] == prev[i]);
                }
            }
        }
    }
}

proof fn lemma_x_gates_fit(qs: Seq<usize>, n: usize)
    requires
        forall|i: int| 0 <= i < qs.len() ==> #[trigger] qs[i] < n,
    ensures
        all_fit(x_gates(qs), n),
{
    assert forall|i: int| 0 <= i < x_gates(qs).len() implies gate_fits(#[trigger] x_gates(qs)[i], n) by {
        assert(gate_qubits(x_gates(qs)[i]) =~= seq![qs[i]]);
    }
}

proof fn lemma_mcz_fits(n: usize)
    requires
        n >= 1,
    ensures
        gate_fits(GateSpec::MCZ { controls: qubit_range((n - 1) as nat), target: (n - 1) as usize }, n),
{
    let g = GateSpec::MCZ { controls: qubit_range((n - 1) as nat), target: (n - 1) as usize };
    assert forall|i: int| 0 <= i < gate_qubits(g).len() implies gate_qubits(g)[i] < n by {
        if i < n - 1 {
            assert(gate_qubits(g)[i] == qubit_range((n - 1) as nat)[i]);
        }
    }
}

proof fn lemma_concat_fit(a: Seq<GateSpec>, b: Seq<GateSpec>, n: usize)
    requires
        all_fit(a, n),
        all_fit(b, n),
    ensures
        all_fit(a + b, n),
{
    assert forall|i: int| 0 <= i < (a + b).len() implies gate_fits(#[trigger] (a + b)[i], n) by {
        if i < a.len() {
            assert((a + b)[i] == a[i]);
        } else {
            assert((a + b)[i] == b[i - a.len()]);
        }
    }
}

proof fn lemma_oracle_fits(target: usize, n: usize)
    requires
        n >= 1,
    ensures
        all_fit(oracle_for_target(target, n as nat), n),
{
    let qs = clear_bits(target, n as nat);
    lemma_clear_bits_below(target, n as nat);
    lemma_x_gates_fit(qs, n);
    assert forall|i: int| 0 <= i < qs.reverse().len() implies #[trigger] qs.reverse()[i] < n by {
        assert(qs.reverse()[i] == qs[qs.len() - 1 - i]);
    }
    lemma_x_gates_fit(qs.reverse(), n);
    lemma_mcz_fits(n);
    let m = seq![GateSpec::MCZ { controls: qubit_range((n - 1) as nat), target: (n - 1) as usize }];
    assert(all_fit(m, n));
    lemma_concat_fit(x_gates(qs), m, n);
    lemma_concat_fit(x_gates(qs) + m, x_gates(qs.reverse()), n);
}

proof fn lemma_oracles_fit(targets: Seq<usize>, n: usize, k: nat)
    requires
        n >= 1,
        k <= targets.len(),
    ensures
        all_fit(oracles_for(targets, n as nat, k), n),
    decreases k,
{
    if k > 0 {
        lemma_oracles_fit(targets, n, (k - 1) as nat);
        lemma_oracle_fits(targets[k - 1], n);
        lemma_concat_fit(oracles_for(targets, n as nat, (k - 1) as nat), oracle_for_target(targets[k - 1], n as nat), n);
    }
}

proof fn lemma_each_fits(k: nat, n: usize)
    requires
        k <= n,
    ensures
        all_fit(hadamards(k), n),
        all_fit(paulis(k), n),
    decreases k,
{
    if k > 0 {
        lemma_each_fits((k - 1) as nat, n);
        let h = GateSpec::H((k - 1) as usize);
        let x = GateSpec::X((k - 1) as usize);
        assert(gate_qubits(h) =~= seq![(k - 1) as usize]);
        assert(gate_qubits(x) =~= seq![(k - 1) as usize]);
        lemma_concat_fit(hadamards((k - 1) as nat), seq![h], n);
        lemma_concat_fit(paulis((k - 1) as nat), seq![x], n);
        assert(hadamards(k) =~= hadamards((k - 1) as nat) + seq![h]);
        assert(paulis(k) =~= paulis((k - 1) as nat) + seq![x]);
    }
}

proof fn lemma_diffusion_fits(n: usize)
    requires
        n >= 1,
    ensures
        all_fit(diffusion_gates(n as nat), n),
{
    lemma_each_fits(n as nat, n);
    let mid = if n > 1 {
        seq![GateSpec::MCZ { controls: qubit_range((n - 1) as nat), target: (n - 1) as usize }]
    } else {
        seq![GateSpec::Z(0)]
    };
    if n > 1 {
        lemma_mcz_fits(n);
    } else {
        assert(gate_qubits(GateSpec::Z(0)) =~= seq![0usize]);
    }
    assert(all_fit(mid, n));
    lemma_concat_fit(hadamards(n as nat), paulis(n as nat), n);
    lemma_concat_fit(hadamards(n as nat) + paulis(n as nat), mid, n);
    lemma_concat_fit(hadamards(n as nat) + paulis(n as nat) + mid, paulis(n as nat), n);
    lemma_concat_fit(hadamards(n as nat) + paulis(n as nat) + mid + paulis(n as nat), hadamards(n as nat), n);
}

fn append_gates(c: &mut QuantumCircuit, gates: Vec<QuantumGate>)
    requires
        all_fit(view_gates(gates@), old(c).spec_num_qubits()),
    ensures
        final(c).spec_num_qubits() == old(c).spec_num_qubits(),
        final(c).spec_backend_config() == old(c).spec_backend_config(),
        final(c).spec_gates() == old(c).spec_gates() + view_gates(gates@),
{
    let ghost start = c.spec_gates();
    let mut i: usize = 0;
    while i < gates.len()
        invariant
            i <= gates@.len(),
            c.spec_num_qubits() == old(c).spec_num_qubits(),
            c.spec_backend_config() == old(c).spec_backend_config(),
            all_fit(view_gates(gates@), c.spec_num_qubits()),
            c.spec_gates() == start + view_gates(gates@.subrange(0, i as int)),
        decreases gates@.len() - i,
    {
        let g = gates[i].clone_gate();
        assert(view_gates(gates@)[i as int] == g@);
        let r = c.add_gate(g);
        assert(r is Ok);
        assert(view_gates(gates@.subrange(0, (i + 1) as int)) =~= view_gates(gates@.subrange(0, i as int)).push(g@));
        i = i + 1;
    }
    assert(gates@.subrange(0, gates@.len() as int) =~= gates@);
}

impl QuantumGate {
    /// A copy of this gate.
    pub fn clone_gate(&self) -> (g: QuantumGate)
        ensures
            g@ == self@,
    {
        match self {
            QuantumGate::H(q) => QuantumGate::H(*q),
            QuantumGate::X(q) => QuantumGate::X(*q),
            QuantumGate::Z(q) => QuantumGate::Z(*q),
            QuantumGate::Measure(q) => QuantumGate::Measure(*q),
            QuantumGate::Phase { qubit, angle_bits } => QuantumGate::Phase { qubit: *qubit, angle_bits: *angle_bits },
            QuantumGate::CX { control, target } => QuantumGate::CX { control: *control, target: *target },
            QuantumGate::CZ { control, target } => QuantumGate::CZ { control: *control, target: *target },
            QuantumGate::MCX { controls, target } => QuantumGate::MCX { controls: controls.clone(), target: *target },
            QuantumGate::MCZ { controls, target } => QuantumGate::MCZ { controls: controls.clone(), target: *target },
        }
    }
}

/// Measurements of qubits `0..k`, in order.
pub open spec fn measurements(k: nat) -> Seq<GateSpec>
    decreases k,
{
    if k == 0 {
        Seq::empty()
    } else {
        measurements((k - 1) as nat).push(GateSpec::Measure((k - 1) as usize))
    }
}

/// `k` Grover iterations: every oracle, then the diffusion operator.
pub open spec fn grover_rounds(targets: Seq<usize>, n: nat, k: nat) -> Seq<GateSpec>
    decreases k,
{
    if k == 0 {
        Seq::empty()
    } else {
        grover_rounds(targets, n, (k - 1) as nat) + oracles_for(targets, n, targets.len()) + diffusion_gates(n)
    }
}

/// The Grover circuit: Hadamards, the rounds, and a measurement of each qubit.
pub open spec fn grover_circuit_gates(targets: Seq<usize>, n: nat, iterations: nat) -> Seq<GateSpec> {
    hadamards(n) + grover_rounds(targets, n, iterations) + measurements(n)
}

/// Builds the circuit of Grover's search for an oracle on `num_qubits`
/// qubits with `iterations` rounds (the caller computes the optimal count,
/// about pi/4 times the square root of the search space over the number of
/// targets); refused unless the width is 1 to 30.
pub fn build_grover_circuit(
    num_qubits: usize,
    oracle: &OracleGenerator,
    diffusion: &DiffusionOperator,
    iterations: usize,
    backend_config: BackendConfig,
) -> (r: Result<QuantumCircuit, CoreError>)
    requires
        oracle.spec_num_qubits() == num_qubits,
        diffusion.spec_num_qubits() == num_qubits,
    ensures
        r is Ok <==> valid_qubit_count(num_qubits),
        r matches Ok(c) ==> c.spec_num_qubits() == num_qubits && c.spec_gates() == grover_circuit_gates(
            oracle.spec_targets(),
            num_qubits as nat,
            iterations as nat,
        ),
        r matches Err(e) ==> e matches CoreError::InvalidOperation(m) && m@
            == "Invalid qubit count: must be between 1 and 30"@,
{
    let mut circuit = match QuantumCircuit::new(num_qubits, backend_config) {
        Ok(c) => c,
        Err(e) => return Err(e),
    };
    let _ = circuit.hadamard_all();
    assert(circuit.spec_gates() =~= hadamards(num_qubits as nat));
    proof {
        lemma_oracles_fit(oracle.spec_targets(), num_qubits, oracle.spec_targets().len());
        lemma_diffusion_fits(num_qubits);
    }
    let mut it: usize = 0;
    while it < iterations
        invariant
            it <= iterations,
            valid_qubit_count(num_qubits),
            oracle.spec_num_qubits() == num_qubits,
            diffusion.spec_num_qubits() == num_qubits,
            circuit.spec_num_qubits() == num_qubits,
            all_fit(oracles_for(oracle.spec_targets(), num_qubits as nat, oracle.spec_targets().len()), num_qubits),
            all_fit(diffusion_gates(num_qubits as nat), num_qubits),
            circuit.spec_gates() == hadamards(num_qubits as nat) + grover_rounds(oracle.spec_targets(), num_qubits as nat, it as nat),
        decreases iterations - it,
    {
        append_gates(&mut circuit, oracle.generate_oracle_gates());
        append_gates(&mut circuit, diffusion.generate_gates());
        assert(circuit.spec_gates() =~= hadamards(num_qubits as nat) + grover_rounds(oracle.spec_targets(), num_qubits as nat, (it + 1) as nat));
        it = it + 1;
    }
    let ghost before = circuit.spec_gates();
    let mut q: usize = 0;
    while q < num_qubits
        invariant
            q <= num_qubits,
            circuit.spec_num_qubits() == num_qubits,
            circuit.spec_gates() == before + measurements(q as nat),
        decreases num_qubits - q,
    {
        let r = circuit.add_gate(QuantumGate::Measure(q));
        assert(gate_qubits(QuantumGate::Measure(q)@) =~= seq![q]);
        assert(r is Ok);
        assert(circuit.spec_gates() =~= before + measurements((q + 1) as nat));
        q = q + 1;
    }
    assert(circuit.spec_gates() =~= grover_circuit_gates(oracle.spec_targets(), num_qubits as nat, iterations as nat));
    Ok(circuit)
}

/// The smallest `k` with `2^k >= n`, and at least 1: the register width that
/// indexes `n` entries.
pub open spec fn index_width(n: nat) -> nat
    decreases n,
{
    if n <= 2 {
        1
    } else {
        index_width(((n + 1) / 2) as nat) + 1
    }
}

/// The register width for `n` entries (see `index_width`): `ceil(log2 n)`,
/// and 1 for `n` of 0, 1 or 2.
pub fn register_width(n: usize) -> (k: usize)
    ensures
        k == index_width(n as nat),
        n >= 1 ==> k <= n,
    decreases n,
{
    if n <= 2 {
        1
    } else {
        let half = n / 2 + n % 2;
        assert(half == (n + 1) / 2);
        register_width(half) + 1
    }
}

/// A database whose entries are byte strings, searched with Grover's
/// algorithm.
pub struct GroverDatabaseSearch {
    database: Vec<Vec<u8>>,
    backend_type: BackendType,
}

/// The positions of `db` whose entry equals `target`, in increasing order.
pub open spec fn matching_positions(db: Seq<Seq<u8>>, target: Seq<u8>, k: nat) -> Seq<usize>
    decreases k,
{
    if k == 0 {
        Seq::empty()
    } else if db[k - 1] == target {
        matching_positions(db, target, (k - 1) as nat).push((k - 1) as usize)
    } else {
        matching_positions(db, target, (k - 1) as nat)
    }
}

fn bytes_equal(a: &[u8], b: &[u8]) -> (r: bool)
    ensures
        r == (a@ == b@),
{
    if a.len() != b.len() {
        return false;
    }
    let mut i: usize = 0;
    while i < a.len()
        invariant
            i <= a@.len(),
            a@.len() == b@.len(),
            forall|j: int| 0 <= j < i ==> a@[j] == b@[j],
        decreases a@.len() - i,
    {
        if a[i] != b[i] {
            return false;
        }
        i = i + 1;
    }
    assert(a@ =~= b@);
    true
}

/// Every search reports the backend it runs on.
pub trait QuantumDatabaseSearch {
    /// The backend the search runs on.
    fn backend_type(&self) -> BackendType;
}

impl GroverDatabaseSearch {
    /// The entries, as byte sequences.
    pub closed spec fn spec_database(&self) -> Seq<Seq<u8>> {
        self.database@.map_values(|e: Vec<u8>| e@)
    }

    /// The backend.
    pub closed spec fn spec_backend_type(&self) -> BackendType {
        self.backend_type
    }

    /// A search over `database` on the given backend.
    pub fn new(database: Vec<Vec<u8>>, backend_type: BackendType) -> (s: Self)
        ensures
            s.spec_database() == database@.map_values(|e: Vec<u8>| e@),
            s.spec_backend_type() == backend_type,
    {
        GroverDatabaseSearch { database, backend_type }
    }

    /// The number of entries.
    pub fn len(&self) -> (n: usize)
        ensures
            n == self.spec_database().len(),
    {
        self.database.len()
    }

    /// The positions whose entry equals `target`, in increasing order: the
    /// states an oracle for `target` marks.
    pub fn find_matching_indices(&self, target: &[u8]) -> (v: Vec<usize>)
        ensures
            v@ == matching_positions(self.spec_database(), target@, self.spec_database().len()),
    {
        let mut v: Vec<usize> = Vec::new();
        let mut i: usize = 0;
        while i < self.database.len()
            invariant
                i <= self.database@.len(),
                v@ == matching_positions(self.spec_database(), target@, i as nat),
            decreases self.database@.len() - i,
        {
            let eq = bytes_equal(self.database[i].as_slice(), target);
            assert(self.spec_database()[i as int] == self.database@[i as int]@);
            if eq {
                v.push(i);
            }
            i = i + 1;
        }
        v
    }

    /// The register width the search uses: `register_width` of the number of
    /// entries.
    pub fn search_qubits(&self) -> (k: usize)
        ensures
            k == index_width(self.spec_database().len()),
    {
        register_width(self.database.len())
    }
}

impl QuantumDatabaseSearch for GroverDatabaseSearch {
    fn backend_type(&self) -> (t: BackendType)
        ensures
            t == self.spec_backend_type(),
    {
        self.backend_type
    }
}

/// The answer of a database search once the circuit has been measured: no
/// answer without matches; the measured index when it matches; otherwise the
/// first match.
pub open spec fn search_answer(matches: Seq<usize>, measured: usize) -> Option<usize> {
    if matches.len() == 0 {
        None
    } else if matches.contains(measured) {
        Some(measured)
    } else {
        Some(matches[0])
    }
}

/// Settles the result of a search from the matching positions and the index
/// the circuit measured (see `search_answer`).
pub fn settle_search_answer(matches: &[usize], measured: usize) -> (r: Option<usize>)
    ensures
        r == search_answer(matches@, measured),
{
    if matches.len() == 0 {
        return None;
    }
    let mut i: usize = 0;
    while i < matches.len()
        invariant
            i <= matches@.len(),
            forall|j: int| 0 <= j < i ==> matches@[j] != measured,
        decreases matches@.len() - i,
    {
        if matches[i] == measured {
            assert(matches@.contains(measured)) by { assert(matches@[i as int] == measured); }
            return Some(measured);
        }
        i = i + 1;
    }
    Some(matches[0])
}

/// Whatever the circuit measures, a search with a match answers a matching
/// position.
pub proof fn lemma_search_answer_matches(matches: Seq<usize>, measured: usize)
    requires
        matches.len() > 0,
    ensures
        search_answer(matches, measured) is Some,
        matches.contains(search_answer(matches, measured).unwrap()),
{
    if !matches.contains(measured) {
        assert(matches[0] == matches[0]);
    }
}

} // verus!
