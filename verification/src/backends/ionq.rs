//! IonQ: configuration, targets, availability and Grover gate sequences.

use vstd::prelude::*;
use super::{is_default_backend_config, QuantumBackendConfig, QuantumBackendInfo, QuantumProvider};
use super::qasm::bit_clear;
use crate::env::{copy_opt, first_set, EnvSnapshot};
use crate::text::{lowercase_eq, lowercase_equals};

verus! {


/// An IonQ execution target.
#[derive(Debug, Clone, Copy, PartialEq, Eq, Structural)]
pub enum IonQTarget {
    /// IonQ Aria, 25 qubits.
    Aria,
    /// IonQ Forte, 36 qubits.
    Forte,
    /// IonQ cloud simulator, 29 qubits.
    Simulator,
}

/// The API name of a target.
pub open spec fn target_name(t: IonQTarget) -> Seq<char> {
    match t {
        IonQTarget::Aria => "qpu.aria-1"@,
        IonQTarget::Forte => "qpu.forte-1"@,
        IonQTarget::Simulator => "simulator"@,
    }
}

/// The qubit count of a target.
pub open spec fn target_qubits(t: IonQTarget) -> usize {
    match t {
        IonQTarget::Aria => 25,
        IonQTarget::Forte => 36,
        IonQTarget::Simulator => 29,
    }
}

/// The target an `IONQ_TARGET` value selects, compared case-insensitively:
/// aria or qpu.aria-1, forte or qpu.forte-1, anything else the simulator.
pub open spec fn target_from_name(s: Seq<char>) -> IonQTarget {
    if lowercase_equals(s, "aria"@) || lowercase_equals(s, "qpu.aria-1"@) {
        IonQTarget::Aria
    } else if lowercase_equals(s, "forte"@) || lowercase_equals(s, "qpu.forte-1"@) {
        IonQTarget::Forte
    } else {
        IonQTarget::Simulator
    }
}

impl IonQTarget {
    /// The target's API name, e.g. `qpu.aria-1`.
    pub fn to_display_string(&self) -> (s: String)
        ensures
            s@ == target_name(*self),
    {
        match self {
            IonQTarget::Aria => "qpu.aria-1".to_owned(),
            IonQTarget::Forte => "qpu.forte-1".to_owned(),
            IonQTarget::Simulator => "simulator".to_owned(),
        }
    }

    /// The number of qubits the target offers.
    pub fn max_qubits(&self) -> (n: usize)
        ensures
            n == target_qubits(*self),
    {
        match self {
            IonQTarget::Aria => 25,
            IonQTarget::Forte => 36,
            IonQTarget::Simulator => 29,
        }
    }

    /// The target named by an `IONQ_TARGET` value.
    pub fn from_name(s: &str) -> (t: IonQTarget)
        ensures
            t == target_from_name(s@),
    {
        if lowercase_eq(s, "aria") || lowercase_eq(s, "qpu.aria-1") {
            IonQTarget::Aria
        } else if lowercase_eq(s, "forte") || lowercase_eq(s, "qpu.forte-1") {
            IonQTarget::Forte
        } else {
            IonQTarget::Simulator
        }
    }
}

/// Configuration of the IonQ backend.
#[derive(Debug, Clone)]
pub struct IonQConfig {
    /// API key; when unset, `IONQ_API_KEY` is consulted.
    pub api_key: Option<String>,
    /// API endpoint.
    pub api_endpoint: String,
    /// Execution target.
    pub target: IonQTarget,
    /// Shots per circuit.
    pub num_shots: usize,
    /// Error mitigation level (0 none, 1 debiasing).
    pub error_mitigation: u8,
    /// Submit native gates (GPi, GPi2, MS).
    pub native_gates: bool,
    /// Qubit limit.
    pub max_qubits: usize,
    /// Settings common to every backend.
    pub common: QuantumBackendConfig,
}

/// The default IonQ configuration: the simulator, 1024 shots, debiasing.
pub open spec fn is_default_ionq_config(c: IonQConfig) -> bool {
    &&& c.api_key is None
    &&& c.api_endpoint@ == "https://api.ionq.co/v0.3"@
    &&& c.target == IonQTarget::Simulator
    &&& c.num_shots == 1024
    &&& c.error_mitigation == 1
    &&& !c.native_gates
    &&& c.max_qubits == 25
    &&& is_default_backend_config(c.common)
}

impl Default for IonQConfig {
    fn default() -> (c: Self)
        ensures
            is_default_ionq_config(c),
    {
        IonQConfig {
            api_key: None,
            api_endpoint: "https://api.ionq.co/v0.3".to_owned(),
            target: IonQTarget::Simulator,
            num_shots: 1024,
            error_mitigation: 1,
            native_gates: false,
            max_qubits: 25,
            common: QuantumBackendConfig::default(),
        }
    }
}

/// A gate of an IonQ circuit. Rotation angles and phases are carried as the
/// bit patterns of their `f64` values (`f64::to_bits`).
#[derive(Debug)]
pub enum IonQGate {
    /// Hadamard.
    H { target: usize },
    /// Pauli X.
    X { target: usize },
    /// Pauli Y.
    Y { target: usize },
    /// Pauli Z.
    Z { target: usize },
    /// X rotation.
    Rx { target: usize, rotation_bits: u64 },
    /// Y rotation.
    Ry { target: usize, rotation_bits: u64 },
    /// Z rotation.
    Rz { target: usize, rotation_bits: u64 },
    /// Controlled NOT.
    CNOT { control: usize, target: usize },
    /// Controlled Z.
    CZ { control: usize, target: usize },
    /// Swap of two qubits.
    SWAP { targets: Vec<usize> },
    /// Native GPi.
    GPi { target: usize, phase_bits: u64 },
    /// Native GPi2.
    GPi2 { target: usize, phase_bits: u64 },
    /// Native Mølmer-Sørensen.
    MS { targets: Vec<usize>, phase_bits: Vec<u64>, angle_bits: u64 },
}

/// An IonQ gate as a mathematical value: lists are sequences.
pub enum IonQGateSpec {
    H { target: usize },
    X { target: usize },
    Y { target: usize },
    Z { target: usize },
    Rx { target: usize, rotation_bits: u64 },
    Ry { target: usize, rotation_bits: u64 },
    Rz { target: usize, rotation_bits: u64 },
    CNOT { control: usize, target: usize },
    CZ { control: usize, target: usize },
    SWAP { targets: Seq<usize> },
    GPi { target: usize, phase_bits: u64 },
    GPi2 { target: usize, phase_bits: u64 },
    MS { targets: Seq<usize>, phase_bits: Seq<u64>, angle_bits: u64 },
}

impl View for IonQGate {
    type V = IonQGateSpec;

    open spec fn view(&self) -> IonQGateSpec {
        match *self {
            IonQGate::H { target } => IonQGateSpec::H { target },
            IonQGate::X { target } => IonQGateSpec::X { target },
            IonQGate::Y { target } => IonQGateSpec::Y { target },
            IonQGate::Z { target } => IonQGateSpec::Z { target },
            IonQGate::Rx { target, rotation_bits } => IonQGateSpec::Rx { target, rotation_bits },
            IonQGate::Ry { target, rotation_bits } => IonQGateSpec::Ry { target, rotation_bits },
            IonQGate::Rz { target, rotation_bits } => IonQGateSpec::Rz { target, rotation_bits },
            IonQGate::CNOT { control, target } => IonQGateSpec::CNOT { control, target },
            IonQGate::CZ { control, target } => IonQGateSpec::CZ { control, target },
            IonQGate::SWAP { targets } => IonQGateSpec::SWAP { targets: targets@ },
            IonQGate::GPi { target, phase_bits } => IonQGateSpec::GPi { target, phase_bits },
            IonQGate::GPi2 { target, phase_bits } => IonQGateSpec::GPi2 { target, phase_bits },
            IonQGate::MS { targets, phase_bits, angle_bits } => IonQGateSpec::MS {
                targets: targets@,
                phase_bits: phase_bits@,
                angle_bits,
            },
        }
    }
}

impl IonQGate {
    /// A copy of this gate.
    pub fn clone_gate(&self) -> (g: IonQGate)
        ensures
            g@ == self@,
    {
        match self {
            IonQGate::H { target } => IonQGate::H { target: *target },
            IonQGate::X { target } => IonQGate::X { target: *target },
            IonQGate::Y { target } => IonQGate::Y { target: *target },
            IonQGate::Z { target } => IonQGate::Z { target: *target },
            IonQGate::Rx { target, rotation_bits } => IonQGate::Rx { target: *target, rotation_bits: *rotation_bits },
            IonQGate::Ry { target, rotation_bits } => IonQGate::Ry { target: *target, rotation_bits: *rotation_bits },
            IonQGate::Rz { target, rotation_bits } => IonQGate::Rz { target: *target, rotation_bits: *rotation_bits },
            IonQGate::CNOT { control, target } => IonQGate::CNOT { control: *control, target: *target },
            IonQGate::CZ { control, target } => IonQGate::CZ { control: *control, target: *target },
            IonQGate::SWAP { targets } => IonQGate::SWAP { targets: targets.clone() },
            IonQGate::GPi { target, phase_bits } => IonQGate::GPi { target: *target, phase_bits: *phase_bits },
            IonQGate::GPi2 { target, phase_bits } => IonQGate::GPi2 { target: *target, phase_bits: *phase_bits },
            IonQGate::MS { targets, phase_bits, angle_bits } => IonQGate::MS {
                targets: targets.clone(),
                phase_bits: phase_bits.clone(),
                angle_bits: *angle_bits,
            },
        }
    }
}

/// A gate sequence as mathematical values.
pub open spec fn view_ionq_gates(gs: Seq<IonQGate>) -> Seq<IonQGateSpec> {
    gs.map_values(|g: IonQGate| g@)
}

proof fn lemma_view_push(gs: Seq<IonQGate>, g: IonQGate)
    ensures
        view_ionq_gates(gs.push(g)) == view_ionq_gates(gs).push(g@),
{
    assert(view_ionq_gates(gs.push(g)) =~= view_ionq_gates(gs).push(g@));
}

fn push_gate(v: &mut Vec<IonQGate>, g: IonQGate)
    ensures
        view_ionq_gates(final(v)@) == view_ionq_gates(old(v)@).push(g@),
{
    proof { lemma_view_push(v@, g); }
    v.push(g);
}

/// A circuit in IonQ's format.
#[derive(Debug)]
pub struct IonQCircuit {
    /// Register width.
    pub qubits: usize,
    /// The gates, in order.
    pub circuit: Vec<IonQGate>,
}

/// The bits of `f64` zero.
pub const ZERO_ANGLE_BITS: u64 = 0;
/// The bits of the `f64` nearest to pi/2 (`FRAC_PI_2`).
pub const FRAC_PI_2_BITS: u64 = 0x3FF921FB54442D18;
/// The bits of the `f64` nearest to pi/4 (`FRAC_PI_4`).
pub const FRAC_PI_4_BITS: u64 = 0x3FE921FB54442D18;

/// A Hadamard (when `h`) or an X on each of the qubits `0..k`, in order.
pub open spec fn each_qubit(k: nat, h: bool) -> Seq<IonQGateSpec>
    decreases k,
{
    if k == 0 {
        Seq::empty()
    } else {
        each_qubit((k - 1) as nat, h).push(
            if h {
                IonQGateSpec::H { target: (k - 1) as usize }
            } else {
                IonQGateSpec::X { target: (k - 1) as usize }
            },
        )
    }
}

/// The CZ chain `CZ(j, j+1)` for `j` in `0..k-1`.
pub open spec fn cz_chain(k: nat) -> Seq<IonQGateSpec>
    decreases k,
{
    if k <= 1 {
        Seq::empty()
    } else {
        cz_chain((k - 1) as nat).push(
            IonQGateSpec::CZ { control: (k - 2) as usize, target: (k - 1) as usize },
        )
    }
}

/// X gates on the qubits `0..k` whose bit in `state` is clear.
pub open spec fn flips(state: usize, k: nat) -> Seq<IonQGateSpec>
    decreases k,
{
    if k == 0 {
        Seq::empty()
    } else {
        flips(state, (k - 1) as nat) + if bit_clear(state, (k - 1) as nat) {
            seq![IonQGateSpec::X { target: (k - 1) as usize }]
        } else {
            Seq::empty()
        }
    }
}

/// The oracle marking `state`: flips, the CZ chain, the same flips.
pub open spec fn ionq_oracle(state: usize, n: nat) -> Seq<IonQGateSpec> {
    flips(state, n) + cz_chain(n) + flips(state, n)
}

/// Oracles for the first `k` marked states.
pub open spec fn ionq_oracles(marked: Seq<usize>, n: nat, k: nat) -> Seq<IonQGateSpec>
    decreases k,
{
    if k == 0 {
        Seq::empty()
    } else {
        ionq_oracles(marked, n, (k - 1) as nat) + ionq_oracle(marked[k - 1], n)
    }
}

/// The diffusion operator: H, X, CZ chain, X, H.
pub open spec fn ionq_diffusion(n: nat) -> Seq<IonQGateSpec> {
    each_qubit(n, true) + each_qubit(n, false) + cz_chain(n) + each_qubit(n, false) + each_qubit(
        n,
        true,
    )
}

/// `k` Grover iterations.
pub open spec fn ionq_iterations(marked: Seq<usize>, n: nat, k: nat) -> Seq<IonQGateSpec>
    decreases k,
{
    if k == 0 {
        Seq::empty()
    } else {
        ionq_iterations(marked, n, (k - 1) as nat) + ionq_oracles(marked, n, marked.len())
            + ionq_diffusion(n)
    }
}

/// The Grover circuit for IonQ: Hadamards, then the iterations.
pub open spec fn ionq_grover(n: nat, marked: Seq<usize>, k: nat) -> Seq<IonQGateSpec> {
    each_qubit(n, true) + ionq_iterations(marked, n, k)
}

/// The bits of the `f64` nearest to -pi/2.
pub const NEG_FRAC_PI_2_BITS: u64 = 0xBFF921FB54442D18;

/// Half of an `f64` angle, on its bit pattern (IEEE 754 binary64): an
/// infinity or NaN stays as it is; a normal number above the smallest
/// binade loses one from its exponent; otherwise the magnitude, read as a
/// count of the smallest subnormal, is halved with ties to even. The sign
/// is kept throughout.
pub open spec fn half_angle_bits(b: u64) -> u64 {
    let e = (b >> 52u64) & 0x7FFu64;
    if e == 0x7FFu64 {
        b
    } else if e >= 2 {
        (b - 0x10_0000_0000_0000u64) as u64
    } else {
        let n = b & 0x1F_FFFF_FFFF_FFFFu64;
        (b & 0x8000_0000_0000_0000u64) | (((n >> 1u64) + ((n & 1u64) & ((n >> 1u64) & 1u64))) as u64)
    }
}

/// Half of an `f64` angle, on its bit pattern (see `half_angle_bits`).
pub fn half_angle(b: u64) -> (r: u64)
    ensures
        r == half_angle_bits(b),
{
    let e = (b >> 52u64) & 0x7FFu64;
    if e == 0x7FFu64 {
        b
    } else if e >= 2 {
        assert(((b >> 52u64) & 0x7FFu64) >= 2 ==> b >= 0x10_0000_0000_0000u64) by (bit_vector);
        b - 0x10_0000_0000_0000u64
    } else {
        let n = b & 0x1F_FFFF_FFFF_FFFFu64;
        assert(n <= 0x1F_FFFF_FFFF_FFFFu64) by (bit_vector)
            requires n == b & 0x1F_FFFF_FFFF_FFFFu64;
        assert((n >> 1u64) <= 0xF_FFFF_FFFF_FFFFu64) by (bit_vector)
            requires n <= 0x1F_FFFF_FFFF_FFFFu64;
        assert(((n & 1u64) & ((n >> 1u64) & 1u64)) <= 1u64) by (bit_vector);
        (b & 0x8000_0000_0000_0000u64) | ((n >> 1u64) + ((n & 1u64) & ((n >> 1u64) & 1u64)))
    }
}

/// Rz(theta) in native gates: GPi(0), then GPi(theta / 2).
pub open spec fn native_rz(target: usize, rotation_bits: u64) -> Seq<IonQGateSpec> {
    seq![
        IonQGateSpec::GPi { target, phase_bits: 0 },
        IonQGateSpec::GPi { target, phase_bits: half_angle_bits(rotation_bits) },
    ]
}

/// Rx(theta) as H, Rz(theta), H, each in native gates.
pub open spec fn native_rx(target: usize, rotation_bits: u64) -> Seq<IonQGateSpec> {
    seq![IonQGateSpec::GPi2 { target, phase_bits: 0 }] + native_rz(target, rotation_bits)
        + seq![IonQGateSpec::GPi2 { target, phase_bits: 0 }]
}

/// Ry(theta) as Rz(-pi/2), Rx(theta), Rz(pi/2), each in native gates.
pub open spec fn native_ry(target: usize, rotation_bits: u64) -> Seq<IonQGateSpec> {
    native_rz(target, NEG_FRAC_PI_2_BITS) + native_rx(target, rotation_bits) + native_rz(target, FRAC_PI_2_BITS)
}

/// CZ in native gates: an MS on both qubits with phases 0 and angle pi/4.
pub open spec fn native_cz(control: usize, target: usize) -> IonQGateSpec {
    IonQGateSpec::MS { targets: seq![control, target], phase_bits: seq![0u64, 0u64], angle_bits: FRAC_PI_4_BITS }
}

/// CNOT as H on the target, CZ, H on the target, each in native gates.
pub open spec fn native_cnot(control: usize, target: usize) -> Seq<IonQGateSpec> {
    seq![
        IonQGateSpec::GPi2 { target, phase_bits: 0 },
        native_cz(control, target),
        IonQGateSpec::GPi2 { target, phase_bits: 0 },
    ]
}

/// SWAP of the first two targets as three CNOTs (a to b, b to a, a to b);
/// a SWAP naming fewer than two qubits exchanges nothing.
pub open spec fn native_swap(targets: Seq<usize>) -> Seq<IonQGateSpec> {
    if targets.len() >= 2 {
        native_cnot(targets[0], targets[1]) + native_cnot(targets[1], targets[0]) + native_cnot(targets[0], targets[1])
    } else {
        Seq::empty()
    }
}

/// The native gates standing for one gate: H is GPi2(0), X is GPi(0), Y is
/// GPi(pi/2), Z is two GPi2(0), CZ is an MS on both qubits with phases 0
/// and angle pi/4; the rotations, CNOT and SWAP are rendered through these
/// (see `native_rz`, `native_rx`, `native_ry`, `native_cnot`,
/// `native_swap`); GPi, GPi2 and MS stay as they are.
pub open spec fn native_of(g: IonQGateSpec) -> Seq<IonQGateSpec> {
    match g {
        IonQGateSpec::H { target } => seq![IonQGateSpec::GPi2 { target, phase_bits: 0 }],
        IonQGateSpec::X { target } => seq![IonQGateSpec::GPi { target, phase_bits: 0 }],
        IonQGateSpec::Y { target } => seq![IonQGateSpec::GPi { target, phase_bits: FRAC_PI_2_BITS }],
        IonQGateSpec::Z { target } => seq![
            IonQGateSpec::GPi2 { target, phase_bits: 0 },
            IonQGateSpec::GPi2 { target, phase_bits: 0 },
        ],
        IonQGateSpec::Rx { target, rotation_bits } => native_rx(target, rotation_bits),
        IonQGateSpec::Ry { target, rotation_bits } => native_ry(target, rotation_bits),
        IonQGateSpec::Rz { target, rotation_bits } => native_rz(target, rotation_bits),
        IonQGateSpec::CNOT { control, target } => native_cnot(control, target),
        IonQGateSpec::CZ { control, target } => seq![native_cz(control, target)],
        IonQGateSpec::SWAP { targets } => native_swap(targets),
        IonQGateSpec::GPi { target, phase_bits } => seq![g],
        IonQGateSpec::GPi2 { target, phase_bits } => seq![g],
        IonQGateSpec::MS { targets, phase_bits, angle_bits } => seq![g],
    }
}

/// A gate IonQ executes directly: GPi, GPi2 or MS.
pub open spec fn is_native(g: IonQGateSpec) -> bool {
    g is GPi || g is GPi2 || g is MS
}

proof fn lemma_native_of_is_native(g: IonQGateSpec)
    ensures
        forall|i: int| 0 <= i < native_of(g).len() ==> is_native(#[trigger] native_of(g)[i]),
{
}

proof fn lemma_native_gates_are_native(gs: Seq<IonQGateSpec>)
    ensures
        forall|i: int| 0 <= i < native_gates(gs).len() ==> is_native(#[trigger] native_gates(gs)[i]),
    decreases gs.len(),
{
    if gs.len() > 0 {
        lemma_native_gates_are_native(gs.drop_last());
        lemma_native_of_is_native(gs.last());
        let a = native_gates(gs.drop_last());
        let b = native_of(gs.last());
        assert forall|i: int| 0 <= i < native_gates(gs).len() implies is_native(#[trigger] native_gates(gs)[i]) by {
            if i < a.len() {
                assert(native_gates(gs)[i] == a[i]);
            } else {
                assert(native_gates(gs)[i] == b[i - a.len()]);
            }
        }
    }
}

/// The native rendering of a gate sequence, gate by gate.
pub open spec fn native_gates(gs: Seq<IonQGateSpec>) -> Seq<IonQGateSpec>
    decreases gs.len(),
{
    if gs.len() == 0 {
        Seq::empty()
    } else {
        native_gates(gs.drop_last()) + native_of(gs.last())
    }
}

fn push_each_qubit(v: &mut Vec<IonQGate>, n: usize, h: bool)
    ensures
        view_ionq_gates(final(v)@) == view_ionq_gates(old(v)@) + each_qubit(n as nat, h),
{
    let ghost start = view_ionq_gates(v@);
    let mut q: usize = 0;
    while q < n
        invariant
            q <= n,
            view_ionq_gates(v@) == start + each_qubit(q as nat, h),
        decreases n - q,
    {
        if h {
            push_gate(v, IonQGate::H { target: q });
        } else {
            push_gate(v, IonQGate::X { target: q });
        }
        assert(view_ionq_gates(v@) =~= start + each_qubit((q + 1) as nat, h));
        q = q + 1;
    }
}

fn push_cz_chain(v: &mut Vec<IonQGate>, n: usize)
    ensures
        view_ionq_gates(final(v)@) == view_ionq_gates(old(v)@) + cz_chain(n as nat),
{
    let ghost start = view_ionq_gates(v@);
    if n <= 1 {
        assert(view_ionq_gates(v@) =~= start + cz_chain(n as nat));
        return;
    }
    assert(view_ionq_gates(v@) =~= start + cz_chain(1));
    let mut j: usize = 0;
    while j < n - 1
        invariant
            n > 1,
            j <= n - 1,
            view_ionq_gates(v@) == start + cz_chain((j + 1) as nat),
        decreases n - 1 - j,
    {
        push_gate(v, IonQGate::CZ { control: j, target: j + 1 });
        assert(view_ionq_gates(v@) =~= start + cz_chain((j + 2) as nat));
        j = j + 1;
    }
}

fn push_flips(v: &mut Vec<IonQGate>, state: usize, n: usize)
    requires
        n <= usize::BITS,
    ensures
        view_ionq_gates(final(v)@) == view_ionq_gates(old(v)@) + flips(state, n as nat),
{
    let ghost start = view_ionq_gates(v@);
    let mut j: usize = 0;
    while j < n
        invariant
            j <= n,
            n <= usize::BITS,
            view_ionq_gates(v@) == start + flips(state, j as nat),
        decreases n - j,
    {
        proof { super::qasm::lemma_shift_bit(state, j); }
        if (state >> j) & 1 == 0 {
            push_gate(v, IonQGate::X { target: j });
        }
        assert(view_ionq_gates(v@) =~= start + flips(state, (j + 1) as nat));
        j = j + 1;
    }
}

fn push_native_rz(v: &mut Vec<IonQGate>, target: usize, rotation_bits: u64)
    ensures
        view_ionq_gates(final(v)@) == view_ionq_gates(old(v)@) + native_rz(target, rotation_bits),
{
    let ghost start = view_ionq_gates(v@);
    push_gate(v, IonQGate::GPi { target, phase_bits: ZERO_ANGLE_BITS });
    let half = half_angle(rotation_bits);
    push_gate(v, IonQGate::GPi { target, phase_bits: half });
    assert(view_ionq_gates(v@) =~= start + native_rz(target, rotation_bits));
}

fn push_native_rx(v: &mut Vec<IonQGate>, target: usize, rotation_bits: u64)
    ensures
        view_ionq_gates(final(v)@) == view_ionq_gates(old(v)@) + native_rx(target, rotation_bits),
{
    let ghost start = view_ionq_gates(v@);
    push_gate(v, IonQGate::GPi2 { target, phase_bits: ZERO_ANGLE_BITS });
    push_native_rz(v, target, rotation_bits);
    push_gate(v, IonQGate::GPi2 { target, phase_bits: ZERO_ANGLE_BITS });
    assert(view_ionq_gates(v@) =~= start + native_rx(target, rotation_bits));
}

fn push_native_cz(v: &mut Vec<IonQGate>, control: usize, target: usize)
    ensures
        view_ionq_gates(final(v)@) == view_ionq_gates(old(v)@).push(native_cz(control, target)),
{
    let targets = vec![control, target];
    let phase_bits = vec![ZERO_ANGLE_BITS, ZERO_ANGLE_BITS];
    assert(targets@ =~= seq![control, target]);
    assert(phase_bits@ =~= seq![0u64, 0u64]);
    push_gate(v, IonQGate::MS { targets, phase_bits, angle_bits: FRAC_PI_4_BITS });
}

fn push_native_cnot(v: &mut Vec<IonQGate>, control: usize, target: usize)
    ensures
        view_ionq_gates(final(v)@) == view_ionq_gates(old(v)@) + native_cnot(control, target),
{
    let ghost start = view_ionq_gates(v@);
    push_gate(v, IonQGate::GPi2 { target, phase_bits: ZERO_ANGLE_BITS });
    push_native_cz(v, control, target);
    push_gate(v, IonQGate::GPi2 { target, phase_bits: ZERO_ANGLE_BITS });
    assert(view_ionq_gates(v@) =~= start + native_cnot(control, target));
}

fn push_native(v: &mut Vec<IonQGate>, g: &IonQGate)
    ensures
        view_ionq_gates(final(v)@) == view_ionq_gates(old(v)@) + native_of(g@),
{
    let ghost start = view_ionq_gates(v@);
    match g {
        IonQGate::H { target } => push_gate(v, IonQGate::GPi2 { target: *target, phase_bits: ZERO_ANGLE_BITS }),
        IonQGate::X { target } => push_gate(v, IonQGate::GPi { target: *target, phase_bits: ZERO_ANGLE_BITS }),
        IonQGate::Y { target } => push_gate(v, IonQGate::GPi { target: *target, phase_bits: FRAC_PI_2_BITS }),
        IonQGate::Z { target } => {
            push_gate(v, IonQGate::GPi2 { target: *target, phase_bits: ZERO_ANGLE_BITS });
            push_gate(v, IonQGate::GPi2 { target: *target, phase_bits: ZERO_ANGLE_BITS });
        },
        IonQGate::Rx { target, rotation_bits } => push_native_rx(v, *target, *rotation_bits),
        IonQGate::Ry { target, rotation_bits } => {
            push_native_rz(v, *target, NEG_FRAC_PI_2_BITS);
            push_native_rx(v, *target, *rotation_bits);
            push_native_rz(v, *target, FRAC_PI_2_BITS);
        },
        IonQGate::Rz { target, rotation_bits } => push_native_rz(v, *target, *rotation_bits),
        IonQGate::CNOT { control, target } => push_native_cnot(v, *control, *target),
        IonQGate::CZ { control, target } => push_native_cz(v, *control, *target),
        IonQGate::SWAP { targets } => {
            if targets.len() >= 2 {
                let a = targets[0];
                let b = targets[1];
                push_native_cnot(v, a, b);
                push_native_cnot(v, b, a);
                push_native_cnot(v, a, b);
            }
        },
        _ => push_gate(v, g.clone_gate()),
    }
    assert(view_ionq_gates(v@) =~= start + native_of(g@));
}

/// The gates of Grover's search for IonQ on `num_qubits` qubits: a Hadamard
/// on every qubit, then `num_iterations` rounds of an oracle per marked state
/// (flips of the clear bits around a CZ chain) and the diffusion operator.
pub fn ionq_grover_gates(num_qubits: usize, marked_states: &[usize], num_iterations: usize) -> (gates: Vec<IonQGate>)
    requires
        num_iterations == 0 || marked_states@.len() == 0 || num_qubits <= usize::BITS,
    ensures
        view_ionq_gates(gates@) == ionq_grover(num_qubits as nat, marked_states@, num_iterations as nat),
{
    let mut gates: Vec<IonQGate> = Vec::new();
    assert(view_ionq_gates(gates@) =~= Seq::<IonQGateSpec>::empty());
    push_each_qubit(&mut gates, num_qubits, true);
    let ghost base = view_ionq_gates(gates@);
    let mut it: usize = 0;
    while it < num_iterations
        invariant
            it <= num_iterations,
            num_iterations == 0 || marked_states@.len() == 0 || num_qubits <= usize::BITS,
            view_ionq_gates(gates@) == base + ionq_iterations(marked_states@, num_qubits as nat, it as nat),
        decreases num_iterations - it,
    {
        let ghost round = view_ionq_gates(gates@);
        let mut k: usize = 0;
        while k < marked_states.len()
            invariant
                k <= marked_states@.len(),
                num_iterations == 0 || marked_states@.len() == 0 || num_qubits <= usize::BITS,
                it < num_iterations,
                view_ionq_gates(gates@) == round + ionq_oracles(marked_states@, num_qubits as nat, k as nat),
            decreases marked_states@.len() - k,
        {
            let state = marked_states[k];
            push_flips(&mut gates, state, num_qubits);
            push_cz_chain(&mut gates, num_qubits);
            push_flips(&mut gates, state, num_qubits);
            assert(view_ionq_gates(gates@) =~= round + ionq_oracles(marked_states@, num_qubits as nat, (k + 1) as nat));
            k = k + 1;
        }
        push_each_qubit(&mut gates, num_qubits, true);
        push_each_qubit(&mut gates, num_qubits, false);
        push_cz_chain(&mut gates, num_qubits);
        push_each_qubit(&mut gates, num_qubits, false);
        push_each_qubit(&mut gates, num_qubits, true);
        assert(view_ionq_gates(gates@) =~= base + ionq_iterations(marked_states@, num_qubits as nat, (it + 1) as nat));
        it = it + 1;
    }
    gates
}

/// IonQ trapped-ion backend.
pub struct IonQBackend {
    config: IonQConfig,
}

impl IonQBackend {
    /// The backend's configuration.
    pub closed spec fn spec_config(&self) -> IonQConfig {
        self.config
    }

    /// The API key in force: the configured one, else the environment's.
    pub open spec fn spec_api_key(&self, env: EnvSnapshot) -> Option<String> {
        if self.spec_config().api_key is Some {
            self.spec_config().api_key
        } else {
            env.ionq_api_key
        }
    }

    /// A backend with the given configuration.
    pub fn new(config: IonQConfig) -> (b: Self)
        ensures
            b.spec_config() == config,
    {
        IonQBackend { config }
    }

    /// A backend configured from the environment: the target named by
    /// `IONQ_TARGET` (simulator when unset), its qubit count as the limit, the
    /// key from `IONQ_API_KEY`, the rest default.
    pub fn from_env(env: &EnvSnapshot) -> (b: Self)
        ensures
            b.spec_config().target == (match env.ionq_target {
                Some(s) => target_from_name(s@),
                None => IonQTarget::Simulator,
            }),
            b.spec_config().max_qubits == target_qubits(b.spec_config().target),
            b.spec_config().api_key == env.ionq_api_key,
            b.spec_config().api_endpoint@ == "https://api.ionq.co/v0.3"@,
            b.spec_config().num_shots == 1024,
            b.spec_config().error_mitigation == 1,
            !b.spec_config().native_gates,
            is_default_backend_config(b.spec_config().common),
    {
        let target = match &env.ionq_target {
            Some(s) => IonQTarget::from_name(s.as_str()),
            None => IonQTarget::Simulator,
        };
        let d = IonQConfig::default();
        let config = IonQConfig {
            api_key: copy_opt(&env.ionq_api_key),
            target,
            max_qubits: target.max_qubits(),
            ..d
        };
        Self::new(config)
    }

    /// The API key in force: the configured one, else `IONQ_API_KEY`.
    pub fn get_api_key(&self, env: &EnvSnapshot) -> (k: Option<String>)
        ensures
            k == self.spec_api_key(*env),
    {
        first_set(&self.config.api_key, &env.ionq_api_key)
    }

    /// The current configuration.
    pub fn config(&self) -> (c: &IonQConfig)
        ensures
            *c == self.spec_config(),
    {
        &self.config
    }

    /// The configuration, for changing it in place.
    pub fn config_mut(&mut self) -> (c: &mut IonQConfig)
        ensures
            *c == old(self).spec_config(),
            final(self).spec_config() == *final(c),
    {
        &mut self.config
    }

    /// The configured target.
    pub fn target(&self) -> (t: IonQTarget)
        ensures
            t == self.spec_config().target,
    {
        self.config.target
    }

    /// A circuit of `num_qubits` qubits holding copies of `gates`.
    pub fn build_circuit(&self, num_qubits: usize, gates: &[IonQGate]) -> (c: IonQCircuit)
        ensures
            c.qubits == num_qubits,
            view_ionq_gates(c.circuit@) == view_ionq_gates(gates@),
    {
        let mut circuit: Vec<IonQGate> = Vec::new();
        let mut i: usize = 0;
        while i < gates.len()
            invariant
                i <= gates.len(),
                view_ionq_gates(circuit@) == view_ionq_gates(gates@.subrange(0, i as int)),
            decreases gates.len() - i,
        {
            push_gate(&mut circuit, gates[i].clone_gate());
            assert(view_ionq_gates(circuit@) =~= view_ionq_gates(gates@.subrange(0, i as int + 1)));
            i = i + 1;
        }
        assert(gates@.subrange(0, i as int) =~= gates@);
        IonQCircuit { qubits: num_qubits, circuit }
    }

    /// The circuit of Grover's search on this backend (see `ionq_grover_gates`).
    pub fn build_grover_circuit(&self, num_qubits: usize, marked_states: &[usize], num_iterations: usize) -> (c: IonQCircuit)
        requires
            num_iterations == 0 || marked_states@.len() == 0 || num_qubits <= usize::BITS,
        ensures
            c.qubits == num_qubits,
            view_ionq_gates(c.circuit@) == ionq_grover(num_qubits as nat, marked_states@, num_iterations as nat),
    {
        IonQCircuit { qubits: num_qubits, circuit: ionq_grover_gates(num_qubits, marked_states, num_iterations) }
    }

    /// The circuit in IonQ's native gates (see `native_of`), gate by gate:
    /// every gate of the result is GPi, GPi2 or MS.
    pub fn to_native_gates(&self, circuit: &IonQCircuit) -> (c: IonQCircuit)
        ensures
            c.qubits == circuit.qubits,
            view_ionq_gates(c.circuit@) == native_gates(view_ionq_gates(circuit.circuit@)),
            forall|i: int| 0 <= i < c.circuit@.len() ==> is_native(#[trigger] c.circuit@[i]@),
    {
        let mut native: Vec<IonQGate> = Vec::new();
        let ghost all = view_ionq_gates(circuit.circuit@);
        let mut i: usize = 0;
        assert(view_ionq_gates(native@) =~= Seq::<IonQGateSpec>::empty());
        while i < circuit.circuit.len()
            invariant
                i <= circuit.circuit@.len(),
                all == view_ionq_gates(circuit.circuit@),
                view_ionq_gates(native@) == native_gates(all.subrange(0, i as int)),
            decreases circuit.circuit@.len() - i,
        {
            assert(all.subrange(0, i as int + 1).drop_last() =~= all.subrange(0, i as int));
            push_native(&mut native, &circuit.circuit[i]);
            i = i + 1;
        }
        assert(all.subrange(0, i as int) =~= all);
        proof {
            lemma_native_gates_are_native(all);
            assert forall|i: int| 0 <= i < native@.len() implies is_native(#[trigger] native@[i]@) by {
                assert(view_ionq_gates(native@)[i] == native@[i]@);
            }
        }
        IonQCircuit { qubits: circuit.qubits, circuit: native }
    }
}

impl QuantumBackendInfo for IonQBackend {
    fn is_available(&self, env: &EnvSnapshot) -> (r: bool)
        ensures
            r == (self.spec_api_key(*env) is Some),
    {
        self.get_api_key(env).is_some()
    }

    fn max_qubits(&self) -> (n: usize)
        ensures
            n == self.spec_config().max_qubits,
    {
        self.config.max_qubits
    }

    fn name(&self) -> (s: &'static str)
        ensures
            s@ == "IonQ Trapped-Ion"@,
    {
        "IonQ Trapped-Ion"
    }

    fn provider(&self) -> (p: QuantumProvider)
        ensures
            p == QuantumProvider::IonQ,
    {
        QuantumProvider::IonQ
    }
}

/// The state of an IonQ job.
#[derive(Debug, Clone, Copy, PartialEq, Eq, Structural)]
pub enum IonQJobStatus {
    Submitted,
    Running,
    Completed,
    Failed,
    Canceled,
}

} // verus!
