//! What the search circuits do to computational basis states. X, Z, CZ,
//! CNOT and their multi-controlled forms map a basis state to a basis state,
//! possibly with a sign of -1; running such gates on a bit assignment gives
//! the assignment and sign that come out. With this reading, the oracles are
//! shown to flip the sign of their marked states and of nothing else, and
//! the diffusion operators to be Hadamard layers around a sign flip of the
//! all-zero state (the reflection about the uniform superposition).

use vstd::prelude::*;
use crate::backends::qasm::bit_clear;
use crate::grover::{
    clear_bits, diffusion_gates, grover_circuit_gates, grover_rounds, hadamards, measurements, oracle_for_target,
    oracles_for, paulis, qubit_range, x_gates, GateSpec,
};
use crate::grover_quantum::{all_qubits, each, grover_diffusion, grover_gates, mark_state, mark_states, rounds, state_flips, GroverGateSpec};
use crate::backends::ionq::{cz_chain, each_qubit, flips, ionq_diffusion, ionq_grover, ionq_iterations, ionq_oracle, ionq_oracles, IonQGateSpec};

verus! {

/// Whether every qubit of `qs` is a qubit of `bits` and set there.
pub open spec fn all_set(bits: Seq<bool>, qs: Seq<usize>) -> bool {
    forall|i: int| 0 <= i < qs.len() ==> (#[trigger] qs[i]) < bits.len() && bits[qs[i] as int]
}

/// Whether every qubit of `qs` is a qubit of `bits`.
pub open spec fn all_in(bits: Seq<bool>, qs: Seq<usize>) -> bool {
    forall|i: int| 0 <= i < qs.len() ==> (#[trigger] qs[i]) < bits.len()
}

/// The effect of a gate on the basis state `bits` with sign `negated`: the
/// resulting basis state and sign. `None` stands for a gate without such a
/// reading (H, a measurement, a general phase) or one that acts on a qubit
/// outside `bits`.
pub open spec fn gate_on_basis(g: GateSpec, bits: Seq<bool>, negated: bool) -> Option<(Seq<bool>, bool)> {
    match g {
        GateSpec::X(q) => if q < bits.len() {
            Some((bits.update(q as int, !bits[q as int]), negated))
        } else {
            None
        },
        GateSpec::Z(q) => if q < bits.len() {
            Some((bits, negated != bits[q as int]))
        } else {
            None
        },
        GateSpec::CX { control, target } => if control < bits.len() && target < bits.len() {
            Some((bits.update(target as int, bits[target as int] != bits[control as int]), negated))
        } else {
            None
        },
        GateSpec::CZ { control, target } => if control < bits.len() && target < bits.len() {
            Some((bits, negated != (bits[control as int] && bits[target as int])))
        } else {
            None
        },
        GateSpec::MCX { controls, target } => if all_in(bits, controls) && target < bits.len() {
            Some((bits.update(target as int, bits[target as int] != all_set(bits, controls)), negated))
        } else {
            None
        },
        GateSpec::MCZ { controls, target } => if all_in(bits, controls) && target < bits.len() {
            Some((bits, negated != (all_set(bits, controls) && bits[target as int])))
        } else {
            None
        },
        _ => None,
    }
}

/// Gates applied in order to a basis state with a sign (see `gate_on_basis`).
pub open spec fn gates_on_basis(gs: Seq<GateSpec>, bits: Seq<bool>, negated: bool) -> Option<(Seq<bool>, bool)>
    decreases gs.len(),
{
    if gs.len() == 0 {
        Some((bits, negated))
    } else {
        match gates_on_basis(gs.drop_last(), bits, negated) {
            Some(s) => gate_on_basis(gs.last(), s.0, s.1),
            None => None,
        }
    }
}

/// The bits of the basis state `state` on `n` qubits, qubit `q` being bit `q`.
pub open spec fn state_bits(state: usize, n: nat) -> Seq<bool> {
    Seq::new(n, |q: int| !bit_clear(state, q as nat))
}

/// `bits` with every qubit below `k` whose bit in `state` is clear flipped.
pub open spec fn flip_clear(bits: Seq<bool>, state: usize, k: nat) -> Seq<bool> {
    Seq::new(bits.len(), |q: int| bits[q] != (q < k && bit_clear(state, q as nat)))
}

/// `bits` with every qubit below `k` flipped.
pub open spec fn flip_below(bits: Seq<bool>, k: nat) -> Seq<bool> {
    Seq::new(bits.len(), |q: int| bits[q] != (q < k))
}

/// Whether `bits` equals an odd number of the first `k` marked states.
pub open spec fn odd_matches(marked: Seq<usize>, k: nat, bits: Seq<bool>) -> bool
    decreases k,
{
    if k == 0 {
        false
    } else {
        odd_matches(marked, (k - 1) as nat, bits) != (bits == state_bits(marked[k - 1], bits.len()))
    }
}

proof fn lemma_run_append(a: Seq<GateSpec>, b: Seq<GateSpec>, bits: Seq<bool>, negated: bool)
    ensures
        gates_on_basis(a + b, bits, negated) == match gates_on_basis(a, bits, negated) {
            Some(s) => gates_on_basis(b, s.0, s.1),
            None => None,
        },
    decreases b.len(),
{
    if b.len() == 0 {
        assert(a + b =~= a);
    } else {
        lemma_run_append(a, b.drop_last(), bits, negated);
        assert((a + b).drop_last() =~= a + b.drop_last());
        assert((a + b).last() == b.last());
    }
}

proof fn lemma_run_empty(bits: Seq<bool>, negated: bool)
    ensures
        gates_on_basis(Seq::<GateSpec>::empty(), bits, negated) == Some((bits, negated)),
{
}

proof fn lemma_run_push(gs: Seq<GateSpec>, g: GateSpec, bits: Seq<bool>, negated: bool)
    ensures
        gates_on_basis(gs.push(g), bits, negated) == match gates_on_basis(gs, bits, negated) {
            Some(s) => gate_on_basis(g, s.0, s.1),
            None => None,
        },
{
    assert(gs.push(g).drop_last() =~= gs);
    assert(gs.push(g).last() == g);
}

proof fn lemma_run_single(g: GateSpec, bits: Seq<bool>, negated: bool)
    ensures
        gates_on_basis(seq![g], bits, negated) == gate_on_basis(g, bits, negated),
{
    lemma_run_empty(bits, negated);
    lemma_run_push(Seq::<GateSpec>::empty(), g, bits, negated);
    assert(Seq::<GateSpec>::empty().push(g) =~= seq![g]);
}

proof fn lemma_x_clear(target: usize, k: nat, bits: Seq<bool>, negated: bool)
    requires
        k <= bits.len(),
        bits.len() <= usize::MAX,
    ensures
        gates_on_basis(x_gates(clear_bits(target, k)), bits, negated) == Some((flip_clear(bits, target, k), negated)),
    decreases k,
{
    if k == 0 {
        assert(x_gates(clear_bits(target, 0)) =~= Seq::<GateSpec>::empty());
        assert(flip_clear(bits, target, 0) =~= bits);
        lemma_run_empty(bits, negated);
    } else {
        let j = (k - 1) as nat;
        lemma_x_clear(target, j, bits, negated);
        if bit_clear(target, j) {
            let qs = clear_bits(target, j);
            assert(clear_bits(target, k) == qs.push(j as usize));
            assert(x_gates(qs.push(j as usize)) =~= x_gates(qs).push(GateSpec::X(j as usize)));
            lemma_run_push(x_gates(qs), GateSpec::X(j as usize), bits, negated);
            assert(flip_clear(bits, target, j).update(j as int, !flip_clear(bits, target, j)[j as int])
                =~= flip_clear(bits, target, k));
        } else {
            assert(clear_bits(target, k) == clear_bits(target, j));
            assert(flip_clear(bits, target, j) =~= flip_clear(bits, target, k));
        }
    }
}

#[verifier::rlimit(30)]
proof fn lemma_x_clear_reversed(target: usize, k: nat, bits: Seq<bool>, negated: bool)
    requires
        k <= bits.len(),
        bits.len() <= usize::MAX,
    ensures
        gates_on_basis(x_gates(clear_bits(target, k).reverse()), bits, negated) == Some((flip_clear(bits, target, k), negated)),
    decreases k,
{
    if k == 0 {
        assert(x_gates(clear_bits(target, 0).reverse()) =~= Seq::<GateSpec>::empty());
        assert(flip_clear(bits, target, 0) =~= bits);
        lemma_run_empty(bits, negated);
    } else {
        let j = (k - 1) as nat;
        if bit_clear(target, j) {
            let qs = clear_bits(target, j);
            assert(clear_bits(target, k) == qs.push(j as usize));
            assert(qs.push(j as usize).reverse() =~= seq![j as usize] + qs.reverse());
            assert(x_gates(seq![j as usize] + qs.reverse()) =~= seq![GateSpec::X(j as usize)] + x_gates(qs.reverse()));
            lemma_run_append(seq![GateSpec::X(j as usize)], x_gates(qs.reverse()), bits, negated);
            lemma_run_single(GateSpec::X(j as usize), bits, negated);
            let b1 = bits.update(j as int, !bits[j as int]);
            lemma_x_clear_reversed(target, j, b1, negated);
            assert(flip_clear(b1, target, j) =~= flip_clear(bits, target, k));
        } else {
            assert(clear_bits(target, k) == clear_bits(target, j));
            lemma_x_clear_reversed(target, j, bits, negated);
            assert(flip_clear(bits, target, j) =~= flip_clear(bits, target, k));
        }
    }
}

proof fn lemma_paulis(k: nat, bits: Seq<bool>, negated: bool)
    requires
        k <= bits.len(),
        bits.len() <= usize::MAX,
    ensures
        gates_on_basis(paulis(k), bits, negated) == Some((flip_below(bits, k), negated)),
    decreases k,
{
    if k == 0 {
        assert(flip_below(bits, 0) =~= bits);
        lemma_run_empty(bits, negated);
    } else {
        let j = (k - 1) as nat;
        lemma_paulis(j, bits, negated);
        lemma_run_push(paulis(j), GateSpec::X(j as usize), bits, negated);
        assert(flip_below(bits, j).update(j as int, !flip_below(bits, j)[j as int]) =~= flip_below(bits, k));
    }
}

proof fn lemma_hadamards(k: nat)
    ensures
        hadamards(k).len() == k,
        forall|q: int| 0 <= q < k ==> #[trigger] hadamards(k)[q] == GateSpec::H(q as usize),
    decreases k,
{
    if k > 0 {
        lemma_hadamards((k - 1) as nat);
        assert forall|q: int| 0 <= q < k implies #[trigger] hadamards(k)[q] == GateSpec::H(q as usize) by {
            if q < k - 1 {
                assert(hadamards(k)[q] == hadamards((k - 1) as nat)[q]);
            }
        }
    }
}

proof fn lemma_paulis_len(k: nat)
    ensures
        paulis(k).len() == k,
    decreases k,
{
    if k > 0 {
        lemma_paulis_len((k - 1) as nat);
    }
}

/// The oracle for `target` on `n` qubits leaves every basis state as it is
/// and negates exactly the basis state of `target`.
pub proof fn lemma_oracle_negates_only_target(target: usize, n: nat, bits: Seq<bool>, negated: bool)
    requires
        n > 0,
        bits.len() == n,
        n <= usize::MAX,
    ensures
        gates_on_basis(oracle_for_target(target, n), bits, negated)
            == Some((bits, negated != (bits == state_bits(target, n)))),
{
    let flips = x_gates(clear_bits(target, n));
    let mcz = GateSpec::MCZ { controls: qubit_range((n - 1) as nat), target: (n - 1) as usize };
    let undo = x_gates(clear_bits(target, n).reverse());
    lemma_x_clear(target, n, bits, negated);
    let b1 = flip_clear(bits, target, n);
    lemma_run_append(flips, seq![mcz], bits, negated);
    lemma_run_single(mcz, b1, negated);
    let all = all_set(b1, qubit_range((n - 1) as nat)) && b1[n - 1];
    assert(all_in(b1, qubit_range((n - 1) as nat)));
    assert(all == (bits == state_bits(target, n))) by {
        if all {
            assert forall|q: int| 0 <= q < n implies bits[q] == state_bits(target, n)[q] by {
                if q < n - 1 {
                    assert(qubit_range((n - 1) as nat)[q] == q as usize);
                }
            }
            assert(bits =~= state_bits(target, n));
        }
        if bits == state_bits(target, n) {
            assert forall|i: int| 0 <= i < qubit_range((n - 1) as nat).len() implies
                (#[trigger] qubit_range((n - 1) as nat)[i]) < b1.len() && b1[qubit_range((n - 1) as nat)[i] as int] by {
                assert(bits[i] == state_bits(target, n)[i]);
            }
            assert(bits[n - 1] == state_bits(target, n)[n - 1]);
        }
    }
    lemma_run_append(flips + seq![mcz], undo, bits, negated);
    lemma_x_clear_reversed(target, n, b1, negated != all);
    assert(flip_clear(b1, target, n) =~= bits);
}

/// The oracles for the first `k` targets on `n` qubits leave every basis
/// state as it is and negate it when it is an odd number of those targets
/// (for distinct targets: exactly when it is one of them).
pub proof fn lemma_oracles_negate_targets(targets: Seq<usize>, n: nat, k: nat, bits: Seq<bool>, negated: bool)
    requires
        n > 0,
        bits.len() == n,
        n <= usize::MAX,
        k <= targets.len(),
    ensures
        gates_on_basis(oracles_for(targets, n, k), bits, negated) == Some((bits, negated != odd_matches(targets, k, bits))),
    decreases k,
{
    if k > 0 {
        lemma_oracles_negate_targets(targets, n, (k - 1) as nat, bits, negated);
        lemma_run_append(oracles_for(targets, n, (k - 1) as nat), oracle_for_target(targets[k - 1], n), bits, negated);
        lemma_oracle_negates_only_target(targets[k - 1], n, bits, negated != odd_matches(targets, (k - 1) as nat, bits));
    }
}

/// The diffusion operator on `n` qubits is a Hadamard on every qubit, then
/// gates that negate the all-zero basis state and leave every other basis
/// state as it is, then a Hadamard on every qubit: the reflection about the
/// uniform superposition.
pub proof fn lemma_diffusion_reflects(n: nat, bits: Seq<bool>, negated: bool)
    requires
        n > 0,
        bits.len() == n,
        n <= usize::MAX,
    ensures
        diffusion_gates(n).len() >= 2 * n,
        forall|q: int| 0 <= q < n ==> #[trigger] diffusion_gates(n)[q] == GateSpec::H(q as usize),
        forall|q: int| 0 <= q < n ==> #[trigger] diffusion_gates(n)[diffusion_gates(n).len() - n + q] == GateSpec::H(q as usize),
        gates_on_basis(diffusion_gates(n).subrange(n as int, diffusion_gates(n).len() - n), bits, negated)
            == Some((bits, negated != (bits == Seq::new(n, |q: int| false)))),
{
    let h = hadamards(n);
    let x = paulis(n);
    let mid = if n > 1 {
        seq![GateSpec::MCZ { controls: qubit_range((n - 1) as nat), target: (n - 1) as usize }]
    } else {
        seq![GateSpec::Z(0)]
    };
    let d = diffusion_gates(n);
    lemma_hadamards(n);
    lemma_paulis_len(n);
    assert(d == h + x + mid + x + h);
    assert forall|q: int| 0 <= q < n implies #[trigger] d[q] == GateSpec::H(q as usize) by {
        assert(d[q] == h[q]);
    }
    assert forall|q: int| 0 <= q < n implies #[trigger] d[d.len() - n + q] == GateSpec::H(q as usize) by {
        assert(d[d.len() - n + q] == h[q]);
    }
    assert(d.subrange(n as int, d.len() - n) =~= x + mid + x);
    lemma_paulis(n, bits, negated);
    let b1 = flip_below(bits, n);
    let zero = Seq::new(n, |q: int| false);
    lemma_run_append(x, mid, bits, negated);
    lemma_run_single(mid[0], b1, negated);
    let hit = if n > 1 { all_set(b1, qubit_range((n - 1) as nat)) && b1[n - 1] } else { b1[0] };
    assert(gates_on_basis(x + mid, bits, negated) == Some((b1, negated != hit))) by {
        if n > 1 {
            assert(all_in(b1, qubit_range((n - 1) as nat)));
        }
    }
    assert(hit == (bits == zero)) by {
        if hit {
            assert forall|q: int| 0 <= q < n implies bits[q] == zero[q] by {
                if n > 1 && q < n - 1 {
                    assert(qubit_range((n - 1) as nat)[q] == q as usize);
                }
            }
            assert(bits =~= zero);
        }
        if bits == zero {
            if n > 1 {
                assert forall|i: int| 0 <= i < qubit_range((n - 1) as nat).len() implies
                    (#[trigger] qubit_range((n - 1) as nat)[i]) < b1.len() && b1[qubit_range((n - 1) as nat)[i] as int] by {
                    assert(bits[i] == zero[i]);
                }
                assert(bits[n - 1] == zero[n - 1]);
            } else {
                assert(bits[0] == zero[0]);
            }
        }
    }
    lemma_run_append(x + mid, x, bits, negated);
    lemma_paulis(n, b1, negated != hit);
    assert(flip_below(b1, n) =~= bits);
}


// ---------------------------------------------------------------------------
// The simulator's oracle gates.

/// A gate of the simulator's circuits applied to a basis state with a sign
/// (as `gate_on_basis` reads the same gate).
pub open spec fn grover_gate_on_basis(g: GroverGateSpec, bits: Seq<bool>, negated: bool) -> Option<(Seq<bool>, bool)> {
    match g {
        GroverGateSpec::X { qubit } => gate_on_basis(GateSpec::X(qubit), bits, negated),
        GroverGateSpec::Z { qubit } => gate_on_basis(GateSpec::Z(qubit), bits, negated),
        GroverGateSpec::CNOT { control, target } => gate_on_basis(GateSpec::CX { control, target }, bits, negated),
        GroverGateSpec::CZ { control, target } => gate_on_basis(GateSpec::CZ { control, target }, bits, negated),
        GroverGateSpec::MCX { controls, target } => gate_on_basis(GateSpec::MCX { controls, target }, bits, negated),
        GroverGateSpec::MCZ { controls, target } => gate_on_basis(GateSpec::MCZ { controls, target }, bits, negated),
        _ => None,
    }
}

/// Simulator gates applied in order to a basis state with a sign.
pub open spec fn grover_gates_on_basis(gs: Seq<GroverGateSpec>, bits: Seq<bool>, negated: bool) -> Option<(Seq<bool>, bool)>
    decreases gs.len(),
{
    if gs.len() == 0 {
        Some((bits, negated))
    } else {
        match grover_gates_on_basis(gs.drop_last(), bits, negated) {
            Some(s) => grover_gate_on_basis(gs.last(), s.0, s.1),
            None => None,
        }
    }
}

proof fn lemma_grover_run_append(a: Seq<GroverGateSpec>, b: Seq<GroverGateSpec>, bits: Seq<bool>, negated: bool)
    ensures
        grover_gates_on_basis(a + b, bits, negated) == match grover_gates_on_basis(a, bits, negated) {
            Some(s) => grover_gates_on_basis(b, s.0, s.1),
            None => None,
        },
    decreases b.len(),
{
    if b.len() == 0 {
        assert(a + b =~= a);
    } else {
        lemma_grover_run_append(a, b.drop_last(), bits, negated);
        assert((a + b).drop_last() =~= a + b.drop_last());
        assert((a + b).last() == b.last());
    }
}

proof fn lemma_grover_run_single(g: GroverGateSpec, bits: Seq<bool>, negated: bool)
    ensures
        grover_gates_on_basis(seq![g], bits, negated) == grover_gate_on_basis(g, bits, negated),
{
    assert(grover_gates_on_basis(Seq::<GroverGateSpec>::empty(), bits, negated) == Some((bits, negated)));
    assert(seq![g].drop_last() =~= Seq::<GroverGateSpec>::empty());
    assert(seq![g].last() == g);
}

proof fn lemma_state_flips(state: usize, k: nat, bits: Seq<bool>, negated: bool)
    requires
        k <= bits.len(),
        bits.len() <= usize::MAX,
    ensures
        grover_gates_on_basis(state_flips(state, k), bits, negated) == Some((flip_clear(bits, state, k), negated)),
    decreases k,
{
    if k == 0 {
        assert(flip_clear(bits, state, 0) =~= bits);
        assert(grover_gates_on_basis(Seq::<GroverGateSpec>::empty(), bits, negated) == Some((bits, negated)));
    } else {
        let j = (k - 1) as nat;
        lemma_state_flips(state, j, bits, negated);
        if bit_clear(state, j) {
            let g = GroverGateSpec::X { qubit: j as usize };
            assert(state_flips(state, k) == state_flips(state, j).push(g));
            assert(state_flips(state, j).push(g).drop_last() =~= state_flips(state, j));
            assert(state_flips(state, j).push(g).last() == g);
            assert(flip_clear(bits, state, j).update(j as int, !flip_clear(bits, state, j)[j as int])
                =~= flip_clear(bits, state, k));
        } else {
            assert(state_flips(state, k) == state_flips(state, j));
            assert(flip_clear(bits, state, j) =~= flip_clear(bits, state, k));
        }
    }
}

/// The simulator's oracle for a marked `state` on `n` qubits leaves every
/// basis state as it is and negates exactly the basis state of `state`.
pub proof fn lemma_mark_state_negates_only_marked(state: usize, n: nat, bits: Seq<bool>, negated: bool)
    requires
        n > 0,
        bits.len() == n,
        n <= usize::MAX,
    ensures
        grover_gates_on_basis(mark_state(state, n), bits, negated)
            == Some((bits, negated != (bits == state_bits(state, n)))),
{
    let flips = state_flips(state, n);
    let mcz = GroverGateSpec::MCZ { controls: all_qubits(n), target: (n - 1) as usize };
    lemma_state_flips(state, n, bits, negated);
    let b1 = flip_clear(bits, state, n);
    assert(mark_state(state, n) == flips + seq![mcz] + flips);
    lemma_grover_run_append(flips, seq![mcz], bits, negated);
    lemma_grover_run_single(mcz, b1, negated);
    assert(all_in(b1, all_qubits(n)));
    let all = all_set(b1, all_qubits(n)) && b1[n - 1];
    assert(all == (bits == state_bits(state, n))) by {
        if all {
            assert forall|q: int| 0 <= q < n implies bits[q] == state_bits(state, n)[q] by {
                assert(all_qubits(n)[q] == q as usize);
            }
            assert(bits =~= state_bits(state, n));
        }
        if bits == state_bits(state, n) {
            assert forall|i: int| 0 <= i < all_qubits(n).len() implies
                (#[trigger] all_qubits(n)[i]) < b1.len() && b1[all_qubits(n)[i] as int] by {
                assert(bits[i] == state_bits(state, n)[i]);
            }
            assert(bits[n - 1] == state_bits(state, n)[n - 1]);
        }
    }
    lemma_grover_run_append(flips + seq![mcz], flips, bits, negated);
    lemma_state_flips(state, n, b1, negated != all);
    assert(flip_clear(b1, state, n) =~= bits);
}

/// The simulator's oracles for the first `k` marked states on `n` qubits
/// leave every basis state as it is and negate it when it is an odd number
/// of those states (for distinct states: exactly when it is one of them).
pub proof fn lemma_mark_states_negate_marked(marked: Seq<usize>, n: nat, k: nat, bits: Seq<bool>, negated: bool)
    requires
        n > 0,
        bits.len() == n,
        n <= usize::MAX,
        k <= marked.len(),
    ensures
        grover_gates_on_basis(mark_states(marked, n, k), bits, negated) == Some((bits, negated != odd_matches(marked, k, bits))),
    decreases k,
{
    if k == 0 {
        assert(grover_gates_on_basis(Seq::<GroverGateSpec>::empty(), bits, negated) == Some((bits, negated)));
    } else {
        lemma_mark_states_negate_marked(marked, n, (k - 1) as nat, bits, negated);
        lemma_grover_run_append(mark_states(marked, n, (k - 1) as nat), mark_state(marked[k - 1], n), bits, negated);
        lemma_mark_state_negates_only_marked(marked[k - 1], n, bits, negated != odd_matches(marked, (k - 1) as nat, bits));
    }
}

// ---------------------------------------------------------------------------
// The IonQ diffusion block.

/// An IonQ gate applied to a basis state with a sign (as `gate_on_basis`
/// reads the same gate).
pub open spec fn ionq_gate_on_basis(g: IonQGateSpec, bits: Seq<bool>, negated: bool) -> Option<(Seq<bool>, bool)> {
    match g {
        IonQGateSpec::X { target } => gate_on_basis(GateSpec::X(target), bits, negated),
        IonQGateSpec::Z { target } => gate_on_basis(GateSpec::Z(target), bits, negated),
        IonQGateSpec::CNOT { control, target } => gate_on_basis(GateSpec::CX { control, target }, bits, negated),
        IonQGateSpec::CZ { control, target } => gate_on_basis(GateSpec::CZ { control, target }, bits, negated),
        _ => None,
    }
}

/// IonQ gates applied in order to a basis state with a sign.
pub open spec fn ionq_gates_on_basis(gs: Seq<IonQGateSpec>, bits: Seq<bool>, negated: bool) -> Option<(Seq<bool>, bool)>
    decreases gs.len(),
{
    if gs.len() == 0 {
        Some((bits, negated))
    } else {
        match ionq_gates_on_basis(gs.drop_last(), bits, negated) {
            Some(s) => ionq_gate_on_basis(gs.last(), s.0, s.1),
            None => None,
        }
    }
}

/// Whether an odd number of the neighbouring qubit pairs `(j, j+1)` below
/// `k` are both clear in `bits`.
pub open spec fn odd_clear_pairs(bits: Seq<bool>, k: nat) -> bool
    decreases k,
{
    if k <= 1 {
        false
    } else {
        odd_clear_pairs(bits, (k - 1) as nat) != (!bits[k - 2] && !bits[k - 1])
    }
}

proof fn lemma_ionq_run_append(a: Seq<IonQGateSpec>, b: Seq<IonQGateSpec>, bits: Seq<bool>, negated: bool)
    ensures
        ionq_gates_on_basis(a + b, bits, negated) == match ionq_gates_on_basis(a, bits, negated) {
            Some(s) => ionq_gates_on_basis(b, s.0, s.1),
            None => None,
        },
    decreases b.len(),
{
    if b.len() == 0 {
        assert(a + b =~= a);
    } else {
        lemma_ionq_run_append(a, b.drop_last(), bits, negated);
        assert((a + b).drop_last() =~= a + b.drop_last());
        assert((a + b).last() == b.last());
    }
}

proof fn lemma_ionq_x_layer(k: nat, bits: Seq<bool>, negated: bool)
    requires
        k <= bits.len(),
        bits.len() <= usize::MAX,
    ensures
        ionq_gates_on_basis(each_qubit(k, false), bits, negated) == Some((flip_below(bits, k), negated)),
        each_qubit(k, false).len() == k,
    decreases k,
{
    if k == 0 {
        assert(flip_below(bits, 0) =~= bits);
        assert(ionq_gates_on_basis(Seq::<IonQGateSpec>::empty(), bits, negated) == Some((bits, negated)));
    } else {
        let j = (k - 1) as nat;
        lemma_ionq_x_layer(j, bits, negated);
        let g = IonQGateSpec::X { target: j as usize };
        assert(each_qubit(k, false).drop_last() =~= each_qubit(j, false));
        assert(each_qubit(k, false).last() == g);
        assert(flip_below(bits, j).update(j as int, !flip_below(bits, j)[j as int]) =~= flip_below(bits, k));
    }
}

proof fn lemma_ionq_h_layer(k: nat)
    ensures
        each_qubit(k, true).len() == k,
        forall|q: int| 0 <= q < k ==> #[trigger] each_qubit(k, true)[q] == (IonQGateSpec::H { target: q as usize }),
    decreases k,
{
    if k > 0 {
        lemma_ionq_h_layer((k - 1) as nat);
        assert forall|q: int| 0 <= q < k implies #[trigger] each_qubit(k, true)[q] == (IonQGateSpec::H { target: q as usize }) by {
            if q < k - 1 {
                assert(each_qubit(k, true)[q] == each_qubit((k - 1) as nat, true)[q]);
            }
        }
    }
}

/// The CZ chain negates by the parity of neighbouring pairs that are both set.
proof fn lemma_cz_chain(k: nat, bits: Seq<bool>, negated: bool)
    requires
        k <= bits.len(),
        bits.len() <= usize::MAX,
    ensures
        ionq_gates_on_basis(cz_chain(k), bits, negated) == Some((bits, negated != odd_clear_pairs(flip_below(bits, bits.len()), k))),
        cz_chain(k).len() == if k == 0 { 0 } else { k - 1 },
    decreases k,
{
    let nb = flip_below(bits, bits.len());
    if k <= 1 {
        assert(cz_chain(k) == Seq::<IonQGateSpec>::empty());
        assert(ionq_gates_on_basis(Seq::<IonQGateSpec>::empty(), bits, negated) == Some((bits, negated)));
    } else {
        lemma_cz_chain((k - 1) as nat, bits, negated);
        let g = IonQGateSpec::CZ { control: (k - 2) as usize, target: (k - 1) as usize };
        assert(cz_chain(k).drop_last() =~= cz_chain((k - 1) as nat));
        assert(cz_chain(k).last() == g);
        assert(nb[k - 2] == !bits[k - 2]);
        assert(nb[k - 1] == !bits[k - 1]);
    }
}

/// The IonQ diffusion block on `n` qubits: a Hadamard on every qubit, then
/// `3n - 1` gates that leave every basis state as it is and negate it by
/// the parity of its neighbouring qubit pairs that are both clear (X on
/// every qubit, the CZ chain, X on every qubit), then a Hadamard on every
/// qubit.
pub proof fn lemma_ionq_diffusion_layout(n: nat, bits: Seq<bool>, negated: bool)
    requires
        n > 0,
        bits.len() == n,
        n <= usize::MAX,
    ensures
        ionq_diffusion(n).len() == 4 * n + (n - 1),
        forall|q: int| 0 <= q < n ==> #[trigger] ionq_diffusion(n)[q] == (IonQGateSpec::H { target: q as usize }),
        forall|q: int| 0 <= q < n ==> #[trigger] ionq_diffusion(n)[ionq_diffusion(n).len() - n + q]
            == (IonQGateSpec::H { target: q as usize }),
        ionq_gates_on_basis(ionq_diffusion(n).subrange(n as int, ionq_diffusion(n).len() - n), bits, negated)
            == Some((bits, negated != odd_clear_pairs(bits, n))),
{
    let h = each_qubit(n, true);
    let x = each_qubit(n, false);
    let c = cz_chain(n);
    let d = ionq_diffusion(n);
    lemma_ionq_h_layer(n);
    lemma_ionq_x_layer(n, bits, negated);
    let b1 = flip_below(bits, n);
    lemma_cz_chain(n, b1, negated);
    assert(flip_below(b1, b1.len()) =~= bits);
    lemma_ionq_x_layer(n, b1, negated != odd_clear_pairs(bits, n));
    assert(flip_below(b1, n) =~= bits);
    assert(d == h + x + c + x + h);
    assert forall|q: int| 0 <= q < n implies #[trigger] d[q] == (IonQGateSpec::H { target: q as usize }) by {
        assert(d[q] == h[q]);
    }
    assert forall|q: int| 0 <= q < n implies #[trigger] d[d.len() - n + q] == (IonQGateSpec::H { target: q as usize }) by {
        assert(d[d.len() - n + q] == h[q]);
    }
    assert(d.subrange(n as int, d.len() - n) =~= x + c + x);
    lemma_ionq_run_append(x, c, bits, negated);
    lemma_ionq_run_append(x + c, x, bits, negated);
}


// ---------------------------------------------------------------------------
// The simulator's diffusion operator.

proof fn lemma_each_x(k: nat, bits: Seq<bool>, negated: bool)
    requires
        k <= bits.len(),
        bits.len() <= usize::MAX,
    ensures
        grover_gates_on_basis(each(k, false), bits, negated) == Some((flip_below(bits, k), negated)),
        each(k, false).len() == k,
    decreases k,
{
    if k == 0 {
        assert(flip_below(bits, 0) =~= bits);
        assert(grover_gates_on_basis(Seq::<GroverGateSpec>::empty(), bits, negated) == Some((bits, negated)));
    } else {
        let j = (k - 1) as nat;
        lemma_each_x(j, bits, negated);
        assert(each(k, false).drop_last() =~= each(j, false));
        assert(flip_below(bits, j).update(j as int, !flip_below(bits, j)[j as int]) =~= flip_below(bits, k));
    }
}

proof fn lemma_each_h(k: nat)
    ensures
        each(k, true).len() == k,
        forall|q: int| 0 <= q < k ==> #[trigger] each(k, true)[q] == (GroverGateSpec::H { qubit: q as usize }),
    decreases k,
{
    if k > 0 {
        lemma_each_h((k - 1) as nat);
        assert forall|q: int| 0 <= q < k implies #[trigger] each(k, true)[q] == (GroverGateSpec::H { qubit: q as usize }) by {
            if q < k - 1 {
                assert(each(k, true)[q] == each((k - 1) as nat, true)[q]);
            }
        }
    }
}

/// The simulator's diffusion operator on `n` qubits is a Hadamard on every
/// qubit, then gates that negate the all-zero basis state and leave every
/// other basis state as it is, then a Hadamard on every qubit.
pub proof fn lemma_grover_diffusion_reflects(n: nat, bits: Seq<bool>, negated: bool)
    requires
        n > 0,
        bits.len() == n,
        n <= usize::MAX,
    ensures
        grover_diffusion(n).len() >= 2 * n,
        forall|q: int| 0 <= q < n ==> #[trigger] grover_diffusion(n)[q] == (GroverGateSpec::H { qubit: q as usize }),
        forall|q: int| 0 <= q < n ==> #[trigger] grover_diffusion(n)[grover_diffusion(n).len() - n + q]
            == (GroverGateSpec::H { qubit: q as usize }),
        grover_gates_on_basis(grover_diffusion(n).subrange(n as int, grover_diffusion(n).len() - n), bits, negated)
            == Some((bits, negated != (bits == Seq::new(n, |q: int| false)))),
{
    let h = each(n, true);
    let x = each(n, false);
    let mcz = GroverGateSpec::MCZ { controls: all_qubits(n), target: (n - 1) as usize };
    let d = grover_diffusion(n);
    lemma_each_h(n);
    lemma_each_x(n, bits, negated);
    let b1 = flip_below(bits, n);
    assert(d == h + x + seq![mcz] + x + h);
    assert forall|q: int| 0 <= q < n implies #[trigger] d[q] == (GroverGateSpec::H { qubit: q as usize }) by {
        assert(d[q] == h[q]);
    }
    assert forall|q: int| 0 <= q < n implies #[trigger] d[d.len() - n + q] == (GroverGateSpec::H { qubit: q as usize }) by {
        assert(d[d.len() - n + q] == h[q]);
    }
    assert(d.subrange(n as int, d.len() - n) =~= x + seq![mcz] + x);
    let zero = Seq::new(n, |q: int| false);
    lemma_grover_run_append(x, seq![mcz], bits, negated);
    lemma_grover_run_single(mcz, b1, negated);
    assert(all_in(b1, all_qubits(n)));
    let hit = all_set(b1, all_qubits(n)) && b1[n - 1];
    assert(hit == (bits == zero)) by {
        if hit {
            assert forall|q: int| 0 <= q < n implies bits[q] == zero[q] by {
                assert(all_qubits(n)[q] == q as usize);
            }
            assert(bits =~= zero);
        }
        if bits == zero {
            assert forall|i: int| 0 <= i < all_qubits(n).len() implies
                (#[trigger] all_qubits(n)[i]) < b1.len() && b1[all_qubits(n)[i] as int] by {
                assert(bits[i] == zero[i]);
            }
        }
    }
    lemma_grover_run_append(x + seq![mcz], x, bits, negated);
    lemma_each_x(n, b1, negated != hit);
    assert(flip_below(b1, n) =~= bits);
}

// ---------------------------------------------------------------------------
// The IonQ oracle.

/// Whether an odd number of the neighbouring qubit pairs `(j, j+1)` below
/// `k` have both qubits agreeing with `state`.
pub open spec fn odd_agreeing_pairs(bits: Seq<bool>, state: usize, k: nat) -> bool
    decreases k,
{
    if k <= 1 {
        false
    } else {
        odd_agreeing_pairs(bits, state, (k - 1) as nat)
            != (bits[k - 2] == !bit_clear(state, (k - 2) as nat) && bits[k - 1] == !bit_clear(state, (k - 1) as nat))
    }
}

/// The combined sign of the IonQ oracles for the first `k` marked states.
pub open spec fn ionq_oracles_sign(marked: Seq<usize>, k: nat, bits: Seq<bool>) -> bool
    decreases k,
{
    if k == 0 {
        false
    } else {
        ionq_oracles_sign(marked, (k - 1) as nat, bits) != odd_agreeing_pairs(bits, marked[k - 1], bits.len())
    }
}

proof fn lemma_ionq_flips(state: usize, k: nat, bits: Seq<bool>, negated: bool)
    requires
        k <= bits.len(),
        bits.len() <= usize::MAX,
    ensures
        ionq_gates_on_basis(flips(state, k), bits, negated) == Some((flip_clear(bits, state, k), negated)),
    decreases k,
{
    if k == 0 {
        assert(flip_clear(bits, state, 0) =~= bits);
        assert(ionq_gates_on_basis(Seq::<IonQGateSpec>::empty(), bits, negated) == Some((bits, negated)));
    } else {
        let j = (k - 1) as nat;
        lemma_ionq_flips(state, j, bits, negated);
        if bit_clear(state, j) {
            let one = seq![IonQGateSpec::X { target: j as usize }];
            assert(flips(state, k) == flips(state, j) + one);
            lemma_ionq_run_append(flips(state, j), one, bits, negated);
            assert(one.drop_last() =~= Seq::<IonQGateSpec>::empty());
            assert(ionq_gates_on_basis(Seq::<IonQGateSpec>::empty(), flip_clear(bits, state, j), negated)
                == Some((flip_clear(bits, state, j), negated)));
            assert(flip_clear(bits, state, j).update(j as int, !flip_clear(bits, state, j)[j as int])
                =~= flip_clear(bits, state, k));
        } else {
            assert(flips(state, k) =~= flips(state, j));
            assert(flip_clear(bits, state, j) =~= flip_clear(bits, state, k));
        }
    }
}

proof fn lemma_agreeing_pairs(bits: Seq<bool>, state: usize, k: nat)
    requires
        k <= bits.len(),
    ensures
        odd_clear_pairs(flip_below(flip_clear(bits, state, bits.len()), bits.len()), k) == odd_agreeing_pairs(bits, state, k),
    decreases k,
{
    if k > 1 {
        lemma_agreeing_pairs(bits, state, (k - 1) as nat);
    }
}

/// The IonQ oracle for `state` on `n` qubits leaves every basis state as it
/// is and negates it by the parity of its neighbouring qubit pairs that both
/// agree with `state` (X on the clear bits of `state`, the CZ chain, the
/// same X gates).
pub proof fn lemma_ionq_oracle_sign(state: usize, n: nat, bits: Seq<bool>, negated: bool)
    requires
        bits.len() == n,
        n <= usize::MAX,
    ensures
        ionq_gates_on_basis(ionq_oracle(state, n), bits, negated)
            == Some((bits, negated != odd_agreeing_pairs(bits, state, n))),
{
    let f = flips(state, n);
    lemma_ionq_flips(state, n, bits, negated);
    let b1 = flip_clear(bits, state, n);
    lemma_cz_chain(n, b1, negated);
    lemma_agreeing_pairs(bits, state, n);
    assert(flip_below(b1, b1.len()) == flip_below(flip_clear(bits, state, bits.len()), bits.len()));
    lemma_ionq_run_append(f, cz_chain(n), bits, negated);
    lemma_ionq_run_append(f + cz_chain(n), f, bits, negated);
    lemma_ionq_flips(state, n, b1, negated != odd_agreeing_pairs(bits, state, n));
    assert(flip_clear(b1, state, n) =~= bits);
}

/// The IonQ oracles for the first `k` marked states leave every basis state
/// as it is and negate it by the combined parity of their signs.
pub proof fn lemma_ionq_oracles_sign(marked: Seq<usize>, n: nat, k: nat, bits: Seq<bool>, negated: bool)
    requires
        bits.len() == n,
        n <= usize::MAX,
        k <= marked.len(),
    ensures
        ionq_gates_on_basis(ionq_oracles(marked, n, k), bits, negated)
            == Some((bits, negated != ionq_oracles_sign(marked, k, bits))),
    decreases k,
{
    if k == 0 {
        assert(ionq_gates_on_basis(Seq::<IonQGateSpec>::empty(), bits, negated) == Some((bits, negated)));
    } else {
        lemma_ionq_oracles_sign(marked, n, (k - 1) as nat, bits, negated);
        lemma_ionq_run_append(ionq_oracles(marked, n, (k - 1) as nat), ionq_oracle(marked[k - 1], n), bits, negated);
        lemma_ionq_oracle_sign(marked[k - 1], n, bits, negated != ionq_oracles_sign(marked, (k - 1) as nat, bits));
    }
}


// ---------------------------------------------------------------------------
// Circuit layouts: the opening layer, one block per iteration, the closing
// layer.

proof fn lemma_repeat<T>(f: spec_fn(nat) -> Seq<T>, block: Seq<T>, k: nat)
    requires
        f(0) == Seq::<T>::empty(),
        forall|j: nat| #[trigger] f(j + 1) == f(j) + block,
    ensures
        f(k).len() == k * block.len(),
        forall|r: nat| r < k ==> (#[trigger] f(k).subrange(r as int * block.len(), r as int * block.len() + block.len())) == block,
    decreases k,
{
    let b: int = block.len() as int;
    if k == 0 {
        assert(k * b == 0) by (nonlinear_arith) requires k == 0;
    } else {
        let j = (k - 1) as nat;
        lemma_repeat(f, block, j);
        assert(f(j + 1) == f(j) + block);
        assert(j + 1 == k);
        assert(j * b + b == k * b) by (nonlinear_arith) requires j + 1 == k;
        assert forall|r: nat| r < k implies (#[trigger] f(k).subrange(r as int * block.len(), r as int * block.len() + block.len())) == block by {
            if r < j {
                assert(r as int * b + b <= j * b) by (nonlinear_arith) requires r < j, b >= 0;
                assert(r as int * b >= 0) by (nonlinear_arith) requires b >= 0;
                assert(f(k).subrange(r as int * b, r as int * b + b) =~= f(j).subrange(r as int * b, r as int * b + b));
            } else {
                assert(r == j);
                assert(f(k).subrange(r as int * b, r as int * b + b) =~= block);
            }
        }
    }
}

proof fn lemma_round_offsets(r: nat, k: nat, b: int)
    requires
        r < k,
        b >= 0,
    ensures
        r as int * b + b <= k * b,
        0 <= r as int * b,
{
    assert(r as int * b + b <= k * b) by (nonlinear_arith) requires r < k, b >= 0;
    assert(0 <= r as int * b) by (nonlinear_arith) requires b >= 0;
}

proof fn lemma_measurements(k: nat)
    ensures
        measurements(k).len() == k,
        forall|q: int| 0 <= q < k ==> #[trigger] measurements(k)[q] == GateSpec::Measure(q as usize),
    decreases k,
{
    if k > 0 {
        lemma_measurements((k - 1) as nat);
        assert forall|q: int| 0 <= q < k implies #[trigger] measurements(k)[q] == GateSpec::Measure(q as usize) by {
            if q < k - 1 {
                assert(measurements(k)[q] == measurements((k - 1) as nat)[q]);
            }
        }
    }
}

/// The Grover circuit on `n` qubits opens with a Hadamard on every qubit,
/// closes with a measurement of every qubit, and between them holds one
/// block per iteration, all of the same length.
pub proof fn lemma_grover_circuit_shape(targets: Seq<usize>, n: nat, iterations: nat)
    ensures
        grover_circuit_gates(targets, n, iterations).len() == 2 * n + iterations
            * (oracles_for(targets, n, targets.len()).len() + diffusion_gates(n).len()),
        forall|q: int| 0 <= q < n ==> #[trigger] grover_circuit_gates(targets, n, iterations)[q] == GateSpec::H(q as usize),
        forall|q: int| 0 <= q < n ==> #[trigger] grover_circuit_gates(targets, n, iterations)[
            grover_circuit_gates(targets, n, iterations).len() - n + q] == GateSpec::Measure(q as usize),
{
    let block = oracles_for(targets, n, targets.len()) + diffusion_gates(n);
    let f = |j: nat| grover_rounds(targets, n, j);
    assert forall|j: nat| #[trigger] f(j + 1) == f(j) + block by {
        assert(grover_rounds(targets, n, j + 1) =~= grover_rounds(targets, n, j) + block);
    }
    lemma_repeat(f, block, iterations);
    lemma_hadamards(n);
    lemma_measurements(n);
    let g = grover_circuit_gates(targets, n, iterations);
    let h = hadamards(n);
    let m = measurements(n);
    assert forall|q: int| 0 <= q < n implies #[trigger] g[q] == GateSpec::H(q as usize) by {
        assert(g[q] == h[q]);
    }
    assert forall|q: int| 0 <= q < n implies #[trigger] g[g.len() - n + q] == GateSpec::Measure(q as usize) by {
        assert(g[g.len() - n + q] == m[q]);
    }
}

/// In the Grover circuit, iteration `r` is the oracles, which negate
/// exactly the basis states equal to an odd number of the targets and
/// leave every basis state as it is, followed by the diffusion operator.
pub proof fn lemma_grover_circuit_round(targets: Seq<usize>, n: nat, iterations: nat, r: nat, bits: Seq<bool>, negated: bool)
    requires
        n > 0,
        bits.len() == n,
        n <= usize::MAX,
        r < iterations,
    ensures
        ({
            let o = oracles_for(targets, n, targets.len()).len() as int;
            let b = o + diffusion_gates(n).len();
            let g = grover_circuit_gates(targets, n, iterations);
            &&& gates_on_basis(g.subrange(n + r as int * b, n + r as int * b + o), bits, negated)
                == Some((bits, negated != odd_matches(targets, targets.len(), bits)))
            &&& g.subrange(n + r as int * b + o, n + r as int * b + b) == diffusion_gates(n)
        }),
{
    let oracles = oracles_for(targets, n, targets.len());
    let o = oracles.len() as int;
    let block = oracles + diffusion_gates(n);
    let b = block.len() as int;
    let f = |j: nat| grover_rounds(targets, n, j);
    assert forall|j: nat| #[trigger] f(j + 1) == f(j) + block by {
        assert(grover_rounds(targets, n, j + 1) =~= grover_rounds(targets, n, j) + block);
    }
    lemma_repeat(f, block, iterations);
    lemma_hadamards(n);
    lemma_round_offsets(r, iterations, b);
    let rs = grover_rounds(targets, n, iterations);
    assert(rs.subrange(r as int * b, r as int * b + b) == block);
    let g = grover_circuit_gates(targets, n, iterations);
    assert(g.subrange(n + r as int * b, n + r as int * b + o) =~= rs.subrange(r as int * b, r as int * b + b).subrange(0, o as int));
    assert(block.subrange(0, o as int) =~= oracles);
    assert(g.subrange(n + r as int * b + o, n + r as int * b + b) =~= rs.subrange(r as int * b, r as int * b + b).subrange(o as int, b as int));
    assert(block.subrange(o as int, b as int) =~= diffusion_gates(n));
    lemma_oracles_negate_targets(targets, n, targets.len(), bits, negated);
}

/// The simulator's Grover circuit on `n` qubits opens with a Hadamard on
/// every qubit and then holds one block per iteration: the oracle, which
/// negates exactly the basis states equal to an odd number of the marked
/// states, then the diffusion operator.
pub proof fn lemma_grover_gates_layout(marked: Seq<usize>, n: nat, iterations: nat, r: nat, bits: Seq<bool>, negated: bool)
    requires
        n > 0,
        bits.len() == n,
        n <= usize::MAX,
    ensures
        ({
            let o = mark_states(marked, n, marked.len()).len() as int;
            let b = o + grover_diffusion(n).len();
            let g = grover_gates(marked, n, iterations);
            &&& g.len() == n + iterations * b
            &&& forall|q: int| 0 <= q < n ==> #[trigger] g[q] == (GroverGateSpec::H { qubit: q as usize })
            &&& r < iterations ==> grover_gates_on_basis(g.subrange(n + r as int * b, n + r as int * b + o), bits, negated)
                == Some((bits, negated != odd_matches(marked, marked.len(), bits)))
            &&& r < iterations ==> g.subrange(n + r as int * b + o, n + r as int * b + b) == grover_diffusion(n)
        }),
{
    let oracles = mark_states(marked, n, marked.len());
    let o = oracles.len() as int;
    let block = oracles + grover_diffusion(n);
    let b = block.len() as int;
    let f = |j: nat| rounds(marked, n, j);
    assert forall|j: nat| #[trigger] f(j + 1) == f(j) + block by {
        assert(rounds(marked, n, j + 1) =~= rounds(marked, n, j) + block);
    }
    lemma_repeat(f, block, iterations);
    lemma_each_h(n);
    let g = grover_gates(marked, n, iterations);
    let h = each(n, true);
    assert forall|q: int| 0 <= q < n implies #[trigger] g[q] == (GroverGateSpec::H { qubit: q as usize }) by {
        assert(g[q] == h[q]);
    }
    if r < iterations {
        lemma_round_offsets(r, iterations, b);
        let rs = rounds(marked, n, iterations);
        assert(rs.subrange(r as int * b, r as int * b + b) == block);
        assert(g.subrange(n + r as int * b, n + r as int * b + o) =~= rs.subrange(r as int * b, r as int * b + b).subrange(0, o as int));
        assert(block.subrange(0, o as int) =~= oracles);
        assert(g.subrange(n + r as int * b + o, n + r as int * b + b) =~= rs.subrange(r as int * b, r as int * b + b).subrange(o as int, b as int));
        assert(block.subrange(o as int, b as int) =~= grover_diffusion(n));
        lemma_mark_states_negate_marked(marked, n, marked.len(), bits, negated);
    }
}

/// The IonQ Grover circuit on `n` qubits opens with a Hadamard on every
/// qubit and then holds one block per iteration: the oracles (see
/// `lemma_ionq_oracles_sign`), then the diffusion block (see
/// `lemma_ionq_diffusion_layout`).
pub proof fn lemma_ionq_grover_layout(n: nat, marked: Seq<usize>, iterations: nat, r: nat, bits: Seq<bool>, negated: bool)
    requires
        bits.len() == n,
        n <= usize::MAX,
    ensures
        ({
            let o = ionq_oracles(marked, n, marked.len()).len() as int;
            let b = o + ionq_diffusion(n).len();
            let g = ionq_grover(n, marked, iterations);
            &&& g.len() == n + iterations * b
            &&& forall|q: int| 0 <= q < n ==> #[trigger] g[q] == (IonQGateSpec::H { target: q as usize })
            &&& r < iterations ==> ionq_gates_on_basis(g.subrange(n + r as int * b, n + r as int * b + o), bits, negated)
                == Some((bits, negated != ionq_oracles_sign(marked, marked.len(), bits)))
            &&& r < iterations ==> g.subrange(n + r as int * b + o, n + r as int * b + b) == ionq_diffusion(n)
        }),
{
    let oracles = ionq_oracles(marked, n, marked.len());
    let o = oracles.len() as int;
    let block = oracles + ionq_diffusion(n);
    let b = block.len() as int;
    let f = |j: nat| ionq_iterations(marked, n, j);
    assert forall|j: nat| #[trigger] f(j + 1) == f(j) + block by {
        assert(ionq_iterations(marked, n, j + 1) =~= ionq_iterations(marked, n, j) + block);
    }
    lemma_repeat(f, block, iterations);
    lemma_ionq_h_layer(n);
    let g = ionq_grover(n, marked, iterations);
    let h = each_qubit(n, true);
    assert forall|q: int| 0 <= q < n implies #[trigger] g[q] == (IonQGateSpec::H { target: q as usize }) by {
        assert(g[q] == h[q]);
    }
    if r < iterations {
        lemma_round_offsets(r, iterations, b);
        let rs = ionq_iterations(marked, n, iterations);
        assert(rs.subrange(r as int * b, r as int * b + b) == block);
        assert(g.subrange(n + r as int * b, n + r as int * b + o) =~= rs.subrange(r as int * b, r as int * b + b).subrange(0, o as int));
        assert(block.subrange(0, o as int) =~= oracles);
        assert(g.subrange(n + r as int * b + o, n + r as int * b + b) =~= rs.subrange(r as int * b, r as int * b + b).subrange(o as int, b as int));
        assert(block.subrange(o as int, b as int) =~= ionq_diffusion(n));
        lemma_ionq_oracles_sign(marked, n, marked.len(), bits, negated);
    }
}

} // verus!
