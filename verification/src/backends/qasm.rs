//! OpenQASM 3 text for Grover's search, as submitted to IBM Quantum.

use vstd::prelude::*;
use crate::text::{decimal, push_decimal};

verus! {

/// One single-qubit gate line, e.g. `h q[3];` followed by a newline.
pub open spec fn qubit_line(prefix: Seq<char>, q: nat) -> Seq<char> {
    prefix + decimal(q) + "];\n"@
}

/// Lines applying a gate with `prefix` to qubits `0..k`, in order.
pub open spec fn qubit_lines(prefix: Seq<char>, k: nat) -> Seq<char>
    decreases k,
{
    if k == 0 {
        Seq::empty()
    } else {
        qubit_lines(prefix, (k - 1) as nat) + qubit_line(prefix, (k - 1) as nat)
    }
}

/// The line `cx q[j], q[0];`.
pub open spec fn cx_line(j: nat) -> Seq<char> {
    "cx q["@ + decimal(j) + "], q[0];\n"@
}

/// CNOT lines from qubits `1..k` onto qubit 0, in order.
pub open spec fn cx_lines(k: nat) -> Seq<char>
    decreases k,
{
    if k <= 1 {
        Seq::empty()
    } else {
        cx_lines((k - 1) as nat) + cx_line((k - 1) as nat)
    }
}

/// Whether bit `j` of `state` is clear.
pub open spec fn bit_clear(state: usize, j: nat) -> bool {
    (state as nat / vstd::arithmetic::power2::pow2(j)) % 2 == 0
}

/// X lines on the qubits `0..k` whose bit in `state` is clear.
pub open spec fn flip_lines(state: usize, k: nat) -> Seq<char>
    decreases k,
{
    if k == 0 {
        Seq::empty()
    } else {
        flip_lines(state, (k - 1) as nat) + if bit_clear(state, (k - 1) as nat) {
            qubit_line("x q["@, (k - 1) as nat)
        } else {
            Seq::empty()
        }
    }
}

/// The multi-controlled phase core: `h q[0]`, the CNOT ladder, `h q[0]`.
pub open spec fn phase_core(n: nat) -> Seq<char> {
    "h q[0];\n"@ + cx_lines(n) + "h q[0];\n"@
}

/// The oracle block that marks `state` on `n` qubits.
pub open spec fn oracle_block(state: usize, n: nat) -> Seq<char> {
    "// Oracle for state "@ + decimal(state as nat) + "\n"@ + flip_lines(state, n) + (if n > 1 {
        phase_core(n)
    } else {
        Seq::empty()
    }) + flip_lines(state, n)
}

/// Oracle blocks for the first `k` marked states.
pub open spec fn oracle_blocks(marked: Seq<usize>, n: nat, k: nat) -> Seq<char>
    decreases k,
{
    if k == 0 {
        Seq::empty()
    } else {
        oracle_blocks(marked, n, (k - 1) as nat) + oracle_block(marked[k - 1], n)
    }
}

/// The diffusion operator on `n` qubits.
pub open spec fn diffusion_block(n: nat) -> Seq<char> {
    "// Diffusion operator\n"@ + qubit_lines("h q["@, n) + qubit_lines("x q["@, n) + phase_core(n)
        + qubit_lines("x q["@, n) + qubit_lines("h q["@, n)
}

/// One Grover iteration: every oracle, then diffusion, then a blank line.
pub open spec fn iteration_block(marked: Seq<usize>, n: nat) -> Seq<char> {
    oracle_blocks(marked, n, marked.len()) + diffusion_block(n) + "\n"@
}

/// `k` Grover iterations.
pub open spec fn iteration_blocks(marked: Seq<usize>, n: nat, k: nat) -> Seq<char>
    decreases k,
{
    if k == 0 {
        Seq::empty()
    } else {
        iteration_blocks(marked, n, (k - 1) as nat) + iteration_block(marked, n)
    }
}

/// The line `c[i] = measure q[i];`.
pub open spec fn measure_line(i: nat) -> Seq<char> {
    "c["@ + decimal(i) + "] = measure q["@ + decimal(i) + "];\n"@
}

/// Measurement lines for qubits `0..k`.
pub open spec fn measure_lines(k: nat) -> Seq<char>
    decreases k,
{
    if k == 0 {
        Seq::empty()
    } else {
        measure_lines((k - 1) as nat) + measure_line((k - 1) as nat)
    }
}

/// The program header declaring `n` qubits and `n` classical bits.
pub open spec fn qasm_header(n: nat) -> Seq<char> {
    "OPENQASM 3.0;\n"@ + "include \"stdgates.inc\";\n\n"@ + "qubit["@ + decimal(n) + "] q;\n"@
        + "bit["@ + decimal(n) + "] c;\n\n"@
}

/// The complete Grover program: header, uniform superposition, the
/// iterations, then a measurement of every qubit.
pub open spec fn grover_qasm(n: nat, marked: Seq<usize>, iterations: nat) -> Seq<char> {
    qasm_header(n) + qubit_lines("h q["@, n) + "\n"@ + iteration_blocks(marked, n, iterations)
        + measure_lines(n)
}

fn push_qubit_line(s: &mut String, prefix: &str, q: usize)
    ensures
        final(s)@ == old(s)@ + qubit_line(prefix@, q as nat),
{
    s.append(prefix);
    push_decimal(s, q as u64);
    s.append("];\n");
    assert(s@ =~= old(s)@ + qubit_line(prefix@, q as nat));
}

fn push_qubit_lines(s: &mut String, prefix: &str, n: usize)
    ensures
        final(s)@ == old(s)@ + qubit_lines(prefix@, n as nat),
{
    let ghost start = s@;
    let mut i: usize = 0;
    while i < n
        invariant
            i <= n,
            s@ == start + qubit_lines(prefix@, i as nat),
        decreases n - i,
    {
        push_qubit_line(s, prefix, i);
        proof {
            assert(qubit_lines(prefix@, (i + 1) as nat) == qubit_lines(prefix@, i as nat)
                + qubit_line(prefix@, i as nat));
            assert(s@ =~= start + qubit_lines(prefix@, (i + 1) as nat));
        }
        i = i + 1;
    }
}

fn push_cx_lines(s: &mut String, n: usize)
    ensures
        final(s)@ == old(s)@ + cx_lines(n as nat),
{
    let ghost start = s@;
    if n <= 1 {
        assert(s@ =~= start + cx_lines(n as nat));
        return;
    }
    let mut j: usize = 1;
    assert(s@ =~= start + cx_lines(1));
    while j < n
        invariant
            1 <= j <= n,
            s@ == start + cx_lines(j as nat),
        decreases n - j,
    {
        s.append("cx q[");
        push_decimal(s, j as u64);
        s.append("], q[0];\n");
        proof {
            assert(cx_lines((j + 1) as nat) == cx_lines(j as nat) + cx_line(j as nat));
            assert(s@ =~= start + cx_lines((j + 1) as nat));
        }
        j = j + 1;
    }
}

/// Testing bit `j` with a shift and a mask reads the same bit as `bit_clear`.
pub proof fn lemma_shift_bit(state: usize, j: usize)
    requires
        j < usize::BITS,
    ensures
        ((state >> j) & 1usize == 0usize) == bit_clear(state, j as nat),
{
    vstd::bits::lemma_usize_shr_is_div(state, j);
    vstd::arithmetic::power2::lemma_pow2_pos(j as nat);
    let q = state >> j;
    assert(q & 1usize == q % 2) by (bit_vector);
    vstd::arithmetic::power2::lemma2_to64();
}

fn push_flip_lines(s: &mut String, state: usize, n: usize)
    requires
        n <= usize::BITS,
    ensures
        final(s)@ == old(s)@ + flip_lines(state, n as nat),
{
    let ghost start = s@;
    let mut j: usize = 0;
    while j < n
        invariant
            j <= n,
            n <= usize::BITS,
            s@ == start + flip_lines(state, j as nat),
        decreases n - j,
    {
        proof { lemma_shift_bit(state, j); }
        if (state >> j) & 1 == 0 {
            push_qubit_line(s, "x q[", j);
        }
        proof {
            assert(flip_lines(state, (j + 1) as nat) == flip_lines(state, j as nat) + if bit_clear(
                state,
                j as nat,
            ) {
                qubit_line("x q["@, j as nat)
            } else {
                Seq::empty()
            });
            assert(s@ =~= start + flip_lines(state, (j + 1) as nat));
        }
        j = j + 1;
    }
}

fn push_phase_core(s: &mut String, n: usize)
    ensures
        final(s)@ == old(s)@ + phase_core(n as nat),
{
    s.append("h q[0];\n");
    push_cx_lines(s, n);
    s.append("h q[0];\n");
    assert(s@ =~= old(s)@ + phase_core(n as nat));
}

fn push_oracle_block(s: &mut String, state: usize, n: usize)
    requires
        n <= usize::BITS,
    ensures
        final(s)@ == old(s)@ + oracle_block(state, n as nat),
{
    s.append("// Oracle for state ");
    push_decimal(s, state as u64);
    s.append("\n");
    push_flip_lines(s, state, n);
    if n > 1 {
        push_phase_core(s, n);
    }
    push_flip_lines(s, state, n);
    assert(s@ =~= old(s)@ + oracle_block(state, n as nat));
}

fn push_diffusion_block(s: &mut String, n: usize)
    ensures
        final(s)@ == old(s)@ + diffusion_block(n as nat),
{
    s.append("// Diffusion operator\n");
    push_qubit_lines(s, "h q[", n);
    push_qubit_lines(s, "x q[", n);
    push_phase_core(s, n);
    push_qubit_lines(s, "x q[", n);
    push_qubit_lines(s, "h q[", n);
    assert(s@ =~= old(s)@ + diffusion_block(n as nat));
}

fn push_iteration_block(s: &mut String, n: usize, marked: &[usize])
    requires
        marked@.len() == 0 || n <= usize::BITS,
    ensures
        final(s)@ == old(s)@ + iteration_block(marked@, n as nat),
{
    let ghost start = s@;
    let mut k: usize = 0;
    while k < marked.len()
        invariant
            k <= marked@.len(),
            marked@.len() == 0 || n <= usize::BITS,
            s@ == start + oracle_blocks(marked@, n as nat, k as nat),
        decreases marked@.len() - k,
    {
        push_oracle_block(s, marked[k], n);
        proof {
            assert(oracle_blocks(marked@, n as nat, (k + 1) as nat) == oracle_blocks(
                marked@,
                n as nat,
                k as nat,
            ) + oracle_block(marked@[k as int], n as nat));
            assert(s@ =~= start + oracle_blocks(marked@, n as nat, (k + 1) as nat));
        }
        k = k + 1;
    }
    push_diffusion_block(s, n);
    s.append("\n");
    assert(s@ =~= start + iteration_block(marked@, n as nat));
}

fn push_measure_lines(s: &mut String, n: usize)
    ensures
        final(s)@ == old(s)@ + measure_lines(n as nat),
{
    let ghost start = s@;
    let mut i: usize = 0;
    while i < n
        invariant
            i <= n,
            s@ == start + measure_lines(i as nat),
        decreases n - i,
    {
        s.append("c[");
        push_decimal(s, i as u64);
        s.append("] = measure q[");
        push_decimal(s, i as u64);
        s.append("];\n");
        proof {
            assert(measure_lines((i + 1) as nat) == measure_lines(i as nat) + measure_line(
                i as nat,
            ));
            assert(s@ =~= start + measure_lines((i + 1) as nat));
        }
        i = i + 1;
    }
}

/// Renders Grover's search on `num_qubits` qubits as OpenQASM 3: a uniform
/// superposition, `num_iterations` rounds of one oracle per marked state
/// followed by the diffusion operator, and a measurement of every qubit.
/// Reading bit `j` of a marked state needs `j` below the machine word width.
pub fn grover_qasm_text(num_qubits: usize, marked_states: &[usize], num_iterations: usize) -> (qasm:
    String)
    requires
        num_iterations == 0 || marked_states@.len() == 0 || num_qubits <= usize::BITS,
    ensures
        qasm@ == grover_qasm(num_qubits as nat, marked_states@, num_iterations as nat),
{
    let mut qasm = String::new();
    qasm.append("OPENQASM 3.0;\n");
    qasm.append("include \"stdgates.inc\";\n\n");
    qasm.append("qubit[");
    push_decimal(&mut qasm, num_qubits as u64);
    qasm.append("] q;\n");
    qasm.append("bit[");
    push_decimal(&mut qasm, num_qubits as u64);
    qasm.append("] c;\n\n");
    assert(qasm@ =~= qasm_header(num_qubits as nat));
    push_qubit_lines(&mut qasm, "h q[", num_qubits);
    qasm.append("\n");
    let ghost before = qasm@;
    let mut it: usize = 0;
    while it < num_iterations
        invariant
            it <= num_iterations,
            num_iterations == 0 || marked_states@.len() == 0 || num_qubits <= usize::BITS,
            qasm@ == before + iteration_blocks(marked_states@, num_qubits as nat, it as nat),
        decreases num_iterations - it,
    {
        push_iteration_block(&mut qasm, num_qubits, marked_states);
        proof {
            assert(qasm@ =~= before + iteration_blocks(
                marked_states@,
                num_qubits as nat,
                (it + 1) as nat,
            ));
        }
        it = it + 1;
    }
    push_measure_lines(&mut qasm, num_qubits);
    assert(qasm@ =~= grover_qasm(num_qubits as nat, marked_states@, num_iterations as nat));
    qasm
}

} // verus!
