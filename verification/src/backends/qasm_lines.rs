//! The Grover program of `qasm` read line by line: the lines it consists
//! of, and what they show (the header, one diffusion block per iteration,
//! one oracle block per marked state and iteration, the measurements last).

use vstd::prelude::*;
use crate::text::decimal;
use super::qasm::{
    bit_clear, cx_line, cx_lines, diffusion_block, flip_lines, grover_qasm, iteration_block, iteration_blocks,
    measure_line, measure_lines, oracle_block, oracle_blocks, phase_core, qasm_header, qubit_line, qubit_lines,
};

verus! {

/// The text of lines, each followed by a newline.
pub open spec fn join_lines(ls: Seq<Seq<char>>) -> Seq<char>
    decreases ls.len(),
{
    if ls.len() == 0 {
        Seq::empty()
    } else {
        join_lines(ls.drop_last()) + ls.last() + "\n"@
    }
}

proof fn lemma_join_append(a: Seq<Seq<char>>, b: Seq<Seq<char>>)
    ensures
        join_lines(a + b) == join_lines(a) + join_lines(b),
    decreases b.len(),
{
    if b.len() == 0 {
        assert(a + b =~= a);
        assert(join_lines(a) + join_lines(b) =~= join_lines(a));
    } else {
        lemma_join_append(a, b.drop_last());
        assert((a + b).drop_last() =~= a + b.drop_last());
        assert((a + b).last() == b.last());
        assert(join_lines(a + b) =~= join_lines(a) + join_lines(b));
    }
}

proof fn lemma_join_one(l: Seq<char>)
    ensures
        join_lines(seq![l]) == l + "\n"@,
{
    assert(seq![l].drop_last() =~= Seq::<Seq<char>>::empty());
    assert(join_lines(Seq::<Seq<char>>::empty()) =~= Seq::<char>::empty());
    assert(seq![l].last() == l);
    assert(join_lines(seq![l]) =~= l + "\n"@);
}

/// A gate line without its newline, e.g. `h q[3];`.
pub open spec fn qubit_line_text(prefix: Seq<char>, q: nat) -> Seq<char> {
    prefix + decimal(q) + "];"@
}

/// The lines of `qubit_lines`.
pub open spec fn qubit_lines_seq(prefix: Seq<char>, k: nat) -> Seq<Seq<char>>
    decreases k,
{
    if k == 0 {
        Seq::empty()
    } else {
        qubit_lines_seq(prefix, (k - 1) as nat).push(qubit_line_text(prefix, (k - 1) as nat))
    }
}

/// The line `cx q[j], q[0];`.
pub open spec fn cx_line_text(j: nat) -> Seq<char> {
    "cx q["@ + decimal(j) + "], q[0];"@
}

/// The lines of `cx_lines`.
pub open spec fn cx_lines_seq(k: nat) -> Seq<Seq<char>>
    decreases k,
{
    if k <= 1 {
        Seq::empty()
    } else {
        cx_lines_seq((k - 1) as nat).push(cx_line_text((k - 1) as nat))
    }
}

/// The lines of `flip_lines`.
pub open spec fn flip_lines_seq(state: usize, k: nat) -> Seq<Seq<char>>
    decreases k,
{
    if k == 0 {
        Seq::empty()
    } else {
        flip_lines_seq(state, (k - 1) as nat) + if bit_clear(state, (k - 1) as nat) {
            seq![qubit_line_text("x q["@, (k - 1) as nat)]
        } else {
            Seq::empty()
        }
    }
}

/// The lines of `phase_core`.
pub open spec fn phase_core_seq(n: nat) -> Seq<Seq<char>> {
    seq!["h q[0];"@] + cx_lines_seq(n) + seq!["h q[0];"@]
}

/// The comment opening the oracle for `state`.
pub open spec fn oracle_comment(state: usize) -> Seq<char> {
    "// Oracle for state "@ + decimal(state as nat)
}

/// The lines of `oracle_block`.
pub open spec fn oracle_block_seq(state: usize, n: nat) -> Seq<Seq<char>> {
    seq![oracle_comment(state)] + flip_lines_seq(state, n) + (if n > 1 {
        phase_core_seq(n)
    } else {
        Seq::empty()
    }) + flip_lines_seq(state, n)
}

/// The lines of `oracle_blocks`.
pub open spec fn oracle_blocks_seq(marked: Seq<usize>, n: nat, k: nat) -> Seq<Seq<char>>
    decreases k,
{
    if k == 0 {
        Seq::empty()
    } else {
        oracle_blocks_seq(marked, n, (k - 1) as nat) + oracle_block_seq(marked[k - 1], n)
    }
}

/// The comment opening a diffusion block.
pub open spec fn diffusion_comment() -> Seq<char> {
    "// Diffusion operator"@
}

/// The lines of `diffusion_block`.
pub open spec fn diffusion_seq(n: nat) -> Seq<Seq<char>> {
    seq![diffusion_comment()] + qubit_lines_seq("h q["@, n) + qubit_lines_seq("x q["@, n) + phase_core_seq(n)
        + qubit_lines_seq("x q["@, n) + qubit_lines_seq("h q["@, n)
}

/// The lines of `iteration_block`.
pub open spec fn iteration_seq(marked: Seq<usize>, n: nat) -> Seq<Seq<char>> {
    oracle_blocks_seq(marked, n, marked.len()) + diffusion_seq(n) + seq![Seq::<char>::empty()]
}

/// The lines of `iteration_blocks`.
pub open spec fn iteration_blocks_seq(marked: Seq<usize>, n: nat, k: nat) -> Seq<Seq<char>>
    decreases k,
{
    if k == 0 {
        Seq::empty()
    } else {
        iteration_blocks_seq(marked, n, (k - 1) as nat) + iteration_seq(marked, n)
    }
}

/// The line `c[i] = measure q[i];`.
pub open spec fn measure_line_text(i: nat) -> Seq<char> {
    "c["@ + decimal(i) + "] = measure q["@ + decimal(i) + "];"@
}

/// The lines of `measure_lines`.
pub open spec fn measure_seq(k: nat) -> Seq<Seq<char>>
    decreases k,
{
    if k == 0 {
        Seq::empty()
    } else {
        measure_seq((k - 1) as nat).push(measure_line_text((k - 1) as nat))
    }
}

/// The lines of `qasm_header`.
pub open spec fn header_seq(n: nat) -> Seq<Seq<char>> {
    seq![
        "OPENQASM 3.0;"@,
        "include \"stdgates.inc\";"@,
        Seq::<char>::empty(),
        "qubit["@ + decimal(n) + "] q;"@,
        "bit["@ + decimal(n) + "] c;"@,
        Seq::<char>::empty(),
    ]
}

/// The lines of the Grover program `grover_qasm`.
pub open spec fn grover_qasm_lines(n: nat, marked: Seq<usize>, iterations: nat) -> Seq<Seq<char>> {
    header_seq(n) + qubit_lines_seq("h q["@, n) + seq![Seq::<char>::empty()] + iteration_blocks_seq(marked, n, iterations)
        + measure_seq(n)
}

proof fn lemma_push_join(ls: Seq<Seq<char>>, l: Seq<char>)
    ensures
        join_lines(ls.push(l)) == join_lines(ls) + l + "\n"@,
{
    assert(ls.push(l).drop_last() =~= ls);
}

proof fn lemma_qubit_lines_join(prefix: Seq<char>, k: nat)
    ensures
        join_lines(qubit_lines_seq(prefix, k)) == qubit_lines(prefix, k),
    decreases k,
{
    reveal_strlit("];\n");
    reveal_strlit("];");
    reveal_strlit("\n");
    if k > 0 {
        lemma_qubit_lines_join(prefix, (k - 1) as nat);
        lemma_push_join(qubit_lines_seq(prefix, (k - 1) as nat), qubit_line_text(prefix, (k - 1) as nat));
        assert(qubit_line(prefix, (k - 1) as nat) =~= qubit_line_text(prefix, (k - 1) as nat) + "\n"@);
        assert(join_lines(qubit_lines_seq(prefix, k)) =~= qubit_lines(prefix, k));
    }
}

proof fn lemma_cx_lines_join(k: nat)
    ensures
        join_lines(cx_lines_seq(k)) == cx_lines(k),
    decreases k,
{
    reveal_strlit("], q[0];\n");
    reveal_strlit("], q[0];");
    reveal_strlit("\n");
    if k > 1 {
        lemma_cx_lines_join((k - 1) as nat);
        lemma_push_join(cx_lines_seq((k - 1) as nat), cx_line_text((k - 1) as nat));
        assert(cx_line((k - 1) as nat) =~= cx_line_text((k - 1) as nat) + "\n"@);
        assert(join_lines(cx_lines_seq(k)) =~= cx_lines(k));
    }
}

proof fn lemma_flip_lines_join(state: usize, k: nat)
    ensures
        join_lines(flip_lines_seq(state, k)) == flip_lines(state, k),
    decreases k,
{
    reveal_strlit("];\n");
    reveal_strlit("];");
    reveal_strlit("\n");
    if k > 0 {
        let j = (k - 1) as nat;
        lemma_flip_lines_join(state, j);
        if bit_clear(state, j) {
            lemma_join_append(flip_lines_seq(state, j), seq![qubit_line_text("x q["@, j)]);
            lemma_join_one(qubit_line_text("x q["@, j));
            assert(qubit_line("x q["@, j) =~= qubit_line_text("x q["@, j) + "\n"@);
            assert(join_lines(flip_lines_seq(state, k)) =~= flip_lines(state, k));
        } else {
            assert(flip_lines_seq(state, k) =~= flip_lines_seq(state, j));
            assert(flip_lines(state, k) =~= flip_lines(state, j));
        }
    }
}

proof fn lemma_phase_core_join(n: nat)
    ensures
        join_lines(phase_core_seq(n)) == phase_core(n),
{
    reveal_strlit("h q[0];\n");
    reveal_strlit("h q[0];");
    reveal_strlit("\n");
    let h = seq!["h q[0];"@];
    lemma_join_one("h q[0];"@);
    lemma_cx_lines_join(n);
    lemma_join_append(h, cx_lines_seq(n));
    lemma_join_append(h + cx_lines_seq(n), h);
    assert("h q[0];"@ + "\n"@ =~= "h q[0];\n"@);
    assert(join_lines(phase_core_seq(n)) =~= phase_core(n));
}

proof fn lemma_oracle_block_join(state: usize, n: nat)
    ensures
        join_lines(oracle_block_seq(state, n)) == oracle_block(state, n),
{
    let c = seq![oracle_comment(state)];
    let f = flip_lines_seq(state, n);
    let p = if n > 1 { phase_core_seq(n) } else { Seq::<Seq<char>>::empty() };
    lemma_join_one(oracle_comment(state));
    lemma_flip_lines_join(state, n);
    lemma_phase_core_join(n);
    lemma_join_append(c, f);
    lemma_join_append(c + f, p);
    lemma_join_append(c + f + p, f);
    assert(join_lines(Seq::<Seq<char>>::empty()) == Seq::<char>::empty());
    assert(join_lines(oracle_block_seq(state, n)) =~= oracle_block(state, n));
}

proof fn lemma_oracle_blocks_join(marked: Seq<usize>, n: nat, k: nat)
    ensures
        join_lines(oracle_blocks_seq(marked, n, k)) == oracle_blocks(marked, n, k),
    decreases k,
{
    if k > 0 {
        lemma_oracle_blocks_join(marked, n, (k - 1) as nat);
        lemma_oracle_block_join(marked[k - 1], n);
        lemma_join_append(oracle_blocks_seq(marked, n, (k - 1) as nat), oracle_block_seq(marked[k - 1], n));
    }
}

proof fn lemma_diffusion_join(n: nat)
    ensures
        join_lines(diffusion_seq(n)) == diffusion_block(n),
{
    reveal_strlit("// Diffusion operator\n");
    reveal_strlit("// Diffusion operator");
    reveal_strlit("\n");
    let d = seq![diffusion_comment()];
    let h = qubit_lines_seq("h q["@, n);
    let x = qubit_lines_seq("x q["@, n);
    let p = phase_core_seq(n);
    lemma_join_one(diffusion_comment());
    lemma_qubit_lines_join("h q["@, n);
    lemma_qubit_lines_join("x q["@, n);
    lemma_phase_core_join(n);
    lemma_join_append(d, h);
    lemma_join_append(d + h, x);
    lemma_join_append(d + h + x, p);
    lemma_join_append(d + h + x + p, x);
    lemma_join_append(d + h + x + p + x, h);
    assert(diffusion_comment() + "\n"@ =~= "// Diffusion operator\n"@);
    assert(join_lines(diffusion_seq(n)) =~= diffusion_block(n));
}

proof fn lemma_iteration_join(marked: Seq<usize>, n: nat)
    ensures
        join_lines(iteration_seq(marked, n)) == iteration_block(marked, n),
{
    let o = oracle_blocks_seq(marked, n, marked.len());
    let d = diffusion_seq(n);
    let e = seq![Seq::<char>::empty()];
    lemma_oracle_blocks_join(marked, n, marked.len());
    lemma_diffusion_join(n);
    lemma_join_one(Seq::<char>::empty());
    lemma_join_append(o, d);
    lemma_join_append(o + d, e);
    assert(Seq::<char>::empty() + "\n"@ =~= "\n"@);
    assert(join_lines(iteration_seq(marked, n)) =~= iteration_block(marked, n));
}

proof fn lemma_iterations_join(marked: Seq<usize>, n: nat, k: nat)
    ensures
        join_lines(iteration_blocks_seq(marked, n, k)) == iteration_blocks(marked, n, k),
    decreases k,
{
    if k > 0 {
        lemma_iterations_join(marked, n, (k - 1) as nat);
        lemma_iteration_join(marked, n);
        lemma_join_append(iteration_blocks_seq(marked, n, (k - 1) as nat), iteration_seq(marked, n));
    }
}

proof fn lemma_measure_join(k: nat)
    ensures
        join_lines(measure_seq(k)) == measure_lines(k),
    decreases k,
{
    reveal_strlit("];\n");
    reveal_strlit("];");
    reveal_strlit("\n");
    if k > 0 {
        lemma_measure_join((k - 1) as nat);
        lemma_push_join(measure_seq((k - 1) as nat), measure_line_text((k - 1) as nat));
        assert(measure_line((k - 1) as nat) =~= measure_line_text((k - 1) as nat) + "\n"@);
        assert(join_lines(measure_seq(k)) =~= measure_lines(k));
    }
}

proof fn lemma_header_join(n: nat)
    ensures
        join_lines(header_seq(n)) == qasm_header(n),
{
    reveal_strlit("OPENQASM 3.0;\n");
    reveal_strlit("OPENQASM 3.0;");
    reveal_strlit("include \"stdgates.inc\";\n\n");
    reveal_strlit("include \"stdgates.inc\";");
    reveal_strlit("] q;\n");
    reveal_strlit("] q;");
    reveal_strlit("] c;\n\n");
    reveal_strlit("] c;");
    reveal_strlit("\n");
    let hs = header_seq(n);
    reveal_with_fuel(join_lines, 7);
    assert(hs.drop_last().drop_last().drop_last().drop_last().drop_last().drop_last() =~= Seq::<Seq<char>>::empty());
    assert(join_lines(hs) =~= qasm_header(n));
}

proof fn lemma_grover_join(n: nat, marked: Seq<usize>, iterations: nat)
    ensures
        join_lines(grover_qasm_lines(n, marked, iterations)) == grover_qasm(n, marked, iterations),
{
    let a = header_seq(n);
    let b = qubit_lines_seq("h q["@, n);
    let c = seq![Seq::<char>::empty()];
    let d = iteration_blocks_seq(marked, n, iterations);
    let e = measure_seq(n);
    lemma_header_join(n);
    lemma_qubit_lines_join("h q["@, n);
    lemma_join_one(Seq::<char>::empty());
    lemma_iterations_join(marked, n, iterations);
    lemma_measure_join(n);
    lemma_join_append(a, b);
    lemma_join_append(a + b, c);
    lemma_join_append(a + b + c, d);
    lemma_join_append(a + b + c + d, e);
    assert(Seq::<char>::empty() + "\n"@ =~= "\n"@);
    assert(join_lines(grover_qasm_lines(n, marked, iterations)) =~= grover_qasm(n, marked, iterations));
}


/// How many of `ls` equal `line`.
pub open spec fn count_equal(ls: Seq<Seq<char>>, line: Seq<char>) -> nat
    decreases ls.len(),
{
    if ls.len() == 0 {
        0
    } else {
        count_equal(ls.drop_last(), line) + if ls.last() == line { 1nat } else { 0nat }
    }
}

/// Whether `l` starts with `p`.
pub open spec fn starts_with(l: Seq<char>, p: Seq<char>) -> bool {
    p.len() <= l.len() && l.subrange(0, p.len() as int) == p
}

/// How many of `ls` start with `p`.
pub open spec fn count_starting(ls: Seq<Seq<char>>, p: Seq<char>) -> nat
    decreases ls.len(),
{
    if ls.len() == 0 {
        0
    } else {
        count_starting(ls.drop_last(), p) + if starts_with(ls.last(), p) { 1nat } else { 0nat }
    }
}

/// The text that opens every oracle comment.
pub open spec fn oracle_marker() -> Seq<char> {
    "// Oracle for state "@
}

/// No newline occurs in `l`.
pub open spec fn no_newline(l: Seq<char>) -> bool {
    forall|i: int| 0 <= i < l.len() ==> l[i] != '\n'
}

/// A line that is no comment (empty, or not starting with `/`) and holds no
/// newline.
spec fn plain(l: Seq<char>) -> bool {
    &&& l.len() == 0 || l[0] != '/'
    &&& no_newline(l)
}

spec fn all_plain(ls: Seq<Seq<char>>) -> bool {
    forall|i: int| 0 <= i < ls.len() ==> plain(#[trigger] ls[i])
}

proof fn lemma_counts_append(a: Seq<Seq<char>>, b: Seq<Seq<char>>, line: Seq<char>, p: Seq<char>)
    ensures
        count_equal(a + b, line) == count_equal(a, line) + count_equal(b, line),
        count_starting(a + b, p) == count_starting(a, p) + count_starting(b, p),
    decreases b.len(),
{
    if b.len() == 0 {
        assert(a + b =~= a);
    } else {
        lemma_counts_append(a, b.drop_last(), line, p);
        assert((a + b).drop_last() =~= a + b.drop_last());
        assert((a + b).last() == b.last());
    }
}

proof fn lemma_plain_counts(ls: Seq<Seq<char>>)
    requires
        all_plain(ls),
    ensures
        count_equal(ls, diffusion_comment()) == 0,
        count_starting(ls, oracle_marker()) == 0,
    decreases ls.len(),
{
    reveal_strlit("// Diffusion operator");
    reveal_strlit("// Oracle for state ");
    if ls.len() > 0 {
        assert(all_plain(ls.drop_last())) by {
            assert forall|i: int| 0 <= i < ls.drop_last().len() implies plain(#[trigger] ls.drop_last()[i]) by {
                assert(ls.drop_last()[i] == ls[i]);
            }
        }
        lemma_plain_counts(ls.drop_last());
        let l = ls.last();
        assert(plain(ls[ls.len() - 1]));
        if l.len() > 0 {
            assert(l != diffusion_comment()) by {
                assert(diffusion_comment()[0] == '/');
            }
            if starts_with(l, oracle_marker()) {
                assert(l.subrange(0, 20)[0] == l[0]);
                assert(oracle_marker()[0] == '/');
            }
        } else {
            assert(diffusion_comment().len() == 21);
        }
    }
}

proof fn lemma_plain_append(a: Seq<Seq<char>>, b: Seq<Seq<char>>)
    requires
        all_plain(a),
        all_plain(b),
    ensures
        all_plain(a + b),
{
    assert forall|i: int| 0 <= i < (a + b).len() implies plain(#[trigger] (a + b)[i]) by {
        if i < a.len() {
            assert((a + b)[i] == a[i]);
        } else {
            assert((a + b)[i] == b[i - a.len()]);
        }
    }
}

proof fn lemma_no_newline_concat(a: Seq<char>, b: Seq<char>)
    requires
        no_newline(a),
        no_newline(b),
    ensures
        no_newline(a + b),
{
    assert forall|i: int| 0 <= i < (a + b).len() implies (a + b)[i] != '\n' by {
        if i < a.len() {
            assert((a + b)[i] == a[i]);
        } else {
            assert((a + b)[i] == b[i - a.len()]);
        }
    }
}

proof fn lemma_decimal_no_newline(n: nat)
    ensures
        no_newline(decimal(n)),
        decimal(n).len() > 0,
    decreases n,
{
    if n >= 10 {
        lemma_decimal_no_newline(n / 10);
        let d = decimal(n / 10);
        assert forall|i: int| 0 <= i < decimal(n).len() implies decimal(n)[i] != '\n' by {
            if i < d.len() {
                assert(decimal(n)[i] == d[i]);
            }
        }
    }
}

/// `prefix`, a number, then `suffix`: a line with no newline whose first
/// character is the prefix's.
proof fn lemma_numbered_line(prefix: Seq<char>, n: nat, suffix: Seq<char>)
    requires
        prefix.len() > 0,
        no_newline(prefix),
        no_newline(suffix),
    ensures
        no_newline(prefix + decimal(n) + suffix),
        (prefix + decimal(n) + suffix)[0] == prefix[0],
        (prefix + decimal(n) + suffix).len() > 0,
{
    lemma_decimal_no_newline(n);
    lemma_no_newline_concat(prefix, decimal(n));
    lemma_no_newline_concat(prefix + decimal(n), suffix);
}

proof fn lemma_literals_no_newline()
    ensures
        no_newline("h q["@),
        no_newline("x q["@),
        no_newline("];"@),
        no_newline("cx q["@),
        no_newline("], q[0];"@),
        no_newline("h q[0];"@),
        no_newline("c["@),
        no_newline("] = measure q["@),
        no_newline("OPENQASM 3.0;"@),
        no_newline("include \"stdgates.inc\";"@),
        no_newline("qubit["@),
        no_newline("] q;"@),
        no_newline("bit["@),
        no_newline("] c;"@),
        no_newline("// Oracle for state "@),
        no_newline("// Diffusion operator"@),
        "h q["@.len() > 0,
        "x q["@.len() > 0,
        "cx q["@.len() > 0,
        "c["@.len() > 0,
        "qubit["@.len() > 0,
        "bit["@.len() > 0,
        "h q["@[0] == 'h',
        "x q["@[0] == 'x',
        "cx q["@[0] == 'c',
        "h q[0];"@[0] == 'h',
        "c["@[0] == 'c',
        "OPENQASM 3.0;"@[0] == 'O',
        "include \"stdgates.inc\";"@[0] == 'i',
        "qubit["@[0] == 'q',
        "bit["@[0] == 'b',
{
    reveal_strlit("h q[");
    reveal_strlit("x q[");
    reveal_strlit("];");
    reveal_strlit("cx q[");
    reveal_strlit("], q[0];");
    reveal_strlit("h q[0];");
    reveal_strlit("c[");
    reveal_strlit("] = measure q[");
    reveal_strlit("OPENQASM 3.0;");
    reveal_strlit("include \"stdgates.inc\";");
    reveal_strlit("qubit[");
    reveal_strlit("] q;");
    reveal_strlit("bit[");
    reveal_strlit("] c;");
    reveal_strlit("// Oracle for state ");
    reveal_strlit("// Diffusion operator");
}

proof fn lemma_qubit_lines_plain(prefix: Seq<char>, k: nat)
    requires
        prefix.len() > 0,
        prefix[0] != '/',
        no_newline(prefix),
    ensures
        all_plain(qubit_lines_seq(prefix, k)),
    decreases k,
{
    lemma_literals_no_newline();
    if k > 0 {
        lemma_qubit_lines_plain(prefix, (k - 1) as nat);
        lemma_numbered_line(prefix, (k - 1) as nat, "];"@);
        let ls = qubit_lines_seq(prefix, k);
        assert forall|i: int| 0 <= i < ls.len() implies plain(#[trigger] ls[i]) by {
            if i < ls.len() - 1 {
                assert(ls[i] == qubit_lines_seq(prefix, (k - 1) as nat)[i]);
            }
        }
    }
}

proof fn lemma_cx_lines_plain(k: nat)
    ensures
        all_plain(cx_lines_seq(k)),
    decreases k,
{
    lemma_literals_no_newline();
    if k > 1 {
        lemma_cx_lines_plain((k - 1) as nat);
        lemma_numbered_line("cx q["@, (k - 1) as nat, "], q[0];"@);
        let ls = cx_lines_seq(k);
        assert forall|i: int| 0 <= i < ls.len() implies plain(#[trigger] ls[i]) by {
            if i < ls.len() - 1 {
                assert(ls[i] == cx_lines_seq((k - 1) as nat)[i]);
            }
        }
    }
}

proof fn lemma_flip_lines_plain(state: usize, k: nat)
    ensures
        all_plain(flip_lines_seq(state, k)),
    decreases k,
{
    lemma_literals_no_newline();
    if k > 0 {
        let j = (k - 1) as nat;
        lemma_flip_lines_plain(state, j);
        lemma_numbered_line("x q["@, j, "];"@);
        let one = if bit_clear(state, j) { seq![qubit_line_text("x q["@, j)] } else { Seq::<Seq<char>>::empty() };
        assert(all_plain(one)) by {
            assert forall|i: int| 0 <= i < one.len() implies plain(#[trigger] one[i]) by {
                assert(one[i] == qubit_line_text("x q["@, j));
            }
        }
        lemma_plain_append(flip_lines_seq(state, j), one);
    }
}

proof fn lemma_phase_core_plain(n: nat)
    ensures
        all_plain(phase_core_seq(n)),
{
    lemma_literals_no_newline();
    let h = seq!["h q[0];"@];
    assert(all_plain(h)) by {
        assert forall|i: int| 0 <= i < h.len() implies plain(#[trigger] h[i]) by {
            assert(h[i] == "h q[0];"@);
        }
    }
    lemma_cx_lines_plain(n);
    lemma_plain_append(h, cx_lines_seq(n));
    lemma_plain_append(h + cx_lines_seq(n), h);
}

proof fn lemma_one_line_counts(l: Seq<char>)
    ensures
        count_equal(seq![l], diffusion_comment()) == if l == diffusion_comment() { 1nat } else { 0nat },
        count_starting(seq![l], oracle_marker()) == if starts_with(l, oracle_marker()) { 1nat } else { 0nat },
{
    assert(seq![l].drop_last() =~= Seq::<Seq<char>>::empty());
    assert(seq![l].last() == l);
    assert(count_equal(Seq::<Seq<char>>::empty(), diffusion_comment()) == 0);
    assert(count_starting(Seq::<Seq<char>>::empty(), oracle_marker()) == 0);
}

proof fn lemma_oracle_block_counts(state: usize, n: nat)
    ensures
        count_equal(oracle_block_seq(state, n), diffusion_comment()) == 0,
        count_starting(oracle_block_seq(state, n), oracle_marker()) == 1,
        forall|i: int| 0 <= i < oracle_block_seq(state, n).len() ==> no_newline(#[trigger] oracle_block_seq(state, n)[i]),
{
    lemma_literals_no_newline();
    reveal_strlit("// Diffusion operator");
    reveal_strlit("// Oracle for state ");
    let c = seq![oracle_comment(state)];
    let f = flip_lines_seq(state, n);
    let p = if n > 1 { phase_core_seq(n) } else { Seq::<Seq<char>>::empty() };
    lemma_flip_lines_plain(state, n);
    lemma_phase_core_plain(n);
    assert(all_plain(p)) by {
        if n <= 1 {
            assert forall|i: int| 0 <= i < p.len() implies plain(#[trigger] p[i]) by {}
        }
    }
    lemma_plain_append(f, p);
    lemma_plain_append(f + p, f);
    lemma_plain_counts(f + p + f);
    assert(oracle_block_seq(state, n) =~= c + (f + p + f));
    lemma_counts_append(c, f + p + f, diffusion_comment(), oracle_marker());
    lemma_one_line_counts(oracle_comment(state));
    lemma_decimal_no_newline(state as nat);
    lemma_no_newline_concat(oracle_marker(), decimal(state as nat));
    assert(oracle_comment(state)[3] == 'O');
    assert(diffusion_comment()[3] == 'D');
    assert(oracle_comment(state).subrange(0, 20) =~= oracle_marker());
    let ls = oracle_block_seq(state, n);
    assert forall|i: int| 0 <= i < ls.len() implies no_newline(#[trigger] ls[i]) by {
        if i > 0 {
            assert(ls[i] == (f + p + f)[i - 1]);
            assert(plain((f + p + f)[i - 1]));
        }
    }
}

proof fn lemma_oracle_blocks_counts(marked: Seq<usize>, n: nat, k: nat)
    requires
        k <= marked.len(),
    ensures
        count_equal(oracle_blocks_seq(marked, n, k), diffusion_comment()) == 0,
        count_starting(oracle_blocks_seq(marked, n, k), oracle_marker()) == k,
        forall|i: int| 0 <= i < oracle_blocks_seq(marked, n, k).len() ==> no_newline(#[trigger] oracle_blocks_seq(marked, n, k)[i]),
    decreases k,
{
    if k > 0 {
        let a = oracle_blocks_seq(marked, n, (k - 1) as nat);
        let b = oracle_block_seq(marked[k - 1], n);
        lemma_oracle_blocks_counts(marked, n, (k - 1) as nat);
        lemma_oracle_block_counts(marked[k - 1], n);
        lemma_counts_append(a, b, diffusion_comment(), oracle_marker());
        assert forall|i: int| 0 <= i < (a + b).len() implies no_newline(#[trigger] (a + b)[i]) by {
            if i < a.len() {
                assert((a + b)[i] == a[i]);
            } else {
                assert((a + b)[i] == b[i - a.len()]);
            }
        }
    }
}

proof fn lemma_diffusion_counts(n: nat)
    ensures
        count_equal(diffusion_seq(n), diffusion_comment()) == 1,
        count_starting(diffusion_seq(n), oracle_marker()) == 0,
        forall|i: int| 0 <= i < diffusion_seq(n).len() ==> no_newline(#[trigger] diffusion_seq(n)[i]),
{
    lemma_literals_no_newline();
    reveal_strlit("// Diffusion operator");
    reveal_strlit("// Oracle for state ");
    let d = seq![diffusion_comment()];
    let h = qubit_lines_seq("h q["@, n);
    let x = qubit_lines_seq("x q["@, n);
    let p = phase_core_seq(n);
    lemma_qubit_lines_plain("h q["@, n);
    lemma_qubit_lines_plain("x q["@, n);
    lemma_phase_core_plain(n);
    lemma_plain_append(h, x);
    lemma_plain_append(h + x, p);
    lemma_plain_append(h + x + p, x);
    lemma_plain_append(h + x + p + x, h);
    let rest = h + x + p + x + h;
    lemma_plain_counts(rest);
    assert(diffusion_seq(n) =~= d + rest);
    lemma_counts_append(d, rest, diffusion_comment(), oracle_marker());
    lemma_one_line_counts(diffusion_comment());
    if starts_with(diffusion_comment(), oracle_marker()) {
        assert(diffusion_comment().subrange(0, 20)[3] == diffusion_comment()[3]);
        assert(oracle_marker()[3] == 'O');
    }
    let ls = diffusion_seq(n);
    assert forall|i: int| 0 <= i < ls.len() implies no_newline(#[trigger] ls[i]) by {
        if i > 0 {
            assert(ls[i] == rest[i - 1]);
            assert(plain(rest[i - 1]));
        }
    }
}

proof fn lemma_iteration_counts(marked: Seq<usize>, n: nat)
    ensures
        count_equal(iteration_seq(marked, n), diffusion_comment()) == 1,
        count_starting(iteration_seq(marked, n), oracle_marker()) == marked.len(),
        forall|i: int| 0 <= i < iteration_seq(marked, n).len() ==> no_newline(#[trigger] iteration_seq(marked, n)[i]),
{
    let o = oracle_blocks_seq(marked, n, marked.len());
    let d = diffusion_seq(n);
    let e = seq![Seq::<char>::empty()];
    lemma_oracle_blocks_counts(marked, n, marked.len());
    lemma_diffusion_counts(n);
    assert(all_plain(e)) by {
        assert forall|i: int| 0 <= i < e.len() implies plain(#[trigger] e[i]) by {
            assert(e[i] == Seq::<char>::empty());
        }
    }
    lemma_plain_counts(e);
    lemma_counts_append(o, d, diffusion_comment(), oracle_marker());
    lemma_counts_append(o + d, e, diffusion_comment(), oracle_marker());
    let ls = iteration_seq(marked, n);
    assert forall|i: int| 0 <= i < ls.len() implies no_newline(#[trigger] ls[i]) by {
        if i < o.len() {
            assert(ls[i] == o[i]);
        } else if i < o.len() + d.len() {
            assert(ls[i] == d[i - o.len()]);
        } else {
            assert(ls[i] == e[i - o.len() - d.len()]);
            assert(plain(e[i - o.len() - d.len()]));
        }
    }
}

proof fn lemma_iterations_counts(marked: Seq<usize>, n: nat, k: nat)
    ensures
        count_equal(iteration_blocks_seq(marked, n, k), diffusion_comment()) == k,
        count_starting(iteration_blocks_seq(marked, n, k), oracle_marker()) == k * marked.len(),
        forall|i: int| 0 <= i < iteration_blocks_seq(marked, n, k).len() ==> no_newline(#[trigger] iteration_blocks_seq(marked, n, k)[i]),
    decreases k,
{
    if k == 0 {
        assert(k * marked.len() == 0) by (nonlinear_arith)
            requires k == 0;
    } else {
        let a = iteration_blocks_seq(marked, n, (k - 1) as nat);
        let b = iteration_seq(marked, n);
        lemma_iterations_counts(marked, n, (k - 1) as nat);
        lemma_iteration_counts(marked, n);
        lemma_counts_append(a, b, diffusion_comment(), oracle_marker());
        assert(((k - 1) as nat) * marked.len() + marked.len() == k * marked.len()) by (nonlinear_arith)
            requires k > 0;
        assert forall|i: int| 0 <= i < (a + b).len() implies no_newline(#[trigger] (a + b)[i]) by {
            if i < a.len() {
                assert((a + b)[i] == a[i]);
            } else {
                assert((a + b)[i] == b[i - a.len()]);
            }
        }
    }
}

proof fn lemma_measure_lines_plain(k: nat)
    ensures
        all_plain(measure_seq(k)),
        measure_seq(k).len() == k,
        forall|i: int| 0 <= i < k ==> #[trigger] measure_seq(k)[i] == measure_line_text(i as nat),
    decreases k,
{
    lemma_literals_no_newline();
    if k > 0 {
        let j = (k - 1) as nat;
        lemma_measure_lines_plain(j);
        lemma_decimal_no_newline(j);
        lemma_numbered_line("c["@, j, "] = measure q["@);
        lemma_no_newline_concat("c["@ + decimal(j) + "] = measure q["@, decimal(j));
        lemma_no_newline_concat("c["@ + decimal(j) + "] = measure q["@ + decimal(j), "];"@);
        let ls = measure_seq(k);
        assert(measure_line_text(j)[0] == 'c');
        assert forall|i: int| 0 <= i < ls.len() implies plain(#[trigger] ls[i]) by {
            if i < ls.len() - 1 {
                assert(ls[i] == measure_seq(j)[i]);
            }
        }
        assert forall|i: int| 0 <= i < k implies #[trigger] measure_seq(k)[i] == measure_line_text(i as nat) by {
            if i < j {
                assert(measure_seq(k)[i] == measure_seq(j)[i]);
            }
        }
    }
}

proof fn lemma_header_plain(n: nat)
    ensures
        all_plain(header_seq(n)),
{
    lemma_literals_no_newline();
    lemma_numbered_line("qubit["@, n, "] q;"@);
    lemma_numbered_line("bit["@, n, "] c;"@);
    let hs = header_seq(n);
    assert forall|i: int| 0 <= i < hs.len() implies plain(#[trigger] hs[i]) by {
        if i == 0 { assert(hs[i] == "OPENQASM 3.0;"@); }
        else if i == 1 { assert(hs[i] == "include \"stdgates.inc\";"@); }
        else if i == 3 { assert(hs[i] == "qubit["@ + decimal(n) + "] q;"@); }
        else if i == 4 { assert(hs[i] == "bit["@ + decimal(n) + "] c;"@); }
        else { assert(hs[i] == Seq::<char>::empty()); }
    }
}

/// The Grover program read as lines. Its text is `grover_qasm_lines`, each
/// line ended by a newline, and no line holds a newline, so these are its
/// lines. The first line is `OPENQASM 3.0;`, the fourth and fifth declare
/// `n` qubits and `n` bits; exactly one line per iteration is the
/// diffusion comment, and exactly one per marked state and iteration opens
/// with `// Oracle for state `; the last `n` lines measure qubits `0..n`, in
/// order.
pub proof fn lemma_grover_qasm_layout(n: nat, marked: Seq<usize>, iterations: nat)
    ensures
        grover_qasm(n, marked, iterations) == join_lines(grover_qasm_lines(n, marked, iterations)),
        forall|i: int| 0 <= i < grover_qasm_lines(n, marked, iterations).len()
            ==> no_newline(#[trigger] grover_qasm_lines(n, marked, iterations)[i]),
        grover_qasm_lines(n, marked, iterations)[0] == "OPENQASM 3.0;"@,
        grover_qasm_lines(n, marked, iterations)[3] == "qubit["@ + decimal(n) + "] q;"@,
        grover_qasm_lines(n, marked, iterations)[4] == "bit["@ + decimal(n) + "] c;"@,
        count_equal(grover_qasm_lines(n, marked, iterations), diffusion_comment()) == iterations,
        count_starting(grover_qasm_lines(n, marked, iterations), oracle_marker()) == iterations * marked.len(),
        grover_qasm_lines(n, marked, iterations).len() >= n,
        forall|i: int| 0 <= i < n ==> #[trigger] grover_qasm_lines(n, marked, iterations)[grover_qasm_lines(n, marked, iterations).len() - n + i]
            == measure_line_text(i as nat),
{
    lemma_grover_join(n, marked, iterations);
    let a = header_seq(n);
    let b = qubit_lines_seq("h q["@, n);
    let c = seq![Seq::<char>::empty()];
    let d = iteration_blocks_seq(marked, n, iterations);
    let e = measure_seq(n);
    let ls = grover_qasm_lines(n, marked, iterations);
    lemma_literals_no_newline();
    lemma_header_plain(n);
    lemma_qubit_lines_plain("h q["@, n);
    assert(all_plain(c)) by {
        assert forall|i: int| 0 <= i < c.len() implies plain(#[trigger] c[i]) by {
            assert(c[i] == Seq::<char>::empty());
        }
    }
    lemma_measure_lines_plain(n);
    lemma_iterations_counts(marked, n, iterations);
    lemma_plain_append(a, b);
    lemma_plain_append(a + b, c);
    lemma_plain_counts(a + b + c);
    lemma_plain_counts(e);
    lemma_counts_append(a + b + c, d, diffusion_comment(), oracle_marker());
    lemma_counts_append(a + b + c + d, e, diffusion_comment(), oracle_marker());
    assert(ls == a + b + c + d + e);
    let f = a + b + c;
    assert forall|i: int| 0 <= i < ls.len() implies no_newline(#[trigger] ls[i]) by {
        if i < f.len() {
            assert(ls[i] == f[i]);
            assert(plain(f[i]));
        } else if i < f.len() + d.len() {
            assert(ls[i] == d[i - f.len()]);
        } else {
            assert(ls[i] == e[i - f.len() - d.len()]);
            assert(plain(e[i - f.len() - d.len()]));
        }
    }
    assert(ls[0] == a[0]);
    assert(ls[3] == a[3]);
    assert(ls[4] == a[4]);
    assert forall|i: int| 0 <= i < n implies #[trigger] ls[ls.len() - n + i] == measure_line_text(i as nat) by {
        assert(ls[ls.len() - n + i] == e[i]);
    }
}

} // verus!
