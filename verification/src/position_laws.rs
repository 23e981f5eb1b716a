//! What the position lists of the searches hold: exactly the positions
//! whose entry matches, each once, in increasing order.

use vstd::prelude::*;
use crate::grover::matching_positions;
use crate::grover_quantum::{equal_positions, occurrences};
use crate::text::occurs_at;
use vstd::std_specs::cmp::PartialEqSpec;

verus! {

/// The positions of the entries of `db` below `k` that equal `target` are
/// exactly those positions, each once, in increasing order.
pub proof fn lemma_matching_positions_exact(db: Seq<Seq<u8>>, target: Seq<u8>, k: nat)
    requires
        k <= db.len(),
        k <= usize::MAX,
    ensures
        forall|j: int| 0 <= j < matching_positions(db, target, k).len() ==> {
            let p = #[trigger] matching_positions(db, target, k)[j];
            p < k && db[p as int] == target
        },
        forall|i: int| 0 <= i < k && db[i] == target ==> matching_positions(db, target, k).contains(i as usize),
        forall|a: int, b: int| 0 <= a < b < matching_positions(db, target, k).len()
            ==> matching_positions(db, target, k)[a] < matching_positions(db, target, k)[b],
    decreases k,
{
    if k > 0 {
        let j = (k - 1) as nat;
        lemma_matching_positions_exact(db, target, j);
        let prev = matching_positions(db, target, j);
        let cur = matching_positions(db, target, k);
        if db[j as int] == target {
            assert(cur == prev.push(j as usize));
            assert forall|i: int| 0 <= i < k && db[i] == target implies cur.contains(i as usize) by {
                if i < j {
                    let t = choose|t: int| 0 <= t < prev.len() && prev[t] == i as usize;
                    assert(cur[t] == i as usize);
                } else {
                    assert(cur[prev.len() as int] == i as usize);
                }
            }
        } else {
            assert(cur == prev);
        }
    }
}

/// The positions of the entries of `db` below `k` equal to `target` (under
/// the element type's equality) are exactly those positions, each once, in
/// increasing order.
pub proof fn lemma_equal_positions_exact<T: PartialEq>(db: Seq<T>, target: T, k: nat)
    requires
        k <= db.len(),
        k <= usize::MAX,
    ensures
        forall|j: int| 0 <= j < equal_positions(db, target, k).len() ==> {
            let p = #[trigger] equal_positions(db, target, k)[j];
            p < k && db[p as int].eq_spec(&target)
        },
        forall|i: int| 0 <= i < k && db[i].eq_spec(&target) ==> equal_positions(db, target, k).contains(i as usize),
        forall|a: int, b: int| 0 <= a < b < equal_positions(db, target, k).len()
            ==> equal_positions(db, target, k)[a] < equal_positions(db, target, k)[b],
    decreases k,
{
    if k > 0 {
        let j = (k - 1) as nat;
        lemma_equal_positions_exact(db, target, j);
        let prev = equal_positions(db, target, j);
        let cur = equal_positions(db, target, k);
        if db[j as int].eq_spec(&target) {
            assert(cur == prev.push(j as usize));
            assert forall|i: int| 0 <= i < k && db[i].eq_spec(&target) implies cur.contains(i as usize) by {
                if i < j {
                    let t = choose|t: int| 0 <= t < prev.len() && prev[t] == i as usize;
                    assert(cur[t] == i as usize);
                } else {
                    assert(cur[prev.len() as int] == i as usize);
                }
            }
        } else {
            assert(cur == prev);
        }
    }
}

/// The positions below `k` at which `pattern` occurs in `data` are exactly
/// those positions, each once, in increasing order.
pub proof fn lemma_occurrences_exact(data: Seq<u8>, pattern: Seq<u8>, k: nat)
    requires
        k <= usize::MAX,
    ensures
        forall|j: int| 0 <= j < occurrences(data, pattern, k).len() ==> {
            let p = #[trigger] occurrences(data, pattern, k)[j];
            p < k && occurs_at(data, pattern, p as int)
        },
        forall|i: int| 0 <= i < k && occurs_at(data, pattern, i) ==> occurrences(data, pattern, k).contains(i as usize),
        forall|a: int, b: int| 0 <= a < b < occurrences(data, pattern, k).len()
            ==> occurrences(data, pattern, k)[a] < occurrences(data, pattern, k)[b],
    decreases k,
{
    if k > 0 {
        let j = (k - 1) as nat;
        lemma_occurrences_exact(data, pattern, j);
        let prev = occurrences(data, pattern, j);
        let cur = occurrences(data, pattern, k);
        if occurs_at(data, pattern, j as int) {
            assert(cur == prev.push(j as usize));
            assert forall|i: int| 0 <= i < k && occurs_at(data, pattern, i) implies cur.contains(i as usize) by {
                if i < j {
                    let t = choose|t: int| 0 <= t < prev.len() && prev[t] == i as usize;
                    assert(cur[t] == i as usize);
                } else {
                    assert(cur[prev.len() as int] == i as usize);
                }
            }
        } else {
            assert(cur == prev);
        }
    }
}

} // verus!
