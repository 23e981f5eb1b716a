//! Access-pattern bookkeeping for neural plasticity: how often each node is
//! read, when, which neighbours it is read with, and how often each
//! connection is used; consolidation of nodes by a plan, and temporal
//! reorganisation, which assigns clusters and reinforces the connections of
//! hot nodes. The plasticity scores are floating point: the caller computes
//! them, and the consolidation plan from them.

use vstd::prelude::*;
use std::collections::HashMap;
use vstd::std_specs::iter::IteratorSpec;

verus! {

broadcast use vstd::std_specs::hash::group_hash_axioms;

/// How the network was reorganised.
#[derive(Debug, Clone, Copy, PartialEq, Eq, Structural)]
pub enum ReorganizationType {
    /// Nodes grouped by locality.
    SpatialClustering,
    /// Nodes reordered by recency.
    TemporalReorganization,
    /// Hot nodes moved forward.
    FrequencyBasedOptimization,
    /// Unused connections dropped.
    ConnectionPruning,
    /// Nodes moved between clusters.
    NodeMigration,
}

/// Access records of the nodes and connections of a network.
///
/// `connection_usage` holds one entry per connection `(source, target)`
/// with its use count; no connection occurs twice (see `well_formed`).
#[derive(Debug)]
pub struct AccessPatterns {
    /// Reads per node.
    pub node_access_frequency: HashMap<u64, u64>,
    /// Uses per connection, one entry per connection.
    pub connection_usage: Vec<((u64, u64), u64)>,
    /// Recent access times per node, in seconds.
    pub temporal_locality_secs: HashMap<u64, Vec<u64>>,
    /// Frequently used neighbours per node.
    pub spatial_locality: HashMap<u64, Vec<u64>>,
    /// Recent query patterns.
    pub query_patterns: Vec<String>,
}

/// The use counts of a list of connection entries, as a map.
pub open spec fn usage_map(entries: Seq<((u64, u64), u64)>) -> Map<(u64, u64), u64>
    decreases entries.len(),
{
    if entries.len() == 0 {
        Map::empty()
    } else {
        usage_map(entries.drop_last()).insert(entries.last().0, entries.last().1)
    }
}

/// No connection occurs twice in a list of entries.
pub open spec fn unique_connections(entries: Seq<((u64, u64), u64)>) -> bool {
    forall|i: int, j: int| 0 <= i < j < entries.len() ==> entries[i].0 != entries[j].0
}

/// The count recorded for `key`, zero when there is none.
pub open spec fn count_of(m: Map<u64, u64>, key: u64) -> nat {
    if m.contains_key(key) { m[key] as nat } else { 0 }
}

/// The list recorded for `key`, empty when there is none.
pub open spec fn list_of(m: Map<u64, Vec<u64>>, key: u64) -> Seq<u64> {
    if m.contains_key(key) { m[key]@ } else { Seq::empty() }
}

/// The times in `times` later than `cutoff`, in order.
pub open spec fn later_than(times: Seq<u64>, cutoff: u64) -> Seq<u64>
    decreases times.len(),
{
    if times.len() == 0 {
        Seq::empty()
    } else if times.last() > cutoff {
        later_than(times.drop_last(), cutoff).push(times.last())
    } else {
        later_than(times.drop_last(), cutoff)
    }
}

/// The oldest access time kept: `now - window`, or zero.
pub open spec fn window_start(now: u64, window: u64) -> u64 {
    if now >= window { (now - window) as u64 } else { 0 }
}

fn keep_later(times: &Vec<u64>, cutoff: u64) -> (kept: Vec<u64>)
    ensures
        kept@ == later_than(times@, cutoff),
{
    let mut kept: Vec<u64> = Vec::new();
    let mut i: usize = 0;
    while i < times.len()
        invariant
            i <= times.len(),
            kept@ == later_than(times@.subrange(0, i as int), cutoff),
        decreases times.len() - i,
    {
        assert(times@.subrange(0, i as int + 1).drop_last() =~= times@.subrange(0, i as int));
        if times[i] > cutoff {
            kept.push(times[i]);
        }
        i = i + 1;
    }
    assert(times@.subrange(0, times.len() as int) =~= times@);
    kept
}

/// Every value of `s` is smaller than the values after it.
pub open spec fn strictly_increasing(s: Seq<u64>) -> bool {
    forall|i: int, j: int| 0 <= i < j < s.len() ==> s[i] < s[j]
}

/// `kept` holds the `limit` smallest distinct values of `pool` (all of them
/// when there are fewer), in increasing order.
pub open spec fn smallest_distinct(kept: Seq<u64>, pool: Seq<u64>, limit: nat) -> bool {
    &&& strictly_increasing(kept)
    &&& kept.len() <= limit
    &&& forall|i: int| 0 <= i < kept.len() ==> pool.contains(#[trigger] kept[i])
    &&& forall|x: u64| #[trigger] pool.contains(x) && !kept.contains(x) ==> {
        &&& kept.len() == limit
        &&& forall|i: int| 0 <= i < kept.len() ==> kept[i] < x
    }
}

/// Neighbours kept per node.
pub const MAX_TRACKED_NEIGHBOURS: usize = 10;

proof fn lemma_increasing_embedding(a: Seq<u64>, b: Seq<u64>, k: int)
    requires
        strictly_increasing(a),
        strictly_increasing(b),
        forall|i: int| 0 <= i < b.len() ==> a.contains(#[trigger] b[i]),
        0 <= k < b.len(),
    ensures
        exists|m: int| k <= m < a.len() && a[m] == b[k],
    decreases k,
{
    assert(a.contains(b[k]));
    let m = choose|m: int| 0 <= m < a.len() && a[m] == b[k];
    if k > 0 {
        lemma_increasing_embedding(a, b, k - 1);
        let m1 = choose|m1: int| k - 1 <= m1 < a.len() && a[m1] == b[k - 1];
        if m <= m1 {
            if m < m1 {
                assert(a[m] < a[m1]);
            }
            assert(b[k - 1] < b[k]);
        }
        assert(k <= m);
    }
}

proof fn lemma_increasing_subset(a: Seq<u64>, b: Seq<u64>)
    requires
        strictly_increasing(a),
        strictly_increasing(b),
        forall|i: int| 0 <= i < b.len() ==> a.contains(#[trigger] b[i]),
    ensures
        b.len() <= a.len(),
        forall|k: int| 0 <= k < b.len() ==> a[k] <= b[k],
{
    if b.len() > 0 {
        lemma_increasing_embedding(a, b, b.len() - 1);
    }
    assert forall|k: int| 0 <= k < b.len() implies a[k] <= b[k] by {
        lemma_increasing_embedding(a, b, k);
        let m = choose|m: int| k <= m < a.len() && a[m] == b[k];
        if k < m {
            assert(a[k] < a[m]);
        }
    }
}

proof fn lemma_smallest_distinct_contained(a: Seq<u64>, b: Seq<u64>, pool: Seq<u64>, limit: nat)
    requires
        smallest_distinct(a, pool, limit),
        smallest_distinct(b, pool, limit),
    ensures
        forall|i: int| 0 <= i < a.len() ==> b.contains(#[trigger] a[i]),
{
    assert forall|i: int| 0 <= i < a.len() implies b.contains(#[trigger] a[i]) by {
        let x = a[i];
        if !b.contains(x) {
            assert(pool.contains(x));
            assert forall|j: int| 0 <= j < b.len() implies a.contains(#[trigger] b[j]) by {
                let y = b[j];
                if !a.contains(y) {
                    assert(pool.contains(y));
                    assert(a[i] < y);
                    assert(b[j] < x);
                }
            }
            lemma_increasing_subset(a, b);
            assert(a[i] <= b[i]);
            assert(b[i] < x);
        }
    }
}

/// The neighbour list kept for a node is determined by the values it is
/// drawn from: two lists that both hold the `limit` smallest distinct
/// values of `pool`, in increasing order, are the same list.
pub proof fn lemma_smallest_distinct_unique(a: Seq<u64>, b: Seq<u64>, pool: Seq<u64>, limit: nat)
    requires
        smallest_distinct(a, pool, limit),
        smallest_distinct(b, pool, limit),
    ensures
        a == b,
{
    lemma_smallest_distinct_contained(a, b, pool, limit);
    lemma_smallest_distinct_contained(b, a, pool, limit);
    lemma_increasing_subset(a, b);
    lemma_increasing_subset(b, a);
    assert(a =~= b);
}

/// Recording a use of a connection to a node that is already a neighbour
/// leaves the neighbour list as it was, when that list is already in the
/// form the recording produces (increasing, at most ten entries).
pub proof fn lemma_known_neighbour_keeps_list(old_list: Seq<u64>, target: u64, new_list: Seq<u64>)
    requires
        strictly_increasing(old_list),
        old_list.len() <= MAX_TRACKED_NEIGHBOURS,
        old_list.contains(target),
        smallest_distinct(new_list, old_list.push(target), MAX_TRACKED_NEIGHBOURS as nat),
    ensures
        new_list == old_list,
{
    let pool = old_list.push(target);
    assert forall|i: int| 0 <= i < old_list.len() implies pool.contains(#[trigger] old_list[i]) by {
        assert(pool[i] == old_list[i]);
    }
    assert forall|x: u64| #[trigger] pool.contains(x) && !old_list.contains(x) implies {
        &&& old_list.len() == MAX_TRACKED_NEIGHBOURS as nat
        &&& forall|i: int| 0 <= i < old_list.len() ==> old_list[i] < x
    } by {
        let j = choose|j: int| 0 <= j < pool.len() && pool[j] == x;
        if j < old_list.len() {
            assert(old_list[j] == x);
        }
    }
    lemma_smallest_distinct_unique(new_list, old_list, pool, MAX_TRACKED_NEIGHBOURS as nat);
}

fn insert_sorted(v: &mut Vec<u64>, x: u64)
    requires
        strictly_increasing(old(v)@),
    ensures
        strictly_increasing(final(v)@),
        final(v)@.contains(x),
        forall|y: u64| final(v)@.contains(y) ==> old(v)@.contains(y) || y == x,
        forall|y: u64| old(v)@.contains(y) ==> final(v)@.contains(y),
{
    let mut p: usize = 0;
    while p < v.len() && v[p] < x
        invariant
            p <= v.len(),
            forall|j: int| 0 <= j < p ==> v@[j] < x,
        decreases v.len() - p,
    {
        p = p + 1;
    }
    if p < v.len() && v[p] == x {
        assert(v@.contains(x) && v@[p as int] == x);
        return;
    }
    let ghost before = v@;
    v.insert(p, x);
    proof {
        assert(v@[p as int] == x);
        assert forall|y: u64| v@.contains(y) implies before.contains(y) || y == x by {
            let k = choose|k: int| 0 <= k < v@.len() && v@[k] == y;
            if k < p {
                assert(before[k] == y);
            } else if k > p {
                assert(before[k - 1] == y);
            }
        }
        assert forall|y: u64| before.contains(y) implies v@.contains(y) by {
            let k = choose|k: int| 0 <= k < before.len() && before[k] == y;
            if k < p {
                assert(v@[k] == y);
            } else {
                assert(v@[k + 1] == y);
            }
        }
    }
}

fn nearest_neighbours(pool: &Vec<u64>) -> (kept: Vec<u64>)
    ensures
        smallest_distinct(kept@, pool@, MAX_TRACKED_NEIGHBOURS as nat),
{
    let mut sorted: Vec<u64> = Vec::new();
    let mut i: usize = 0;
    while i < pool.len()
        invariant
            i <= pool.len(),
            strictly_increasing(sorted@),
            forall|j: int| 0 <= j < i ==> sorted@.contains(#[trigger] pool@[j]),
            forall|y: u64| #[trigger] sorted@.contains(y) ==> pool@.contains(y),
        decreases pool.len() - i,
    {
        insert_sorted(&mut sorted, pool[i]);
        i = i + 1;
    }
    let ghost full = sorted@;
    sorted.truncate(MAX_TRACKED_NEIGHBOURS);
    proof {
        assert forall|k: int| 0 <= k < sorted@.len() implies pool@.contains(#[trigger] sorted@[k]) by {
            assert(full.contains(full[k]));
        }
        assert forall|x: u64| #[trigger] pool@.contains(x) && !sorted@.contains(x) implies {
            &&& sorted@.len() == 10
            &&& forall|k: int| 0 <= k < sorted@.len() ==> sorted@[k] < x
        } by {
            let j = choose|j: int| 0 <= j < pool@.len() && pool@[j] == x;
            assert(full.contains(pool@[j]));
            let m = choose|m: int| 0 <= m < full.len() && full[m] == x;
            if full.len() <= 10 {
                assert(sorted@ == full);
                assert(sorted@[m] == x);
            } else {
                if m < 10 {
                    assert(sorted@[m] == x);
                }
                assert forall|k: int| 0 <= k < sorted@.len() implies sorted@[k] < x by {
                    assert(full[k] < full[m]);
                }
            }
        }
    }
    sorted
}

/// The use count recorded for a connection, zero when there is none.
pub open spec fn usage_of(m: Map<(u64, u64), u64>, key: (u64, u64)) -> nat {
    if m.contains_key(key) { m[key] as nat } else { 0 }
}

/// The connections of `m` that touch neither end at `node`.
pub open spec fn without_node(m: Map<(u64, u64), u64>, node: u64) -> Map<(u64, u64), u64> {
    Map::new(|k: (u64, u64)| m.contains_key(k) && k.0 != node && k.1 != node, |k: (u64, u64)| m[k])
}

/// The connections of `m` used at least `threshold` times.
pub open spec fn used_at_least(m: Map<(u64, u64), u64>, threshold: u64) -> Map<(u64, u64), u64> {
    Map::new(|k: (u64, u64)| m.contains_key(k) && m[k] >= threshold, |k: (u64, u64)| m[k])
}

/// The keys of a list of entries are those of its map, and under unique
/// keys each entry gives its key's count.
pub proof fn lemma_usage_map_entries(entries: Seq<((u64, u64), u64)>)
    ensures
        forall|i: int| 0 <= i < entries.len() ==> usage_map(entries).contains_key(#[trigger] entries[i].0),
        forall|k: (u64, u64)| #[trigger] usage_map(entries).contains_key(k) ==> exists|i: int| 0 <= i < entries.len() && entries[i].0 == k,
        unique_connections(entries) ==> forall|i: int| 0 <= i < entries.len() ==> usage_map(entries)[#[trigger] entries[i].0] == entries[i].1,
    decreases entries.len(),
{
    if entries.len() > 0 {
        let init = entries.drop_last();
        lemma_usage_map_entries(init);
        assert forall|k: (u64, u64)| #[trigger] usage_map(entries).contains_key(k) implies exists|i: int| 0 <= i < entries.len() && entries[i].0 == k by {
            if k != entries.last().0 {
                assert(usage_map(init).contains_key(k));
                let i = choose|i: int| 0 <= i < init.len() && init[i].0 == k;
                assert(init[i] == entries[i]);
                assert(entries[i].0 == k);
            } else {
                assert(entries[entries.len() - 1].0 == k);
            }
        }
        assert forall|i: int| 0 <= i < entries.len() implies usage_map(entries).contains_key(#[trigger] entries[i].0) by {
            if i < entries.len() - 1 {
                assert(init[i] == entries[i]);
            }
        }
        if unique_connections(entries) {
            assert(unique_connections(init));
            assert forall|i: int| 0 <= i < entries.len() implies usage_map(entries)[#[trigger] entries[i].0] == entries[i].1 by {
                if i < entries.len() - 1 {
                    assert(init[i] == entries[i]);
                    assert(entries[i].0 != entries.last().0);
                }
            }
        }
    }
}

/// Under unique keys, the number of connections is the number of entries.
pub proof fn lemma_usage_map_size(entries: Seq<((u64, u64), u64)>)
    requires
        unique_connections(entries),
    ensures
        usage_map(entries).dom().len() == entries.len(),
        usage_map(entries).dom().finite(),
    decreases entries.len(),
{
    if entries.len() > 0 {
        let init = entries.drop_last();
        assert(unique_connections(init));
        lemma_usage_map_size(init);
        lemma_usage_map_entries(init);
        if usage_map(init).contains_key(entries.last().0) {
            let i = choose|i: int| 0 <= i < init.len() && init[i].0 == entries.last().0;
            assert(entries[i].0 == entries[entries.len() - 1].0);
        }
    }
}

proof fn lemma_usage_map_update(entries: Seq<((u64, u64), u64)>, i: int, count: u64)
    requires
        unique_connections(entries),
        0 <= i < entries.len(),
    ensures
        unique_connections(entries.update(i, (entries[i].0, count))),
        usage_map(entries.update(i, (entries[i].0, count))) == usage_map(entries).insert(entries[i].0, count),
{
    let updated = entries.update(i, (entries[i].0, count));
    lemma_usage_map_entries(entries);
    lemma_usage_map_entries(updated);
    assert forall|k: (u64, u64)| #[trigger] usage_map(updated).contains_key(k) <==> usage_map(entries).insert(entries[i].0, count).contains_key(k) by {
        if usage_map(updated).contains_key(k) {
            let j = choose|j: int| 0 <= j < updated.len() && updated[j].0 == k;
            assert(entries[j].0 == k);
        }
        if usage_map(entries).contains_key(k) {
            let j = choose|j: int| 0 <= j < entries.len() && entries[j].0 == k;
            assert(updated[j].0 == k);
        }
    }
    assert forall|k: (u64, u64)| #[trigger] usage_map(updated).contains_key(k) implies usage_map(updated)[k] == usage_map(entries).insert(entries[i].0, count)[k] by {
        let j = choose|j: int| 0 <= j < updated.len() && updated[j].0 == k;
        assert(usage_map(updated)[updated[j].0] == updated[j].1);
        if j != i {
            assert(usage_map(entries)[entries[j].0] == entries[j].1);
        }
    }
    assert(usage_map(updated) =~= usage_map(entries).insert(entries[i].0, count));
}

fn find_connection(entries: &Vec<((u64, u64), u64)>, key: (u64, u64)) -> (r: Option<usize>)
    ensures
        match r {
            Some(i) => i < entries.len() && entries@[i as int].0 == key,
            None => forall|i: int| 0 <= i < entries.len() ==> entries@[i].0 != key,
        },
{
    let mut i: usize = 0;
    while i < entries.len()
        invariant
            i <= entries.len(),
            forall|j: int| 0 <= j < i ==> entries@[j].0 != key,
        decreases entries.len() - i,
    {
        let k = entries[i].0;
        if k.0 == key.0 && k.1 == key.1 {
            return Some(i);
        }
        i = i + 1;
    }
    None
}

fn without_value(list: &Vec<u64>, value: u64) -> (out: Vec<u64>)
    ensures
        out@ == list@.filter(|n: u64| n != value),
{
    let mut out: Vec<u64> = Vec::new();
    let mut i: usize = 0;
    while i < list.len()
        invariant
            i <= list.len(),
            out@ == list@.subrange(0, i as int).filter(|n: u64| n != value),
        decreases list.len() - i,
    {
        proof {
            let next = list@.subrange(0, i as int + 1);
            assert(next.drop_last() =~= list@.subrange(0, i as int));
            list@.subrange(0, i as int).lemma_filter_push(list@[i as int], |n: u64| n != value);
            assert(next =~= list@.subrange(0, i as int).push(list@[i as int]));
        }
        if list[i] != value {
            out.push(list[i]);
        }
        i = i + 1;
    }
    assert(list@.subrange(0, i as int) =~= list@);
    out
}

/// `base` followed by each value of `extra`, in order, that is not
/// `excluded` and not already present.
pub open spec fn merged_neighbours(base: Seq<u64>, extra: Seq<u64>, excluded: u64) -> Seq<u64>
    decreases extra.len(),
{
    if extra.len() == 0 {
        base
    } else {
        let acc = merged_neighbours(base, extra.drop_last(), excluded);
        let n = extra.last();
        if n != excluded && !acc.contains(n) {
            acc.push(n)
        } else {
            acc
        }
    }
}

fn vec_contains(v: &Vec<u64>, x: u64) -> (r: bool)
    ensures
        r == v@.contains(x),
{
    let mut i: usize = 0;
    while i < v.len()
        invariant
            i <= v.len(),
            forall|j: int| 0 <= j < i ==> v@[j] != x,
        decreases v.len() - i,
    {
        if v[i] == x {
            assert(v@[i as int] == x);
            return true;
        }
        i = i + 1;
    }
    false
}

/// A connection key with the smaller node id first.
pub open spec fn ordered_pair(a: u64, b: u64) -> (u64, u64) {
    if a < b { (a, b) } else { (b, a) }
}

/// How many of `times` lie within `window` seconds before `now` (a time
/// after `now` counts as within).
pub open spec fn recent_count(times: Seq<u64>, now: u64, window: u64) -> nat
    decreases times.len(),
{
    if times.len() == 0 {
        0
    } else {
        recent_count(times.drop_last(), now, window) + (if now <= times.last() || now - times.last() <= window { 1nat } else { 0nat })
    }
}

/// Counts the access times within `window_secs` of `now_secs` (see
/// `recent_count`); a node with at least the minimum count is hot.
pub fn recent_access_count(access_times: &[u64], now_secs: u64, window_secs: u64) -> (n: usize)
    ensures
        n == recent_count(access_times@, now_secs, window_secs),
{
    let mut n: usize = 0;
    let mut i: usize = 0;
    while i < access_times.len()
        invariant
            i <= access_times.len(),
            n <= i,
            n == recent_count(access_times@.subrange(0, i as int), now_secs, window_secs),
        decreases access_times.len() - i,
    {
        assert(access_times@.subrange(0, i as int + 1).drop_last() =~= access_times@.subrange(0, i as int));
        if now_secs.saturating_sub(access_times[i]) <= window_secs {
            n = n + 1;
        }
        i = i + 1;
    }
    assert(access_times@.subrange(0, i as int) =~= access_times@);
    n
}

/// An entry `(node, count)` of the hot nodes: a node with recorded access
/// times, at least `min_count` of them within the window, and that count.
pub open spec fn is_hot_entry(m: Map<u64, Vec<u64>>, entry: (u64, usize), now: u64, window: u64, min_count: usize) -> bool {
    &&& m.contains_key(entry.0)
    &&& entry.1 == recent_count(m[entry.0]@, now, window)
    &&& entry.1 >= min_count
}

fn insert_by_count(hot: &mut Vec<(u64, usize)>, entry: (u64, usize))
    requires
        forall|i: int, j: int| 0 <= i < j < old(hot)@.len() ==> old(hot)@[i].1 >= old(hot)@[j].1,
    ensures
        exists|p: int| 0 <= p <= old(hot)@.len() && final(hot)@ == old(hot)@.insert(p, entry),
        forall|i: int, j: int| 0 <= i < j < final(hot)@.len() ==> final(hot)@[i].1 >= final(hot)@[j].1,
{
    let mut p: usize = 0;
    while p < hot.len() && hot[p].1 >= entry.1
        invariant
            p <= hot.len(),
            forall|i: int| 0 <= i < p ==> hot@[i].1 >= entry.1,
        decreases hot.len() - p,
    {
        p = p + 1;
    }
    let ghost before = hot@;
    hot.insert(p, entry);
    proof {
        assert forall|i: int| p <= i < before.len() implies before[i].1 < entry.1 by {
            assert(before[p as int].1 < entry.1);
            if i > p {
                assert(before[p as int].1 >= before[i].1);
            }
        }
        assert forall|i: int, j: int| 0 <= i < j < hot@.len() implies hot@[i].1 >= hot@[j].1 by {
            if j < p {
                assert(hot@[i] == before[i] && hot@[j] == before[j]);
            } else if j == p {
                assert(hot@[i] == before[i]);
            } else if i < p {
                assert(hot@[i] == before[i] && hot@[j] == before[j - 1]);
            } else if i == p {
                assert(hot@[j] == before[j - 1]);
            } else {
                assert(hot@[i] == before[i - 1] && hot@[j] == before[j - 1]);
            }
        }
    }
}

proof fn lemma_insert_members(s: Seq<(u64, usize)>, p: int, e: (u64, usize))
    requires
        0 <= p <= s.len(),
    ensures
        s.insert(p, e).contains(e),
        forall|j: int| 0 <= j < s.len() ==> s.insert(p, e).contains(#[trigger] s[j]),
        forall|i: int| 0 <= i < s.insert(p, e).len() ==> #[trigger] s.insert(p, e)[i] == e || s.contains(s.insert(p, e)[i]),
{
    let t = s.insert(p, e);
    assert(t[p] == e);
    assert forall|j: int| 0 <= j < s.len() implies t.contains(#[trigger] s[j]) by {
        if j < p {
            assert(t[j] == s[j]);
        } else {
            assert(t[j + 1] == s[j]);
        }
    }
    assert forall|i: int| 0 <= i < t.len() implies #[trigger] t[i] == e || s.contains(t[i]) by {
        if i < p {
            assert(t[i] == s[i]);
        } else if i > p {
            assert(t[i] == s[i - 1]);
        }
    }
}

proof fn lemma_prefix_grows(keys: Seq<u64>, k: int)
    requires
        0 <= k < keys.len(),
    ensures
        keys.subrange(0, k + 1) == keys.subrange(0, k).push(keys[k]),
{
    assert(keys.subrange(0, k + 1) =~= keys.subrange(0, k).push(keys[k]));
}

proof fn lemma_not_in_prefix(keys: Seq<u64>, k: int)
    requires
        0 <= k < keys.len(),
        keys.no_duplicates(),
    ensures
        !keys.subrange(0, k).contains(keys[k]),
{
    if keys.subrange(0, k).contains(keys[k]) {
        let j = choose|j: int| 0 <= j < k && keys.subrange(0, k)[j] == keys[k];
        assert(keys[j] == keys[k]);
    }
}

/// How many nodes rank as most read among `n`: a tenth, at least one when
/// there is any.
pub open spec fn top_count(n: nat) -> nat {
    if n == 0 { 0 } else if n / 10 > 1 { n / 10 } else { 1 }
}

fn insert_by_frequency(ranked: &mut Vec<(u64, u64)>, entry: (u64, u64))
    requires
        forall|i: int, j: int| 0 <= i < j < old(ranked)@.len() ==> old(ranked)@[i].1 >= old(ranked)@[j].1,
    ensures
        exists|p: int| 0 <= p <= old(ranked)@.len() && final(ranked)@ == old(ranked)@.insert(p, entry),
        forall|i: int, j: int| 0 <= i < j < final(ranked)@.len() ==> final(ranked)@[i].1 >= final(ranked)@[j].1,
{
    let mut p: usize = 0;
    while p < ranked.len() && ranked[p].1 >= entry.1
        invariant
            p <= ranked.len(),
            forall|i: int| 0 <= i < p ==> ranked@[i].1 >= entry.1,
        decreases ranked.len() - p,
    {
        p = p + 1;
    }
    let ghost before = ranked@;
    ranked.insert(p, entry);
    proof {
        assert forall|i: int| p <= i < before.len() implies before[i].1 < entry.1 by {
            assert(before[p as int].1 < entry.1);
            if i > p {
                assert(before[p as int].1 >= before[i].1);
            }
        }
        assert forall|i: int, j: int| 0 <= i < j < ranked@.len() implies ranked@[i].1 >= ranked@[j].1 by {
            if j < p {
                assert(ranked@[i] == before[i] && ranked@[j] == before[j]);
            } else if j == p {
                assert(ranked@[i] == before[i]);
            } else if i < p {
                assert(ranked@[i] == before[i] && ranked@[j] == before[j - 1]);
            } else if i == p {
                assert(ranked@[j] == before[j - 1]);
            } else {
                assert(ranked@[i] == before[i - 1] && ranked@[j] == before[j - 1]);
            }
        }
    }
}

proof fn lemma_insert_ranked_members(s: Seq<(u64, u64)>, p: int, e: (u64, u64))
    requires
        0 <= p <= s.len(),
    ensures
        s.insert(p, e).contains(e),
        forall|j: int| 0 <= j < s.len() ==> s.insert(p, e).contains(#[trigger] s[j]),
        forall|i: int| 0 <= i < s.insert(p, e).len() ==> #[trigger] s.insert(p, e)[i] == e || s.contains(s.insert(p, e)[i]),
{
    let t = s.insert(p, e);
    assert(t[p] == e);
    assert forall|j: int| 0 <= j < s.len() implies t.contains(#[trigger] s[j]) by {
        if j < p {
            assert(t[j] == s[j]);
        } else {
            assert(t[j + 1] == s[j]);
        }
    }
    assert forall|i: int| 0 <= i < t.len() implies #[trigger] t[i] == e || s.contains(t[i]) by {
        if i < p {
            assert(t[i] == s[i]);
        } else if i > p {
            assert(t[i] == s[i - 1]);
        }
    }
}

impl AccessPatterns {
    /// No connection is recorded twice.
    pub open spec fn well_formed(&self) -> bool {
        unique_connections(self.connection_usage@)
    }

    /// Records a read of `node_id` at `access_time_secs`: its count goes up
    /// by one, the time is added to its recent times, and only the times
    /// later than `access_time_secs - temporal_window_secs` are kept.
    pub fn record_access(&mut self, node_id: u64, access_time_secs: u64, temporal_window_secs: u64)
        requires
            count_of(old(self).node_access_frequency@, node_id) < u64::MAX,
        ensures
            final(self).node_access_frequency@ == old(self).node_access_frequency@.insert(
                node_id,
                (count_of(old(self).node_access_frequency@, node_id) + 1) as u64,
            ),
            final(self).temporal_locality_secs@.dom() == old(self).temporal_locality_secs@.dom().insert(node_id),
            final(self).temporal_locality_secs@.remove(node_id) == old(self).temporal_locality_secs@.remove(node_id),
            final(self).temporal_locality_secs@[node_id]@ == later_than(
                list_of(old(self).temporal_locality_secs@, node_id).push(access_time_secs),
                window_start(access_time_secs, temporal_window_secs),
            ),
            final(self).connection_usage@ == old(self).connection_usage@,
            final(self).spatial_locality@ == old(self).spatial_locality@,
            final(self).query_patterns@ == old(self).query_patterns@,
    {
        let count: u64 = match self.node_access_frequency.get(&node_id) {
            Some(c) => *c,
            None => 0,
        };
        self.node_access_frequency.insert(node_id, count + 1);
        let mut times = match self.temporal_locality_secs.remove(&node_id) {
            Some(v) => v,
            None => Vec::new(),
        };
        times.push(access_time_secs);
        let cutoff = access_time_secs.saturating_sub(temporal_window_secs);
        let kept = keep_later(&times, cutoff);
        self.temporal_locality_secs.insert(node_id, kept);
        proof {
            assert(final(self).temporal_locality_secs@.remove(node_id) =~= old(self).temporal_locality_secs@.remove(node_id));
        }
    }

    /// Records a use of the connection from `source_id` to `target_id`:
    /// its count goes up by one, and the source's neighbours become the ten
    /// smallest distinct node ids among its former neighbours and the target,
    /// in increasing order.
    pub fn record_connection_usage(&mut self, source_id: u64, target_id: u64)
        requires
            old(self).well_formed(),
            usage_of(usage_map(old(self).connection_usage@), (source_id, target_id)) < u64::MAX,
        ensures
            final(self).well_formed(),
            usage_map(final(self).connection_usage@) == usage_map(old(self).connection_usage@).insert(
                (source_id, target_id),
                (usage_of(usage_map(old(self).connection_usage@), (source_id, target_id)) + 1) as u64,
            ),
            final(self).spatial_locality@.dom() == old(self).spatial_locality@.dom().insert(source_id),
            final(self).spatial_locality@.remove(source_id) == old(self).spatial_locality@.remove(source_id),
            smallest_distinct(
                final(self).spatial_locality@[source_id]@,
                list_of(old(self).spatial_locality@, source_id).push(target_id),
                MAX_TRACKED_NEIGHBOURS as nat,
            ),
            final(self).node_access_frequency@ == old(self).node_access_frequency@,
            final(self).temporal_locality_secs@ == old(self).temporal_locality_secs@,
            final(self).query_patterns@ == old(self).query_patterns@,
    {
        let key = (source_id, target_id);
        proof { lemma_usage_map_entries(self.connection_usage@); }
        match find_connection(&self.connection_usage, key) {
            Some(i) => {
                let count = self.connection_usage[i].1;
                proof { lemma_usage_map_update(self.connection_usage@, i as int, (count + 1) as u64); }
                self.connection_usage.set(i, (key, count + 1));
            },
            None => {
                self.connection_usage.push((key, 1));
                proof {
                    assert(self.connection_usage@.drop_last() =~= old(self).connection_usage@);
                }
            },
        }
        let mut neighbours = match self.spatial_locality.remove(&source_id) {
            Some(v) => v,
            None => Vec::new(),
        };
        neighbours.push(target_id);
        let kept = nearest_neighbours(&neighbours);
        self.spatial_locality.insert(source_id, kept);
        proof {
            assert(final(self).spatial_locality@.remove(source_id) =~= old(self).spatial_locality@.remove(source_id));
        }
    }

    /// Drops every connection that starts or ends at `node_id`, and
    /// `node_id` from every neighbour list; returns how many connections
    /// were dropped.
    pub fn prune_node_connections(&mut self, node_id: u64) -> (removed: usize)
        requires
            old(self).well_formed(),
        ensures
            final(self).well_formed(),
            usage_map(final(self).connection_usage@) == without_node(usage_map(old(self).connection_usage@), node_id),
            removed == old(self).connection_usage.len() - final(self).connection_usage.len(),
            final(self).spatial_locality@.dom() == old(self).spatial_locality@.dom(),
            forall|k: u64| #[trigger] final(self).spatial_locality@.contains_key(k)
                ==> final(self).spatial_locality@[k]@ == old(self).spatial_locality@[k]@.filter(|n: u64| n != node_id),
            final(self).node_access_frequency@ == old(self).node_access_frequency@,
            final(self).temporal_locality_secs@ == old(self).temporal_locality_secs@,
            final(self).query_patterns@ == old(self).query_patterns@,
    {
        let before = self.connection_usage.len();
        let mut kept: Vec<((u64, u64), u64)> = Vec::new();
        let mut i: usize = 0;
        proof { lemma_usage_map_entries(self.connection_usage@); }
        while i < self.connection_usage.len()
            invariant
                i <= self.connection_usage.len(),
                unique_connections(self.connection_usage@),
                unique_connections(kept@),
                kept.len() <= i,
                usage_map(kept@) == without_node(usage_map(self.connection_usage@.subrange(0, i as int)), node_id),
            decreases self.connection_usage.len() - i,
        {
            let entry = self.connection_usage[i];
            let ghost prefix = self.connection_usage@.subrange(0, i as int);
            proof {
                assert(self.connection_usage@.subrange(0, i as int + 1).drop_last() =~= prefix);
                lemma_usage_map_entries(prefix);
                lemma_usage_map_entries(kept@);
                assert(!usage_map(prefix).contains_key(entry.0)) by {
                    if usage_map(prefix).contains_key(entry.0) {
                        let j = choose|j: int| 0 <= j < prefix.len() && prefix[j].0 == entry.0;
                        assert(self.connection_usage@[j].0 == self.connection_usage@[i as int].0);
                    }
                }
            }
            if (entry.0).0 != node_id && (entry.0).1 != node_id {
                proof {
                    assert forall|j: int| 0 <= j < kept.len() implies kept@[j].0 != entry.0 by {
                        assert(usage_map(kept@).contains_key(kept@[j].0));
                    }
                }
                let ghost kept_before = kept@;
                kept.push(entry);
                proof {
                    assert(kept@.drop_last() =~= kept_before);
                }
            }
            proof {
                let next = self.connection_usage@.subrange(0, i as int + 1);
                assert(usage_map(kept@) =~= without_node(usage_map(next), node_id));
            }
            i = i + 1;
        }
        proof {
            assert(self.connection_usage@.subrange(0, i as int) =~= self.connection_usage@);
        }
        self.connection_usage = kept;
        let ghost pruned = self.connection_usage@;
        assert(pruned.len() <= before);
        let keys = map_keys(&self.spatial_locality);
        let ghost spatial_before = self.spatial_locality@;
        let mut k: usize = 0;
        while k < keys.len()
            invariant
                self.connection_usage@ == pruned,
                pruned.len() <= before,
                self.node_access_frequency@ == old(self).node_access_frequency@,
                self.temporal_locality_secs@ == old(self).temporal_locality_secs@,
                self.query_patterns@ == old(self).query_patterns@,
                k <= keys.len(),
                keys@.to_set() == spatial_before.dom(),
                keys@.no_duplicates(),
                self.spatial_locality@.dom() == spatial_before.dom(),
                forall|j: int| 0 <= j < k ==> self.spatial_locality@[#[trigger] keys@[j]]@
                    == spatial_before[keys@[j]]@.filter(|n: u64| n != node_id),
                forall|j: int| k <= j < keys.len() ==> self.spatial_locality@[#[trigger] keys@[j]] == spatial_before[keys@[j]],
            decreases keys.len() - k,
        {
            let key = keys[k];
            assert(keys@.contains(key));
            assert(self.spatial_locality@.contains_key(key));
            let list = match self.spatial_locality.remove(&key) {
                Some(v) => v,
                None => Vec::new(),
            };
            let filtered = without_value(&list, node_id);
            self.spatial_locality.insert(key, filtered);
            proof {
                assert forall|j: int| 0 <= j < keys.len() && j != k implies keys@[j] != key by {
                    assert(keys@[j] != keys@[k as int]);
                }
            }
            k = k + 1;
        }
        proof {
            assert forall|key: u64| #[trigger] self.spatial_locality@.contains_key(key)
                implies self.spatial_locality@[key]@ == spatial_before[key]@.filter(|n: u64| n != node_id) by {
                assert(keys@.to_set().contains(key));
                let j = choose|j: int| 0 <= j < keys.len() && keys@[j] == key;
            }
        }
        before - self.connection_usage.len()
    }

    /// Drops every connection used fewer than twice; returns how many were
    /// dropped.
    pub fn prune_unused_connections(&mut self) -> (pruned: u32)
        requires
            old(self).well_formed(),
        ensures
            final(self).well_formed(),
            usage_map(final(self).connection_usage@) == used_at_least(usage_map(old(self).connection_usage@), 2),
            final(self).connection_usage.len() <= old(self).connection_usage.len(),
            pruned == (old(self).connection_usage.len() - final(self).connection_usage.len()) as u32,
            final(self).node_access_frequency@ == old(self).node_access_frequency@,
            final(self).temporal_locality_secs@ == old(self).temporal_locality_secs@,
            final(self).spatial_locality@ == old(self).spatial_locality@,
            final(self).query_patterns@ == old(self).query_patterns@,
    {
        let before = self.connection_usage.len();
        let mut kept: Vec<((u64, u64), u64)> = Vec::new();
        let mut i: usize = 0;
        while i < self.connection_usage.len()
            invariant
                i <= self.connection_usage.len(),
                unique_connections(self.connection_usage@),
                unique_connections(kept@),
                kept.len() <= i,
                usage_map(kept@) == used_at_least(usage_map(self.connection_usage@.subrange(0, i as int)), 2),
            decreases self.connection_usage.len() - i,
        {
            let entry = self.connection_usage[i];
            let ghost prefix = self.connection_usage@.subrange(0, i as int);
            proof {
                assert(self.connection_usage@.subrange(0, i as int + 1).drop_last() =~= prefix);
                lemma_usage_map_entries(prefix);
                lemma_usage_map_entries(kept@);
                assert(!usage_map(prefix).contains_key(entry.0)) by {
                    if usage_map(prefix).contains_key(entry.0) {
                        let j = choose|j: int| 0 <= j < prefix.len() && prefix[j].0 == entry.0;
                        assert(self.connection_usage@[j].0 == self.connection_usage@[i as int].0);
                    }
                }
            }
            if entry.1 >= 2 {
                proof {
                    assert forall|j: int| 0 <= j < kept.len() implies kept@[j].0 != entry.0 by {
                        assert(usage_map(kept@).contains_key(kept@[j].0));
                    }
                }
                let ghost kept_before = kept@;
                kept.push(entry);
                proof {
                    assert(kept@.drop_last() =~= kept_before);
                }
            }
            proof {
                let next = self.connection_usage@.subrange(0, i as int + 1);
                assert(usage_map(kept@) =~= used_at_least(usage_map(next), 2));
            }
            i = i + 1;
        }
        proof {
            assert(self.connection_usage@.subrange(0, i as int) =~= self.connection_usage@);
        }
        self.connection_usage = kept;
        #[verifier::truncate]
        let pruned = (before - self.connection_usage.len()) as u32;
        pruned
    }

    /// Folds the records of `source_id` into those of `target_id`: the
    /// source's count is added to the target's, its access times are
    /// appended to the target's, and each of its neighbours that is neither
    /// the target nor already a neighbour of the target is appended to the
    /// target's neighbours. The source's own records are removed.
    pub fn merge_node_data(&mut self, source_id: u64, target_id: u64)
        requires
            old(self).node_access_frequency@.contains_key(source_id) ==>
                count_of(old(self).node_access_frequency@.remove(source_id), target_id)
                    + old(self).node_access_frequency@[source_id] <= u64::MAX,
        ensures
            old(self).node_access_frequency@.contains_key(source_id) ==> final(self).node_access_frequency@
                == old(self).node_access_frequency@.remove(source_id).insert(
                    target_id,
                    (count_of(old(self).node_access_frequency@.remove(source_id), target_id)
                        + old(self).node_access_frequency@[source_id]) as u64,
                ),
            !old(self).node_access_frequency@.contains_key(source_id)
                ==> final(self).node_access_frequency@ == old(self).node_access_frequency@,
            old(self).temporal_locality_secs@.contains_key(source_id) ==> {
                &&& final(self).temporal_locality_secs@.dom()
                    == old(self).temporal_locality_secs@.dom().remove(source_id).insert(target_id)
                &&& final(self).temporal_locality_secs@.remove(target_id)
                    == old(self).temporal_locality_secs@.remove(source_id).remove(target_id)
                &&& final(self).temporal_locality_secs@[target_id]@
                    == list_of(old(self).temporal_locality_secs@.remove(source_id), target_id)
                        + old(self).temporal_locality_secs@[source_id]@
            },
            !old(self).temporal_locality_secs@.contains_key(source_id)
                ==> final(self).temporal_locality_secs@ == old(self).temporal_locality_secs@,
            old(self).spatial_locality@.contains_key(source_id) ==> {
                &&& final(self).spatial_locality@.dom()
                    == old(self).spatial_locality@.dom().remove(source_id).insert(target_id)
                &&& final(self).spatial_locality@.remove(target_id)
                    == old(self).spatial_locality@.remove(source_id).remove(target_id)
                &&& final(self).spatial_locality@[target_id]@ == merged_neighbours(
                    list_of(old(self).spatial_locality@.remove(source_id), target_id),
                    old(self).spatial_locality@[source_id]@,
                    target_id,
                )
            },
            !old(self).spatial_locality@.contains_key(source_id)
                ==> final(self).spatial_locality@ == old(self).spatial_locality@,
            final(self).connection_usage@ == old(self).connection_usage@,
            final(self).query_patterns@ == old(self).query_patterns@,
    {
        match self.node_access_frequency.remove(&source_id) {
            Some(moved) => {
                let count: u64 = match self.node_access_frequency.get(&target_id) {
                    Some(c) => *c,
                    None => 0,
                };
                self.node_access_frequency.insert(target_id, count + moved);
            },
            None => {},
        }
        match self.temporal_locality_secs.remove(&source_id) {
            Some(moved) => {
                let ghost after_source = self.temporal_locality_secs@;
                let mut times = match self.temporal_locality_secs.remove(&target_id) {
                    Some(v) => v,
                    None => Vec::new(),
                };
                let mut moved = moved;
                times.append(&mut moved);
                self.temporal_locality_secs.insert(target_id, times);
                proof {
                    assert(self.temporal_locality_secs@.remove(target_id) =~= after_source.remove(target_id));
                }
            },
            None => {},
        }
        match self.spatial_locality.remove(&source_id) {
            Some(moved) => {
                let ghost after_source = self.spatial_locality@;
                let mut neighbours = match self.spatial_locality.remove(&target_id) {
                    Some(v) => v,
                    None => Vec::new(),
                };
                let ghost base = neighbours@;
                let mut i: usize = 0;
                while i < moved.len()
                    invariant
                        i <= moved.len(),
                        neighbours@ == merged_neighbours(base, moved@.subrange(0, i as int), target_id),
                    decreases moved.len() - i,
                {
                    proof {
                        assert(moved@.subrange(0, i as int + 1).drop_last() =~= moved@.subrange(0, i as int));
                    }
                    let n = moved[i];
                    if n != target_id && !vec_contains(&neighbours, n) {
                        neighbours.push(n);
                    }
                    i = i + 1;
                }
                proof {
                    assert(moved@.subrange(0, i as int) =~= moved@);
                }
                self.spatial_locality.insert(target_id, neighbours);
                proof {
                    assert(self.spatial_locality@.remove(target_id) =~= after_source.remove(target_id));
                }
            },
            None => {},
        }
    }

    /// Adds `amount` uses to the connection between `node_id` and
    /// `neighbor_id`, recorded under the smaller id first.
    pub fn boost_connection(&mut self, node_id: u64, neighbor_id: u64, amount: u64)
        requires
            old(self).well_formed(),
            usage_of(usage_map(old(self).connection_usage@), ordered_pair(node_id, neighbor_id)) + amount <= u64::MAX,
        ensures
            final(self).well_formed(),
            usage_map(final(self).connection_usage@) == usage_map(old(self).connection_usage@).insert(
                ordered_pair(node_id, neighbor_id),
                (usage_of(usage_map(old(self).connection_usage@), ordered_pair(node_id, neighbor_id)) + amount) as u64,
            ),
            final(self).node_access_frequency@ == old(self).node_access_frequency@,
            final(self).temporal_locality_secs@ == old(self).temporal_locality_secs@,
            final(self).spatial_locality@ == old(self).spatial_locality@,
            final(self).query_patterns@ == old(self).query_patterns@,
    {
        let key = if node_id < neighbor_id { (node_id, neighbor_id) } else { (neighbor_id, node_id) };
        proof { lemma_usage_map_entries(self.connection_usage@); }
        match find_connection(&self.connection_usage, key) {
            Some(i) => {
                let count = self.connection_usage[i].1;
                proof { lemma_usage_map_update(self.connection_usage@, i as int, (count + amount) as u64); }
                self.connection_usage.set(i, (key, count + amount));
            },
            None => {
                self.connection_usage.push((key, amount));
                proof {
                    assert(self.connection_usage@.drop_last() =~= old(self).connection_usage@);
                }
            },
        }
    }

    /// The hot nodes at `now_secs`: each node with at least `min_count`
    /// access times within `window_secs`, with that count, most accessed
    /// first (nodes with equal counts in no particular order).
    #[verifier::spinoff_prover]
    #[verifier::rlimit(50)]
    pub fn hot_nodes(&self, now_secs: u64, window_secs: u64, min_count: usize) -> (hot: Vec<(u64, usize)>)
        ensures
            forall|i: int| 0 <= i < hot@.len() ==> is_hot_entry(self.temporal_locality_secs@, #[trigger] hot@[i], now_secs, window_secs, min_count),
            forall|n: u64| #[trigger] self.temporal_locality_secs@.contains_key(n)
                && recent_count(self.temporal_locality_secs@[n]@, now_secs, window_secs) >= min_count
                ==> exists|i: int| 0 <= i < hot@.len() && hot@[i].0 == n,
            forall|i: int, j: int| 0 <= i < j < hot@.len() ==> hot@[i].0 != hot@[j].0,
            forall|i: int, j: int| 0 <= i < j < hot@.len() ==> hot@[i].1 >= hot@[j].1,
    {
        let keys = map_keys(&self.temporal_locality_secs);
        let ghost m = self.temporal_locality_secs@;
        let mut hot: Vec<(u64, usize)> = Vec::new();
        let mut k: usize = 0;
        while k < keys.len()
            invariant
                k <= keys.len(),
                m == self.temporal_locality_secs@,
                keys@.to_set() == m.dom(),
                keys@.no_duplicates(),
                forall|i: int| 0 <= i < hot@.len() ==> is_hot_entry(m, #[trigger] hot@[i], now_secs, window_secs, min_count),
                forall|i: int| 0 <= i < hot@.len() ==> keys@.subrange(0, k as int).contains(#[trigger] hot@[i].0),
                forall|j: int| 0 <= j < k && recent_count(m[#[trigger] keys@[j]]@, now_secs, window_secs) >= min_count
                    ==> exists|i: int| 0 <= i < hot@.len() && hot@[i].0 == keys@[j],
                forall|i: int, j: int| 0 <= i < j < hot@.len() ==> hot@[i].0 != hot@[j].0,
                forall|i: int, j: int| 0 <= i < j < hot@.len() ==> hot@[i].1 >= hot@[j].1,
            decreases keys.len() - k,
        {
            let node = keys[k];
            assert(keys@.to_set().contains(node)) by {
                assert(keys@.contains(node));
            }
            let times = match self.temporal_locality_secs.get(&node) {
                Some(t) => t,
                None => {
                    assert(false);
                    return hot;
                },
            };
            let count = recent_access_count(times.as_slice(), now_secs, window_secs);
            let ghost before = hot@;
            proof {
                lemma_prefix_grows(keys@, k as int);
                assert forall|i: int| 0 <= i < before.len() implies before[i].0 != node by {
                    lemma_not_in_prefix(keys@, k as int);
                }
            }
            let ghost prefix = keys@.subrange(0, k as int);
            if count >= min_count {
                insert_by_count(&mut hot, (node, count));
                proof {
                    let p = choose|p: int| 0 <= p <= before.len() && hot@ == before.insert(p, (node, count));
                    lemma_insert_members(before, p, (node, count));
                    assert forall|i: int| 0 <= i < hot@.len() implies keys@.subrange(0, k + 1).contains(#[trigger] hot@[i].0) by {
                        if hot@[i] == (node, count) {
                            assert(prefix.push(node)[k as int] == node);
                        } else {
                            let j = choose|j: int| 0 <= j < before.len() && before[j] == hot@[i];
                            let q = choose|q: int| 0 <= q < prefix.len() && prefix[q] == before[j].0;
                            assert(prefix.push(node)[q] == prefix[q]);
                        }
                    }
                    assert forall|j: int| 0 <= j < k + 1 && recent_count(m[#[trigger] keys@[j]]@, now_secs, window_secs) >= min_count
                        implies exists|i: int| 0 <= i < hot@.len() && hot@[i].0 == keys@[j] by {
                        if j < k {
                            let i = choose|i: int| 0 <= i < before.len() && before[i].0 == keys@[j];
                            assert(hot@.contains(before[i]));
                        } else {
                            assert(hot@.contains((node, count)));
                        }
                    }
                    assert forall|i: int, j: int| 0 <= i < j < hot@.len() implies hot@[i].0 != hot@[j].0 by {
                        if i < p && j < p {
                            assert(hot@[i] == before[i] && hot@[j] == before[j]);
                        } else if i < p && j == p {
                            assert(hot@[i] == before[i]);
                        } else if i < p {
                            assert(hot@[i] == before[i] && hot@[j] == before[j - 1]);
                        } else if i == p {
                            assert(hot@[j] == before[j - 1]);
                        } else {
                            assert(hot@[i] == before[i - 1] && hot@[j] == before[j - 1]);
                        }
                    }
                }
            } else {
                proof {
                    assert forall|i: int| 0 <= i < hot@.len() implies keys@.subrange(0, k + 1).contains(#[trigger] hot@[i].0) by {
                        let q = choose|q: int| 0 <= q < prefix.len() && prefix[q] == hot@[i].0;
                        assert(prefix.push(node)[q] == prefix[q]);
                    }
                }
            }
            k = k + 1;
        }
        proof {
            assert(keys@.subrange(0, keys.len() as int) =~= keys@);
            assert forall|n: u64| #[trigger] m.contains_key(n)
                && recent_count(m[n]@, now_secs, window_secs) >= min_count
                implies exists|i: int| 0 <= i < hot@.len() && hot@[i].0 == n by {
                assert(keys@.to_set().contains(n));
                let j = choose|j: int| 0 <= j < keys.len() && keys@[j] == n;
            }
        }
        hot
    }

    /// Every node with its read count, most read first (nodes with equal
    /// counts in no particular order).
    #[verifier::spinoff_prover]
    #[verifier::rlimit(50)]
    pub fn nodes_by_frequency(&self) -> (ranked: Vec<(u64, u64)>)
        ensures
            ranked@.len() == self.node_access_frequency@.dom().len(),
            forall|i: int| 0 <= i < ranked@.len() ==> #[trigger] self.node_access_frequency@.contains_key(ranked@[i].0)
                && self.node_access_frequency@[ranked@[i].0] == ranked@[i].1,
            forall|n: u64| #[trigger] self.node_access_frequency@.contains_key(n)
                ==> exists|i: int| 0 <= i < ranked@.len() && ranked@[i].0 == n,
            forall|i: int, j: int| 0 <= i < j < ranked@.len() ==> ranked@[i].0 != ranked@[j].0,
            forall|i: int, j: int| 0 <= i < j < ranked@.len() ==> ranked@[i].1 >= ranked@[j].1,
    {
        let keys = map_keys(&self.node_access_frequency);
        let ghost m = self.node_access_frequency@;
        proof { keys@.unique_seq_to_set(); }
        let mut ranked: Vec<(u64, u64)> = Vec::new();
        let mut k: usize = 0;
        while k < keys.len()
            invariant
                k <= keys.len(),
                m == self.node_access_frequency@,
                keys@.to_set() == m.dom(),
                keys@.no_duplicates(),
                ranked@.len() == k,
                forall|i: int| 0 <= i < ranked@.len() ==> #[trigger] m.contains_key(ranked@[i].0) && m[ranked@[i].0] == ranked@[i].1,
                forall|i: int| 0 <= i < ranked@.len() ==> keys@.subrange(0, k as int).contains(#[trigger] ranked@[i].0),
                forall|j: int| 0 <= j < k ==> exists|i: int| 0 <= i < ranked@.len() && ranked@[i].0 == #[trigger] keys@[j],
                forall|i: int, j: int| 0 <= i < j < ranked@.len() ==> ranked@[i].0 != ranked@[j].0,
                forall|i: int, j: int| 0 <= i < j < ranked@.len() ==> ranked@[i].1 >= ranked@[j].1,
            decreases keys.len() - k,
        {
            let node = keys[k];
            assert(keys@.to_set().contains(node)) by {
                assert(keys@.contains(node));
            }
            let count: u64 = match self.node_access_frequency.get(&node) {
                Some(c) => *c,
                None => {
                    assert(false);
                    return ranked;
                },
            };
            let ghost before = ranked@;
            let ghost prefix = keys@.subrange(0, k as int);
            proof {
                lemma_prefix_grows(keys@, k as int);
                lemma_not_in_prefix(keys@, k as int);
            }
            insert_by_frequency(&mut ranked, (node, count));
            proof {
                let p = choose|p: int| 0 <= p <= before.len() && ranked@ == before.insert(p, (node, count));
                lemma_insert_ranked_members(before, p, (node, count));
                assert forall|i: int| 0 <= i < ranked@.len() implies keys@.subrange(0, k + 1).contains(#[trigger] ranked@[i].0) by {
                    if ranked@[i] == (node, count) {
                        assert(prefix.push(node)[k as int] == node);
                    } else {
                        let j = choose|j: int| 0 <= j < before.len() && before[j] == ranked@[i];
                        let q = choose|q: int| 0 <= q < prefix.len() && prefix[q] == before[j].0;
                        assert(prefix.push(node)[q] == prefix[q]);
                    }
                }
                assert forall|j: int| 0 <= j < k + 1 implies exists|i: int| 0 <= i < ranked@.len() && ranked@[i].0 == #[trigger] keys@[j] by {
                    if j < k {
                        let i = choose|i: int| 0 <= i < before.len() && before[i].0 == keys@[j];
                        assert(ranked@.contains(before[i]));
                    } else {
                        assert(ranked@.contains((node, count)));
                    }
                }
                assert forall|i: int| 0 <= i < before.len() implies before[i].0 != node by {
                    assert(prefix.contains(before[i].0));
                }
                assert forall|i: int, j: int| 0 <= i < j < ranked@.len() implies ranked@[i].0 != ranked@[j].0 by {
                    if i < p && j < p {
                        assert(ranked@[i] == before[i] && ranked@[j] == before[j]);
                    } else if i < p && j == p {
                        assert(ranked@[i] == before[i]);
                    } else if i < p {
                        assert(ranked@[i] == before[i] && ranked@[j] == before[j - 1]);
                    } else if i == p {
                        assert(ranked@[j] == before[j - 1]);
                    } else {
                        assert(ranked@[i] == before[i - 1] && ranked@[j] == before[j - 1]);
                    }
                }
            }
            k = k + 1;
        }
        proof {
            assert forall|n: u64| #[trigger] m.contains_key(n) implies exists|i: int| 0 <= i < ranked@.len() && ranked@[i].0 == n by {
                assert(keys@.to_set().contains(n));
                let j = choose|j: int| 0 <= j < keys.len() && keys@[j] == n;
            }
        }
        ranked
    }

    /// The most read nodes: the first tenth of the frequency ranking (at
    /// least one node when there is any), most read first.
    pub fn top_accessed_nodes(&self) -> (top: Vec<(u64, u64)>)
        ensures
            top@.len() == top_count(self.node_access_frequency@.dom().len()),
            forall|i: int| 0 <= i < top@.len() ==> #[trigger] self.node_access_frequency@.contains_key(top@[i].0)
                && self.node_access_frequency@[top@[i].0] == top@[i].1,
            forall|i: int, j: int| 0 <= i < j < top@.len() ==> top@[i].0 != top@[j].0,
            forall|i: int, j: int| 0 <= i < j < top@.len() ==> top@[i].1 >= top@[j].1,
            forall|n: u64, i: int| #[trigger] self.node_access_frequency@.contains_key(n) && 0 <= i < top@.len()
                && (forall|j: int| 0 <= j < top@.len() ==> top@[j].0 != n)
                ==> self.node_access_frequency@[n] <= #[trigger] top@[i].1,
    {
        let mut ranked = self.nodes_by_frequency();
        let ghost full = ranked@;
        let n = ranked.len();
        let keep = if n == 0 { 0 } else if n / 10 > 1 { n / 10 } else { 1 };
        ranked.truncate(keep);
        proof {
            let m = self.node_access_frequency@;
            assert forall|x: u64, i: int| #[trigger] m.contains_key(x) && 0 <= i < ranked@.len()
                && (forall|j: int| 0 <= j < ranked@.len() ==> ranked@[j].0 != x)
                implies m[x] <= #[trigger] ranked@[i].1 by {
                let q = choose|q: int| 0 <= q < full.len() && full[q].0 == x;
                if q < keep {
                    assert(ranked@[q].0 == x);
                }
                assert(full[i].1 >= full[q].1);
            }
        }
        ranked
    }

    /// Forgets everything recorded of `node_id` itself: its count, its
    /// access times and its neighbours.
    pub fn remove_node_data(&mut self, node_id: u64)
        ensures
            final(self).node_access_frequency@ == old(self).node_access_frequency@.remove(node_id),
            final(self).temporal_locality_secs@ == old(self).temporal_locality_secs@.remove(node_id),
            final(self).spatial_locality@ == old(self).spatial_locality@.remove(node_id),
            final(self).connection_usage@ == old(self).connection_usage@,
            final(self).query_patterns@ == old(self).query_patterns@,
    {
        self.node_access_frequency.remove(&node_id);
        self.temporal_locality_secs.remove(&node_id);
        self.spatial_locality.remove(&node_id);
    }
}

impl Default for AccessPatterns {
    fn default() -> (p: Self)
        ensures
            p.well_formed(),
            p.node_access_frequency@ == Map::<u64, u64>::empty(),
            p.connection_usage@ == Seq::<((u64, u64), u64)>::empty(),
            p.temporal_locality_secs@ == Map::<u64, Vec<u64>>::empty(),
            p.spatial_locality@ == Map::<u64, Vec<u64>>::empty(),
            p.query_patterns@ == Seq::<String>::empty(),
    {
        AccessPatterns {
            node_access_frequency: HashMap::new(),
            connection_usage: Vec::new(),
            temporal_locality_secs: HashMap::new(),
            spatial_locality: HashMap::new(),
            query_patterns: Vec::new(),
        }
    }
}

fn map_keys<V>(m: &HashMap<u64, V>) -> (keys: Vec<u64>)
    ensures
        keys@.to_set() == m@.dom(),
        keys@.no_duplicates(),
{
    let ghost all: Seq<&u64> = vstd::std_specs::hash::spec_keys_iter(m).remaining();
    let mut keys: Vec<u64> = Vec::new();
    for k in it: m.keys()
        invariant
            it.seq() == all,
            keys.len() == it.index(),
            forall|i: int| 0 <= i < it.index() ==> keys@[i] == *all[i],
    {
        keys.push(*k);
    }
    proof {
        assert(keys@ =~= all.unref());
    }
    keys
}


// ---------------------------------------------------------------------------
// Consolidation.

/// The records of an `AccessPatterns` as mathematical values.
pub struct PatternsModel {
    pub frequency: Map<u64, u64>,
    pub times: Map<u64, Seq<u64>>,
    pub neighbours: Map<u64, Seq<u64>>,
    pub usage: Map<(u64, u64), u64>,
}

/// A map of lists, each list taken as a sequence.
pub open spec fn seq_lists(m: Map<u64, Vec<u64>>) -> Map<u64, Seq<u64>> {
    Map::new(|k: u64| m.contains_key(k), |k: u64| m[k]@)
}

/// The list recorded for `key` in a map of sequences, empty when there is none.
pub open spec fn seq_list_of(m: Map<u64, Seq<u64>>, key: u64) -> Seq<u64> {
    if m.contains_key(key) { m[key] } else { Seq::empty() }
}

impl AccessPatterns {
    /// The node and connection records as mathematical values.
    pub open spec fn model(&self) -> PatternsModel {
        PatternsModel {
            frequency: self.node_access_frequency@,
            times: seq_lists(self.temporal_locality_secs@),
            neighbours: seq_lists(self.spatial_locality@),
            usage: usage_map(self.connection_usage@),
        }
    }
}

/// The records after `source` is merged into `target` (see
/// `AccessPatterns::merge_node_data`).
pub open spec fn merged_model(s: PatternsModel, source: u64, target: u64) -> PatternsModel {
    PatternsModel {
        frequency: if s.frequency.contains_key(source) {
            s.frequency.remove(source).insert(
                target,
                (count_of(s.frequency.remove(source), target) + s.frequency[source]) as u64,
            )
        } else {
            s.frequency
        },
        times: if s.times.contains_key(source) {
            s.times.remove(source).insert(target, seq_list_of(s.times.remove(source), target) + s.times[source])
        } else {
            s.times
        },
        neighbours: if s.neighbours.contains_key(source) {
            s.neighbours.remove(source).insert(
                target,
                merged_neighbours(seq_list_of(s.neighbours.remove(source), target), s.neighbours[source], target),
            )
        } else {
            s.neighbours
        },
        usage: s.usage,
    }
}

/// The records after everything of `node` itself is forgotten.
pub open spec fn removed_model(s: PatternsModel, node: u64) -> PatternsModel {
    PatternsModel {
        frequency: s.frequency.remove(node),
        times: s.times.remove(node),
        neighbours: s.neighbours.remove(node),
        usage: s.usage,
    }
}

/// Whether a node is other than `node`.
pub open spec fn other_than(node: u64) -> spec_fn(u64) -> bool {
    |n: u64| n != node
}

/// The records after the connections of `node` are dropped, and `node`
/// from every neighbour list.
pub open spec fn pruned_model(s: PatternsModel, node: u64) -> PatternsModel {
    PatternsModel {
        frequency: s.frequency,
        times: s.times,
        neighbours: Map::new(
            |k: u64| s.neighbours.contains_key(k),
            |k: u64| s.neighbours[k].filter(other_than(node)),
        ),
        usage: without_node(s.usage, node),
    }
}

/// One consolidation: `(node, Some(target))` merges `node` into `target`,
/// `(node, None)` forgets `node`; either way the connections of `node` are
/// then pruned.
pub open spec fn consolidation_step(s: PatternsModel, entry: (u64, Option<u64>)) -> PatternsModel {
    match entry.1 {
        Some(target) => pruned_model(merged_model(s, entry.0, target), entry.0),
        None => pruned_model(removed_model(s, entry.0), entry.0),
    }
}

/// The records after the consolidations of `plan`, in order.
pub open spec fn consolidated(s: PatternsModel, plan: Seq<(u64, Option<u64>)>) -> PatternsModel
    decreases plan.len(),
{
    if plan.len() == 0 {
        s
    } else {
        consolidation_step(consolidated(s, plan.drop_last()), plan.last())
    }
}

/// Merging `source` into `target` keeps the target's count within `u64`.
pub open spec fn merge_fits(s: PatternsModel, source: u64, target: u64) -> bool {
    s.frequency.contains_key(source) ==> count_of(s.frequency.remove(source), target) + s.frequency[source]
        <= u64::MAX
}

/// Every merge of `plan`, made in order, keeps its target's count within `u64`.
pub open spec fn plan_fits(s: PatternsModel, plan: Seq<(u64, Option<u64>)>) -> bool {
    forall|j: int| 0 <= j < plan.len() ==> (#[trigger] plan[j]).1 is Some ==> merge_fits(
        consolidated(s, plan.subrange(0, j)),
        plan[j].0,
        plan[j].1->0,
    )
}

/// How many entries of a plan of `len` entries a batch of at most `max`
/// carries out.
pub open spec fn batch_len(len: nat, max: nat) -> nat {
    if len < max { len } else { max }
}

/// The merges of a plan, as `(source, target)`, in order.
pub open spec fn merges_of(plan: Seq<(u64, Option<u64>)>) -> Seq<(u64, u64)>
    decreases plan.len(),
{
    if plan.len() == 0 {
        Seq::empty()
    } else {
        match plan.last().1 {
            Some(t) => merges_of(plan.drop_last()).push((plan.last().0, t)),
            None => merges_of(plan.drop_last()),
        }
    }
}

/// The removals of a plan, in order.
pub open spec fn removals_of(plan: Seq<(u64, Option<u64>)>) -> Seq<u64>
    decreases plan.len(),
{
    if plan.len() == 0 {
        Seq::empty()
    } else {
        match plan.last().1 {
            Some(t) => removals_of(plan.drop_last()),
            None => removals_of(plan.drop_last()).push(plan.last().0),
        }
    }
}

proof fn lemma_merges_removals_len(plan: Seq<(u64, Option<u64>)>)
    ensures
        merges_of(plan).len() + removals_of(plan).len() == plan.len(),
    decreases plan.len(),
{
    if plan.len() > 0 {
        lemma_merges_removals_len(plan.drop_last());
    }
}

proof fn lemma_lists_insert(before: Map<u64, Vec<u64>>, after: Map<u64, Vec<u64>>, gone: u64, key: u64, val: Seq<u64>)
    requires
        after.dom() == before.dom().remove(gone).insert(key),
        after.remove(key) == before.remove(gone).remove(key),
        after[key]@ == val,
    ensures
        seq_lists(after) == seq_lists(before).remove(gone).insert(key, val),
{
    assert forall|k: u64| k != key && #[trigger] after.contains_key(k) implies after[k] == before[k] by {
        assert(after.remove(key).contains_key(k));
        assert(after.remove(key)[k] == after[k]);
    }
    assert(seq_lists(after) =~= seq_lists(before).remove(gone).insert(key, val));
}

proof fn lemma_lists_remove(before: Map<u64, Vec<u64>>, key: u64)
    ensures
        seq_lists(before.remove(key)) == seq_lists(before).remove(key),
        forall|t: u64| #[trigger] seq_list_of(seq_lists(before).remove(key), t) == list_of(before.remove(key), t),
{
    assert(seq_lists(before.remove(key)) =~= seq_lists(before).remove(key));
}

impl AccessPatterns {
    /// Merges `source` into `target` and then prunes the connections of
    /// `source`: the records become `consolidation_step` of the old ones.
    fn merge_and_prune(&mut self, source: u64, target: u64) -> (pruned: usize)
        requires
            old(self).well_formed(),
            merge_fits(old(self).model(), source, target),
        ensures
            final(self).well_formed(),
            final(self).model() == consolidation_step(old(self).model(), (source, Some(target))),
            final(self).query_patterns@ == old(self).query_patterns@,
            pruned == old(self).connection_usage.len() - final(self).connection_usage.len(),
    {
        let ghost s0 = self.model();
        let ghost t0 = self.temporal_locality_secs@;
        let ghost n0 = self.spatial_locality@;
        self.merge_node_data(source, target);
        proof {
            lemma_lists_remove(t0, source);
            lemma_lists_remove(n0, source);
            if t0.contains_key(source) {
                lemma_lists_insert(t0, self.temporal_locality_secs@, source, target,
                    list_of(t0.remove(source), target) + t0[source]@);
            }
            if n0.contains_key(source) {
                lemma_lists_insert(n0, self.spatial_locality@, source, target,
                    merged_neighbours(list_of(n0.remove(source), target), n0[source]@, target));
            }
            assert(self.model() == merged_model(s0, source, target));
        }
        let ghost s1 = self.model();
        let ghost n1 = self.spatial_locality@;
        let pruned = self.prune_node_connections(source);
        proof {
            assert forall|k: u64| #[trigger] seq_lists(self.spatial_locality@).contains_key(k)
                implies seq_lists(self.spatial_locality@)[k] == pruned_model(s1, source).neighbours[k] by {
                assert(self.spatial_locality@.contains_key(k));
                assert(self.spatial_locality@[k]@ == n1[k]@.filter(|x: u64| x != source));
                assert(s1.neighbours[k] == n1[k]@);
                assert(other_than(source) =~= (|x: u64| x != source));
            }
            assert(seq_lists(self.spatial_locality@) =~= pruned_model(s1, source).neighbours);
            assert(self.model() == pruned_model(s1, source));
        }
        pruned
    }

    /// Forgets `node` and then prunes its connections: the records become
    /// `consolidation_step` of the old ones.
    fn remove_and_prune(&mut self, node: u64) -> (pruned: usize)
        requires
            old(self).well_formed(),
        ensures
            final(self).well_formed(),
            final(self).model() == consolidation_step(old(self).model(), (node, None)),
            final(self).query_patterns@ == old(self).query_patterns@,
            pruned == old(self).connection_usage.len() - final(self).connection_usage.len(),
    {
        let ghost s0 = self.model();
        let ghost t0 = self.temporal_locality_secs@;
        let ghost n0 = self.spatial_locality@;
        self.remove_node_data(node);
        proof {
            lemma_lists_remove(t0, node);
            lemma_lists_remove(n0, node);
            assert(self.model() == removed_model(s0, node));
        }
        let ghost s1 = self.model();
        let ghost n1 = self.spatial_locality@;
        let pruned = self.prune_node_connections(node);
        proof {
            assert forall|k: u64| #[trigger] seq_lists(self.spatial_locality@).contains_key(k)
                implies seq_lists(self.spatial_locality@)[k] == pruned_model(s1, node).neighbours[k] by {
                assert(self.spatial_locality@.contains_key(k));
                assert(self.spatial_locality@[k]@ == n1[k]@.filter(|x: u64| x != node));
                assert(s1.neighbours[k] == n1[k]@);
                assert(other_than(node) =~= (|x: u64| x != node));
            }
            assert(seq_lists(self.spatial_locality@) =~= pruned_model(s1, node).neighbours);
            assert(self.model() == pruned_model(s1, node));
        }
        pruned
    }
}

/// Consolidates nodes by a plan: `(node, Some(target))` merges `node` into
/// `target`, `(node, None)` forgets `node`. The entries are carried out in
/// order, at most `max_batch` of them, each followed by pruning the
/// connections of its node; then every connection used fewer than twice is
/// pruned. Returns the merges made, the nodes removed, and how many
/// connections were pruned in all.
pub fn consolidate(p: &mut AccessPatterns, plan: &[(u64, Option<u64>)], max_batch: usize) -> (r: (Vec<(u64, u64)>, Vec<u64>, usize))
    requires
        old(p).well_formed(),
        plan_fits(old(p).model(), plan@.take(batch_len(plan@.len(), max_batch as nat) as int)),
    ensures
        final(p).well_formed(),
        ({
            let done = plan@.take(batch_len(plan@.len(), max_batch as nat) as int);
            let c = consolidated(old(p).model(), done);
            &&& final(p).model().frequency == c.frequency
            &&& final(p).model().times == c.times
            &&& final(p).model().neighbours == c.neighbours
            &&& final(p).model().usage == used_at_least(c.usage, 2)
            &&& r.0@ == merges_of(done)
            &&& r.1@ == removals_of(done)
        }),
        r.0@.len() + r.1@.len() == batch_len(plan@.len(), max_batch as nat),
        r.0@.len() + r.1@.len() <= max_batch,
        r.2 == old(p).connection_usage.len() - final(p).connection_usage.len(),
        final(p).query_patterns@ == old(p).query_patterns@,
{
    let ghost s0 = p.model();
    let ghost n = batch_len(plan@.len(), max_batch as nat);
    let ghost all = plan@.take(n as int);
    let ghost len0 = p.connection_usage.len();
    let mut merged: Vec<(u64, u64)> = Vec::new();
    let mut removed: Vec<u64> = Vec::new();
    let mut pruned: usize = 0;
    let mut i: usize = 0;
    assert(plan@.take(0) =~= Seq::<(u64, Option<u64>)>::empty());
    while i < plan.len() && i < max_batch
        invariant
            i <= n,
            n == batch_len(plan@.len(), max_batch as nat),
            all == plan@.take(n as int),
            plan_fits(s0, all),
            p.well_formed(),
            p.model() == consolidated(s0, plan@.take(i as int)),
            p.query_patterns@ == old(p).query_patterns@,
            merged@ == merges_of(plan@.take(i as int)),
            removed@ == removals_of(plan@.take(i as int)),
            pruned + p.connection_usage.len() == len0,
            len0 == old(p).connection_usage.len(),
        decreases plan.len() - i,
    {
        let entry = plan[i];
        proof {
            assert(plan@.take(i as int + 1).drop_last() =~= plan@.take(i as int));
            assert(plan@.take(i as int + 1).last() == entry);
            assert(all[i as int] == entry);
            assert(all.subrange(0, i as int) =~= plan@.take(i as int));
        }
        match entry.1 {
            Some(target) => {
                proof {
                    assert(merge_fits(consolidated(s0, all.subrange(0, i as int)), all[i as int].0, all[i as int].1->0));
                }
                let k = p.merge_and_prune(entry.0, target);
                pruned = pruned + k;
                merged.push((entry.0, target));
            },
            None => {
                let k = p.remove_and_prune(entry.0);
                pruned = pruned + k;
                removed.push(entry.0);
            },
        }
        i = i + 1;
    }
    proof {
        assert(i == n);
        assert(plan@.take(i as int) =~= all);
        lemma_merges_removals_len(all);
    }
    let ghost c = p.model();
    let before = p.connection_usage.len();
    p.prune_unused_connections();
    let after = p.connection_usage.len();
    pruned = pruned + (before - after);
    (merged, removed, pruned)
}


/// The memory a consolidation frees, estimated at 1 KiB per consolidated
/// node and 100 bytes per pruned connection.
pub fn memory_freed_bytes(nodes_consolidated: usize, connections_pruned: usize) -> (bytes: i64)
    requires
        nodes_consolidated * 1024 + connections_pruned * 100 <= usize::MAX,
    ensures
        bytes == (nodes_consolidated * 1024 + connections_pruned * 100) as i64,
{
    (nodes_consolidated * 1024 + connections_pruned * 100) as i64
}

// ---------------------------------------------------------------------------
// Temporal reorganisation.

/// The cluster of each node, and the next fresh cluster id.
pub struct ClusterAssignments {
    /// Cluster id per node.
    pub assignments: HashMap<u64, u32>,
    /// The id the next new cluster gets.
    pub next_cluster_id: u32,
}

impl ClusterAssignments {
    /// No node in any cluster; the first new cluster gets id 0.
    pub fn new() -> (c: Self)
        ensures
            c.assignments@ == Map::<u64, u32>::empty(),
            c.next_cluster_id == 0,
    {
        ClusterAssignments { assignments: HashMap::new(), next_cluster_id: 0 }
    }
}

/// The at most five first neighbours that join a hot node's cluster.
pub open spec fn first_neighbours(ns: Seq<u64>) -> Seq<u64> {
    if ns.len() <= 5 { ns } else { ns.take(5) }
}

/// Each of `ns`, in order, that is in no cluster yet joins cluster `cid`.
pub open spec fn adopted(m: Map<u64, u32>, ns: Seq<u64>, cid: u32) -> Map<u64, u32>
    decreases ns.len(),
{
    if ns.len() == 0 {
        m
    } else {
        let a = adopted(m, ns.drop_last(), cid);
        if a.contains_key(ns.last()) { a } else { a.insert(ns.last(), cid) }
    }
}

/// The clusters after a hot node is handled: a node in a cluster draws its
/// first five neighbours that are in none into it; a node in none gets the
/// next fresh cluster id.
pub open spec fn cluster_step(m: Map<u64, u32>, next: nat, neighbours: Seq<u64>, node: u64) -> (Map<u64, u32>, nat) {
    if m.contains_key(node) {
        (adopted(m, first_neighbours(neighbours), m[node]), next)
    } else {
        (m.insert(node, next as u32), next + 1)
    }
}

/// The clusters and next id after the hot nodes `hot` are handled in order.
pub open spec fn clustered(m: Map<u64, u32>, next: nat, spatial: Map<u64, Seq<u64>>, hot: Seq<(u64, usize)>) -> (Map<u64, u32>, nat)
    decreases hot.len(),
{
    if hot.len() == 0 {
        (m, next)
    } else {
        let c = clustered(m, next, spatial, hot.drop_last());
        cluster_step(c.0, c.1, seq_list_of(spatial, hot.last().0), hot.last().0)
    }
}

/// The use counts after the connection from `node` to each of `ns` gains
/// `amount` uses, in order.
pub open spec fn boosted(u: Map<(u64, u64), u64>, node: u64, ns: Seq<u64>, amount: nat) -> Map<(u64, u64), u64>
    decreases ns.len(),
{
    if ns.len() == 0 {
        u
    } else {
        let b = boosted(u, node, ns.drop_last(), amount);
        let k = ordered_pair(node, ns.last());
        b.insert(k, (usage_of(b, k) + amount) as u64)
    }
}

/// The use counts after each hot node's connections to all its neighbours
/// gain the node's recent access count, hot node by hot node.
pub open spec fn reinforced(u: Map<(u64, u64), u64>, spatial: Map<u64, Seq<u64>>, hot: Seq<(u64, usize)>) -> Map<(u64, u64), u64>
    decreases hot.len(),
{
    if hot.len() == 0 {
        u
    } else {
        boosted(reinforced(u, spatial, hot.drop_last()), hot.last().0, seq_list_of(spatial, hot.last().0), hot.last().1 as nat)
    }
}

/// How often `y` occurs in `s`.
pub open spec fn occurrences(s: Seq<u64>, y: u64) -> nat
    decreases s.len(),
{
    if s.len() == 0 {
        0
    } else {
        occurrences(s.drop_last(), y) + if s.last() == y { 1nat } else { 0nat }
    }
}

/// The recent access count of `x` when it is hot, else zero.
pub open spec fn hot_count(times: Map<u64, Seq<u64>>, x: u64, now: u64, window: u64, min_count: usize) -> nat {
    if times.contains_key(x) && recent_count(times[x], now, window) >= min_count {
        recent_count(times[x], now, window)
    } else {
        0
    }
}

/// The uses the connection between `x` and `y` gains from `x` being hot:
/// its recent count for each time `y` occurs among its neighbours.
pub open spec fn boost_from(s: PatternsModel, now: u64, window: u64, min_count: usize, x: u64, y: u64) -> nat {
    hot_count(s.times, x, now, window, min_count) * occurrences(seq_list_of(s.neighbours, x), y)
}

/// Every connection count stays within `u64` once the hot nodes at both its
/// ends have reinforced it.
pub open spec fn boosts_fit(s: PatternsModel, now: u64, window: u64, min_count: usize) -> bool {
    forall|a: u64, b: u64| a <= b ==> #[trigger] usage_of(s.usage, (a, b)) + boost_from(s, now, window, min_count, a, b)
        + (if a != b { boost_from(s, now, window, min_count, b, a) } else { 0 }) <= u64::MAX
}

/// The nodes that are hot at `now`.
pub open spec fn hot_set(times: Map<u64, Seq<u64>>, now: u64, window: u64, min_count: usize) -> Set<u64> {
    times.dom().filter(|x: u64| recent_count(times[x], now, window) >= min_count)
}

/// The nodes of the first `i` hot entries.
spec fn handled(hot: Seq<(u64, usize)>, i: int) -> Seq<u64> {
    hot.take(i).map_values(|e: (u64, usize)| e.0)
}

/// The part of the reinforcement of `(x, y)` from `x` that is done once the
/// first `i` hot nodes are handled and `j` neighbours of the next.
spec fn boost_done(s: PatternsModel, hot: Seq<(u64, usize)>, i: int, j: int, now: u64, window: u64, min_count: usize, x: u64, y: u64) -> nat {
    if handled(hot, i).contains(x) {
        boost_from(s, now, window, min_count, x, y)
    } else if i < hot.len() && x == hot[i].0 {
        hot_count(s.times, x, now, window, min_count) * occurrences(seq_list_of(s.neighbours, x).take(j), y)
    } else {
        0
    }
}

spec fn usage_bounded(u: Map<(u64, u64), u64>, s: PatternsModel, hot: Seq<(u64, usize)>, i: int, j: int, now: u64, window: u64, min_count: usize) -> bool {
    forall|a: u64, b: u64| a <= b ==> #[trigger] usage_of(u, (a, b)) <= usage_of(s.usage, (a, b))
        + boost_done(s, hot, i, j, now, window, min_count, a, b)
        + (if a != b { boost_done(s, hot, i, j, now, window, min_count, b, a) } else { 0 })
}

proof fn lemma_occurrences_take(s: Seq<u64>, j: int, y: u64)
    requires
        0 <= j <= s.len(),
    ensures
        occurrences(s.take(j), y) <= occurrences(s, y),
        j < s.len() ==> occurrences(s.take(j + 1), y) == occurrences(s.take(j), y) + if s[j] == y { 1nat } else { 0nat },
    decreases s.len(),
{
    if j < s.len() {
        assert(s.take(j + 1).drop_last() =~= s.take(j));
        assert(s.drop_last().take(j) =~= s.take(j));
        lemma_occurrences_take(s.drop_last(), j, y);
    } else {
        assert(s.take(j) =~= s);
    }
}

proof fn lemma_scale(h: nat, a: nat, b: nat)
    ensures
        a <= b ==> h * a <= h * b,
        h * (a + 1) == h * a + h,
        h * 0 == 0,
{
    assert(a <= b ==> h * a <= h * b) by (nonlinear_arith);
    assert(h * (a + 1) == h * a + h) by (nonlinear_arith);
}

proof fn lemma_boost_done_le(s: PatternsModel, hot: Seq<(u64, usize)>, i: int, j: int, now: u64, window: u64, min_count: usize, x: u64, y: u64)
    requires
        0 <= i <= hot.len(),
        i < hot.len() ==> 0 <= j <= seq_list_of(s.neighbours, hot[i].0).len(),
    ensures
        boost_done(s, hot, i, j, now, window, min_count, x, y) <= boost_from(s, now, window, min_count, x, y),
{
    if !handled(hot, i).contains(x) && i < hot.len() && x == hot[i].0 {
        let l = seq_list_of(s.neighbours, x);
        lemma_occurrences_take(l, j, y);
        lemma_scale(hot_count(s.times, x, now, window, min_count), occurrences(l.take(j), y), occurrences(l, y));
    }
}

proof fn lemma_hot_len(hot: Seq<(u64, usize)>, m: Map<u64, Vec<u64>>, now: u64, window: u64, min_count: usize)
    requires
        m.dom().finite(),
        forall|i: int| 0 <= i < hot.len() ==> is_hot_entry(m, #[trigger] hot[i], now, window, min_count),
        forall|i: int, j: int| 0 <= i < j < hot.len() ==> hot[i].0 != hot[j].0,
    ensures
        hot.len() <= hot_set(seq_lists(m), now, window, min_count).len(),
{
    let ks = hot.map_values(|e: (u64, usize)| e.0);
    let hs = hot_set(seq_lists(m), now, window, min_count);
    assert(ks.no_duplicates()) by {
        assert forall|i: int, j: int| 0 <= i < ks.len() && 0 <= j < ks.len() && i != j implies ks[i] != ks[j] by {
            if i < j { assert(hot[i].0 != hot[j].0); } else { assert(hot[j].0 != hot[i].0); }
        }
    }
    ks.unique_seq_to_set();
    assert(seq_lists(m).dom() =~= m.dom());
    assert(ks.to_set().subset_of(hs)) by {
        assert forall|x: u64| ks.to_set().contains(x) implies hs.contains(x) by {
            let i = choose|i: int| 0 <= i < ks.len() && ks[i] == x;
            assert(is_hot_entry(m, hot[i], now, window, min_count));
        }
    }
    vstd::set_lib::lemma_len_subset(ks.to_set(), hs);
}


proof fn lemma_not_yet_handled(hot: Seq<(u64, usize)>, i: int)
    requires
        0 <= i < hot.len(),
        forall|t: int, u: int| 0 <= t < u < hot.len() ==> hot[t].0 != hot[u].0,
    ensures
        !handled(hot, i).contains(hot[i].0),
        forall|x: u64| #[trigger] handled(hot, i + 1).contains(x)
            <==> (handled(hot, i).contains(x) || x == hot[i].0),
{
    let a = handled(hot, i);
    let b = handled(hot, i + 1);
    if a.contains(hot[i].0) {
        let t = choose|t: int| 0 <= t < a.len() && a[t] == hot[i].0;
        assert(hot[t].0 != hot[i].0);
    }
    assert(b =~= a.push(hot[i].0));
    assert forall|x: u64| #[trigger] b.contains(x) <==> (a.contains(x) || x == hot[i].0) by {
        if b.contains(x) {
            let t = choose|t: int| 0 <= t < b.len() && b[t] == x;
            if t < a.len() { assert(a[t] == x); }
        }
        if a.contains(x) {
            let t = choose|t: int| 0 <= t < a.len() && a[t] == x;
            assert(b[t] == x);
        }
        if x == hot[i].0 {
            assert(b[i] == x);
        }
    }
}

proof fn lemma_boost_step(s: PatternsModel, hot: Seq<(u64, usize)>, i: int, j: int, now: u64, window: u64, min_count: usize, n: u64)
    requires
        0 <= i < hot.len(),
        forall|t: int, u: int| 0 <= t < u < hot.len() ==> hot[t].0 != hot[u].0,
        0 <= j < seq_list_of(s.neighbours, hot[i].0).len(),
        n == seq_list_of(s.neighbours, hot[i].0)[j],
    ensures
        boost_done(s, hot, i, j + 1, now, window, min_count, hot[i].0, n)
            == boost_done(s, hot, i, j, now, window, min_count, hot[i].0, n) + hot_count(s.times, hot[i].0, now, window, min_count),
        forall|x: u64, y: u64| #[trigger] boost_done(s, hot, i, j + 1, now, window, min_count, x, y)
            >= boost_done(s, hot, i, j, now, window, min_count, x, y),
{
    let node = hot[i].0;
    let l = seq_list_of(s.neighbours, node);
    let h = hot_count(s.times, node, now, window, min_count);
    lemma_not_yet_handled(hot, i);
    lemma_occurrences_take(l, j, n);
    lemma_scale(h, occurrences(l.take(j), n), occurrences(l.take(j), n));
    assert forall|x: u64, y: u64| #[trigger] boost_done(s, hot, i, j + 1, now, window, min_count, x, y)
        >= boost_done(s, hot, i, j, now, window, min_count, x, y) by {
        if x == node && !handled(hot, i).contains(x) {
            lemma_occurrences_take(l, j, y);
            lemma_scale(h, occurrences(l.take(j), y), occurrences(l.take(j + 1), y));
        }
    }
}

proof fn lemma_bounded_step(u: Map<(u64, u64), u64>, u2: Map<(u64, u64), u64>, s: PatternsModel, hot: Seq<(u64, usize)>, i: int, j: int, now: u64, window: u64, min_count: usize, n: u64)
    requires
        0 <= i < hot.len(),
        forall|t: int, v: int| 0 <= t < v < hot.len() ==> hot[t].0 != hot[v].0,
        0 <= j < seq_list_of(s.neighbours, hot[i].0).len(),
        n == seq_list_of(s.neighbours, hot[i].0)[j],
        usage_bounded(u, s, hot, i, j, now, window, min_count),
        u2 == u.insert(
            ordered_pair(hot[i].0, n),
            (usage_of(u, ordered_pair(hot[i].0, n)) + hot_count(s.times, hot[i].0, now, window, min_count)) as u64,
        ),
        usage_of(u, ordered_pair(hot[i].0, n)) + hot_count(s.times, hot[i].0, now, window, min_count) <= u64::MAX,
    ensures
        usage_bounded(u2, s, hot, i, j + 1, now, window, min_count),
{
    let node = hot[i].0;
    let k = ordered_pair(node, n);
    lemma_boost_step(s, hot, i, j, now, window, min_count, n);
    assert forall|a: u64, b: u64| a <= b implies #[trigger] usage_of(u2, (a, b)) <= usage_of(s.usage, (a, b))
        + boost_done(s, hot, i, j + 1, now, window, min_count, a, b)
        + (if a != b { boost_done(s, hot, i, j + 1, now, window, min_count, b, a) } else { 0 }) by {
        assert(usage_of(u, (a, b)) <= usage_of(s.usage, (a, b))
            + boost_done(s, hot, i, j, now, window, min_count, a, b)
            + (if a != b { boost_done(s, hot, i, j, now, window, min_count, b, a) } else { 0 }));
        assert(boost_done(s, hot, i, j + 1, now, window, min_count, a, b) >= boost_done(s, hot, i, j, now, window, min_count, a, b));
        assert(boost_done(s, hot, i, j + 1, now, window, min_count, b, a) >= boost_done(s, hot, i, j, now, window, min_count, b, a));
        if (a, b) == k {
            assert(boost_done(s, hot, i, j + 1, now, window, min_count, node, n)
                >= boost_done(s, hot, i, j, now, window, min_count, node, n));
        }
    }
}

proof fn lemma_bounded_next(u: Map<(u64, u64), u64>, s: PatternsModel, hot: Seq<(u64, usize)>, i: int, now: u64, window: u64, min_count: usize)
    requires
        0 <= i < hot.len(),
        forall|t: int, v: int| 0 <= t < v < hot.len() ==> hot[t].0 != hot[v].0,
        usage_bounded(u, s, hot, i, seq_list_of(s.neighbours, hot[i].0).len() as int, now, window, min_count),
    ensures
        usage_bounded(u, s, hot, i + 1, 0, now, window, min_count),
{
    let len = seq_list_of(s.neighbours, hot[i].0).len() as int;
    lemma_not_yet_handled(hot, i);
    if i + 1 < hot.len() {
        lemma_not_yet_handled(hot, i + 1);
    }
    assert forall|x: u64, y: u64| #[trigger] boost_done(s, hot, i + 1, 0, now, window, min_count, x, y)
        == boost_done(s, hot, i, len, now, window, min_count, x, y) by {
        let l = seq_list_of(s.neighbours, x);
        assert(l.take(0) =~= Seq::<u64>::empty());
        if x == hot[i].0 {
            assert(l.take(len) =~= l);
        }
        if i + 1 < hot.len() && x == hot[i + 1].0 {
            assert(x != hot[i].0);
            lemma_scale(hot_count(s.times, x, now, window, min_count), 0, 0);
        }
    }
    assert forall|a: u64, b: u64| a <= b implies #[trigger] usage_of(u, (a, b)) <= usage_of(s.usage, (a, b))
        + boost_done(s, hot, i + 1, 0, now, window, min_count, a, b)
        + (if a != b { boost_done(s, hot, i + 1, 0, now, window, min_count, b, a) } else { 0 }) by {
        assert(boost_done(s, hot, i + 1, 0, now, window, min_count, a, b) == boost_done(s, hot, i, len, now, window, min_count, a, b));
        assert(boost_done(s, hot, i + 1, 0, now, window, min_count, b, a) == boost_done(s, hot, i, len, now, window, min_count, b, a));
    }
}

fn adopt_neighbours(clusters: &mut ClusterAssignments, ns: &Vec<u64>, cid: u32)
    ensures
        final(clusters).assignments@ == adopted(old(clusters).assignments@, first_neighbours(ns@), cid),
        final(clusters).next_cluster_id == old(clusters).next_cluster_id,
{
    let limit: usize = if ns.len() <= 5 { ns.len() } else { 5 };
    let ghost firsts = first_neighbours(ns@);
    let ghost start = clusters.assignments@;
    let mut j: usize = 0;
    while j < limit
        invariant
            limit == firsts.len(),
            limit <= ns.len(),
            forall|t: int| 0 <= t < limit ==> firsts[t] == ns@[t],
            j <= limit,
            clusters.assignments@ == adopted(start, firsts.take(j as int), cid),
            clusters.next_cluster_id == old(clusters).next_cluster_id,
        decreases limit - j,
    {
        assert(firsts.take(j as int + 1).drop_last() =~= firsts.take(j as int));
        let n = ns[j];
        assert(firsts.take(j as int + 1).last() == n);
        if !clusters.assignments.contains_key(&n) {
            clusters.assignments.insert(n, cid);
        }
        j = j + 1;
    }
    assert(firsts.take(limit as int) =~= firsts);
}

/// Reorganises by recency. The hot nodes are found as `hot_nodes` finds
/// them; then, for each in that order, a node in a cluster draws its first
/// five neighbours that are in no cluster into its own, a node in none gets
/// a fresh cluster, and the connection to each of its neighbours gains the
/// node's recent access count in uses. Returns the hot nodes.
#[verifier::spinoff_prover]
#[verifier::rlimit(50)]
pub fn temporal_reorganize(p: &mut AccessPatterns, clusters: &mut ClusterAssignments, now_secs: u64, window_secs: u64, min_count: usize) -> (hot: Vec<(u64, usize)>)
    requires
        old(p).well_formed(),
        boosts_fit(old(p).model(), now_secs, window_secs, min_count),
        old(clusters).next_cluster_id + hot_set(old(p).model().times, now_secs, window_secs, min_count).len() <= u32::MAX,
    ensures
        forall|i: int| 0 <= i < hot@.len() ==> is_hot_entry(old(p).temporal_locality_secs@, #[trigger] hot@[i], now_secs, window_secs, min_count),
        forall|n: u64| #[trigger] old(p).temporal_locality_secs@.contains_key(n)
            && recent_count(old(p).temporal_locality_secs@[n]@, now_secs, window_secs) >= min_count
            ==> exists|i: int| 0 <= i < hot@.len() && hot@[i].0 == n,
        forall|i: int, j: int| 0 <= i < j < hot@.len() ==> hot@[i].0 != hot@[j].0,
        forall|i: int, j: int| 0 <= i < j < hot@.len() ==> hot@[i].1 >= hot@[j].1,
        final(p).well_formed(),
        usage_map(final(p).connection_usage@) == reinforced(old(p).model().usage, old(p).model().neighbours, hot@),
        (final(clusters).assignments@, final(clusters).next_cluster_id as nat) == clustered(
            old(clusters).assignments@,
            old(clusters).next_cluster_id as nat,
            old(p).model().neighbours,
            hot@,
        ),
        final(p).node_access_frequency@ == old(p).node_access_frequency@,
        final(p).temporal_locality_secs@ == old(p).temporal_locality_secs@,
        final(p).spatial_locality@ == old(p).spatial_locality@,
        final(p).query_patterns@ == old(p).query_patterns@,
{
    let hot = p.hot_nodes(now_secs, window_secs, min_count);
    let ghost s0 = p.model();
    let ghost a0 = clusters.assignments@;
    let ghost n0 = clusters.next_cluster_id as nat;
    proof {
        lemma_hot_len(hot@, p.temporal_locality_secs@, now_secs, window_secs, min_count);
        assert forall|a: u64, b: u64| a <= b implies #[trigger] usage_of(s0.usage, (a, b)) <= usage_of(s0.usage, (a, b))
            + boost_done(s0, hot@, 0, 0, now_secs, window_secs, min_count, a, b)
            + (if a != b { boost_done(s0, hot@, 0, 0, now_secs, window_secs, min_count, b, a) } else { 0 }) by {
        }
        assert(hot@.take(0) =~= Seq::<(u64, usize)>::empty());
    }
    let mut i: usize = 0;
    while i < hot.len()
        invariant
            i <= hot@.len(),
            hot@.len() <= hot_set(s0.times, now_secs, window_secs, min_count).len(),
            forall|t: int| 0 <= t < hot@.len() ==> is_hot_entry(old(p).temporal_locality_secs@, #[trigger] hot@[t], now_secs, window_secs, min_count),
            forall|t: int, u: int| 0 <= t < u < hot@.len() ==> hot@[t].0 != hot@[u].0,
            s0 == old(p).model(),
            boosts_fit(s0, now_secs, window_secs, min_count),
            n0 + hot_set(s0.times, now_secs, window_secs, min_count).len() <= u32::MAX,
            p.well_formed(),
            p.node_access_frequency@ == old(p).node_access_frequency@,
            p.temporal_locality_secs@ == old(p).temporal_locality_secs@,
            p.spatial_locality@ == old(p).spatial_locality@,
            p.query_patterns@ == old(p).query_patterns@,
            usage_map(p.connection_usage@) == reinforced(s0.usage, s0.neighbours, hot@.take(i as int)),
            usage_bounded(usage_map(p.connection_usage@), s0, hot@, i as int, 0, now_secs, window_secs, min_count),
            (clusters.assignments@, clusters.next_cluster_id as nat) == clustered(a0, n0, s0.neighbours, hot@.take(i as int)),
            clusters.next_cluster_id as nat <= n0 + i,
        decreases hot@.len() - i,
    {
        let node = hot[i].0;
        let count = hot[i].1;
        let ns: Vec<u64> = match p.spatial_locality.get(&node) {
            Some(v) => v.clone(),
            None => Vec::new(),
        };
        proof {
            assert(ns@ == seq_list_of(s0.neighbours, node));
            assert(hot@.take(i as int + 1).drop_last() =~= hot@.take(i as int));
            assert(hot@.take(i as int + 1).last() == hot@[i as int]);
            assert(is_hot_entry(old(p).temporal_locality_secs@, hot@[i as int], now_secs, window_secs, min_count));
            assert(hot_count(s0.times, node, now_secs, window_secs, min_count) == count);
        }
        // Clusters.
        match clusters.assignments.get(&node) {
            Some(cid) => {
                let cid = *cid;
                adopt_neighbours(clusters, &ns, cid);
            },
            None => {
                let next = clusters.next_cluster_id;
                clusters.assignments.insert(node, next);
                clusters.next_cluster_id = next + 1;
            },
        }
        // Connections.
        let ghost before = usage_map(p.connection_usage@);
        let mut j: usize = 0;
        while j < ns.len()
            invariant
                i < hot@.len(),
                node == hot@[i as int].0,
                count == hot@[i as int].1,
                hot_count(s0.times, node, now_secs, window_secs, min_count) == count,
                forall|t: int, u: int| 0 <= t < u < hot@.len() ==> hot@[t].0 != hot@[u].0,
                ns@ == seq_list_of(s0.neighbours, node),
                j <= ns.len(),
                s0 == old(p).model(),
                boosts_fit(s0, now_secs, window_secs, min_count),
                p.well_formed(),
                p.node_access_frequency@ == old(p).node_access_frequency@,
                p.temporal_locality_secs@ == old(p).temporal_locality_secs@,
                p.spatial_locality@ == old(p).spatial_locality@,
                p.query_patterns@ == old(p).query_patterns@,
                usage_map(p.connection_usage@) == boosted(before, node, ns@.take(j as int), count as nat),
                usage_bounded(usage_map(p.connection_usage@), s0, hot@, i as int, j as int, now_secs, window_secs, min_count),
            decreases ns.len() - j,
        {
            let n = ns[j];
            let ghost u = usage_map(p.connection_usage@);
            let ghost k = ordered_pair(node, n);
            proof {
                assert(ns@.take(j as int + 1).drop_last() =~= ns@.take(j as int));
                assert(ns@.take(j as int + 1).last() == n);
                lemma_occurrences_take(ns@, j as int, n);
                lemma_scale(count as nat, occurrences(ns@.take(j as int), n), occurrences(ns@, n));
                lemma_boost_done_le(s0, hot@, i as int, j as int + 1, now_secs, window_secs, min_count, k.0, k.1);
                lemma_boost_done_le(s0, hot@, i as int, j as int + 1, now_secs, window_secs, min_count, k.1, k.0);
                assert(usage_of(u, k) + count <= u64::MAX) by {
                    assert(usage_of(u, (k.0, k.1)) <= usage_of(s0.usage, (k.0, k.1))
                        + boost_done(s0, hot@, i as int, j as int, now_secs, window_secs, min_count, k.0, k.1)
                        + (if k.0 != k.1 { boost_done(s0, hot@, i as int, j as int, now_secs, window_secs, min_count, k.1, k.0) } else { 0 }));
                    assert(usage_of(s0.usage, (k.0, k.1)) + boost_from(s0, now_secs, window_secs, min_count, k.0, k.1)
                        + (if k.0 != k.1 { boost_from(s0, now_secs, window_secs, min_count, k.1, k.0) } else { 0 }) <= u64::MAX);
                    lemma_boost_step(s0, hot@, i as int, j as int, now_secs, window_secs, min_count, n);
                }
            }
            p.boost_connection(node, n, count as u64);
            proof {
                lemma_bounded_step(u, usage_map(p.connection_usage@), s0, hot@, i as int, j as int, now_secs, window_secs, min_count, n);
            }
            j = j + 1;
        }
        proof {
            assert(ns@.take(j as int) =~= ns@);
            lemma_bounded_next(usage_map(p.connection_usage@), s0, hot@, i as int, now_secs, window_secs, min_count);
        }
        i = i + 1;
    }
    proof {
        assert(hot@.take(i as int) =~= hot@);
    }
    hot
}


// ---------------------------------------------------------------------------
// Spatial clustering.

/// Each of `ns`, in order, is put in cluster `cid`.
pub open spec fn labelled(m: Map<u64, u32>, ns: Seq<u64>, cid: u32) -> Map<u64, u32>
    decreases ns.len(),
{
    if ns.len() == 0 {
        m
    } else {
        labelled(m, ns.drop_last(), cid).insert(ns.last(), cid)
    }
}

/// The clusters and next id after spatial clustering visits the nodes of
/// `order` in turn: a node with at least three neighbours opens a fresh
/// cluster, which it and all its neighbours join (a later cluster takes a
/// node from an earlier one).
pub open spec fn spatially_clustered(m: Map<u64, u32>, next: nat, spatial: Map<u64, Seq<u64>>, order: Seq<u64>) -> (Map<u64, u32>, nat)
    decreases order.len(),
{
    if order.len() == 0 {
        (m, next)
    } else {
        let c = spatially_clustered(m, next, spatial, order.drop_last());
        let node = order.last();
        let ns = seq_list_of(spatial, node);
        if ns.len() >= 3 {
            (labelled(c.0.insert(node, c.1 as u32), ns, c.1 as u32), c.1 + 1)
        } else {
            c
        }
    }
}

proof fn lemma_spatially_clustered_next(m: Map<u64, u32>, next: nat, spatial: Map<u64, Seq<u64>>, order: Seq<u64>, k: int)
    requires
        0 <= k <= order.len(),
    ensures
        spatially_clustered(m, next, spatial, order.take(k)).1 <= spatially_clustered(m, next, spatial, order).1,
    decreases order.len() - k,
{
    if k < order.len() {
        lemma_spatially_clustered_next(m, next, spatial, order, k + 1);
        assert(order.take(k + 1).drop_last() =~= order.take(k));
    } else {
        assert(order.take(k) =~= order);
    }
}

/// Spatial clustering of related nodes, visiting the nodes in `order` (the
/// order in which the neighbour lists are walked): each node with at least
/// three neighbours gets a fresh cluster id, and it and all its neighbours
/// are assigned to that cluster. Returns whether any node is in a cluster
/// afterwards.
pub fn spatial_cluster(p: &AccessPatterns, order: &[u64], clusters: &mut ClusterAssignments) -> (r: bool)
    requires
        spatially_clustered(
            old(clusters).assignments@,
            old(clusters).next_cluster_id as nat,
            p.model().neighbours,
            order@,
        ).1 <= u32::MAX,
    ensures
        (final(clusters).assignments@, final(clusters).next_cluster_id as nat) == spatially_clustered(
            old(clusters).assignments@,
            old(clusters).next_cluster_id as nat,
            p.model().neighbours,
            order@,
        ),
        r == (final(clusters).assignments@.len() > 0),
{
    let ghost m0 = clusters.assignments@;
    let ghost n0 = clusters.next_cluster_id as nat;
    let ghost spatial = p.model().neighbours;
    let mut i: usize = 0;
    assert(order@.take(0) =~= Seq::<u64>::empty());
    while i < order.len()
        invariant
            i <= order.len(),
            spatial == p.model().neighbours,
            spatially_clustered(m0, n0, spatial, order@).1 <= u32::MAX,
            (clusters.assignments@, clusters.next_cluster_id as nat) == spatially_clustered(m0, n0, spatial, order@.take(i as int)),
        decreases order.len() - i,
    {
        let node = order[i];
        proof {
            assert(order@.take(i as int + 1).drop_last() =~= order@.take(i as int));
            assert(order@.take(i as int + 1).last() == node);
            lemma_spatially_clustered_next(m0, n0, spatial, order@, i as int + 1);
        }
        let ns: Vec<u64> = match p.spatial_locality.get(&node) {
            Some(v) => v.clone(),
            None => Vec::new(),
        };
        assert(ns@ == seq_list_of(spatial, node));
        if ns.len() >= 3 {
            let cid = clusters.next_cluster_id;
            clusters.next_cluster_id = cid + 1;
            clusters.assignments.insert(node, cid);
            let ghost base = clusters.assignments@;
            let mut j: usize = 0;
            while j < ns.len()
                invariant
                    j <= ns.len(),
                    clusters.assignments@ == labelled(base, ns@.take(j as int), cid),
                    clusters.next_cluster_id == cid + 1,
                decreases ns.len() - j,
            {
                assert(ns@.take(j as int + 1).drop_last() =~= ns@.take(j as int));
                clusters.assignments.insert(ns[j], cid);
                j = j + 1;
            }
            assert(ns@.take(j as int) =~= ns@);
        }
        i = i + 1;
    }
    assert(order@.take(i as int) =~= order@);
    clusters.assignments.len() != 0
}

} // verus!
