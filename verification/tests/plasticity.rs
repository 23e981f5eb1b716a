use neuroquantum_core::plasticity::{consolidate, memory_freed_bytes, spatial_cluster, temporal_reorganize, AccessPatterns, ClusterAssignments};

#[test]
fn access_recording_counts_and_windows() {
    let mut p = AccessPatterns::default();
    p.record_access(1, 100, 300);
    p.record_access(1, 200, 300);
    assert_eq!(p.node_access_frequency.get(&1), Some(&2));
    assert_eq!(p.temporal_locality_secs.get(&1), Some(&vec![100, 200]));
    // 500 - 300 = 200: only times after 200 stay.
    p.record_access(1, 500, 300);
    assert_eq!(p.temporal_locality_secs.get(&1), Some(&vec![500]));
    assert_eq!(p.node_access_frequency.get(&1), Some(&3));
}

#[test]
fn access_window_saturates_at_zero() {
    let mut p = AccessPatterns::default();
    p.record_access(7, 0, 300);
    // cutoff is 0 and 0 is not later than 0
    assert_eq!(p.temporal_locality_secs.get(&7), Some(&vec![]));
}

#[test]
fn connection_usage_counts_and_keeps_ten_smallest_neighbours() {
    let mut p = AccessPatterns::default();
    p.record_connection_usage(1, 2);
    p.record_connection_usage(1, 2);
    assert_eq!(p.connection_usage, vec![((1, 2), 2)]);
    assert_eq!(p.spatial_locality.get(&1), Some(&vec![2]));
    for t in (3..=15).rev() {
        p.record_connection_usage(1, t);
    }
    assert_eq!(p.spatial_locality.get(&1), Some(&vec![2, 3, 4, 5, 6, 7, 8, 9, 10, 11]));
    p.record_connection_usage(1, 0);
    assert_eq!(p.spatial_locality.get(&1), Some(&vec![0, 2, 3, 4, 5, 6, 7, 8, 9, 10]));
}

#[test]
fn recording_a_known_neighbour_again_changes_nothing() {
    let mut p = AccessPatterns::default();
    p.record_connection_usage(5, 9);
    p.record_connection_usage(5, 3);
    let before = p.spatial_locality.get(&5).cloned();
    p.record_connection_usage(5, 9);
    assert_eq!(p.spatial_locality.get(&5).cloned(), before);
}

#[test]
fn merging_moves_records_to_the_target() {
    let mut p = AccessPatterns::default();
    p.record_access(1, 10, 1000);
    p.record_access(1, 20, 1000);
    p.record_access(2, 30, 1000);
    p.record_connection_usage(1, 3);
    p.record_connection_usage(1, 2);
    p.record_connection_usage(2, 4);
    p.merge_node_data(1, 2);
    assert_eq!(p.node_access_frequency.get(&1), None);
    assert_eq!(p.node_access_frequency.get(&2), Some(&3));
    assert_eq!(p.temporal_locality_secs.get(&2), Some(&vec![30, 10, 20]));
    // neighbour 2 is the target itself and is skipped; 3 is new.
    assert_eq!(p.spatial_locality.get(&2), Some(&vec![4, 3]));
    assert!(p.spatial_locality.get(&1).is_none());
}

#[test]
fn removing_and_pruning_a_node() {
    let mut p = AccessPatterns::default();
    p.record_access(1, 10, 1000);
    p.record_connection_usage(1, 2);
    p.record_connection_usage(2, 1);
    p.record_connection_usage(2, 3);
    p.record_connection_usage(3, 4);
    let removed = p.prune_node_connections(1);
    assert_eq!(removed, 2);
    assert_eq!(p.connection_usage, vec![((2, 3), 1), ((3, 4), 1)]);
    assert_eq!(p.spatial_locality.get(&2), Some(&vec![3]));
    assert_eq!(p.spatial_locality.get(&1), Some(&vec![2]));
    p.remove_node_data(1);
    assert!(p.node_access_frequency.get(&1).is_none());
    assert!(p.spatial_locality.get(&1).is_none());
    assert!(p.temporal_locality_secs.get(&1).is_none());
}

#[test]
fn pruning_unused_connections() {
    let mut p = AccessPatterns::default();
    p.record_connection_usage(1, 2);
    p.record_connection_usage(1, 2);
    p.record_connection_usage(2, 3);
    p.record_connection_usage(3, 4);
    assert_eq!(p.prune_unused_connections(), 2);
    assert_eq!(p.connection_usage, vec![((1, 2), 2)]);
}

use neuroquantum_core::plasticity::recent_access_count;

#[test]
fn boosting_orders_the_pair() {
    let mut p = AccessPatterns::default();
    p.boost_connection(5, 2, 3);
    p.boost_connection(2, 5, 4);
    assert_eq!(p.connection_usage, vec![((2, 5), 7)]);
}

#[test]
fn recent_accesses_within_window() {
    assert_eq!(recent_access_count(&[100, 200, 290, 400], 300, 100), 3);
    assert_eq!(recent_access_count(&[], 300, 100), 0);
    assert_eq!(recent_access_count(&[0], 1000, 100), 0);
}

#[test]
fn hot_nodes_are_ranked_by_recent_accesses() {
    let mut p = AccessPatterns::default();
    for t in [100, 110, 120] {
        p.record_access(1, t, 1000);
    }
    for t in [50, 115] {
        p.record_access(2, t, 1000);
    }
    p.record_access(3, 119, 1000);
    // now = 120, window = 10: node 1 has 110 and 120, node 2 has 115, node 3 has 119.
    let hot = p.hot_nodes(120, 10, 1);
    assert_eq!(hot[0], (1, 2));
    assert_eq!(hot.len(), 3);
    assert!(hot[1..].contains(&(2, 1)) && hot[1..].contains(&(3, 1)));
    assert_eq!(p.hot_nodes(120, 10, 2), vec![(1, 2)]);
    assert!(p.hot_nodes(120, 10, 3).is_empty());
}

#[test]
fn nodes_ranked_by_access_frequency() {
    let mut p = AccessPatterns::default();
    for _ in 0..3 {
        p.record_access(5, 10, 300);
    }
    p.record_access(9, 10, 300);
    for _ in 0..2 {
        p.record_access(2, 10, 300);
    }
    let ranked = p.nodes_by_frequency();
    assert_eq!(ranked, vec![(5, 3), (2, 2), (9, 1)]);
}

#[test]
fn top_accessed_nodes_takes_a_tenth_but_at_least_one() {
    let empty = AccessPatterns::default();
    assert_eq!(empty.top_accessed_nodes(), vec![]);

    let mut p = AccessPatterns::default();
    for n in 0..25u64 {
        for _ in 0..(n + 1) {
            p.record_access(n, 1, 300);
        }
    }
    // 25 nodes: a tenth is 2.
    assert_eq!(p.top_accessed_nodes(), vec![(24, 25), (23, 24)]);

    let mut q = AccessPatterns::default();
    q.record_access(3, 1, 300);
    q.record_access(4, 1, 300);
    q.record_access(4, 1, 300);
    // 2 nodes: a tenth is 0, so one is kept.
    assert_eq!(q.top_accessed_nodes(), vec![(4, 2)]);
}

#[test]
fn consolidation_merges_removes_and_prunes_in_plan_order() {
    let mut p = AccessPatterns::default();
    p.record_access(1, 10, 300);
    p.record_access(1, 20, 300);
    for t in [11, 12, 13] {
        p.record_access(2, t, 300);
    }
    p.record_access(3, 30, 300);
    for _ in 0..3 {
        p.record_connection_usage(1, 2);
    }
    for _ in 0..5 {
        p.record_connection_usage(3, 4);
    }
    p.record_connection_usage(4, 5);
    for _ in 0..2 {
        p.record_connection_usage(2, 4);
    }
    let plan = [(1, Some(2)), (3, None), (4, None)];
    let (merged, removed, pruned) = consolidate(&mut p, &plan, 2);
    assert_eq!(merged, vec![(1, 2)]);
    assert_eq!(removed, vec![3]);
    // (1,2) with node 1, (3,4) with node 3, then (4,5) used only once.
    assert_eq!(pruned, 3);
    assert_eq!(p.connection_usage, vec![((2, 4), 2)]);
    assert_eq!(p.node_access_frequency.get(&2), Some(&5));
    assert_eq!(p.node_access_frequency.get(&1), None);
    assert_eq!(p.node_access_frequency.get(&3), None);
    assert_eq!(p.temporal_locality_secs.get(&2), Some(&vec![11, 12, 13, 10, 20]));
    assert_eq!(p.spatial_locality.get(&2), Some(&vec![4]));
    assert_eq!(p.spatial_locality.get(&1), None);
    assert_eq!(p.spatial_locality.get(&3), None);
    assert_eq!(p.spatial_locality.get(&4), Some(&vec![5]));
    assert_eq!(memory_freed_bytes(merged.len() + removed.len(), pruned), 2 * 1024 + 3 * 100);
}

#[test]
fn consolidation_with_empty_batch_only_prunes_unused() {
    let mut p = AccessPatterns::default();
    p.record_connection_usage(1, 2);
    p.record_connection_usage(3, 4);
    p.record_connection_usage(3, 4);
    let (merged, removed, pruned) = consolidate(&mut p, &[(1, None)], 0);
    assert!(merged.is_empty());
    assert!(removed.is_empty());
    assert_eq!(pruned, 1);
    assert_eq!(p.connection_usage, vec![((3, 4), 2)]);
}

fn reorganization_records() -> AccessPatterns {
    let mut p = AccessPatterns::default();
    for t in [100, 200, 250] {
        p.record_access(7, t, 300);
    }
    p.record_access(8, 240, 300);
    for t in [255, 256, 257] {
        p.record_access(9, t, 300);
    }
    for n in 1..=6 {
        p.record_connection_usage(7, n);
    }
    p.record_connection_usage(9, 7);
    p
}

#[test]
fn temporal_reorganization_spreads_clusters_and_boosts_connections() {
    let mut p = reorganization_records();
    let mut clusters = ClusterAssignments::new();
    clusters.assignments.insert(9, 40);
    let hot = temporal_reorganize(&mut p, &mut clusters, 260, 100, 2);
    assert_eq!(hot, vec![(9, 3), (7, 2)]);
    // 9 draws 7 into cluster 40; 7 then draws its first five neighbours.
    for n in [9, 7, 1, 2, 3, 4, 5] {
        assert_eq!(clusters.assignments.get(&n), Some(&40), "node {n}");
    }
    assert_eq!(clusters.assignments.get(&6), None);
    assert_eq!(clusters.assignments.get(&8), None);
    assert_eq!(clusters.next_cluster_id, 0);
    let usage = |k: (u64, u64)| p.connection_usage.iter().find(|(key, _)| *key == k).map(|(_, c)| *c);
    assert_eq!(usage((7, 9)), Some(3));
    for n in 1..=6 {
        assert_eq!(usage((n, 7)), Some(2));
        assert_eq!(usage((7, n)), Some(1));
    }
    assert_eq!(usage((9, 7)), Some(1));
}

#[test]
fn temporal_reorganization_opens_fresh_clusters() {
    let mut p = reorganization_records();
    let mut clusters = ClusterAssignments::new();
    let hot = temporal_reorganize(&mut p, &mut clusters, 260, 100, 2);
    assert_eq!(hot, vec![(9, 3), (7, 2)]);
    assert_eq!(clusters.assignments.get(&9), Some(&0));
    assert_eq!(clusters.assignments.get(&7), Some(&1));
    assert_eq!(clusters.assignments.len(), 2);
    assert_eq!(clusters.next_cluster_id, 2);
}

#[test]
fn temporal_reorganization_without_hot_nodes_changes_nothing() {
    let mut p = reorganization_records();
    let before = p.connection_usage.clone();
    let mut clusters = ClusterAssignments::new();
    let hot = temporal_reorganize(&mut p, &mut clusters, 10_000, 100, 1);
    assert!(hot.is_empty());
    assert_eq!(p.connection_usage, before);
    assert!(clusters.assignments.is_empty());
}

#[test]
fn spatial_clustering_follows_the_visiting_order() {
    let mut p = AccessPatterns::default();
    for n in [2, 3, 4] {
        p.record_connection_usage(1, n);
    }
    for n in [4, 6, 7] {
        p.record_connection_usage(5, n);
    }
    p.record_connection_usage(8, 9);
    let mut clusters = ClusterAssignments::new();
    clusters.assignments.insert(100, 7);
    clusters.next_cluster_id = 3;
    assert!(spatial_cluster(&p, &[1, 5, 8], &mut clusters));
    for n in [1, 2, 3] {
        assert_eq!(clusters.assignments.get(&n), Some(&3));
    }
    // Node 4 neighbours both 1 and 5; the later cluster takes it.
    for n in [4, 5, 6, 7] {
        assert_eq!(clusters.assignments.get(&n), Some(&4));
    }
    assert_eq!(clusters.assignments.get(&8), None);
    assert_eq!(clusters.assignments.get(&100), Some(&7));
    assert_eq!(clusters.next_cluster_id, 5);

    let mut other = ClusterAssignments::new();
    assert!(spatial_cluster(&p, &[5, 1], &mut other));
    assert_eq!(other.assignments.get(&4), Some(&1));
    assert_eq!(other.assignments.get(&5), Some(&0));

    let mut none = ClusterAssignments::new();
    assert!(!spatial_cluster(&p, &[8], &mut none));
    assert_eq!(none.next_cluster_id, 0);
}
