use miden_logic::history::{
    group_pairs_by_leaf, node_changes_from_mutations, History, HistoryError, LeafIndex, NodeIndex,
    word_less, NodeMutation, TreeEntry,
};
use miden_logic::felt::FELT_ORDER;
use miden_logic::word::Word;

type Leaves = Vec<(LeafIndex, Vec<(Word, Word)>)>;

fn w(a: u64) -> Word {
    Word(a, a + 1, a + 2, a + 3)
}

fn no_nodes() -> Vec<(NodeIndex, Word)> {
    Vec::new()
}

fn no_leaves() -> Leaves {
    Vec::new()
}

fn node(depth: u8, value: u64) -> NodeIndex {
    NodeIndex { depth, value }
}

#[test]
fn empty() {
    let history = History::empty(5);
    assert_eq!(history.num_versions(), 0);
    assert_eq!(history.max_versions(), 5);
}

#[test]
fn tests_roots() {
    let mut history = History::empty(2);
    let root_1 = w(10);
    let root_2 = w(20);
    history.add_version(root_1, 0, no_nodes(), no_leaves()).unwrap();
    history.add_version(root_2, 1, no_nodes(), no_leaves()).unwrap();

    let roots = history.roots();
    assert_eq!(roots.len(), 2);
    assert!(roots.contains(&root_1));
    assert!(roots.contains(&root_2));
}

#[test]
fn find_latest_corresponding_version() {
    let mut history = History::empty(5);
    let (v1, v2, v3, v4, v5) = (10, 20, 30, 31, 45);
    for (i, v) in [v1, v2, v3, v4, v5].into_iter().enumerate() {
        history.add_version(w(i as u64), v, no_nodes(), no_leaves()).unwrap();
    }

    assert!(history.find_latest_corresponding_version(0).is_err());
    assert!(history.find_latest_corresponding_version(9).is_err());

    assert_eq!(history.find_latest_corresponding_version(v1), Ok(0));
    assert_eq!(history.find_latest_corresponding_version(v2), Ok(1));
    assert_eq!(history.find_latest_corresponding_version(v3), Ok(2));
    assert_eq!(history.find_latest_corresponding_version(v4), Ok(3));
    assert_eq!(history.find_latest_corresponding_version(v5), Ok(4));

    assert_eq!(history.find_latest_corresponding_version(11), Ok(0));
    assert_eq!(history.find_latest_corresponding_version(19), Ok(0));
    assert_eq!(history.find_latest_corresponding_version(21), Ok(1));
    assert_eq!(history.find_latest_corresponding_version(29), Ok(1));
    assert_eq!(history.find_latest_corresponding_version(32), Ok(3));
    assert_eq!(history.find_latest_corresponding_version(44), Ok(3));
    assert_eq!(history.find_latest_corresponding_version(46), Ok(4));
}

#[test]
fn add_version() {
    let mut history = History::empty(2);
    assert_eq!(history.num_versions(), 0);
    assert_eq!(history.max_versions(), 2);

    let (root_1, id_1) = (w(1), 0);
    history.add_version(root_1, id_1, no_nodes(), no_leaves()).unwrap();
    assert_eq!(history.num_versions(), 1);

    let (root_2, id_2) = (w(2), 1);
    history.add_version(root_2, id_2, no_nodes(), no_leaves()).unwrap();
    assert_eq!(history.num_versions(), 2);

    let (root_3, id_3) = (w(3), 2);
    history.add_version(root_3, id_3, no_nodes(), no_leaves()).unwrap();
    assert_eq!(history.num_versions(), 2);

    assert!(history.get_view_at(id_1).is_err());
    assert!(history.get_view_at(id_2).is_ok());
    assert!(history.get_view_at(id_3).is_ok());

    assert!(history.add_version(root_3, id_1, no_nodes(), no_leaves()).is_err());
}

#[test]
fn truncate() {
    let mut history = History::empty(4);
    let (id_1, id_2, id_3, id_4) = (5, 10, 15, 20);
    history.add_version(w(1), id_1, no_nodes(), no_leaves()).unwrap();
    history.add_version(w(2), id_2, no_nodes(), no_leaves()).unwrap();
    history.add_version(w(3), id_3, no_nodes(), no_leaves()).unwrap();
    history.add_version(w(4), id_4, no_nodes(), no_leaves()).unwrap();
    assert_eq!(history.num_versions(), 4);

    assert_eq!(history.truncate(0), 0);
    assert_eq!(history.num_versions(), 4);
    assert_eq!(history.truncate(4), 0);
    assert_eq!(history.num_versions(), 4);
    assert_eq!(history.truncate(id_1), 0);
    assert_eq!(history.num_versions(), 4);

    assert_eq!(history.truncate(id_2), 1);
    assert_eq!(history.num_versions(), 3);

    assert_eq!(history.truncate(16), 1);
    assert_eq!(history.num_versions(), 2);

    assert_eq!(history.truncate(25), 1);
    assert_eq!(history.num_versions(), 1);
}

#[test]
fn clear() {
    let mut history = History::empty(4);
    history.add_version(w(1), 0, no_nodes(), no_leaves()).unwrap();
    history.add_version(w(2), 1, no_nodes(), no_leaves()).unwrap();
    assert_eq!(history.num_versions(), 2);

    history.clear();
    assert_eq!(history.num_versions(), 0);
}

#[test]
fn view_at() {
    let mut history = History::empty(3);
    assert_eq!(history.num_versions(), 0);
    assert_eq!(history.max_versions(), 3);

    // First version: changes to nodes and to two leaves.
    let (root_1, id_1) = (w(1000), 3);
    let (n1_value, n2_value) = (w(1100), w(1200));
    let nodes_1 = vec![(node(2, 1), n1_value), (node(8, 128), n2_value)];

    let l1_e1_key = Word(1, 0, 0, 100);
    let l1_e1_value = w(2100);
    let leaf_1_ix = LeafIndex::from_key(&l1_e1_key);
    let leaf_1 = vec![(l1_e1_key, l1_e1_value)];

    let l2_e1_key = Word(2, 0, 0, 200);
    let l2_e1_value = w(2200);
    let leaf_2_ix = LeafIndex::from_key(&l2_e1_key);
    let l2_e2_key = Word(3, 0, 0, 200);
    let l2_e2_value = w(2300);
    let leaf_2 = vec![(l2_e1_key, l2_e1_value), (l2_e2_key, l2_e2_value)];

    let leaves_1 = vec![(leaf_1_ix, leaf_1.clone()), (leaf_2_ix, leaf_2.clone())];
    history.add_version(root_1, id_1, nodes_1, leaves_1).unwrap();
    assert_eq!(history.num_versions(), 1);

    // Second version, overlapping the first.
    let (root_2, id_2) = (w(3000), 5);
    let (n3_value, n4_value) = (w(3100), w(3200));
    let nodes_2 = vec![(node(2, 1), n3_value), (node(10, 256), n4_value)];
    let l3_e1_key = Word(4, 0, 0, 200);
    let l3_e1_value = w(3300);
    let leaves_2 = vec![(leaf_2_ix, vec![(l3_e1_key, l3_e1_value)])];
    history.add_version(root_2, id_2, nodes_2, leaves_2).unwrap();
    assert_eq!(history.num_versions(), 2);

    // Third version.
    let (root_3, id_3) = (w(4000), 6);
    let n5_value = w(4100);
    let nodes_3 = vec![(node(30, 1), n5_value)];
    let l4_e1_key = Word(5, 0, 0, 300);
    let l4_e1_value = w(4200);
    let leaf_4_ix = LeafIndex::from_key(&l4_e1_key);
    let leaf_4 = vec![(l4_e1_key, l4_e1_value)];
    let l1n_e1_key = l1_e1_key;
    let l1n_e1_value = w(4300);
    let leaves_3 = vec![(leaf_4_ix, leaf_4.clone()), (leaf_1_ix, vec![(l1n_e1_key, l1n_e1_value)])];
    history.add_version(root_3, id_3, nodes_3, leaves_3).unwrap();
    assert_eq!(history.num_versions(), 3);

    assert!(history.get_view_at(2).is_err());

    let view = history.get_view_at(id_1).unwrap();
    assert_eq!(view.node_value(&node(2, 1)), Some(n1_value));
    assert_eq!(view.node_value(&node(8, 128)), Some(n2_value));
    assert_eq!(view.node_value(&node(10, 256)), Some(n4_value));
    assert_eq!(view.node_value(&node(30, 1)), Some(n5_value));
    assert!(view.node_value(&node(45, 100)).is_none());

    assert_eq!(view.leaf_delta(&leaf_1_ix), leaf_1);
    let leaf_2_delta = vec![
        (l2_e1_key, l2_e1_value),
        (l2_e2_key, l2_e2_value),
        (l3_e1_key, l3_e1_value),
    ];
    assert_eq!(view.leaf_delta(&leaf_2_ix), leaf_2_delta);
    assert_eq!(view.leaf_delta(&leaf_4_ix), leaf_4);
    assert!(view.leaf_delta(&LeafIndex { value: 1024 }).is_empty());

    assert_eq!(view.value(&l1_e1_key), Some(l1_e1_value));
    assert_eq!(view.value(&l2_e1_key), Some(l2_e1_value));
    assert_eq!(view.value(&l2_e2_key), Some(l2_e2_value));
    let ne_key_in_existing_leaf = Word(9, 9, 9, 100);
    assert_eq!(view.value(&ne_key_in_existing_leaf), None);
    assert_eq!(view.value(&l4_e1_key), Some(l4_e1_value));
    assert!(view.value(&Word(7, 7, 7, 999)).is_none());

    let view = history.get_view_at(7).unwrap();
    assert_eq!(view.node_value(&node(30, 1)), Some(n5_value));
    assert!(view.node_value(&node(30, 2)).is_none());

    let view = history.get_view_at(id_3).unwrap();
    let entries = view.entries();
    assert_eq!(entries.len(), 2);
    assert!(entries.contains(&TreeEntry { key: l4_e1_key, value: l4_e1_value }));
    assert!(entries.contains(&TreeEntry { key: l1n_e1_key, value: l1n_e1_value }));
    for pair in entries.windows(2) {
        let (l, r) = (pair[0], pair[1]);
        assert!(l.index().value < r.index().value || (l.index() == r.index() && l.key.0 < r.key.0));
    }
}

#[test]
fn entries_of_the_oldest_view_are_sorted_by_leaf_then_key() {
    let mut history = History::empty(3);
    let a = (Word(9, 0, 0, 50), w(1));
    let b = (Word(1, 0, 0, 50), w(2));
    let c = (Word(4, 0, 0, 10), w(3));
    history.add_version(w(100), 1, no_nodes(), vec![(LeafIndex { value: 50 }, vec![b, a])]).unwrap();
    history.add_version(w(200), 2, no_nodes(), vec![(LeafIndex { value: 10 }, vec![c])]).unwrap();
    let entries = history.get_view_at(1).unwrap().entries();
    let keys: Vec<Word> = entries.iter().map(|e| e.key).collect();
    assert_eq!(keys, vec![c.0, b.0, a.0]);
}

#[test]
fn non_monotonic_version_reports_both_versions() {
    let mut history = History::empty(2);
    history.add_version(w(1), 7, no_nodes(), no_leaves()).unwrap();
    assert_eq!(
        history.add_version(w(2), 7, no_nodes(), no_leaves()),
        Err(HistoryError::NonMonotonicVersions(7, 7))
    );
    assert_eq!(history.root_for_version(3), Err(HistoryError::VersionTooOld));
    assert_eq!(history.root_for_version(8), Ok(w(1)));
}

#[test]
fn a_history_of_zero_versions_keeps_none() {
    let mut history = History::empty(0);
    assert_eq!(history.add_version(w(1), 1, no_nodes(), no_leaves()), Ok(()));
    assert_eq!(history.num_versions(), 0);
    assert!(history.num_versions() <= history.max_versions());
    assert_eq!(history.add_version(w(2), 2, no_nodes(), no_leaves()), Ok(()));
    assert_eq!(history.num_versions(), 0);
    assert_eq!(history.roots(), Vec::<Word>::new());
}

#[test]
fn known_roots_and_roots_newest_first() {
    let mut history = History::empty(3);
    history.add_version(w(1), 1, no_nodes(), no_leaves()).unwrap();
    history.add_version(w(2), 2, no_nodes(), no_leaves()).unwrap();
    assert_eq!(history.roots(), vec![w(2), w(1)]);
    assert!(history.is_known_root(w(1)));
    assert!(!history.is_known_root(w(3)));
}

#[test]
fn added_version_serves_later_queries() {
    let mut history = History::empty(2);
    history.add_version(w(1), 10, no_nodes(), no_leaves()).unwrap();
    history.add_version(w(2), 20, no_nodes(), no_leaves()).unwrap();
    for v in [20, 21, 1000] {
        assert_eq!(history.root_for_version(v), Ok(w(2)));
    }
}

#[test]
fn truncate_keeps_later_queries() {
    let mut history = History::empty(4);
    for (i, v) in [5u64, 10, 15, 20].into_iter().enumerate() {
        history.add_version(w(i as u64), v, no_nodes(), no_leaves()).unwrap();
    }
    let before: Vec<_> = (12..25).map(|v| history.root_for_version(v)).collect();
    history.truncate(12);
    let after: Vec<_> = (12..25).map(|v| history.root_for_version(v)).collect();
    assert_eq!(before, after);
}

#[test]
fn add_version_from_mutation_set() {
    let l1_k1 = Word(7, 1, 1, 11);
    let leaf_1_ix = LeafIndex::from_key(&l1_k1);
    let l1_v1 = w(100);
    let l1_k2 = Word(3, 9, 9, 11);
    let l1_v2 = w(200);
    let l2_k1 = Word(5, 5, 5, 4);
    let leaf_2_ix = LeafIndex::from_key(&l2_k1);
    let l2_v1 = w(300);
    let l2_k2 = Word(1, 2, 3, 4);
    let l2_v2 = w(400);

    let mut history = History::empty(2);
    let version = 77;
    history
        .add_version_from_mutation_set(
            version,
            w(9),
            vec![(node(3, 1), w(10))],
            vec![(l1_k1, l1_v1), (l1_k2, l1_v2), (l2_k1, l2_v1), (l2_k2, l2_v2)],
        )
        .unwrap();

    let view = history.get_view_at(version).unwrap();
    assert_eq!(view.leaf_delta(&leaf_1_ix), vec![(l1_k1, l1_v1), (l1_k2, l1_v2)]);
    assert_eq!(view.leaf_delta(&leaf_2_ix), vec![(l2_k2, l2_v2), (l2_k1, l2_v1)]);
    assert_eq!(view.node_value(&node(3, 1)), Some(w(10)));
    assert_eq!(history.root_for_version(version), Ok(w(9)));
}

#[test]
fn grouping_keeps_the_last_value_of_a_key() {
    let k = Word(1, 0, 0, 5);
    let groups = group_pairs_by_leaf(&vec![(k, w(1)), (Word(0, 0, 0, 2), w(2)), (k, w(3))]);
    assert_eq!(
        groups,
        vec![(LeafIndex { value: 2 }, vec![(Word(0, 0, 0, 2), w(2))]), (LeafIndex { value: 5 }, vec![(k, w(3))])]
    );
}

#[test]
fn removed_nodes_become_empty_subtree_roots() {
    let empty_roots = vec![w(100), w(200), w(300)];
    let a = NodeIndex { depth: 2, value: 1 };
    let b = NodeIndex { depth: 1, value: 0 };
    let changes = node_changes_from_mutations(
        &vec![(a, NodeMutation::Removal), (b, NodeMutation::Addition(w(9))), (b, NodeMutation::Removal)],
        &empty_roots,
    );
    assert_eq!(changes, vec![(a, w(300)), (b, w(9)), (b, w(200))]);
}

#[test]
fn keys_are_placed_and_ordered_by_their_canonical_form() {
    let p = FELT_ORDER;
    assert_eq!(LeafIndex::from_key(&Word(0, 0, 0, p + 5)), LeafIndex { value: 5 });
    assert_eq!(TreeEntry { key: Word(1, 2, 3, p), value: w(0) }.index(), LeafIndex { value: 0 });
    assert!(word_less(&Word(0, 0, 0, p + 1), &Word(0, 0, 0, 2)));
    assert!(!word_less(&Word(p + 3, 0, 0, 0), &Word(3, 0, 0, 0)));
    assert!(!word_less(&Word(3, 0, 0, 0), &Word(p + 3, 0, 0, 0)));
}

#[test]
fn pairs_with_equal_canonical_keys_are_one_key() {
    let p = FELT_ORDER;
    let grouped = group_pairs_by_leaf(&vec![(Word(1, 0, 0, 4), w(10)), (Word(p + 1, 0, 0, p + 4), w(20))]);
    assert_eq!(grouped, vec![(LeafIndex { value: 4 }, vec![(Word(1, 0, 0, 4), w(20))])]);
}

#[test]
fn roots_and_values_are_found_by_canonical_form() {
    let p = FELT_ORDER;
    let mut history = History::empty(3);
    let leaves = vec![(LeafIndex { value: 4 }, vec![(Word(p + 1, 0, 0, 4), w(7))])];
    history.add_version(Word(1, 2, 3, 4), 1, no_nodes(), leaves).unwrap();
    assert!(history.is_known_root(Word(p + 1, 2, 3, 4)));
    let view = history.get_view_at(1).unwrap();
    assert_eq!(view.value(&Word(1, 0, 0, p + 4)), Some(w(7)));
    assert_eq!(view.value(&Word(2, 0, 0, 4)), None);
}
