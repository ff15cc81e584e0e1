use miden_logic::forest::{LargeSmtForest, LineageData, LineageId, RootInfo, TreeId};
use miden_logic::forest_error::{BackendError, LargeSmtForestError};
use miden_logic::history::{History, HistoryError, LeafIndex, NodeIndex};
use miden_logic::word::Word;

type Leaves = Vec<(LeafIndex, Vec<(Word, Word)>)>;

const MAX_HISTORY: usize = 10;

fn w(a: u64) -> Word {
    Word(a, a * 3, a * 5, a * 7)
}

fn lineage(b: u8) -> LineageId {
    LineageId::new([b; 32])
}

/// The data of a lineage that was added at the first version with the first root and then
/// updated to each later version with its root.
fn lineage_data(versions: &[(u64, Word)]) -> LineageData {
    let mut history = History::empty(MAX_HISTORY);
    for &(v, root) in &versions[..versions.len() - 1] {
        history.add_version(root, v, Vec::<(NodeIndex, Word)>::new(), Leaves::new()).unwrap();
    }
    let (latest_version, latest_root) = versions[versions.len() - 1];
    LineageData::new(history, latest_version, latest_root)
}

fn root_pairs(forest: &LargeSmtForest) -> Vec<([u8; 32], Word)> {
    forest.roots().into_iter().map(|(l, r)| (l.bytes, r)).collect()
}

#[test]
fn forest_roots() {
    let empty_root = w(1);
    let version_1 = 40;
    let version_2 = version_1 + 1;
    let root_4 = w(2);
    let forest = LargeSmtForest::from_lineages(vec![
        (lineage(1), lineage_data(&[(version_1, empty_root), (version_2, root_4)])),
        (lineage(2), lineage_data(&[(version_1, empty_root)])),
        (lineage(3), lineage_data(&[(version_1, empty_root)])),
    ]);

    let roots = root_pairs(&forest);
    assert_eq!(roots.len(), 4);
    assert!(roots.contains(&([1; 32], empty_root)));
    assert!(roots.contains(&([2; 32], empty_root)));
    assert!(roots.contains(&([3; 32], empty_root)));
    assert!(roots.contains(&([1; 32], root_4)));
}

#[test]
fn latest_version() {
    let version_1 = 7;
    let version_2 = version_1 + 1;
    let version_3 = version_2 + 1;
    let forest = LargeSmtForest::from_lineages(vec![
        (lineage(1), lineage_data(&[(version_1, w(1)), (version_2, w(2)), (version_3, w(3))])),
        (lineage(2), lineage_data(&[(version_1, w(1))])),
        (lineage(3), lineage_data(&[(version_1, w(4)), (version_3, w(5))])),
    ]);

    assert_eq!(forest.latest_version(lineage(1)).unwrap(), version_3);
    assert_eq!(forest.latest_version(lineage(2)).unwrap(), version_1);
    assert_eq!(forest.latest_version(lineage(3)).unwrap(), version_3);
    assert!(forest.latest_version(lineage(9)).is_none());
}

#[test]
fn lineage_roots() {
    let version_1 = 100;
    let (root_1, root_2, root_3) = (w(1), w(2), w(3));
    let forest = LargeSmtForest::from_lineages(vec![(
        lineage(1),
        lineage_data(&[(version_1, root_1), (version_1 + 1, root_2), (version_1 + 2, root_3)]),
    )]);

    let lineage_roots = forest.lineage_roots(lineage(1)).expect("Existing lineage should have roots");
    assert_eq!(lineage_roots.len(), 3);
    assert_eq!(lineage_roots[0], root_3);
    assert_eq!(lineage_roots[1], root_2);
    assert_eq!(lineage_roots[2], root_1);
    assert!(forest.lineage_roots(lineage(9)).is_none());
}

#[test]
fn latest_root() {
    let forest = LargeSmtForest::from_lineages(vec![(lineage(1), lineage_data(&[(5, w(1))]))]);
    assert_eq!(forest.latest_root(lineage(1)), Some(w(1)));

    let forest =
        LargeSmtForest::from_lineages(vec![(lineage(1), lineage_data(&[(5, w(1)), (6, w(2))]))]);
    assert_eq!(forest.latest_root(lineage(1)), Some(w(2)));
    assert!(forest.latest_root(lineage(9)).is_none());
}

#[test]
fn tree_count() {
    let empty = LargeSmtForest::from_lineages(Vec::new());
    assert_eq!(empty.tree_count(), 0);

    let forest = LargeSmtForest::from_lineages(vec![
        (lineage(1), lineage_data(&[(1, w(1)), (2, w(2)), (3, w(3))])),
        (lineage(2), lineage_data(&[(1, w(1))])),
    ]);
    assert_eq!(forest.tree_count(), 4);
}

#[test]
fn lineage_count() {
    let empty = LargeSmtForest::from_lineages(Vec::new());
    assert_eq!(empty.lineage_count(), 0);

    let forest = LargeSmtForest::from_lineages(vec![
        (lineage(1), lineage_data(&[(3, w(1))])),
        (lineage(2), lineage_data(&[(3, w(1))])),
        (lineage(3), lineage_data(&[(3, w(1))])),
    ]);
    assert_eq!(forest.lineage_count(), 3);

    let forest = LargeSmtForest::from_lineages(vec![
        (lineage(1), lineage_data(&[(3, w(1)), (4, w(2))])),
        (lineage(2), lineage_data(&[(3, w(1))])),
        (lineage(3), lineage_data(&[(3, w(1))])),
    ]);
    assert_eq!(forest.lineage_count(), 3);
}

#[test]
fn root_info() {
    let version_1 = 50;
    let version_2 = version_1 + 1;
    let (historical_root, current_root) = (w(1), w(2));
    let forest = LargeSmtForest::from_lineages(vec![(
        lineage(1),
        lineage_data(&[(version_1, historical_root), (version_2, current_root)]),
    )]);

    assert_eq!(
        forest.root_info(TreeId::new(lineage(1), version_1)),
        RootInfo::HistoricalVersion(historical_root)
    );
    assert_eq!(
        forest.root_info(TreeId::new(lineage(1), version_2)),
        RootInfo::LatestVersion(current_root)
    );
    assert_eq!(forest.root_info(TreeId::new(lineage(1), version_2 + 1)), RootInfo::Missing);
    assert_eq!(forest.root_info(TreeId::new(lineage(2), version_1)), RootInfo::Missing);
}

#[test]
fn root_info_before_the_history_is_missing() {
    let forest = LargeSmtForest::from_lineages(vec![(
        lineage(1),
        lineage_data(&[(10, w(1)), (20, w(2))]),
    )]);
    assert_eq!(forest.root_info(TreeId::new(lineage(1), 9)), RootInfo::Missing);
    assert_eq!(forest.root_info(TreeId::new(lineage(1), 15)), RootInfo::HistoricalVersion(w(1)));
}

#[test]
fn historical_roots_are_newest_first() {
    let forest = LargeSmtForest::from_lineages(vec![(
        lineage(1),
        lineage_data(&[(1, w(1)), (2, w(2)), (3, w(3))]),
    )]);
    assert_eq!(forest.historical_roots(lineage(1)), Some(vec![w(2), w(1)]));
    assert_eq!(forest.historical_roots(lineage(2)), None);
}

#[test]
fn truncate_keeps_later_information() {
    let mut forest = LargeSmtForest::from_lineages(vec![
        (lineage(1), lineage_data(&[(1, w(1)), (2, w(2)), (3, w(3)), (4, w(4))])),
        (lineage(2), lineage_data(&[(1, w(5)), (2, w(6))])),
    ]);
    let queries: Vec<TreeId> = (2..6)
        .flat_map(|v| [TreeId::new(lineage(1), v), TreeId::new(lineage(2), v)])
        .collect();
    let before: Vec<RootInfo> = queries.iter().map(|t| forest.root_info(*t)).collect();
    forest.truncate(2);
    let after: Vec<RootInfo> = queries.iter().map(|t| forest.root_info(*t)).collect();
    assert_eq!(before, after);
    assert_eq!(forest.root_info(TreeId::new(lineage(1), 1)), RootInfo::Missing);
    assert_eq!(forest.lineage_count(), 2);
    assert_eq!(forest.tree_count(), 4);
}

#[test]
fn lineage_truncate_at_the_latest_version_clears_history() {
    let mut data = lineage_data(&[(1, w(1)), (2, w(2))]);
    assert!(data.truncate(2));
    assert_eq!(data.roots(), vec![w(2)]);
    let mut data = lineage_data(&[(1, w(1)), (2, w(2)), (3, w(3))]);
    assert!(!data.truncate(2));
    assert_eq!(data.roots(), vec![w(3), w(2)]);
}

#[test]
fn lineage_identity_compares_bytes() {
    assert!(lineage(4).same_as(&lineage(4)));
    assert!(!lineage(4).same_as(&lineage(5)));
}

#[test]
fn backend_errors_are_forwarded() {
    let e: LargeSmtForestError = BackendError::Merkle("bad path".to_string()).into();
    assert!(matches!(e, LargeSmtForestError::MerkleError(ref m) if m == "bad path"));
    let e: LargeSmtForestError = BackendError::Other("disk".to_string()).into();
    assert!(matches!(e, LargeSmtForestError::Other(ref m) if m == "disk"));
    let e: LargeSmtForestError = HistoryError::VersionTooOld.into();
    assert!(matches!(e, LargeSmtForestError::HistoryError(HistoryError::VersionTooOld)));
}
