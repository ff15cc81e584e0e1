use miden_logic::forest::LineageId;
use miden_logic::history::TreeEntry;
use miden_logic::leaf_table::{lineage_entries, LeafRow};
use miden_logic::word::Word;

fn row(lineage: u8, entries: Vec<(Word, Word)>) -> LeafRow {
    LeafRow { lineage: LineageId::new([lineage; 32]), leaf_entries: entries }
}

#[test]
fn rows_of_other_lineages_are_skipped_and_leaves_sorted() {
    let k = |a: u64, leaf: u64| Word(a, 0, 0, leaf);
    let v = |a: u64| Word(a, a, a, a);
    let rows = vec![
        row(1, vec![(k(5, 1), v(1)), (k(2, 1), v(2))]),
        row(2, vec![(k(1, 2), v(3))]),
        row(1, vec![(k(9, 3), v(4)), (Word(0, 1, 0, 3), v(5)), (k(3, 3), v(6))]),
    ];
    let entries = lineage_entries(&LineageId::new([1; 32]), &rows);
    let keys: Vec<Word> = entries.iter().map(|e| e.key).collect();
    assert_eq!(keys, vec![k(2, 1), k(5, 1), k(3, 3), k(9, 3), Word(0, 1, 0, 3)]);
    assert_eq!(entries[0], TreeEntry { key: k(2, 1), value: v(2) });
    assert!(lineage_entries(&LineageId::new([7; 32]), &rows).is_empty());
}

#[test]
fn leaf_entries_are_sorted_by_canonical_keys() {
    let p = miden_logic::felt::FELT_ORDER;
    let v = Word(9, 9, 9, 9);
    let rows = vec![row(1, vec![(Word(p + 2, 0, 0, 0), v), (Word(1, 0, 0, 0), v)])];
    let entries = lineage_entries(&LineageId::new([1; 32]), &rows);
    assert_eq!(
        entries,
        vec![TreeEntry { key: Word(1, 0, 0, 0), value: v }, TreeEntry { key: Word(p + 2, 0, 0, 0), value: v }]
    );
}
