use miden_logic::entries::EntriesIterator;
use miden_logic::history::{History, LeafIndex, NodeIndex, TreeEntry};
use miden_logic::word::Word;

fn e(key: Word, value: Word) -> TreeEntry {
    TreeEntry { key, value }
}

fn collect(mut it: EntriesIterator) -> Vec<TreeEntry> {
    let mut out = Vec::new();
    while let Some(entry) = it.next() {
        out.push(entry);
    }
    out
}

/// The entries of the tree at `version`: the current entries merged with the history overlay.
fn historical_entries(full: Vec<TreeEntry>, history: &History, version: u64) -> Vec<TreeEntry> {
    let hist = history.get_view_at(version).unwrap().entries();
    collect(EntriesIterator::new_with_history(full, hist))
}

/// A history holding one version at `version`, reverting the given entries.
fn one_version(version: u64, reverted: Vec<(LeafIndex, Vec<(Word, Word)>)>) -> History {
    let mut history = History::empty(10);
    history.add_version(Word(9, 9, 9, 9), version, Vec::<(NodeIndex, Word)>::new(), reverted).unwrap();
    history
}

#[test]
fn entries_never_returns_empty_entry() {
    let empty = Word::empty();
    let version_1 = 11;
    let version_2 = version_1 + 1;

    // Only historical entries remain: the historical tree was empty.
    let key_1 = Word(5, 6, 7, 40);
    let value_1 = Word(1, 1, 1, 1);
    let key_2 = Word(8, 6, 7, 41);
    let value_2 = Word(2, 2, 2, 2);
    let history = one_version(
        version_1,
        vec![
            (LeafIndex { value: 40 }, vec![(key_1, empty)]),
            (LeafIndex { value: 41 }, vec![(key_2, empty)]),
        ],
    );
    let full = vec![e(key_1, value_1), e(key_2, value_2)];
    assert_eq!(historical_entries(full, &history, version_1).len(), 0);

    // Whole leaves that exist in the history only, with empty values.
    let key_1 = Word(1, 0, 0, 42);
    let value_1 = Word(3, 3, 3, 3);
    let key_2 = Word(2, 0, 0, 43);
    let value_2 = Word(4, 4, 4, 4);
    let history = one_version(version_1, vec![(LeafIndex { value: 43 }, vec![(key_2, empty)])]);
    let full = vec![e(key_1, value_1), e(key_2, value_2)];
    let entries = historical_entries(full, &history, version_1);
    assert_eq!(entries.len(), 1);
    assert!(entries.iter().all(|e| e.value != empty));

    // Entries added within a shared leaf: only the historical entries, and no reversions.
    let key_1 = Word(1, 0, 0, 42);
    let value_1 = Word(5, 5, 5, 5);
    let key_2 = Word(2, 0, 0, 42);
    let value_2 = Word(6, 6, 6, 6);
    let history = one_version(version_1, vec![(LeafIndex { value: 42 }, vec![(key_2, empty)])]);
    let full = vec![e(key_1, value_1), e(key_2, value_2)];
    let entries = historical_entries(full, &history, version_1);
    assert_eq!(entries.len(), 1);
    assert!(entries.iter().all(|e| e.value != empty));
    let _ = version_2;
}

#[test]
fn history_values_override_current_values() {
    let k1 = Word(1, 0, 0, 1);
    let k2 = Word(2, 0, 0, 1);
    let k3 = Word(1, 0, 0, 2);
    let full = vec![e(k1, Word(10, 0, 0, 0)), e(k2, Word(20, 0, 0, 0)), e(k3, Word(30, 0, 0, 0))];
    let history = one_version(3, vec![(LeafIndex { value: 1 }, vec![(k2, Word(21, 0, 0, 0))])]);
    let entries = historical_entries(full, &history, 3);
    assert_eq!(
        entries,
        vec![e(k1, Word(10, 0, 0, 0)), e(k2, Word(21, 0, 0, 0)), e(k3, Word(30, 0, 0, 0))]
    );
}

#[test]
fn history_adds_keys_absent_from_the_current_tree() {
    let k1 = Word(1, 0, 0, 5);
    let k0 = Word(0, 0, 0, 3);
    let full = vec![e(k1, Word(1, 1, 1, 1))];
    let history = one_version(3, vec![(LeafIndex { value: 3 }, vec![(k0, Word(7, 7, 7, 7))])]);
    let entries = historical_entries(full, &history, 3);
    assert_eq!(entries, vec![e(k0, Word(7, 7, 7, 7)), e(k1, Word(1, 1, 1, 1))]);
}

#[test]
fn without_history_yields_the_current_entries() {
    let full = vec![e(Word(1, 0, 0, 1), Word(2, 0, 0, 0)), e(Word(3, 0, 0, 4), Word(5, 0, 0, 0))];
    assert_eq!(collect(EntriesIterator::new_without_history(full.clone())), full);
    assert!(collect(EntriesIterator::new_without_history(Vec::new())).is_empty());
}

#[test]
fn an_exhausted_iterator_stays_exhausted() {
    let mut it = EntriesIterator::new_with_history(Vec::new(), Vec::new());
    assert!(it.next().is_none());
    assert!(it.next().is_none());
}

#[test]
fn keys_equal_in_canonical_form_are_one_key() {
    let p = miden_logic::felt::FELT_ORDER;
    let full = vec![e(Word(1, 0, 0, 4), Word(5, 5, 5, 5))];
    let hist = vec![e(Word(p + 1, 0, 0, p + 4), Word(6, 6, 6, 6))];
    let out = collect(EntriesIterator::new_with_history(full.clone(), hist));
    assert_eq!(out, vec![e(Word(p + 1, 0, 0, p + 4), Word(6, 6, 6, 6))]);
    let removed = vec![e(Word(p + 1, 0, 0, 4), Word(p, 0, p, 0))];
    assert_eq!(collect(EntriesIterator::new_with_history(full, removed)), vec![]);
}
