//! The history of a Merkle tree: a bounded sequence of versions behind the current tree.
//!
//! Each version is a _delta_ from the newer state: the node values and leaf entries that revert
//! the changes made since that version. Deltas are cumulative, so the state at a version is the
//! current tree overlaid by every delta from that version to the newest, the oldest change of a
//! node or key winning.
use vstd::prelude::*;
use crate::word::{canonical_word, Word};
use std::collections::VecDeque;

verus! {

// INDICES AND ENTRIES
// ================================================================================================

/// The index of a leaf of the depth-64 sparse Merkle tree.
#[derive(Debug, Clone, Copy, PartialEq, Eq, Structural)]
pub struct LeafIndex {
    /// Position of the leaf at depth 64.
    pub value: u64,
}

/// The index of a node of a Merkle tree: its depth and its position at that depth.
#[derive(Debug, Clone, Copy, PartialEq, Eq, Structural)]
pub struct NodeIndex {
    /// Depth of the node.
    pub depth: u8,
    /// Position of the node at its depth.
    pub value: u64,
}

/// A key-value entry of a tree.
#[derive(Debug, Clone, Copy, PartialEq, Eq, Structural)]
pub struct TreeEntry {
    /// The key.
    pub key: Word,
    /// The value.
    pub value: Word,
}

/// The leaf a key in canonical form belongs to: the position given by its most significant
/// element.
pub open spec fn leaf_of(key: Word) -> LeafIndex {
    LeafIndex { value: key.3 }
}

impl LeafIndex {
    /// Returns the leaf a key belongs to: the canonical value of its most significant element.
    pub fn from_key(key: &Word) -> (r: LeafIndex)
        ensures
            r == leaf_of(canonical_word(*key)),
    {
        LeafIndex { value: key.canonical().3 }
    }
}

impl TreeEntry {
    /// Returns the leaf the entry belongs to.
    pub fn index(&self) -> (r: LeafIndex)
        ensures
            r == leaf_of(canonical_word(self.key)),
    {
        LeafIndex::from_key(&self.key)
    }
}

/// The order of keys in canonical form: by their elements from the most significant (the last)
/// to the least.
pub open spec fn word_lt(a: Word, b: Word) -> bool {
    a.3 < b.3 || (a.3 == b.3 && (a.2 < b.2 || (a.2 == b.2 && (a.1 < b.1 || (a.1 == b.1 && a.0 < b.0)))))
}

/// Returns true when `a` comes before `b` in the order of keys: their canonical forms compared
/// from the most significant element to the least.
pub fn word_less(a: &Word, b: &Word) -> (r: bool)
    ensures
        r == word_lt(canonical_word(*a), canonical_word(*b)),
{
    key_less(&a.canonical(), &b.canonical())
}

/// Compares keys already held in canonical form.
pub(crate) fn key_less(a: &Word, b: &Word) -> (r: bool)
    ensures
        r == word_lt(*a, *b),
{
    a.3 < b.3 || (a.3 == b.3 && (a.2 < b.2 || (a.2 == b.2 && (a.1 < b.1 || (a.1 == b.1 && a.0 < b.0)))))
}

pub(crate) proof fn lemma_word_order(a: Word, b: Word, c: Word)
    ensures
        !word_lt(a, a),
        a != b ==> word_lt(a, b) || word_lt(b, a),
        word_lt(a, b) ==> !word_lt(b, a),
        word_lt(a, b) && word_lt(b, c) ==> word_lt(a, c),
{
}

// ERRORS
// ================================================================================================

/// Errors of the history.
#[derive(Debug, Clone, Copy, PartialEq, Eq, Structural)]
pub enum HistoryError {
    /// A version was added that is not newer than the newest one: the added version, then the
    /// newest one.
    NonMonotonicVersions(u64, u64),
    /// The history holds no version old enough to serve the requested one.
    VersionTooOld,
}

// DELTAS
// ================================================================================================

/// The changes that revert the state after a version to the state at that version.
#[derive(Debug)]
pub struct Delta {
    /// The root of the tree at this version.
    pub root: Word,
    /// The version.
    pub version_id: u64,
    /// Values of non-leaf nodes at this version, by node.
    pub nodes: Vec<(NodeIndex, Word)>,
    /// Entries of leaves at this version, by leaf: the key-value pairs of each changed leaf.
    pub leaves: Vec<(LeafIndex, Vec<(Word, Word)>)>,
}

impl Delta {
    /// Creates a delta.
    pub fn new(root: Word, version_id: u64, nodes: Vec<(NodeIndex, Word)>, leaves: Vec<(LeafIndex, Vec<(Word, Word)>)>) -> (r: Self)
        ensures
            r == (Delta { root, version_id, nodes, leaves }),
    {
        Delta { root, version_id, nodes, leaves }
    }
}

/// True when the versions of the deltas strictly increase from the oldest to the newest.
pub open spec fn versions_increasing(deltas: Seq<Delta>) -> bool {
    forall|i: int, j: int| 0 <= i < j < deltas.len() ==> deltas[i].version_id < deltas[j].version_id
}

/// The number of deltas whose version is at most `v`, found as the position of the first delta
/// newer than `v`.
#[verifier::opaque]
pub open spec fn count_at_most(deltas: Seq<Delta>, v: u64) -> nat {
    if exists|i: int| 0 <= i < deltas.len() && deltas[i].version_id > v {
        (choose|i: int| 0 <= i < deltas.len() && deltas[i].version_id > v && forall|j: int| 0 <= j < i ==> deltas[j].version_id <= v) as nat
    } else {
        deltas.len()
    }
}

/// The index of the delta that serves queries at version `v`: the newest delta whose version is
/// at most `v`. Without one (no delta, or `v` older than the oldest) the version is too old.
pub open spec fn corresponding_index(deltas: Seq<Delta>, v: u64) -> Result<int, HistoryError> {
    if deltas.len() == 0 || deltas[0].version_id > v {
        Err(HistoryError::VersionTooOld)
    } else {
        Ok(count_at_most(deltas, v) - 1)
    }
}

proof fn lemma_count_at_most(deltas: Seq<Delta>, v: u64, k: int)
    requires
        0 <= k <= deltas.len(),
        forall|j: int| 0 <= j < k ==> deltas[j].version_id <= v,
        k < deltas.len() ==> deltas[k].version_id > v,
    ensures
        count_at_most(deltas, v) == k,
{
    reveal(count_at_most);
    if k < deltas.len() {
        let c = choose|i: int| 0 <= i < deltas.len() && deltas[i].version_id > v && forall|j: int| 0 <= j < i ==> deltas[j].version_id <= v;
        assert(0 <= c < deltas.len() && deltas[c].version_id > v && forall|j: int| 0 <= j < c ==> deltas[j].version_id <= v);
        if c < k {
            assert(deltas[c].version_id <= v);
        } else if c > k {
            assert(deltas[k].version_id <= v);
        }
    }
}

/// In increasing versions, the deltas counted by [`count_at_most`] are exactly those at most `v`.
proof fn lemma_count_at_most_sorted(deltas: Seq<Delta>, v: u64)
    requires
        versions_increasing(deltas),
    ensures
        count_at_most(deltas, v) <= deltas.len(),
        forall|j: int| 0 <= j < count_at_most(deltas, v) ==> deltas[j].version_id <= v,
        forall|j: int| count_at_most(deltas, v) <= j < deltas.len() ==> deltas[j].version_id > v,
{
    reveal(count_at_most);
    if exists|i: int| 0 <= i < deltas.len() && deltas[i].version_id > v {
        let c = choose|i: int| 0 <= i < deltas.len() && deltas[i].version_id > v && forall|j: int| 0 <= j < i ==> deltas[j].version_id <= v;
        let w = choose|i: int| 0 <= i < deltas.len() && deltas[i].version_id > v;
        lemma_first_newer_exists(deltas, v, w);
        assert(0 <= c < deltas.len() && deltas[c].version_id > v && forall|j: int| 0 <= j < c ==> deltas[j].version_id <= v);
        assert forall|j: int| c <= j < deltas.len() implies deltas[j].version_id > v by {
            if j > c {
                assert(deltas[c].version_id < deltas[j].version_id);
            }
        }
    }
}

proof fn lemma_first_newer_exists(deltas: Seq<Delta>, v: u64, w: int)
    requires
        0 <= w < deltas.len(),
        deltas[w].version_id > v,
    ensures
        exists|i: int| 0 <= i < deltas.len() && deltas[i].version_id > v && forall|j: int| 0 <= j < i ==> deltas[j].version_id <= v,
    decreases w,
{
    if exists|j: int| 0 <= j < w && deltas[j].version_id > v {
        let j = choose|j: int| 0 <= j < w && deltas[j].version_id > v;
        lemma_first_newer_exists(deltas, v, j);
    } else {
        assert(0 <= w < deltas.len() && deltas[w].version_id > v && forall|j: int| 0 <= j < w ==> deltas[j].version_id <= v);
    }
}

// HISTORY
// ================================================================================================

/// A bounded sequence of versions behind the current state of a tree, oldest first.
#[derive(Debug)]
pub struct History {
    /// The maximum number of historical versions to be stored.
    max_count: usize,
    /// The deltas, oldest first.
    deltas: VecDeque<Delta>,
}

impl History {
    /// The maximum number of versions.
    pub closed spec fn spec_max_count(&self) -> nat {
        self.max_count as nat
    }

    /// The deltas, oldest first.
    pub closed spec fn spec_deltas(&self) -> Seq<Delta> {
        self.deltas@
    }

    /// The invariant of a history: versions strictly increase, and it never holds more than
    /// `max_count` versions.
    pub open spec fn wf(&self) -> bool {
        &&& versions_increasing(self.spec_deltas())
        &&& self.spec_deltas().len() <= self.spec_max_count()
    }

    /// Constructs an empty history holding at most `max_count` versions.
    pub fn empty(max_count: usize) -> (r: Self)
        ensures
            r.wf(),
            r.spec_max_count() == max_count,
            r.spec_deltas().len() == 0,
    {
        History { max_count, deltas: VecDeque::new() }
    }

    /// Gets the maximum number of versions that this history can store.
    pub fn max_versions(&self) -> (r: usize)
        ensures
            r == self.spec_max_count(),
    {
        self.max_count
    }

    /// Gets the current number of versions in the history.
    pub fn num_versions(&self) -> (r: usize)
        ensures
            r == self.spec_deltas().len(),
    {
        self.deltas.len()
    }

    /// Returns the roots of the versions, newest first.
    pub fn roots(&self) -> (r: Vec<Word>)
        ensures
            r@ == self.spec_deltas().map_values(|d: Delta| d.root).reverse(),
    {
        let ghost all = self.deltas@.map_values(|d: Delta| d.root);
        let mut out: Vec<Word> = Vec::new();
        let n = self.deltas.len();
        let mut i: usize = n;
        while i > 0
            invariant
                n == self.deltas@.len(),
                all == self.deltas@.map_values(|d: Delta| d.root),
                i <= n,
                out@ == all.subrange(i as int, n as int).reverse(),
            decreases i,
        {
            i -= 1;
            out.push(self.deltas[i].root);
            proof {
                assert(out@ =~= all.subrange(i as int, n as int).reverse());
            }
        }
        proof {
            assert(all.subrange(0, n as int) =~= all);
        }
        out
    }

    /// Returns the index of the delta that serves queries at `version_id`: the newest one whose
    /// version is at most `version_id`.
    pub fn find_latest_corresponding_version(&self, version_id: u64) -> (r: Result<usize, HistoryError>)
        ensures
            match (r, corresponding_index(self.spec_deltas(), version_id)) {
                (Ok(i), Ok(si)) => i == si && i < self.spec_deltas().len(),
                (Err(e), Err(se)) => e == se,
                _ => false,
            },
    {
        let n = self.deltas.len();
        if n == 0 || self.deltas[0].version_id > version_id {
            return Err(HistoryError::VersionTooOld);
        }
        let mut k: usize = 0;
        while k < n && self.deltas[k].version_id <= version_id
            invariant
                n == self.deltas@.len(),
                k <= n,
                forall|j: int| 0 <= j < k ==> self.deltas@[j].version_id <= version_id,
            decreases n - k,
        {
            k += 1;
        }
        proof {
            lemma_count_at_most(self.deltas@, version_id, k as int);
        }
        Ok(k - 1)
    }

    /// Returns the root of the version that serves queries at `version`.
    pub fn root_for_version(&self, version: u64) -> (r: Result<Word, HistoryError>)
        ensures
            r == root_spec(self.spec_deltas(), version),
    {
        match self.find_latest_corresponding_version(version) {
            Ok(ix) => Ok(self.deltas[ix].root),
            Err(e) => Err(e),
        }
    }

    /// Adds a version with the given root and changes. When the history then holds more than
    /// `max_count` versions, the oldest is removed.
    pub fn add_version(&mut self, root: Word, version_id: u64, nodes: Vec<(NodeIndex, Word)>, leaves: Vec<(LeafIndex, Vec<(Word, Word)>)>) -> (r: Result<(), HistoryError>)
        requires
            old(self).wf(),
        ensures
            final(self).wf(),
            final(self).spec_max_count() == old(self).spec_max_count(),
            final(self).spec_deltas() == add_version_spec(old(self).spec_deltas(), old(self).spec_max_count(), Delta { root, version_id, nodes, leaves }),
            match r {
                Ok(_) => old(self).spec_deltas().len() == 0 || old(self).spec_deltas().last().version_id < version_id,
                Err(e) => old(self).spec_deltas().len() > 0 && old(self).spec_deltas().last().version_id >= version_id
                    && e == HistoryError::NonMonotonicVersions(version_id, old(self).spec_deltas().last().version_id),
            },
    {
        let n = self.deltas.len();
        if n == 0 || self.deltas[n - 1].version_id < version_id {
            let ghost before = self.deltas@;
            self.deltas.push_back(Delta::new(root, version_id, nodes, leaves));
            if self.deltas.len() > self.max_count {
                self.deltas.pop_front();
                proof {
                    assert(self.deltas@ =~= before.push(Delta { root, version_id, nodes, leaves }).drop_first());
                }
            }
            Ok(())
        } else {
            Err(HistoryError::NonMonotonicVersions(version_id, self.deltas[n - 1].version_id))
        }
    }

    /// Returns a view of the history as the overlay that reverts the current tree to the state at
    /// `version_id`, served by the newest version at most `version_id`.
    pub fn get_view_at(&self, version_id: u64) -> (r: Result<HistoryView<'_>, HistoryError>)
        ensures
            match (r, corresponding_index(self.spec_deltas(), version_id)) {
                (Ok(view), Ok(i)) => view.version == version_id && view.version_ix == i && view.history == self,
                (Err(e), Err(se)) => e == se,
                _ => false,
            },
    {
        HistoryView::new_of(version_id, self)
    }

    /// Removes the versions older than the one that serves queries at `version_id`, returning the
    /// number removed; when no version serves it, nothing is removed.
    pub fn truncate(&mut self, version_id: u64) -> (r: usize)
        requires
            old(self).wf(),
        ensures
            final(self).wf(),
            final(self).spec_max_count() == old(self).spec_max_count(),
            r == truncate_count(old(self).spec_deltas(), version_id),
            final(self).spec_deltas() == old(self).spec_deltas().skip(r as int),
    {
        let truncate_ix = match self.find_latest_corresponding_version(version_id) {
            Ok(i) => i,
            Err(_) => 0,
        };
        let ghost start = self.deltas@;
        let mut k: usize = 0;
        while k < truncate_ix
            invariant
                k <= truncate_ix,
                truncate_ix < start.len() || truncate_ix == 0,
                self.deltas@ == start.skip(k as int),
                self.max_count == old(self).max_count,
            decreases truncate_ix - k,
        {
            self.deltas.pop_front();
            proof {
                assert(self.deltas@ =~= start.skip(k + 1));
            }
            k += 1;
        }
        proof {
            assert forall|i: int, j: int| 0 <= i < j < self.deltas@.len() implies self.deltas@[i].version_id < self.deltas@[j].version_id by {
                assert(self.deltas@[i] == start[i + truncate_ix]);
                assert(self.deltas@[j] == start[j + truncate_ix]);
            }
        }
        truncate_ix
    }

    /// Removes all versions from the history.
    pub fn clear(&mut self)
        ensures
            final(self).wf(),
            final(self).spec_max_count() == old(self).spec_max_count(),
            final(self).spec_deltas().len() == 0,
    {
        self.deltas.clear();
    }

    /// Returns true if `root` is the root of a version in the history, roots compared by their
    /// canonical forms.
    pub fn is_known_root(&self, root: Word) -> (r: bool)
        ensures
            r == exists|i: int| 0 <= i < self.spec_deltas().len() && canonical_word(#[trigger] self.spec_deltas()[i].root) == canonical_word(root),
    {
        let c = root.canonical();
        let n = self.deltas.len();
        let mut i: usize = 0;
        while i < n
            invariant
                n == self.deltas@.len(),
                i <= n,
                c == canonical_word(root),
                forall|j: int| 0 <= j < i ==> canonical_word(#[trigger] self.deltas@[j].root) != c,
            decreases n - i,
        {
            if self.deltas[i].root.canonical() == c {
                proof {
                    assert(canonical_word(self.spec_deltas()[i as int].root) == c);
                }
                return true;
            }
            i += 1;
        }
        false
    }
}

/// The root serving queries at `v`.
pub open spec fn root_spec(deltas: Seq<Delta>, v: u64) -> Result<Word, HistoryError> {
    match corresponding_index(deltas, v) {
        Ok(i) => Ok(deltas[i].root),
        Err(e) => Err(e),
    }
}

/// The deltas after adding `d`: appended when newer than the newest (or the first), the oldest
/// then removed when over `max_count`; unchanged otherwise.
pub open spec fn add_version_spec(deltas: Seq<Delta>, max_count: nat, d: Delta) -> Seq<Delta> {
    if deltas.len() == 0 || deltas.last().version_id < d.version_id {
        if deltas.len() + 1 > max_count {
            deltas.push(d).drop_first()
        } else {
            deltas.push(d)
        }
    } else {
        deltas
    }
}

/// The number of versions truncating at `v` removes: those older than the one serving `v`.
pub open spec fn truncate_count(deltas: Seq<Delta>, v: u64) -> nat {
    match corresponding_index(deltas, v) {
        Ok(i) => i as nat,
        Err(_) => 0,
    }
}

// HISTORY VIEW
// ================================================================================================

/// A read-only view of the history as the overlay that reverts the current tree to the state at a
/// version.
#[derive(Debug)]
pub struct HistoryView<'history> {
    /// The version the view serves.
    pub version: u64,
    /// The index of the delta serving that version.
    pub version_ix: usize,
    /// The history that stores the data.
    pub history: &'history History,
}

impl<'history> HistoryView<'history> {
    /// Constructs a view serving `version`.
    fn new_of(version: u64, history: &'history History) -> (r: Result<Self, HistoryError>)
        ensures
            match (r, corresponding_index(history.spec_deltas(), version)) {
                (Ok(view), Ok(i)) => view.version == version && view.version_ix == i && view.history == history,
                (Err(e), Err(se)) => e == se,
                _ => false,
            },
    {
        match history.find_latest_corresponding_version(version) {
            Ok(version_ix) => Ok(HistoryView { version, version_ix, history }),
            Err(e) => Err(e),
        }
    }
}

// OVERLAYS
// ================================================================================================

/// The value of the first entry for `index` in a table of node values.
pub open spec fn node_entry(nodes: Seq<(NodeIndex, Word)>, index: NodeIndex) -> Option<Word> {
    if exists|i: int| 0 <= i < nodes.len() && nodes[i].0 == index {
        Some(nodes[choose|i: int| 0 <= i < nodes.len() && nodes[i].0 == index && forall|j: int| 0 <= j < i ==> nodes[j].0 != index].1)
    } else {
        None
    }
}

/// The value of a node in the overlay of the deltas: that of the oldest delta holding one.
pub open spec fn overlay_node(deltas: Seq<Delta>, index: NodeIndex) -> Option<Word>
    decreases deltas.len(),
{
    if deltas.len() == 0 {
        None
    } else {
        match node_entry(deltas[0].nodes@, index) {
            Some(w) => Some(w),
            None => overlay_node(deltas.drop_first(), index),
        }
    }
}

/// The entries of the first record for leaf `index` in a table of leaf changes.
pub open spec fn leaf_entry(leaves: Seq<(LeafIndex, Vec<(Word, Word)>)>, index: LeafIndex) -> Option<Seq<(Word, Word)>> {
    if exists|i: int| 0 <= i < leaves.len() && leaves[i].0 == index {
        Some(leaves[choose|i: int| 0 <= i < leaves.len() && leaves[i].0 == index && forall|j: int| 0 <= j < i ==> leaves[j].0 != index].1@)
    } else {
        None
    }
}

/// True when the keys strictly ascend.
pub open spec fn keys_ascending(s: Seq<(Word, Word)>) -> bool {
    forall|i: int, j: int| 0 <= i < j < s.len() ==> word_lt(s[i].0, s[j].0)
}

/// The index of the first entry of `s` whose key is not below `k`, or the length of `s`.
pub open spec fn first_not_below(s: Seq<(Word, Word)>, k: Word) -> nat {
    if exists|i: int| 0 <= i < s.len() && !word_lt(s[i].0, k) {
        (choose|i: int| 0 <= i < s.len() && !word_lt(s[i].0, k) && forall|j: int| 0 <= j < i ==> word_lt(s[j].0, k)) as nat
    } else {
        s.len()
    }
}

/// Adds the entry to the key-ordered entries unless its key is already there.
#[verifier::opaque]
pub open spec fn add_leaf_entry(s: Seq<(Word, Word)>, k: Word, v: Word) -> Seq<(Word, Word)> {
    if exists|i: int| 0 <= i < s.len() && s[i].0 == k {
        s
    } else {
        s.insert(first_not_below(s, k) as int, (k, v))
    }
}

/// Adds the entries in order, each keyed by the canonical form of its key, the first value for a
/// key winning.
pub open spec fn add_leaf_entries(s: Seq<(Word, Word)>, rows: Seq<(Word, Word)>) -> Seq<(Word, Word)>
    decreases rows.len(),
{
    if rows.len() == 0 {
        s
    } else {
        let prev = add_leaf_entries(s, rows.drop_last());
        add_leaf_entry(prev, canonical_word(rows.last().0), rows.last().1)
    }
}

/// The entries of leaf `index` in the overlay of the deltas, by ascending key: for each key, the
/// value of the oldest delta that changes it.
pub open spec fn overlay_leaf(deltas: Seq<Delta>, index: LeafIndex) -> Seq<(Word, Word)>
    decreases deltas.len(),
{
    if deltas.len() == 0 {
        Seq::empty()
    } else {
        let prev = overlay_leaf(deltas.drop_last(), index);
        match leaf_entry(deltas.last().leaves@, index) {
            Some(rows) => add_leaf_entries(prev, rows),
            None => prev,
        }
    }
}

/// The value of the first entry with key `k`, if any.
pub open spec fn entry_value(s: Seq<(Word, Word)>, k: Word) -> Option<Word> {
    if exists|i: int| 0 <= i < s.len() && s[i].0 == k {
        Some(s[key_position(s, k)].1)
    } else {
        None
    }
}

proof fn lemma_add_leaf_entry_present(s: Seq<(Word, Word)>, k: Word, v: Word, i: int)
    requires
        0 <= i < s.len(),
        s[i].0 == k,
    ensures
        add_leaf_entry(s, k, v) == s,
{
    reveal(add_leaf_entry);
}

proof fn lemma_add_leaf_entry_absent(s: Seq<(Word, Word)>, k: Word, v: Word, p: int)
    requires
        keys_ascending(s),
        0 <= p <= s.len(),
        forall|j: int| 0 <= j < p ==> word_lt(s[j].0, k),
        p < s.len() ==> word_lt(k, s[p].0),
    ensures
        add_leaf_entry(s, k, v) == s.insert(p, (k, v)),
        keys_ascending(s.insert(p, (k, v))),
{
    reveal(add_leaf_entry);
    assert forall|i: int| 0 <= i < s.len() implies s[i].0 != k by {
        lemma_word_order(s[i].0, k, k);
        if i >= p {
            if i > p {
                lemma_word_order(k, s[p].0, s[i].0);
            }
        }
    }
    if p < s.len() {
        lemma_word_order(k, s[p].0, k);
        let c = choose|c: int| 0 <= c < s.len() && !word_lt(s[c].0, k) && forall|j: int| 0 <= j < c ==> word_lt(s[j].0, k);
        assert(0 <= c < s.len() && !word_lt(s[c].0, k) && forall|j: int| 0 <= j < c ==> word_lt(s[j].0, k));
        if c < p {
            assert(word_lt(s[c].0, k));
        } else if c > p {
            assert(word_lt(s[p].0, k));
        }
    } else {
        assert(!exists|i: int| 0 <= i < s.len() && !word_lt(s[i].0, k));
    }
    assert(first_not_below(s, k) == p);
    let t = s.insert(p, (k, v));
    assert forall|i: int, j: int| 0 <= i < j < t.len() implies word_lt(t[i].0, t[j].0) by {
        if j < p {
        } else if j == p {
        } else if i < p {
            assert(t[j] == s[j - 1]);
            if j - 1 > p {
                lemma_word_order(s[i].0, s[p].0, s[j - 1].0);
                lemma_word_order(s[i].0, k, s[p].0);
                lemma_word_order(k, s[p].0, s[j - 1].0);
            }
            lemma_word_order(t[i].0, k, s[p].0);
            lemma_word_order(t[i].0, k, t[j].0);
        } else if i == p {
            assert(t[j] == s[j - 1]);
            if j - 1 > p {
                lemma_word_order(k, s[p].0, s[j - 1].0);
            }
        } else {
            assert(t[i] == s[i - 1] && t[j] == s[j - 1]);
        }
    }
}

/// Adds an entry to the key-ordered `entries` unless its key is already there.
fn insert_leaf_entry(entries: &mut Vec<(Word, Word)>, k: Word, v: Word)
    requires
        keys_ascending(old(entries)@),
    ensures
        final(entries)@ == add_leaf_entry(old(entries)@, k, v),
        keys_ascending(final(entries)@),
{
    let ghost s = entries@;
    let n = entries.len();
    let mut p: usize = 0;
    while p < n && key_less(&entries[p].0, &k)
        invariant
            n == entries@.len(),
            s == entries@,
            p <= n,
            forall|j: int| 0 <= j < p ==> word_lt(s[j].0, k),
        decreases n - p,
    {
        p += 1;
    }
    if p < n && entries[p].0 == k {
        proof {
            lemma_add_leaf_entry_present(s, k, v, p as int);
        }
        return;
    }
    proof {
        if p < n {
            lemma_word_order(s[p as int].0, k, k);
        }
        lemma_add_leaf_entry_absent(s, k, v, p as int);
    }
    entries.insert(p, (k, v));
}

/// The first record of `index` in a table of node values, if any.
fn find_node(nodes: &Vec<(NodeIndex, Word)>, index: &NodeIndex) -> (r: Option<Word>)
    ensures
        r == node_entry(nodes@, *index),
{
    let n = nodes.len();
    let mut i: usize = 0;
    while i < n
        invariant
            n == nodes@.len(),
            i <= n,
            forall|j: int| 0 <= j < i ==> nodes@[j].0 != *index,
        decreases n - i,
    {
        if nodes[i].0 == *index {
            proof {
                assert(nodes@[i as int].0 == *index);
                let c = choose|c: int| 0 <= c < nodes@.len() && nodes@[c].0 == *index && forall|j: int| 0 <= j < c ==> nodes@[j].0 != *index;
                assert(0 <= c < nodes@.len() && nodes@[c].0 == *index);
                if c < i {
                    assert(nodes@[c].0 != *index);
                } else if c > i {
                    assert(nodes@[i as int].0 != *index);
                }
            }
            return Some(nodes[i].1);
        }
        i += 1;
    }
    None
}

/// The position of the first record of `index` in a table of leaf changes, if any.
fn find_leaf(leaves: &Vec<(LeafIndex, Vec<(Word, Word)>)>, index: &LeafIndex) -> (r: Option<usize>)
    ensures
        r is None <==> leaf_entry(leaves@, *index) is None,
        r matches Some(p) ==> p < leaves@.len() && leaf_entry(leaves@, *index) == Some(leaves@[p as int].1@),
{
    let n = leaves.len();
    let mut i: usize = 0;
    while i < n
        invariant
            n == leaves@.len(),
            i <= n,
            forall|j: int| 0 <= j < i ==> leaves@[j].0 != *index,
        decreases n - i,
    {
        if leaves[i].0 == *index {
            proof {
                assert(leaves@[i as int].0 == *index);
                let c = choose|c: int| 0 <= c < leaves@.len() && leaves@[c].0 == *index && forall|j: int| 0 <= j < c ==> leaves@[j].0 != *index;
                assert(0 <= c < leaves@.len() && leaves@[c].0 == *index);
                if c < i {
                    assert(leaves@[c].0 != *index);
                } else if c > i {
                    assert(leaves@[i as int].0 != *index);
                }
            }
            return Some(i);
        }
        i += 1;
    }
    None
}

impl<'history> HistoryView<'history> {
    /// The deltas the view overlays: those from its version to the newest.
    pub open spec fn overlay_deltas(&self) -> Seq<Delta> {
        self.history.spec_deltas().skip(self.version_ix as int)
    }

    /// Gets the value of the node at `index` in the overlay, or `None` if the view does not
    /// overlay the current tree at that node.
    pub fn node_value(&self, index: &NodeIndex) -> (r: Option<Word>)
        requires
            self.version_ix <= self.history.spec_deltas().len(),
        ensures
            r == overlay_node(self.overlay_deltas(), *index),
    {
        let ghost all = self.history.deltas@;
        let n = self.history.deltas.len();
        let mut i: usize = self.version_ix;
        while i < n
            invariant
                n == all.len(),
                all == self.history.deltas@,
                self.version_ix <= i <= n,
                overlay_node(all.skip(self.version_ix as int), *index) == overlay_node(all.skip(i as int), *index),
            decreases n - i,
        {
            proof {
                assert(all.skip(i as int).drop_first() =~= all.skip(i + 1));
            }
            match find_node(&self.history.deltas[i].nodes, index) {
                Some(w) => {
                    return Some(w);
                },
                None => {},
            }
            i += 1;
        }
        None
    }

    /// Gets the entries of leaf `index` in the overlay, by ascending key: for each key changed by
    /// a delta of the view, the value of the oldest such delta.
    pub fn leaf_delta(&self, index: &LeafIndex) -> (r: Vec<(Word, Word)>)
        requires
            self.version_ix <= self.history.spec_deltas().len(),
        ensures
            r@ == overlay_leaf(self.overlay_deltas(), *index),
            keys_ascending(r@),
    {
        let ghost all = self.history.deltas@;
        let ix = self.version_ix;
        let n = self.history.deltas.len();
        let mut leaf: Vec<(Word, Word)> = Vec::new();
        let mut i: usize = ix;
        proof {
            assert(all.subrange(ix as int, ix as int) =~= Seq::<Delta>::empty());
        }
        while i < n
            invariant
                n == all.len(),
                all == self.history.deltas@,
                ix <= i <= n,
                leaf@ == overlay_leaf(all.subrange(ix as int, i as int), *index),
                keys_ascending(leaf@),
            decreases n - i,
        {
            proof {
                assert(all.subrange(ix as int, i + 1).drop_last() =~= all.subrange(ix as int, i as int));
            }
            let delta = &self.history.deltas[i];
            match find_leaf(&delta.leaves, index) {
                Some(p) => {
                    let rows = &delta.leaves[p].1;
                    let ghost base = leaf@;
                    let m = rows.len();
                    let mut k: usize = 0;
                    while k < m
                        invariant
                            m == rows@.len(),
                            k <= m,
                            leaf@ == add_leaf_entries(base, rows@.take(k as int)),
                            keys_ascending(leaf@),
                        decreases m - k,
                    {
                        proof {
                            assert(rows@.take(k + 1).drop_last() =~= rows@.take(k as int));
                        }
                        insert_leaf_entry(&mut leaf, rows[k].0.canonical(), rows[k].1);
                        k += 1;
                    }
                    proof {
                        assert(rows@.take(m as int) =~= rows@);
                    }
                },
                None => {},
            }
            i += 1;
        }
        proof {
            assert(all.subrange(ix as int, n as int) =~= all.skip(ix as int));
        }
        leaf
    }

    /// Queries the value of `key` in the overlay: the value of the entry of its canonical form in
    /// the overlay of its leaf, or `None` if no delta of the view changes it.
    pub fn value(&self, key: &Word) -> (r: Option<Word>)
        requires
            self.version_ix <= self.history.spec_deltas().len(),
        ensures
            r == entry_value(overlay_leaf(self.overlay_deltas(), leaf_of(canonical_word(*key))), canonical_word(*key)),
    {
        let k = key.canonical();
        let leaf = self.leaf_delta(&LeafIndex { value: k.3 });
        let n = leaf.len();
        let mut i: usize = 0;
        while i < n
            invariant
                n == leaf@.len(),
                i <= n,
                k == canonical_word(*key),
                keys_ascending(leaf@),
                leaf@ == overlay_leaf(self.overlay_deltas(), leaf_of(k)),
                forall|j: int| 0 <= j < i ==> leaf@[j].0 != k,
            decreases n - i,
        {
            if leaf[i].0 == k {
                proof {
                    assert(leaf@[i as int].0 == k);
                    let c = key_position(leaf@, k);
                    lemma_word_order(k, k, k);
                    assert(c == i);
                }
                return Some(leaf[i].1);
            }
            i += 1;
        }
        None
    }
}

// VERSIONS FROM MUTATION SETS
// ================================================================================================

/// The entries with `k` set to `v`: its value replaced where `k` is present, otherwise the entry
/// added in key order.
pub open spec fn set_leaf_entry(s: Seq<(Word, Word)>, k: Word, v: Word) -> Seq<(Word, Word)> {
    if exists|i: int| 0 <= i < s.len() && s[i].0 == k {
        s.update(key_position(s, k), (k, v))
    } else {
        add_leaf_entry(s, k, v)
    }
}

/// A position of key `k` in the entries.
pub open spec fn key_position(s: Seq<(Word, Word)>, k: Word) -> int {
    choose|i: int| 0 <= i < s.len() && s[i].0 == k
}

/// The leaf records as index and entries.
pub open spec fn records_view(records: Seq<(LeafIndex, Vec<(Word, Word)>)>) -> Seq<(LeafIndex, Seq<(Word, Word)>)> {
    records.map_values(|r: (LeafIndex, Vec<(Word, Word)>)| (r.0, r.1@))
}

/// True when the leaf indices strictly ascend and each leaf's keys strictly ascend.
pub open spec fn records_ordered(records: Seq<(LeafIndex, Seq<(Word, Word)>)>) -> bool {
    &&& forall|i: int, j: int| 0 <= i < j < records.len() ==> (#[trigger] records[i]).0.value < (#[trigger] records[j]).0.value
    &&& forall|i: int| 0 <= i < records.len() ==> keys_ascending(#[trigger] records[i].1)
}

/// The position of the record of leaf `l`: the first record not below it, or the end.
pub open spec fn record_position(records: Seq<(LeafIndex, Seq<(Word, Word)>)>, l: LeafIndex) -> int
    decreases records.len(),
{
    if records.len() == 0 || records[0].0.value >= l.value {
        0
    } else {
        1 + record_position(records.drop_first(), l)
    }
}

/// The records with the pair `(k, v)` set in the leaf of `k`: in its record when there is one,
/// otherwise in a new record placed in leaf order.
pub open spec fn set_pair(records: Seq<(LeafIndex, Seq<(Word, Word)>)>, k: Word, v: Word) -> Seq<(LeafIndex, Seq<(Word, Word)>)> {
    let l = leaf_of(k);
    let p = record_position(records, l);
    if p < records.len() && records[p].0 == l {
        records.update(p, (l, set_leaf_entry(records[p].1, k, v)))
    } else {
        records.insert(p, (l, seq![(k, v)]))
    }
}

/// The pairs grouped by leaf, in leaf order, each leaf's entries in key order; for a key set
/// twice the later value wins.
pub open spec fn group_pairs(pairs: Seq<(Word, Word)>) -> Seq<(LeafIndex, Seq<(Word, Word)>)>
    decreases pairs.len(),
{
    if pairs.len() == 0 {
        Seq::empty()
    } else {
        set_pair(group_pairs(pairs.drop_last()), pairs.last().0, pairs.last().1)
    }
}

proof fn lemma_record_position(records: Seq<(LeafIndex, Seq<(Word, Word)>)>, l: LeafIndex, p: int)
    requires
        0 <= p <= records.len(),
        forall|j: int| 0 <= j < p ==> (#[trigger] records[j]).0.value < l.value,
        p < records.len() ==> records[p].0.value >= l.value,
    ensures
        record_position(records, l) == p,
    decreases records.len(),
{
    if records.len() > 0 && p > 0 {
        let rest = records.drop_first();
        assert forall|j: int| 0 <= j < p - 1 implies (#[trigger] rest[j]).0.value < l.value by {
            assert(rest[j] == records[j + 1]);
        }
        if p < records.len() {
            assert(rest[p - 1] == records[p]);
        }
        assert(records[0].0.value < l.value);
        lemma_record_position(rest, l, p - 1);
    }
}

/// Sets `k` to `v` in the key-ordered `entries`.
fn set_entry(entries: &mut Vec<(Word, Word)>, k: Word, v: Word)
    requires
        keys_ascending(old(entries)@),
    ensures
        final(entries)@ == set_leaf_entry(old(entries)@, k, v),
        keys_ascending(final(entries)@),
{
    let ghost s = entries@;
    let n = entries.len();
    let mut i: usize = 0;
    while i < n
        invariant
            n == entries@.len(),
            s == entries@,
            s == old(entries)@,
            keys_ascending(s),
            i <= n,
            forall|j: int| 0 <= j < i ==> entries@[j].0 != k,
        decreases n - i,
    {
        if entries[i].0 == k {
            proof {
                assert(s[i as int].0 == k);
                let c = key_position(s, k);
                if c != i {
                    if c < i {
                        assert(s[c].0 != k);
                    } else {
                        lemma_word_order(s[i as int].0, s[c].0, k);
                    }
                }
                assert(c == i);
            }
            entries.set(i, (k, v));
            proof {
                assert(entries@ == s.update(i as int, (k, v)));
                assert(exists|j: int| 0 <= j < s.len() && s[j].0 == k);
                assert(set_leaf_entry(s, k, v) == s.update(i as int, (k, v)));
                assert forall|a: int, b: int| 0 <= a < b < entries@.len() implies word_lt(entries@[a].0, entries@[b].0) by {
                    assert(entries@[a].0 == s[a].0 && entries@[b].0 == s[b].0);
                }
            }
            return;
        }
        i += 1;
    }
    proof {
        assert(!exists|j: int| 0 <= j < s.len() && s[j].0 == k);
    }
    insert_leaf_entry(entries, k, v);
}

/// Sets the pair in the records: in the record of its leaf, or in a new record in leaf order.
fn set_pair_in(records: &mut Vec<(LeafIndex, Vec<(Word, Word)>)>, k: Word, v: Word)
    requires
        records_ordered(records_view(old(records)@)),
    ensures
        records_view(final(records)@) == set_pair(records_view(old(records)@), k, v),
        records_ordered(records_view(final(records)@)),
{
    let ghost rs = records_view(records@);
    let l = LeafIndex { value: k.3 };
    let n = records.len();
    let mut p: usize = 0;
    while p < n && records[p].0.value < l.value
        invariant
            n == records@.len(),
            rs == records_view(records@),
            p <= n,
            forall|j: int| 0 <= j < p ==> (#[trigger] rs[j]).0.value < l.value,
        decreases n - p,
    {
        p += 1;
    }
    proof {
        lemma_record_position(rs, l, p as int);
    }
    if p < n && records[p].0 == l {
        let (idx, mut entries) = records.remove(p);
        proof {
            assert(entries@ == rs[p as int].1);
        }
        set_entry(&mut entries, k, v);
        records.insert(p, (idx, entries));
        proof {
            assert(records_view(records@) =~= rs.update(p as int, (l, set_leaf_entry(rs[p as int].1, k, v))));
            let t = records_view(records@);
            assert forall|i: int, j: int| 0 <= i < j < t.len() implies (#[trigger] t[i]).0.value < (#[trigger] t[j]).0.value by {
                assert(t[i].0 == rs[i].0 && t[j].0 == rs[j].0);
            }
            assert forall|i: int| 0 <= i < t.len() implies keys_ascending(#[trigger] t[i].1) by {
                if i != p {
                    assert(t[i] == rs[i]);
                }
            }
        }
    } else {
        let mut entries: Vec<(Word, Word)> = Vec::new();
        entries.push((k, v));
        records.insert(p, (l, entries));
        proof {
            assert(records_view(records@) =~= rs.insert(p as int, (l, seq![(k, v)])));
            let t = records_view(records@);
            assert forall|i: int, j: int| 0 <= i < j < t.len() implies (#[trigger] t[i]).0.value < (#[trigger] t[j]).0.value by {
                if j < p {
                    assert(t[i] == rs[i] && t[j] == rs[j]);
                } else if j == p {
                    assert(t[i] == rs[i]);
                } else if i < p {
                    assert(t[i] == rs[i] && t[j] == rs[j - 1]);
                } else if i == p {
                    assert(t[j] == rs[j - 1]);
                    assert(rs[p as int].0.value >= l.value);
                    assert(rs[p as int].0 != l);
                    if j - 1 > p {
                        assert(rs[p as int].0.value < rs[j - 1].0.value);
                    }
                } else {
                    assert(t[i] == rs[i - 1] && t[j] == rs[j - 1]);
                }
            }
            assert forall|i: int| 0 <= i < t.len() implies keys_ascending(#[trigger] t[i].1) by {
                if i < p {
                    assert(t[i] == rs[i]);
                } else if i > p {
                    assert(t[i] == rs[i - 1]);
                }
            }
        }
    }
}

/// The pairs with each key in canonical form.
pub open spec fn canonical_keys(pairs: Seq<(Word, Word)>) -> Seq<(Word, Word)> {
    pairs.map_values(|p: (Word, Word)| (canonical_word(p.0), p.1))
}

/// Groups the pairs by the leaf of their key, in leaf order, each leaf's entries in the order of
/// keys, every key in canonical form; for a key set twice (in any representation) the later value
/// wins.
pub fn group_pairs_by_leaf(pairs: &Vec<(Word, Word)>) -> (r: Vec<(LeafIndex, Vec<(Word, Word)>)>)
    ensures
        records_view(r@) == group_pairs(canonical_keys(pairs@)),
        records_ordered(records_view(r@)),
{
    let mut records: Vec<(LeafIndex, Vec<(Word, Word)>)> = Vec::new();
    let n = pairs.len();
    let mut i: usize = 0;
    proof {
        assert(records_view(records@) =~= Seq::<(LeafIndex, Seq<(Word, Word)>)>::empty());
    }
    while i < n
        invariant
            n == pairs@.len(),
            i <= n,
            records_view(records@) == group_pairs(canonical_keys(pairs@).take(i as int)),
            records_ordered(records_view(records@)),
        decreases n - i,
    {
        let ghost cp = canonical_keys(pairs@);
        proof {
            assert(cp.take(i + 1).drop_last() =~= cp.take(i as int));
            assert(cp.take(i + 1).last() == cp[i as int]);
        }
        let k = pairs[i].0.canonical();
        set_pair_in(&mut records, k, pairs[i].1);
        i += 1;
    }
    proof {
        assert(canonical_keys(pairs@).take(n as int) =~= canonical_keys(pairs@));
    }
    records
}

/// A change of an inner node in a mutation set: removed, or set to a node with the given hash.
#[derive(Debug, Clone, Copy, PartialEq, Eq, Structural)]
pub enum NodeMutation {
    /// The node was removed: the subtree under it is empty.
    Removal,
    /// The node was set; the hash of the new node.
    Addition(Word),
}

/// The value a node change records: the hash of an added node, or for a removed node the root of
/// an empty subtree at its depth, `empty_roots[depth]`.
pub open spec fn node_change_spec(m: (NodeIndex, NodeMutation), empty_roots: Seq<Word>) -> (NodeIndex, Word) {
    match m.1 {
        NodeMutation::Removal => (m.0, empty_roots[m.0.depth as int]),
        NodeMutation::Addition(h) => (m.0, h),
    }
}

/// Turns the node mutations of a mutation set into the node changes of a version, in order: a
/// removal becomes the root of an empty subtree at the node's depth, taken from `empty_roots`
/// (the empty subtree roots of the tree, by depth); an addition its node's hash.
pub fn node_changes_from_mutations(mutations: &Vec<(NodeIndex, NodeMutation)>, empty_roots: &Vec<Word>) -> (r: Vec<(NodeIndex, Word)>)
    requires
        forall|i: int| 0 <= i < mutations@.len() ==> (#[trigger] mutations@[i]).0.depth < empty_roots@.len(),
    ensures
        r@ == mutations@.map_values(|m: (NodeIndex, NodeMutation)| node_change_spec(m, empty_roots@)),
{
    let mut out: Vec<(NodeIndex, Word)> = Vec::new();
    let n = mutations.len();
    let mut i: usize = 0;
    while i < n
        invariant
            n == mutations@.len(),
            i <= n,
            forall|j: int| 0 <= j < mutations@.len() ==> (#[trigger] mutations@[j]).0.depth < empty_roots@.len(),
            out@ == mutations@.take(i as int).map_values(|m: (NodeIndex, NodeMutation)| node_change_spec(m, empty_roots@)),
        decreases n - i,
    {
        let (ix, m) = mutations[i];
        let change = match m {
            NodeMutation::Removal => (ix, empty_roots[ix.depth as usize]),
            NodeMutation::Addition(h) => (ix, h),
        };
        out.push(change);
        proof {
            assert(mutations@.take(i + 1) =~= mutations@.take(i as int).push(mutations@[i as int]));
            assert(out@ =~= mutations@.take(i + 1).map_values(|m: (NodeIndex, NodeMutation)| node_change_spec(m, empty_roots@)));
        }
        i += 1;
    }
    proof {
        assert(mutations@.take(n as int) =~= mutations@);
    }
    out
}

impl History {
    /// Adds a version from the changes of a mutation set: its new root, the new values of its
    /// changed nodes (a removed node given as the empty subtree root of its depth), and its new
    /// key-value pairs, grouped here by leaf.
    pub fn add_version_from_mutation_set(
        &mut self,
        version_id: u64,
        new_root: Word,
        node_changes: Vec<(NodeIndex, Word)>,
        new_pairs: Vec<(Word, Word)>,
    ) -> (r: Result<(), HistoryError>)
        requires
            old(self).wf(),
        ensures
            final(self).wf(),
            final(self).spec_max_count() == old(self).spec_max_count(),
            exists|d: Delta| {
                &&& d.root == new_root
                &&& d.version_id == version_id
                &&& d.nodes == node_changes
                &&& records_view(#[trigger] d.leaves@) == group_pairs(canonical_keys(new_pairs@))
                &&& final(self).spec_deltas() == add_version_spec(old(self).spec_deltas(), old(self).spec_max_count(), d)
            },
            match r {
                Ok(_) => old(self).spec_deltas().len() == 0 || old(self).spec_deltas().last().version_id < version_id,
                Err(e) => old(self).spec_deltas().len() > 0 && old(self).spec_deltas().last().version_id >= version_id
                    && e == HistoryError::NonMonotonicVersions(version_id, old(self).spec_deltas().last().version_id),
            },
    {
        let leaves = group_pairs_by_leaf(&new_pairs);
        let ghost d = Delta { root: new_root, version_id, nodes: node_changes, leaves };
        let r = self.add_version(new_root, version_id, node_changes, leaves);
        proof {
            assert(records_view(d.leaves@) == group_pairs(canonical_keys(new_pairs@)));
        }
        r
    }
}

// LOOKUPS IN GROUPED PAIRS
// ================================================================================================

/// The value the last pair for key `k` sets, if any pair does.
pub open spec fn last_value(pairs: Seq<(Word, Word)>, k: Word) -> Option<Word>
    decreases pairs.len(),
{
    if pairs.len() == 0 {
        None
    } else if pairs.last().0 == k {
        Some(pairs.last().1)
    } else {
        last_value(pairs.drop_last(), k)
    }
}

/// The value of key `k` in the records: its value in the record of its leaf, if any.
pub open spec fn records_lookup(records: Seq<(LeafIndex, Seq<(Word, Word)>)>, k: Word) -> Option<Word>
    decreases records.len(),
{
    if records.len() == 0 {
        None
    } else if records[0].0 == leaf_of(k) {
        entry_value(records[0].1, k)
    } else {
        records_lookup(records.drop_first(), k)
    }
}

proof fn lemma_entry_value_at(s: Seq<(Word, Word)>, k: Word, i: int)
    requires
        keys_ascending(s),
        0 <= i < s.len(),
        s[i].0 == k,
    ensures
        entry_value(s, k) == Some(s[i].1),
{
    let c = key_position(s, k);
    assert(0 <= c < s.len() && s[c].0 == k);
    if c < i {
        lemma_word_order(s[c].0, s[i].0, k);
    } else if c > i {
        lemma_word_order(s[i].0, s[c].0, k);
    }
}

/// Setting a key gives it the new value and leaves the other keys' values, keeping keys ordered.
proof fn lemma_set_leaf_entry_lookup(s: Seq<(Word, Word)>, k: Word, v: Word)
    requires
        keys_ascending(s),
    ensures
        keys_ascending(set_leaf_entry(s, k, v)),
        entry_value(set_leaf_entry(s, k, v), k) == Some(v),
        forall|k2: Word| k2 != k ==> #[trigger] entry_value(set_leaf_entry(s, k, v), k2) == entry_value(s, k2),
{
    let r = set_leaf_entry(s, k, v);
    if exists|i: int| 0 <= i < s.len() && s[i].0 == k {
        let i = key_position(s, k);
        assert(0 <= i < s.len() && s[i].0 == k);
        assert(r == s.update(i, (k, v)));
        assert forall|a: int, b: int| 0 <= a < b < r.len() implies word_lt(r[a].0, r[b].0) by {
            assert(r[a].0 == s[a].0 && r[b].0 == s[b].0);
        }
        lemma_entry_value_at(r, k, i);
        assert forall|k2: Word| k2 != k implies #[trigger] entry_value(r, k2) == entry_value(s, k2) by {
            if exists|j: int| 0 <= j < s.len() && s[j].0 == k2 {
                let j = choose|j: int| 0 <= j < s.len() && s[j].0 == k2;
                assert(r[j] == s[j]);
                lemma_entry_value_at(r, k2, j);
                lemma_entry_value_at(s, k2, j);
            } else {
                assert forall|j: int| 0 <= j < r.len() implies r[j].0 != k2 by {
                    if j != i {
                        assert(r[j] == s[j]);
                    }
                }
            }
        }
    } else {
        let p = first_not_below(s, k) as int;
        if exists|i: int| 0 <= i < s.len() && !word_lt(s[i].0, k) {
            let c = choose|c: int| 0 <= c < s.len() && !word_lt(s[c].0, k) && forall|j: int| 0 <= j < c ==> word_lt(s[j].0, k);
            let w = choose|i: int| 0 <= i < s.len() && !word_lt(s[i].0, k);
            lemma_first_not_below_exists(s, k, w);
            assert(0 <= c < s.len() && !word_lt(s[c].0, k) && forall|j: int| 0 <= j < c ==> word_lt(s[j].0, k));
            assert(p == c);
            lemma_word_order(s[p].0, k, k);
        } else {
            assert forall|j: int| 0 <= j < p implies word_lt(s[j].0, k) by {
                assert(!(0 <= j < s.len() && !word_lt(s[j].0, k)));
            }
        }
        lemma_add_leaf_entry_absent(s, k, v, p);
        assert(r == s.insert(p, (k, v)));
        lemma_entry_value_at(r, k, p);
        assert forall|k2: Word| k2 != k implies #[trigger] entry_value(r, k2) == entry_value(s, k2) by {
            if exists|j: int| 0 <= j < s.len() && s[j].0 == k2 {
                let j = choose|j: int| 0 <= j < s.len() && s[j].0 == k2;
                if j < p {
                    assert(r[j] == s[j]);
                    lemma_entry_value_at(r, k2, j);
                } else {
                    assert(r[j + 1] == s[j]);
                    lemma_entry_value_at(r, k2, j + 1);
                }
                lemma_entry_value_at(s, k2, j);
            } else {
                assert forall|j: int| 0 <= j < r.len() implies r[j].0 != k2 by {
                    if j < p {
                        assert(r[j] == s[j]);
                    } else if j > p {
                        assert(r[j] == s[j - 1]);
                    }
                }
            }
        }
    }
}

proof fn lemma_records_lookup_at(records: Seq<(LeafIndex, Seq<(Word, Word)>)>, k: Word, j: int)
    requires
        records_ordered(records),
        0 <= j < records.len(),
        records[j].0 == leaf_of(k),
    ensures
        records_lookup(records, k) == entry_value(records[j].1, k),
    decreases records.len(),
{
    if j > 0 {
        assert(records[0].0.value < records[j].0.value);
        let rest = records.drop_first();
        assert(records_ordered(rest)) by {
            assert forall|a: int, b: int| 0 <= a < b < rest.len() implies (#[trigger] rest[a]).0.value < (#[trigger] rest[b]).0.value by {
                assert(rest[a] == records[a + 1] && rest[b] == records[b + 1]);
            }
            assert forall|a: int| 0 <= a < rest.len() implies keys_ascending(#[trigger] rest[a].1) by {
                assert(rest[a] == records[a + 1]);
            }
        }
        assert(rest[j - 1] == records[j]);
        lemma_records_lookup_at(rest, k, j - 1);
    }
}

proof fn lemma_records_lookup_absent(records: Seq<(LeafIndex, Seq<(Word, Word)>)>, k: Word)
    requires
        forall|j: int| 0 <= j < records.len() ==> (#[trigger] records[j]).0 != leaf_of(k),
    ensures
        records_lookup(records, k) is None,
    decreases records.len(),
{
    if records.len() > 0 {
        let rest = records.drop_first();
        assert forall|j: int| 0 <= j < rest.len() implies (#[trigger] rest[j]).0 != leaf_of(k) by {
            assert(rest[j] == records[j + 1]);
        }
        assert(records[0].0 != leaf_of(k));
        lemma_records_lookup_absent(rest, k);
    }
}

proof fn lemma_records_lookup_any(records: Seq<(LeafIndex, Seq<(Word, Word)>)>, k: Word)
    requires
        records_ordered(records),
    ensures
        (exists|j: int| 0 <= j < records.len() && records[j].0 == leaf_of(k)) || records_lookup(records, k) is None,
{
    if !(exists|j: int| 0 <= j < records.len() && records[j].0 == leaf_of(k)) {
        assert forall|j: int| 0 <= j < records.len() implies (#[trigger] records[j]).0 != leaf_of(k) by {}
        lemma_records_lookup_absent(records, k);
    }
}

/// Setting a pair gives its key the new value and leaves every other key's value, keeping the
/// records ordered.
proof fn lemma_set_pair_lookup(records: Seq<(LeafIndex, Seq<(Word, Word)>)>, k: Word, v: Word)
    requires
        records_ordered(records),
    ensures
        records_ordered(set_pair(records, k, v)),
        records_lookup(set_pair(records, k, v), k) == Some(v),
        forall|k2: Word| k2 != k ==> #[trigger] records_lookup(set_pair(records, k, v), k2) == records_lookup(records, k2),
{
    let l = leaf_of(k);
    let p = record_position(records, l);
    lemma_record_position_props(records, l);
    let t = set_pair(records, k, v);
    if p < records.len() && records[p].0 == l {
        lemma_set_leaf_entry_lookup(records[p].1, k, v);
        assert(t == records.update(p, (l, set_leaf_entry(records[p].1, k, v))));
        assert(records_ordered(t)) by {
            assert forall|a: int, b: int| 0 <= a < b < t.len() implies (#[trigger] t[a]).0.value < (#[trigger] t[b]).0.value by {
                assert(t[a].0 == records[a].0 && t[b].0 == records[b].0);
            }
            assert forall|a: int| 0 <= a < t.len() implies keys_ascending(#[trigger] t[a].1) by {
                if a != p {
                    assert(t[a] == records[a]);
                }
            }
        }
        lemma_records_lookup_at(t, k, p);
        assert forall|k2: Word| k2 != k implies #[trigger] records_lookup(t, k2) == records_lookup(records, k2) by {
            if exists|j: int| 0 <= j < records.len() && records[j].0 == leaf_of(k2) {
                let j = choose|j: int| 0 <= j < records.len() && records[j].0 == leaf_of(k2);
                lemma_records_lookup_at(records, k2, j);
                assert(t[j].0 == records[j].0);
                lemma_records_lookup_at(t, k2, j);
                if j != p {
                    assert(t[j] == records[j]);
                }
            } else {
                lemma_records_lookup_any(records, k2);
                assert forall|j: int| 0 <= j < t.len() implies (#[trigger] t[j]).0 != leaf_of(k2) by {
                    assert(t[j].0 == records[j].0);
                }
                lemma_records_lookup_absent(t, k2);
            }
        }
    } else {
        assert(t == records.insert(p, (l, seq![(k, v)])));
        assert forall|j: int| 0 <= j < records.len() implies (#[trigger] records[j]).0 != l by {
            if j < p {
            } else if j == p {
            } else {
                assert(records[p].0.value < records[j].0.value);
            }
        }
        assert(records_ordered(t)) by {
            assert forall|a: int, b: int| 0 <= a < b < t.len() implies (#[trigger] t[a]).0.value < (#[trigger] t[b]).0.value by {
                if b < p {
                    assert(t[a] == records[a] && t[b] == records[b]);
                } else if b == p {
                    assert(t[a] == records[a]);
                } else if a < p {
                    assert(t[a] == records[a] && t[b] == records[b - 1]);
                } else if a == p {
                    assert(t[b] == records[b - 1]);
                    assert(records[p].0 != l);
                    if b - 1 > p {
                        assert(records[p].0.value < records[b - 1].0.value);
                    }
                } else {
                    assert(t[a] == records[a - 1] && t[b] == records[b - 1]);
                }
            }
            assert forall|a: int| 0 <= a < t.len() implies keys_ascending(#[trigger] t[a].1) by {
                if a < p {
                    assert(t[a] == records[a]);
                } else if a > p {
                    assert(t[a] == records[a - 1]);
                }
            }
        }
        lemma_records_lookup_at(t, k, p);
        lemma_entry_value_at(seq![(k, v)], k, 0);
        assert forall|k2: Word| k2 != k implies #[trigger] records_lookup(t, k2) == records_lookup(records, k2) by {
            if leaf_of(k2) == l {
                lemma_records_lookup_absent(records, k2);
                lemma_records_lookup_at(t, k2, p);
                assert(!(exists|i: int| 0 <= i < seq![(k, v)].len() && seq![(k, v)][i].0 == k2));
            } else if exists|j: int| 0 <= j < records.len() && records[j].0 == leaf_of(k2) {
                let j = choose|j: int| 0 <= j < records.len() && records[j].0 == leaf_of(k2);
                lemma_records_lookup_at(records, k2, j);
                if j < p {
                    assert(t[j] == records[j]);
                    lemma_records_lookup_at(t, k2, j);
                } else {
                    assert(t[j + 1] == records[j]);
                    lemma_records_lookup_at(t, k2, j + 1);
                }
            } else {
                lemma_records_lookup_any(records, k2);
                assert forall|j: int| 0 <= j < t.len() implies (#[trigger] t[j]).0 != leaf_of(k2) by {
                    if j < p {
                        assert(t[j] == records[j]);
                    } else if j > p {
                        assert(t[j] == records[j - 1]);
                    }
                }
                lemma_records_lookup_absent(t, k2);
            }
        }
    }
}

proof fn lemma_record_position_props(records: Seq<(LeafIndex, Seq<(Word, Word)>)>, l: LeafIndex)
    ensures
        0 <= record_position(records, l) <= records.len(),
        forall|j: int| 0 <= j < record_position(records, l) ==> (#[trigger] records[j]).0.value < l.value,
        record_position(records, l) < records.len() ==> records[record_position(records, l)].0.value >= l.value,
    decreases records.len(),
{
    if records.len() > 0 && records[0].0.value < l.value {
        let rest = records.drop_first();
        lemma_record_position_props(rest, l);
        assert forall|j: int| 0 <= j < record_position(records, l) implies (#[trigger] records[j]).0.value < l.value by {
            if j > 0 {
                assert(records[j] == rest[j - 1]);
            }
        }
        if record_position(records, l) < records.len() {
            assert(records[record_position(records, l)] == rest[record_position(rest, l)]);
        }
    }
}

/// Grouping pairs by leaf keeps, for every key, the value of the last pair that sets it, and
/// no other key; the groups are in leaf order, each group in key order.
pub proof fn law_group_pairs_last_wins(pairs: Seq<(Word, Word)>)
    ensures
        records_ordered(group_pairs(pairs)),
        forall|k: Word| #[trigger] records_lookup(group_pairs(pairs), k) == last_value(pairs, k),
    decreases pairs.len(),
{
    if pairs.len() == 0 {
        assert forall|k: Word| #[trigger] records_lookup(group_pairs(pairs), k) == last_value(pairs, k) by {}
    } else {
        law_group_pairs_last_wins(pairs.drop_last());
        let prev = group_pairs(pairs.drop_last());
        lemma_set_pair_lookup(prev, pairs.last().0, pairs.last().1);
        assert forall|k: Word| #[trigger] records_lookup(group_pairs(pairs), k) == last_value(pairs, k) by {
            if k != pairs.last().0 {
                assert(records_lookup(prev, k) == last_value(pairs.drop_last(), k));
            }
        }
    }
}

// HISTORICAL ENTRIES
// ================================================================================================

/// True when some delta of `deltas` records a change of leaf `l`.
pub open spec fn leaf_changed(deltas: Seq<Delta>, l: u64) -> bool {
    exists|i: int, j: int|
        0 <= i < deltas.len() && 0 <= j < deltas[i].leaves@.len() && #[trigger] deltas[i].leaves@[j].0.value == l
}

/// True when the values strictly ascend.
pub open spec fn strictly_ascending(s: Seq<u64>) -> bool {
    forall|i: int, j: int| 0 <= i < j < s.len() ==> s[i] < s[j]
}

/// The changed leaves of `deltas`, in ascending order, each once.
pub open spec fn changed_leaves(deltas: Seq<Delta>) -> Seq<u64> {
    choose|ls: Seq<u64>| strictly_ascending(ls) && forall|l: u64| ls.contains(l) <==> leaf_changed(deltas, l)
}

/// The overlay entries of the leaves `ls` of `deltas`, leaf after leaf, each leaf by ascending key.
pub open spec fn leaves_entries(deltas: Seq<Delta>, ls: Seq<u64>) -> Seq<TreeEntry>
    decreases ls.len(),
{
    if ls.len() == 0 {
        Seq::empty()
    } else {
        leaves_entries(deltas, ls.drop_last()) + overlay_leaf(deltas, LeafIndex { value: ls.last() }).map_values(
            |e: (Word, Word)| TreeEntry { key: e.0, value: e.1 },
        )
    }
}

/// The entries changed by the overlay of `deltas`: for each changed leaf in ascending order, its
/// overlay entries by ascending key.
pub open spec fn historical_entries(deltas: Seq<Delta>) -> Seq<TreeEntry> {
    leaves_entries(deltas, changed_leaves(deltas))
}

/// Two strictly ascending sequences with the same elements are equal.
proof fn lemma_ascending_unique(a: Seq<u64>, b: Seq<u64>)
    requires
        strictly_ascending(a),
        strictly_ascending(b),
        forall|x: u64| a.contains(x) <==> b.contains(x),
    ensures
        a == b,
    decreases a.len(),
{
    if a.len() == 0 {
        if b.len() > 0 {
            assert(b.contains(b[0]));
        }
        assert(a =~= b);
    } else {
        assert(a.contains(a[0]));
        let k = choose|k: int| 0 <= k < b.len() && b[k] == a[0];
        assert(b.contains(b[0]));
        let m = choose|m: int| 0 <= m < a.len() && a[m] == b[0];
        assert(a[0] <= a[m]);
        assert(b[0] <= b[k]);
        assert(a[0] == b[0]);
        let a2 = a.drop_first();
        let b2 = b.drop_first();
        assert forall|x: u64| a2.contains(x) implies b2.contains(x) by {
            let i = choose|i: int| 0 <= i < a2.len() && a2[i] == x;
            assert(a[i + 1] == x);
            assert(b.contains(x));
            let j = choose|j: int| 0 <= j < b.len() && b[j] == x;
            if j == 0 {
                assert(a[0] < a[i + 1]);
            }
            assert(b2[j - 1] == x);
        }
        assert forall|x: u64| b2.contains(x) implies a2.contains(x) by {
            let j = choose|j: int| 0 <= j < b2.len() && b2[j] == x;
            assert(b[j + 1] == x);
            assert(a.contains(x));
            let i = choose|i: int| 0 <= i < a.len() && a[i] == x;
            if i == 0 {
                assert(b[0] < b[j + 1]);
            }
            assert(a2[i - 1] == x);
        }
        lemma_ascending_unique(a2, b2);
        assert(a =~= b) by {
            assert forall|i: int| 0 <= i < a.len() implies a[i] == b[i] by {
                if i > 0 {
                    assert(a[i] == a2[i - 1]);
                    assert(b[i] == b2[i - 1]);
                }
            }
        }
    }
}

/// Adds `x` to the strictly ascending `ls` unless it is already there.
fn insert_sorted(ls: &mut Vec<u64>, x: u64)
    requires
        strictly_ascending(old(ls)@),
    ensures
        strictly_ascending(final(ls)@),
        forall|y: u64| final(ls)@.contains(y) <==> (old(ls)@.contains(y) || y == x),
{
    let ghost s = ls@;
    let n = ls.len();
    let mut p: usize = 0;
    while p < n && ls[p] < x
        invariant
            n == ls@.len(),
            s == ls@,
            p <= n,
            forall|j: int| 0 <= j < p ==> s[j] < x,
        decreases n - p,
    {
        p += 1;
    }
    if p < n && ls[p] == x {
        return;
    }
    ls.insert(p, x);
    proof {
        let t = ls@;
        assert(t =~= s.insert(p as int, x));
        assert forall|i: int, j: int| 0 <= i < j < t.len() implies t[i] < t[j] by {
            if j < p {
            } else if j == p {
            } else if i < p {
                assert(t[j] == s[j - 1]);
                assert(s[p as int] > x);
            } else if i == p {
                assert(t[j] == s[j - 1]);
                assert(s[p as int] > x);
            } else {
                assert(t[i] == s[i - 1] && t[j] == s[j - 1]);
            }
        }
        assert forall|y: u64| t.contains(y) <==> (s.contains(y) || y == x) by {
            if t.contains(y) {
                let i = choose|i: int| 0 <= i < t.len() && t[i] == y;
                if i < p {
                    assert(s[i] == y);
                } else if i > p {
                    assert(s[i - 1] == y);
                }
            }
            if s.contains(y) {
                let i = choose|i: int| 0 <= i < s.len() && s[i] == y;
                if i < p {
                    assert(t[i] == y);
                } else {
                    assert(t[i + 1] == y);
                }
            }
            if y == x {
                assert(t[p as int] == y);
            }
        }
    }
}

impl<'history> HistoryView<'history> {
    /// The changed leaves of the overlay, ascending and each once.
    fn changed_leaf_list(&self) -> (r: Vec<u64>)
        requires
            self.version_ix <= self.history.spec_deltas().len(),
        ensures
            r@ == changed_leaves(self.overlay_deltas()),
    {
        let ghost ds = self.overlay_deltas();
        let ghost all = self.history.deltas@;
        let ix = self.version_ix;
        let n = self.history.deltas.len();
        let mut out: Vec<u64> = Vec::new();
        let mut i: usize = ix;
        while i < n
            invariant
                n == all.len(),
                all == self.history.deltas@,
                ds == all.skip(ix as int),
                ix <= i <= n,
                strictly_ascending(out@),
                forall|l: u64| out@.contains(l) <==> exists|a: int, b: int|
                    ix <= a < i && 0 <= b < all[a].leaves@.len() && #[trigger] all[a].leaves@[b].0.value == l,
            decreases n - i,
        {
            let leaves = &self.history.deltas[i].leaves;
            let m = leaves.len();
            let mut k: usize = 0;
            while k < m
                invariant
                    n == all.len(),
                    all == self.history.deltas@,
                    ix <= i < n,
                    m == leaves@.len(),
                    *leaves == all[i as int].leaves,
                    k <= m,
                    strictly_ascending(out@),
                    forall|l: u64| out@.contains(l) <==> (exists|a: int, b: int|
                        ix <= a < i && 0 <= b < all[a].leaves@.len() && #[trigger] all[a].leaves@[b].0.value == l)
                        || (exists|b: int| 0 <= b < k && #[trigger] leaves@[b].0.value == l),
                decreases m - k,
            {
                let ghost before = out@;
                insert_sorted(&mut out, leaves[k].0.value);
                proof {
                    assert forall|l: u64| out@.contains(l) <==> (exists|a: int, b: int|
                        ix <= a < i && 0 <= b < all[a].leaves@.len() && #[trigger] all[a].leaves@[b].0.value == l)
                        || (exists|b: int| 0 <= b < k + 1 && #[trigger] leaves@[b].0.value == l) by {
                        if l == leaves@[k as int].0.value {
                            assert(exists|b: int| 0 <= b < k + 1 && #[trigger] leaves@[b].0.value == l);
                        }
                        if exists|b: int| 0 <= b < k + 1 && #[trigger] leaves@[b].0.value == l {
                            let b = choose|b: int| 0 <= b < k + 1 && #[trigger] leaves@[b].0.value == l;
                            if b < k {
                                assert(before.contains(l));
                            }
                        }
                    }
                }
                k += 1;
            }
            proof {
                assert forall|l: u64| out@.contains(l) <==> exists|a: int, b: int|
                    ix <= a < i + 1 && 0 <= b < all[a].leaves@.len() && #[trigger] all[a].leaves@[b].0.value == l by {
                    if exists|a: int, b: int|
                        ix <= a < i + 1 && 0 <= b < all[a].leaves@.len() && #[trigger] all[a].leaves@[b].0.value == l {
                        let (a, b) = choose|a: int, b: int|
                            ix <= a < i + 1 && 0 <= b < all[a].leaves@.len() && #[trigger] all[a].leaves@[b].0.value == l;
                        if a == i {
                            assert(leaves@[b].0.value == l);
                        }
                    }
                }
            }
            i += 1;
        }
        proof {
            assert forall|l: u64| out@.contains(l) <==> leaf_changed(ds, l) by {
                if out@.contains(l) {
                    let (a, b) = choose|a: int, b: int|
                        ix <= a < n && 0 <= b < all[a].leaves@.len() && #[trigger] all[a].leaves@[b].0.value == l;
                    assert(ds[a - ix] == all[a]);
                    assert(ds[a - ix].leaves@[b].0.value == l);
                }
                if leaf_changed(ds, l) {
                    let (a, b) = choose|a: int, b: int|
                        0 <= a < ds.len() && 0 <= b < ds[a].leaves@.len() && #[trigger] ds[a].leaves@[b].0.value == l;
                    assert(ds[a] == all[a + ix]);
                    assert(all[a + ix].leaves@[b].0.value == l);
                }
            }
            let c = changed_leaves(ds);
            assert(strictly_ascending(c) && forall|l: u64| c.contains(l) <==> leaf_changed(ds, l));
            lemma_ascending_unique(out@, c);
        }
        out
    }

    /// Returns the entries changed by this view: for each changed leaf, by ascending leaf index,
    /// its overlay entries by ascending key. Entries whose value is the empty word are included,
    /// as they are needed to merge with the entries of the current tree.
    pub fn entries(&self) -> (r: Vec<TreeEntry>)
        requires
            self.version_ix <= self.history.spec_deltas().len(),
            forall|l: u64| leaf_changed(self.overlay_deltas(), l) ==> overlay_leaf(self.overlay_deltas(), LeafIndex { value: l }).len() > 0,
        ensures
            r@ == historical_entries(self.overlay_deltas()),
    {
        let ghost ds = self.overlay_deltas();
        let leaves = self.changed_leaf_list();
        let n = leaves.len();
        let mut out: Vec<TreeEntry> = Vec::new();
        let mut i: usize = 0;
        while i < n
            invariant
                n == leaves@.len(),
                leaves@ == changed_leaves(ds),
                ds == self.overlay_deltas(),
                self.version_ix <= self.history.spec_deltas().len(),
                i <= n,
                out@ == leaves_entries(ds, leaves@.take(i as int)),
            decreases n - i,
        {
            let leaf = self.leaf_delta(&LeafIndex { value: leaves[i] });
            let ghost base = out@;
            let m = leaf.len();
            let mut k: usize = 0;
            while k < m
                invariant
                    m == leaf@.len(),
                    k <= m,
                    out@ == base + leaf@.take(k as int).map_values(|e: (Word, Word)| TreeEntry { key: e.0, value: e.1 }),
                decreases m - k,
            {
                out.push(TreeEntry { key: leaf[k].0, value: leaf[k].1 });
                proof {
                    assert(out@ =~= base + leaf@.take(k + 1).map_values(|e: (Word, Word)| TreeEntry { key: e.0, value: e.1 }));
                }
                k += 1;
            }
            proof {
                assert(leaf@.take(m as int) =~= leaf@);
                assert(leaves@.take(i + 1).drop_last() =~= leaves@.take(i as int));
                assert(leaves@.take(i + 1).last() == leaves@[i as int]);
            }
            i += 1;
        }
        proof {
            assert(leaves@.take(n as int) =~= leaves@);
        }
        out
    }
}

// ORDER OF THE HISTORICAL ENTRIES
// ================================================================================================

/// True when every entry recorded for a leaf has a key of that leaf.
pub open spec fn leaf_records_consistent(deltas: Seq<Delta>) -> bool {
    forall|i: int, j: int, k: int|
        0 <= i < deltas.len() && 0 <= j < deltas[i].leaves@.len() && 0 <= k < deltas[i].leaves@[j].1@.len()
            ==> leaf_of(canonical_word(#[trigger] deltas[i].leaves@[j].1@[k].0)) == deltas[i].leaves@[j].0
}

/// True when the canonical form of every key of the rows belongs to leaf `l`.
pub open spec fn rows_in_leaf(rows: Seq<(Word, Word)>, l: LeafIndex) -> bool {
    forall|i: int| 0 <= i < rows.len() ==> leaf_of(canonical_word(#[trigger] rows[i].0)) == l
}

/// True when every key of the entries belongs to leaf `l`.
pub open spec fn keys_in_leaf(s: Seq<(Word, Word)>, l: LeafIndex) -> bool {
    forall|i: int| 0 <= i < s.len() ==> leaf_of(#[trigger] s[i].0) == l
}

proof fn lemma_add_leaf_entry_props(s: Seq<(Word, Word)>, k: Word, v: Word, l: LeafIndex)
    requires
        keys_ascending(s),
    ensures
        keys_ascending(add_leaf_entry(s, k, v)),
        keys_in_leaf(s, l) && leaf_of(k) == l ==> keys_in_leaf(add_leaf_entry(s, k, v), l),
{
    if exists|i: int| 0 <= i < s.len() && s[i].0 == k {
        let i = choose|i: int| 0 <= i < s.len() && s[i].0 == k;
        lemma_add_leaf_entry_present(s, k, v, i);
    } else {
        let p = first_not_below(s, k) as int;
        if exists|i: int| 0 <= i < s.len() && !word_lt(s[i].0, k) {
            let c = choose|c: int| 0 <= c < s.len() && !word_lt(s[c].0, k) && forall|j: int| 0 <= j < c ==> word_lt(s[j].0, k);
            let w = choose|i: int| 0 <= i < s.len() && !word_lt(s[i].0, k);
            lemma_first_not_below_exists(s, k, w);
            assert(0 <= c < s.len() && !word_lt(s[c].0, k) && forall|j: int| 0 <= j < c ==> word_lt(s[j].0, k));
            assert(p == c);
            lemma_word_order(s[p].0, k, k);
        } else {
            assert(p == s.len());
            assert forall|j: int| 0 <= j < p implies word_lt(s[j].0, k) by {
                assert(!(0 <= j < s.len() && !word_lt(s[j].0, k)));
            }
        }
        lemma_add_leaf_entry_absent(s, k, v, p);
        let t = s.insert(p, (k, v));
        if keys_in_leaf(s, l) && leaf_of(k) == l {
            assert forall|i: int| 0 <= i < t.len() implies leaf_of(#[trigger] t[i].0) == l by {
                if i < p {
                    assert(t[i] == s[i]);
                } else if i > p {
                    assert(t[i] == s[i - 1]);
                }
            }
        }
    }
}

proof fn lemma_first_not_below_exists(s: Seq<(Word, Word)>, k: Word, w: int)
    requires
        0 <= w < s.len(),
        !word_lt(s[w].0, k),
    ensures
        exists|c: int| 0 <= c < s.len() && !word_lt(s[c].0, k) && forall|j: int| 0 <= j < c ==> word_lt(s[j].0, k),
    decreases w,
{
    if exists|j: int| 0 <= j < w && !word_lt(s[j].0, k) {
        let j = choose|j: int| 0 <= j < w && !word_lt(s[j].0, k);
        lemma_first_not_below_exists(s, k, j);
    } else {
        assert(0 <= w < s.len() && !word_lt(s[w].0, k) && forall|j: int| 0 <= j < w ==> word_lt(s[j].0, k));
    }
}

proof fn lemma_add_leaf_entries_props(s: Seq<(Word, Word)>, rows: Seq<(Word, Word)>, l: LeafIndex)
    requires
        keys_ascending(s),
    ensures
        keys_ascending(add_leaf_entries(s, rows)),
        keys_in_leaf(s, l) && rows_in_leaf(rows, l) ==> keys_in_leaf(add_leaf_entries(s, rows), l),
    decreases rows.len(),
{
    if rows.len() > 0 {
        lemma_add_leaf_entries_props(s, rows.drop_last(), l);
        let prev = add_leaf_entries(s, rows.drop_last());
        if rows_in_leaf(rows, l) {
            assert(rows_in_leaf(rows.drop_last(), l)) by {
                assert forall|i: int| 0 <= i < rows.drop_last().len() implies leaf_of(canonical_word(#[trigger] rows.drop_last()[i].0)) == l by {
                    assert(rows.drop_last()[i] == rows[i]);
                }
            }
            assert(leaf_of(canonical_word(rows[rows.len() - 1].0)) == l);
        }
        lemma_add_leaf_entry_props(prev, canonical_word(rows.last().0), rows.last().1, l);
    }
}

proof fn lemma_leaf_entry_rows(leaves: Seq<(LeafIndex, Vec<(Word, Word)>)>, l: LeafIndex)
    requires
        leaf_entry(leaves, l) is Some,
    ensures
        exists|j: int| 0 <= j < leaves.len() && leaves[j].0 == l && leaf_entry(leaves, l) == Some(leaves[j].1@),
{
    let j = choose|j: int| 0 <= j < leaves.len() && leaves[j].0 == l && forall|m: int| 0 <= m < j ==> leaves[m].0 != l;
    let w = choose|i: int| 0 <= i < leaves.len() && leaves[i].0 == l;
    lemma_first_record_exists(leaves, l, w);
    assert(0 <= j < leaves.len() && leaves[j].0 == l);
}

proof fn lemma_first_record_exists(leaves: Seq<(LeafIndex, Vec<(Word, Word)>)>, l: LeafIndex, w: int)
    requires
        0 <= w < leaves.len(),
        leaves[w].0 == l,
    ensures
        exists|j: int| 0 <= j < leaves.len() && leaves[j].0 == l && forall|m: int| 0 <= m < j ==> leaves[m].0 != l,
    decreases w,
{
    if exists|m: int| 0 <= m < w && leaves[m].0 == l {
        let m = choose|m: int| 0 <= m < w && leaves[m].0 == l;
        lemma_first_record_exists(leaves, l, m);
    } else {
        assert(0 <= w < leaves.len() && leaves[w].0 == l && forall|m: int| 0 <= m < w ==> leaves[m].0 != l);
    }
}

/// The overlay of a leaf is ordered by key, and, when the records are consistent, holds keys of
/// that leaf only.
proof fn lemma_overlay_leaf_props(deltas: Seq<Delta>, l: LeafIndex)
    ensures
        keys_ascending(overlay_leaf(deltas, l)),
        leaf_records_consistent(deltas) ==> keys_in_leaf(overlay_leaf(deltas, l), l),
    decreases deltas.len(),
{
    if deltas.len() > 0 {
        let init = deltas.drop_last();
        lemma_overlay_leaf_props(init, l);
        let prev = overlay_leaf(init, l);
        if leaf_records_consistent(deltas) {
            assert(leaf_records_consistent(init)) by {
                assert forall|i: int, j: int, k: int|
                    0 <= i < init.len() && 0 <= j < init[i].leaves@.len() && 0 <= k < init[i].leaves@[j].1@.len()
                        implies leaf_of(canonical_word(#[trigger] init[i].leaves@[j].1@[k].0)) == init[i].leaves@[j].0 by {
                    assert(init[i] == deltas[i]);
                    assert(leaf_of(canonical_word(deltas[i].leaves@[j].1@[k].0)) == deltas[i].leaves@[j].0);
                }
            }
        }
        match leaf_entry(deltas.last().leaves@, l) {
            Some(rows) => {
                lemma_leaf_entry_rows(deltas.last().leaves@, l);
                let j = choose|j: int| 0 <= j < deltas.last().leaves@.len() && deltas.last().leaves@[j].0 == l
                    && leaf_entry(deltas.last().leaves@, l) == Some(deltas.last().leaves@[j].1@);
                if leaf_records_consistent(deltas) {
                    assert forall|k: int| 0 <= k < rows.len() implies leaf_of(canonical_word(#[trigger] rows[k].0)) == l by {
                        let i = deltas.len() - 1;
                        assert(deltas[i] == deltas.last());
                        assert(leaf_of(canonical_word(deltas[i].leaves@[j].1@[k].0)) == deltas[i].leaves@[j].0);
                    }
                }
                lemma_add_leaf_entries_props(prev, rows, l);
            },
            None => {},
        }
    }
}

/// The leaves of `ls` are all below `bound`, and each entry of [`leaves_entries`] has a key whose
/// leaf is one of `ls`; keys ascend.
proof fn lemma_leaves_entries_sorted(deltas: Seq<Delta>, ls: Seq<u64>)
    requires
        leaf_records_consistent(deltas),
        strictly_ascending(ls),
    ensures
        forall|i: int, j: int| 0 <= i < j < leaves_entries(deltas, ls).len() ==> word_lt(
            #[trigger] leaves_entries(deltas, ls)[i].key,
            #[trigger] leaves_entries(deltas, ls)[j].key,
        ),
        forall|i: int| 0 <= i < leaves_entries(deltas, ls).len() ==> ls.contains(#[trigger] leaves_entries(deltas, ls)[i].key.3),
    decreases ls.len(),
{
    if ls.len() > 0 {
        let init = ls.drop_last();
        let l = ls.last();
        assert(strictly_ascending(init));
        lemma_leaves_entries_sorted(deltas, init);
        let prev = leaves_entries(deltas, init);
        let leaf = overlay_leaf(deltas, LeafIndex { value: l });
        lemma_overlay_leaf_props(deltas, LeafIndex { value: l });
        let tail = leaf.map_values(|e: (Word, Word)| TreeEntry { key: e.0, value: e.1 });
        let all = leaves_entries(deltas, ls);
        assert(all == prev + tail);
        assert forall|i: int| 0 <= i < all.len() implies ls.contains(#[trigger] all[i].key.3) by {
            if i < prev.len() {
                assert(all[i] == prev[i]);
                let m = choose|m: int| 0 <= m < init.len() && init[m] == prev[i].key.3;
                assert(ls[m] == init[m]);
            } else {
                assert(all[i] == tail[i - prev.len()]);
                assert(leaf_of(leaf[i - prev.len()].0) == LeafIndex { value: l });
                assert(ls[ls.len() - 1] == l);
            }
        }
        assert forall|i: int, j: int| 0 <= i < j < all.len() implies word_lt(#[trigger] all[i].key, #[trigger] all[j].key) by {
            if j < prev.len() {
                assert(all[i] == prev[i] && all[j] == prev[j]);
            } else if i >= prev.len() {
                assert(all[i] == tail[i - prev.len()] && all[j] == tail[j - prev.len()]);
            } else {
                assert(all[i] == prev[i] && all[j] == tail[j - prev.len()]);
                let m = choose|m: int| 0 <= m < init.len() && init[m] == prev[i].key.3;
                assert(ls[m] < ls[ls.len() - 1]);
                assert(leaf_of(leaf[j - prev.len()].0) == LeafIndex { value: l });
            }
        }
    }
}

/// The sorted list of the leaves recorded in `records`, inserted one by one into `ls`.
spec fn sorted_insert(ls: Seq<u64>, x: u64) -> Seq<u64>
    decreases ls.len(),
{
    if ls.len() == 0 {
        seq![x]
    } else if x < ls[0] {
        seq![x] + ls
    } else if x == ls[0] {
        ls
    } else {
        seq![ls[0]] + sorted_insert(ls.drop_first(), x)
    }
}

proof fn lemma_sorted_insert(ls: Seq<u64>, x: u64)
    requires
        strictly_ascending(ls),
    ensures
        strictly_ascending(sorted_insert(ls, x)),
        forall|y: u64| #[trigger] sorted_insert(ls, x).contains(y) <==> (ls.contains(y) || y == x),
        sorted_insert(ls, x).len() > 0 && (sorted_insert(ls, x)[0] == x || (ls.len() > 0 && sorted_insert(ls, x)[0] == ls[0])),
    decreases ls.len(),
{
    let r = sorted_insert(ls, x);
    if ls.len() == 0 {
        assert forall|y: u64| r.contains(y) <==> (ls.contains(y) || y == x) by {
            if r.contains(y) {
                let i = choose|i: int| 0 <= i < r.len() && r[i] == y;
            }
            if y == x {
                assert(r[0] == y);
            }
        }
    } else if x < ls[0] {
        assert forall|y: u64| r.contains(y) <==> (ls.contains(y) || y == x) by {
            if r.contains(y) {
                let i = choose|i: int| 0 <= i < r.len() && r[i] == y;
                if i > 0 {
                    assert(ls[i - 1] == y);
                }
            }
            if ls.contains(y) {
                let i = choose|i: int| 0 <= i < ls.len() && ls[i] == y;
                assert(r[i + 1] == y);
            }
            if y == x {
                assert(r[0] == y);
            }
        }
        assert forall|i: int, j: int| 0 <= i < j < r.len() implies r[i] < r[j] by {
            if i > 0 {
                assert(r[i] == ls[i - 1] && r[j] == ls[j - 1]);
            } else {
                assert(r[j] == ls[j - 1]);
                assert(ls[0] <= ls[j - 1]);
            }
        }
    } else if x == ls[0] {
        assert forall|y: u64| r.contains(y) <==> (ls.contains(y) || y == x) by {
            if y == x {
                assert(ls[0] == y);
            }
        }
    } else {
        let rest = ls.drop_first();
        assert(strictly_ascending(rest));
        lemma_sorted_insert(rest, x);
        let rr = sorted_insert(rest, x);
        assert(r == seq![ls[0]] + rr);
        assert forall|y: u64| r.contains(y) <==> (ls.contains(y) || y == x) by {
            if r.contains(y) {
                let i = choose|i: int| 0 <= i < r.len() && r[i] == y;
                if i > 0 {
                    assert(rr[i - 1] == y);
                    assert(rr.contains(y));
                    if rest.contains(y) {
                        let m = choose|m: int| 0 <= m < rest.len() && rest[m] == y;
                        assert(ls[m + 1] == y);
                    }
                } else {
                    assert(ls[0] == y);
                }
            }
            if ls.contains(y) {
                let i = choose|i: int| 0 <= i < ls.len() && ls[i] == y;
                if i > 0 {
                    assert(rest[i - 1] == y);
                    assert(rest.contains(y));
                    assert(rr.contains(y));
                    let m = choose|m: int| 0 <= m < rr.len() && rr[m] == y;
                    assert(r[m + 1] == y);
                } else {
                    assert(r[0] == y);
                }
            }
            if y == x {
                assert(rr.contains(y));
                let m = choose|m: int| 0 <= m < rr.len() && rr[m] == y;
                assert(r[m + 1] == y);
            }
        }
        assert forall|i: int, j: int| 0 <= i < j < r.len() implies r[i] < r[j] by {
            if i > 0 {
                assert(r[i] == rr[i - 1] && r[j] == rr[j - 1]);
            } else {
                assert(r[j] == rr[j - 1]);
                assert(rr.contains(rr[j - 1]));
                if rest.contains(rr[j - 1]) {
                    let m = choose|m: int| 0 <= m < rest.len() && rest[m] == rr[j - 1];
                    assert(ls[0] < ls[m + 1]);
                }
            }
        }
    }
}

/// The changed leaves of `deltas`, collected into a sorted list without duplicates, one delta
/// and one record after the other.
spec fn collect_records(ls: Seq<u64>, records: Seq<(LeafIndex, Vec<(Word, Word)>)>) -> Seq<u64>
    decreases records.len(),
{
    if records.len() == 0 {
        ls
    } else {
        sorted_insert(collect_records(ls, records.drop_last()), records.last().0.value)
    }
}

spec fn collect_deltas(deltas: Seq<Delta>) -> Seq<u64>
    decreases deltas.len(),
{
    if deltas.len() == 0 {
        Seq::empty()
    } else {
        collect_records(collect_deltas(deltas.drop_last()), deltas.last().leaves@)
    }
}

proof fn lemma_collect_records(ls: Seq<u64>, records: Seq<(LeafIndex, Vec<(Word, Word)>)>)
    requires
        strictly_ascending(ls),
    ensures
        strictly_ascending(collect_records(ls, records)),
        forall|y: u64| #[trigger] collect_records(ls, records).contains(y) <==> (ls.contains(y)
            || exists|j: int| 0 <= j < records.len() && #[trigger] records[j].0.value == y),
    decreases records.len(),
{
    if records.len() > 0 {
        let init = records.drop_last();
        lemma_collect_records(ls, init);
        let prev = collect_records(ls, init);
        lemma_sorted_insert(prev, records.last().0.value);
        assert forall|y: u64| collect_records(ls, records).contains(y) <==> (ls.contains(y)
            || exists|j: int| 0 <= j < records.len() && #[trigger] records[j].0.value == y) by {
            if exists|j: int| 0 <= j < records.len() && #[trigger] records[j].0.value == y {
                let j = choose|j: int| 0 <= j < records.len() && #[trigger] records[j].0.value == y;
                if j < records.len() - 1 {
                    assert(init[j].0.value == y);
                }
            }
            if exists|j: int| 0 <= j < init.len() && #[trigger] init[j].0.value == y {
                let j = choose|j: int| 0 <= j < init.len() && #[trigger] init[j].0.value == y;
                assert(records[j].0.value == y);
            }
        }
    }
}

proof fn lemma_collect_deltas(deltas: Seq<Delta>)
    ensures
        strictly_ascending(collect_deltas(deltas)),
        forall|y: u64| collect_deltas(deltas).contains(y) <==> leaf_changed(deltas, y),
    decreases deltas.len(),
{
    if deltas.len() > 0 {
        let init = deltas.drop_last();
        lemma_collect_deltas(init);
        let prev = collect_deltas(init);
        let records = deltas.last().leaves@;
        lemma_collect_records(prev, records);
        assert forall|y: u64| collect_deltas(deltas).contains(y) <==> leaf_changed(deltas, y) by {
            if leaf_changed(deltas, y) {
                let (i, j) = choose|i: int, j: int|
                    0 <= i < deltas.len() && 0 <= j < deltas[i].leaves@.len() && #[trigger] deltas[i].leaves@[j].0.value == y;
                if i < deltas.len() - 1 {
                    assert(init[i].leaves@[j].0.value == y);
                    assert(leaf_changed(init, y));
                } else {
                    assert(records[j].0.value == y);
                }
            }
            if prev.contains(y) {
                assert(leaf_changed(init, y));
                let (i, j) = choose|i: int, j: int|
                    0 <= i < init.len() && 0 <= j < init[i].leaves@.len() && #[trigger] init[i].leaves@[j].0.value == y;
                assert(deltas[i].leaves@[j].0.value == y);
            }
            if exists|j: int| 0 <= j < records.len() && #[trigger] records[j].0.value == y {
                let j = choose|j: int| 0 <= j < records.len() && #[trigger] records[j].0.value == y;
                assert(deltas[deltas.len() - 1].leaves@[j].0.value == y);
            }
        }
    }
}

/// The changed leaves are strictly ascending and are exactly the leaves some delta records.
proof fn lemma_changed_leaves(deltas: Seq<Delta>)
    ensures
        strictly_ascending(changed_leaves(deltas)),
        forall|l: u64| changed_leaves(deltas).contains(l) <==> leaf_changed(deltas, l),
{
    lemma_collect_deltas(deltas);
    let w = collect_deltas(deltas);
    assert(strictly_ascending(w) && forall|l: u64| w.contains(l) <==> leaf_changed(deltas, l));
}

// LAWS
// ================================================================================================

/// After a version is added, every query at that version or later is served by it: its root is
/// the one the added version carries. A history of capacity zero keeps no version, so the law
/// speaks of a positive capacity.
pub proof fn law_added_version_serves_later_queries(deltas: Seq<Delta>, max_count: nat, d: Delta, v: u64)
    requires
        max_count > 0,
        versions_increasing(deltas),
        deltas.len() == 0 || deltas.last().version_id < d.version_id,
        d.version_id <= v,
    ensures
        root_spec(add_version_spec(deltas, max_count, d), v) == Ok::<Word, HistoryError>(d.root),
        versions_increasing(add_version_spec(deltas, max_count, d)),
{
    let s2 = add_version_spec(deltas, max_count, d);
    assert(versions_increasing(deltas.push(d)));
    if deltas.len() + 1 > max_count {
        assert forall|i: int, j: int| 0 <= i < j < s2.len() implies s2[i].version_id < s2[j].version_id by {
            assert(s2[i] == deltas.push(d)[i + 1]);
            assert(s2[j] == deltas.push(d)[j + 1]);
        }
    }
    assert(s2.last() == d);
    lemma_count_at_most(s2, v, s2.len() as int);
    if s2.len() > 1 {
        assert(s2[0].version_id <= s2[s2.len() - 1].version_id);
    }
}

/// The entries a view changes come sorted by leaf index and, within a leaf, by key; with every
/// recorded entry keyed in its own leaf, the keys strictly ascend in the order of keys.
pub proof fn law_historical_entries_sorted(deltas: Seq<Delta>)
    requires
        leaf_records_consistent(deltas),
    ensures
        forall|i: int, j: int| 0 <= i < j < historical_entries(deltas).len() ==> word_lt(
            #[trigger] historical_entries(deltas)[i].key,
            #[trigger] historical_entries(deltas)[j].key,
        ),
{
    lemma_changed_leaves(deltas);
    lemma_leaves_entries_sorted(deltas, changed_leaves(deltas));
}

/// Truncating at version `v` changes no query at `v` or later: the same root serves it, and the
/// view at it overlays the same deltas.
pub proof fn law_truncate_keeps_later_queries(deltas: Seq<Delta>, v: u64, w: u64)
    requires
        versions_increasing(deltas),
        v <= w,
    ensures
        root_spec(deltas.skip(truncate_count(deltas, v) as int), w) == root_spec(deltas, w),
        match (corresponding_index(deltas.skip(truncate_count(deltas, v) as int), w), corresponding_index(deltas, w)) {
            (Ok(i), Ok(j)) => deltas.skip(truncate_count(deltas, v) as int).skip(i) == deltas.skip(j),
            (Err(e), Err(f)) => e == f,
            _ => false,
        },
{
    let t = truncate_count(deltas, v) as int;
    let s2 = deltas.skip(t);
    lemma_count_at_most_sorted(deltas, v);
    lemma_count_at_most_sorted(deltas, w);
    match corresponding_index(deltas, v) {
        Ok(i) => {
            assert(t == count_at_most(deltas, v) - 1);
            assert(deltas[t].version_id <= v);
            assert(versions_increasing(s2)) by {
                assert forall|a: int, b: int| 0 <= a < b < s2.len() implies s2[a].version_id < s2[b].version_id by {
                    assert(s2[a] == deltas[a + t]);
                    assert(s2[b] == deltas[b + t]);
                }
            }
            let cw = count_at_most(deltas, w) as int;
            assert(cw >= t + 1) by {
                if cw < t + 1 {
                    assert(deltas[t].version_id > w);
                }
            }
            assert forall|j: int| 0 <= j < cw - t implies s2[j].version_id <= w by {
                assert(s2[j] == deltas[j + t]);
            }
            if cw - t < s2.len() {
                assert(s2[cw - t] == deltas[cw]);
            }
            lemma_count_at_most(s2, w, cw - t);
            assert(s2[0] == deltas[t]);
            assert(s2.skip(cw - t - 1) =~= deltas.skip(cw - 1));
            assert(s2[cw - t - 1] == deltas[cw - 1]);
        },
        Err(_) => {
            assert(t == 0);
            assert(s2 =~= deltas);
        },
    }
}

} // verus!
