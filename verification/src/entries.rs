//! The entries of a tree of the forest at a historical version: the entries of the current tree
//! merged with the entries of the history overlay.
//!
//! Both inputs come ordered by leaf index, and by key within a leaf. Keys and values are compared
//! by their canonical forms. Where both hold a key, the
//! history's entry wins; an entry of the history whose value is the empty word reverts a key set
//! since that version, so it removes the key and is never yielded.
use vstd::prelude::*;
use crate::history::{TreeEntry, key_less, word_lt};
use crate::word::{canonical_word, Word, empty_word_spec};

verus! {

/// True when an entry holds the empty word, the value of an absent key.
pub open spec fn is_empty_entry(e: TreeEntry) -> bool {
    canonical_word(e.value) == empty_word_spec()
}

/// The canonical form of an entry's key.
pub open spec fn ckey(e: TreeEntry) -> Word {
    canonical_word(e.key)
}

/// The entry itself, or nothing when it holds the empty word.
pub open spec fn keep(e: TreeEntry) -> Seq<TreeEntry> {
    if is_empty_entry(e) {
        Seq::empty()
    } else {
        seq![e]
    }
}

/// The entries of the tree at a historical version, from the entries `full` of the current tree
/// and the entries `hist` of the history overlay, both ordered by leaf and key.
pub open spec fn merged(full: Seq<TreeEntry>, hist: Seq<TreeEntry>) -> Seq<TreeEntry>
    decreases full.len() + hist.len(),
{
    if full.len() == 0 && hist.len() == 0 {
        Seq::empty()
    } else if full.len() == 0 {
        keep(hist[0]) + merged(full, hist.drop_first())
    } else if hist.len() == 0 {
        seq![full[0]] + merged(full.drop_first(), hist)
    } else {
        let f = full[0];
        let h = hist[0];
        if ckey(f).3 == ckey(h).3 {
            if ckey(f) == ckey(h) {
                keep(h) + merged(full.drop_first(), hist.drop_first())
            } else if word_lt(ckey(h), ckey(f)) {
                keep(h) + merged(full, hist.drop_first())
            } else {
                seq![f] + merged(full.drop_first(), hist)
            }
        } else if ckey(f).3 < ckey(h).3 {
            seq![f] + merged(full.drop_first(), hist)
        } else {
            keep(h) + merged(full, hist.drop_first())
        }
    }
}

/// The state of the merge: which input the next entry comes from.
#[derive(Debug, Clone, Copy, PartialEq, Eq, Structural)]
pub enum EntriesIteratorState {
    /// Not in any leaf; the next step decides where the next entry comes from.
    NotInLeaf,
    /// The tree entries are exhausted: only history entries remain.
    HistOnly,
    /// The history entries are exhausted: only tree entries remain.
    TreeOnly,
    /// The next leaf is only in the history.
    InLeafHistOnly,
    /// The next leaf is only in the tree.
    InLeafTreeOnly,
    /// The next leaf is in both.
    InLeafShared,
    /// In a shared leaf, both next keys are equal.
    InLeafBothKeysEq,
    /// In a shared leaf, the history's next key comes first.
    InLeafBothHistPrio,
    /// In a shared leaf, the tree's next key comes first.
    InLeafBothTreePrio,
}

/// True when the state agrees with the remaining entries `f` of the tree and `h` of the history.
pub open spec fn consistent(state: EntriesIteratorState, f: Seq<TreeEntry>, h: Seq<TreeEntry>) -> bool {
    match state {
        EntriesIteratorState::NotInLeaf => true,
        EntriesIteratorState::HistOnly => f.len() == 0,
        EntriesIteratorState::TreeOnly => h.len() == 0,
        EntriesIteratorState::InLeafHistOnly => f.len() > 0 && h.len() > 0 && ckey(h[0]).3 < ckey(f[0]).3,
        EntriesIteratorState::InLeafTreeOnly => f.len() > 0 && h.len() > 0 && ckey(f[0]).3 < ckey(h[0]).3,
        EntriesIteratorState::InLeafShared => f.len() > 0 && h.len() > 0 && ckey(f[0]).3 == ckey(h[0]).3,
        EntriesIteratorState::InLeafBothKeysEq => f.len() > 0 && h.len() > 0 && ckey(f[0]) == ckey(h[0]),
        EntriesIteratorState::InLeafBothHistPrio => f.len() > 0 && h.len() > 0 && ckey(f[0]).3 == ckey(h[0]).3
            && ckey(f[0]) != ckey(h[0]) && word_lt(ckey(h[0]), ckey(f[0])),
        EntriesIteratorState::InLeafBothTreePrio => f.len() > 0 && h.len() > 0 && ckey(f[0]).3 == ckey(h[0]).3
            && ckey(f[0]) != ckey(h[0]) && !word_lt(ckey(h[0]), ckey(f[0])),
    }
}

/// The rank of a state: how many decisions are left before an entry is taken.
pub open spec fn rank(state: EntriesIteratorState) -> nat {
    match state {
        EntriesIteratorState::NotInLeaf => 2,
        EntriesIteratorState::InLeafShared => 1,
        _ => 0,
    }
}

/// An iterator over the entries of a tree of the forest: over the current tree alone, or over a
/// historical version merged from the current tree and the history overlay.
#[derive(Debug)]
pub struct EntriesIterator {
    /// Whether the iterator merges a history overlay.
    with_history: bool,
    /// The entries of the current tree.
    full: Vec<TreeEntry>,
    /// The number of entries of the current tree already consumed.
    full_pos: usize,
    /// The entries of the history overlay.
    hist: Vec<TreeEntry>,
    /// The number of entries of the history overlay already consumed.
    hist_pos: usize,
    /// The state of the merge.
    state: EntriesIteratorState,
}

impl EntriesIterator {
    /// Whether the iterator merges a history overlay.
    pub closed spec fn spec_with_history(&self) -> bool {
        self.with_history
    }

    /// The entries of the current tree not yet consumed.
    pub closed spec fn rest_full(&self) -> Seq<TreeEntry> {
        self.full@.skip(self.full_pos as int)
    }

    /// The entries of the history overlay not yet consumed.
    pub closed spec fn rest_hist(&self) -> Seq<TreeEntry> {
        self.hist@.skip(self.hist_pos as int)
    }

    /// The invariant of the iterator.
    pub closed spec fn wf(&self) -> bool {
        &&& self.full_pos <= self.full@.len()
        &&& self.hist_pos <= self.hist@.len()
        &&& consistent(self.state, self.rest_full(), self.rest_hist())
        &&& !self.with_history ==> self.state == EntriesIteratorState::NotInLeaf
    }

    /// The entries the iterator has yet to yield.
    pub open spec fn remaining(&self) -> Seq<TreeEntry> {
        if self.spec_with_history() {
            merged(self.rest_full(), self.rest_hist())
        } else {
            self.rest_full()
        }
    }

    /// Creates an iterator over a historical version, from the entries of the current tree (which
    /// hold no empty word) and those of the history overlay, both ordered by leaf and key.
    pub fn new_with_history(full_tree_entries: Vec<TreeEntry>, history_entries: Vec<TreeEntry>) -> (r: Self)
        ensures
            r.wf(),
            r.spec_with_history(),
            r.remaining() == merged(full_tree_entries@, history_entries@),
    {
        let r = EntriesIterator {
            with_history: true,
            full: full_tree_entries,
            full_pos: 0,
            hist: history_entries,
            hist_pos: 0,
            state: EntriesIteratorState::NotInLeaf,
        };
        proof {
            assert(r.rest_full() =~= r.full@);
            assert(r.rest_hist() =~= r.hist@);
        }
        r
    }

    /// Creates an iterator over the current tree alone.
    pub fn new_without_history(full_tree_entries: Vec<TreeEntry>) -> (r: Self)
        ensures
            r.wf(),
            !r.spec_with_history(),
            r.remaining() == full_tree_entries@,
    {
        let r = EntriesIterator {
            with_history: false,
            full: full_tree_entries,
            full_pos: 0,
            hist: Vec::new(),
            hist_pos: 0,
            state: EntriesIteratorState::NotInLeaf,
        };
        proof {
            assert(r.rest_full() =~= r.full@);
        }
        r
    }

    /// Advances an iterator over a historical version.
    fn next_with_history(&mut self) -> (r: Option<TreeEntry>)
        requires
            old(self).wf(),
            old(self).spec_with_history(),
        ensures
            final(self).wf(),
            final(self).spec_with_history(),
            match r {
                None => old(self).remaining().len() == 0 && final(self).remaining().len() == 0,
                Some(e) => old(self).remaining().len() > 0 && e == old(self).remaining()[0]
                    && final(self).remaining() == old(self).remaining().drop_first(),
            },
    {
        let ghost rem0 = self.remaining();
        loop
            invariant
                self.wf(),
                self.spec_with_history(),
                self.remaining() == rem0,
                rem0 == old(self).remaining(),
            decreases (self.full@.len() - self.full_pos) + (self.hist@.len() - self.hist_pos), rank(self.state),
        {
            let ghost f = self.rest_full();
            let ghost h = self.rest_hist();
            proof {
                if f.len() > 0 {
                    assert(f[0] == self.full@[self.full_pos as int]);
                    assert(f.drop_first() =~= self.full@.skip(self.full_pos + 1));
                }
                if h.len() > 0 {
                    assert(h[0] == self.hist@[self.hist_pos as int]);
                    assert(h.drop_first() =~= self.hist@.skip(self.hist_pos + 1));
                }
            }
            let has_full = self.full_pos < self.full.len();
            let has_hist = self.hist_pos < self.hist.len();
            match self.state {
                EntriesIteratorState::NotInLeaf => {
                    if !has_full && !has_hist {
                        return None;
                    } else if has_full && !has_hist {
                        self.state = EntriesIteratorState::TreeOnly;
                    } else if !has_full && has_hist {
                        self.state = EntriesIteratorState::HistOnly;
                    } else {
                        let full_idx = self.full[self.full_pos].key.canonical().3;
                        let hist_idx = self.hist[self.hist_pos].key.canonical().3;
                        if full_idx == hist_idx {
                            self.state = EntriesIteratorState::InLeafShared;
                        } else if full_idx < hist_idx {
                            self.state = EntriesIteratorState::InLeafTreeOnly;
                        } else {
                            self.state = EntriesIteratorState::InLeafHistOnly;
                        }
                    }
                },
                EntriesIteratorState::HistOnly => {
                    if !has_hist {
                        return None;
                    }
                    let e = self.hist[self.hist_pos];
                    self.hist_pos += 1;
                    if e.value.canonical() != Word::empty() {
                        return Some(e);
                    }
                },
                EntriesIteratorState::TreeOnly => {
                    if !has_full {
                        return None;
                    }
                    let e = self.full[self.full_pos];
                    self.full_pos += 1;
                    return Some(e);
                },
                EntriesIteratorState::InLeafHistOnly => {
                    self.state = EntriesIteratorState::NotInLeaf;
                    let e = self.hist[self.hist_pos];
                    self.hist_pos += 1;
                    if e.value.canonical() != Word::empty() {
                        return Some(e);
                    }
                },
                EntriesIteratorState::InLeafTreeOnly => {
                    self.state = EntriesIteratorState::NotInLeaf;
                    let e = self.full[self.full_pos];
                    self.full_pos += 1;
                    return Some(e);
                },
                EntriesIteratorState::InLeafShared => {
                    let hist_key = self.hist[self.hist_pos].key.canonical();
                    let tree_key = self.full[self.full_pos].key.canonical();
                    if hist_key == tree_key {
                        self.state = EntriesIteratorState::InLeafBothKeysEq;
                    } else if key_less(&hist_key, &tree_key) {
                        self.state = EntriesIteratorState::InLeafBothHistPrio;
                    } else {
                        self.state = EntriesIteratorState::InLeafBothTreePrio;
                    }
                },
                EntriesIteratorState::InLeafBothKeysEq => {
                    self.state = EntriesIteratorState::NotInLeaf;
                    self.full_pos += 1;
                    let e = self.hist[self.hist_pos];
                    self.hist_pos += 1;
                    if e.value.canonical() != Word::empty() {
                        return Some(e);
                    }
                },
                EntriesIteratorState::InLeafBothHistPrio => {
                    self.state = EntriesIteratorState::NotInLeaf;
                    let e = self.hist[self.hist_pos];
                    self.hist_pos += 1;
                    if e.value.canonical() != Word::empty() {
                        return Some(e);
                    }
                },
                EntriesIteratorState::InLeafBothTreePrio => {
                    self.state = EntriesIteratorState::NotInLeaf;
                    let e = self.full[self.full_pos];
                    self.full_pos += 1;
                    return Some(e);
                },
            }
        }
    }

    /// Advances an iterator over the current tree alone.
    fn next_without_history(&mut self) -> (r: Option<TreeEntry>)
        requires
            old(self).wf(),
            !old(self).spec_with_history(),
        ensures
            final(self).wf(),
            !final(self).spec_with_history(),
            match r {
                None => old(self).remaining().len() == 0 && final(self).remaining().len() == 0,
                Some(e) => old(self).remaining().len() > 0 && e == old(self).remaining()[0]
                    && final(self).remaining() == old(self).remaining().drop_first(),
            },
    {
        if self.full_pos < self.full.len() {
            let e = self.full[self.full_pos];
            proof {
                assert(self.full@.skip(self.full_pos as int).drop_first() =~= self.full@.skip(self.full_pos + 1));
            }
            self.full_pos += 1;
            Some(e)
        } else {
            None
        }
    }

    /// Returns the next entry: the first of those the iterator has yet to yield.
    pub fn next(&mut self) -> (r: Option<TreeEntry>)
        requires
            old(self).wf(),
        ensures
            final(self).wf(),
            final(self).spec_with_history() == old(self).spec_with_history(),
            match r {
                None => old(self).remaining().len() == 0 && final(self).remaining().len() == 0,
                Some(e) => old(self).remaining().len() > 0 && e == old(self).remaining()[0]
                    && final(self).remaining() == old(self).remaining().drop_first(),
            },
    {
        if self.with_history {
            self.next_with_history()
        } else {
            self.next_without_history()
        }
    }
}

/// The merged entries of a historical version never hold the empty word, when the current tree
/// holds none: an empty history entry only removes its key.
pub proof fn law_merged_never_empty(full: Seq<TreeEntry>, hist: Seq<TreeEntry>)
    requires
        forall|i: int| 0 <= i < full.len() ==> !is_empty_entry(#[trigger] full[i]),
    ensures
        forall|i: int| 0 <= i < merged(full, hist).len() ==> !is_empty_entry(#[trigger] merged(full, hist)[i]),
    decreases full.len() + hist.len(),
{
    if full.len() == 0 && hist.len() == 0 {
    } else if full.len() == 0 {
        law_merged_never_empty(full, hist.drop_first());
        lemma_prepend_nonempty(keep(hist[0]), merged(full, hist.drop_first()));
    } else {
        assert forall|i: int| 0 <= i < full.drop_first().len() implies !is_empty_entry(#[trigger] full.drop_first()[i]) by {
            assert(full.drop_first()[i] == full[i + 1]);
        }
        if hist.len() == 0 {
            law_merged_never_empty(full.drop_first(), hist);
            lemma_prepend_nonempty(seq![full[0]], merged(full.drop_first(), hist));
        } else {
            let f = full[0];
            let h = hist[0];
            law_merged_never_empty(full.drop_first(), hist.drop_first());
            law_merged_never_empty(full, hist.drop_first());
            law_merged_never_empty(full.drop_first(), hist);
            lemma_prepend_nonempty(keep(h), merged(full.drop_first(), hist.drop_first()));
            lemma_prepend_nonempty(keep(h), merged(full, hist.drop_first()));
            lemma_prepend_nonempty(seq![f], merged(full.drop_first(), hist));
        }
    }
}

proof fn lemma_prepend_nonempty(a: Seq<TreeEntry>, b: Seq<TreeEntry>)
    requires
        forall|i: int| 0 <= i < a.len() ==> !is_empty_entry(#[trigger] a[i]),
        forall|i: int| 0 <= i < b.len() ==> !is_empty_entry(#[trigger] b[i]),
    ensures
        forall|i: int| 0 <= i < (a + b).len() ==> !is_empty_entry(#[trigger] (a + b)[i]),
{
    assert forall|i: int| 0 <= i < (a + b).len() implies !is_empty_entry(#[trigger] (a + b)[i]) by {
        if i < a.len() {
            assert((a + b)[i] == a[i]);
        } else {
            assert((a + b)[i] == b[i - a.len()]);
        }
    }
}

} // verus!
