//! The entries of a lineage read from a table of leaves: rows keyed by lineage and leaf, each
//! holding the entries of one leaf.
use crate::forest::LineageId;
use crate::history::{lemma_word_order, word_less, word_lt, TreeEntry};
use crate::word::{canonical_word, Word};
use vstd::prelude::*;

verus! {

/// A row of the leaf table: the lineage its key names and the entries of the leaf it holds.
#[derive(Debug, Clone)]
pub struct LeafRow {
    /// The lineage the row belongs to.
    pub lineage: LineageId,
    /// The key-value entries of the leaf.
    pub leaf_entries: Vec<(Word, Word)>,
}

/// The order of keys by their canonical forms.
pub open spec fn key_lt(a: Word, b: Word) -> bool {
    word_lt(canonical_word(a), canonical_word(b))
}

/// `s` with `e` inserted before its first entry of greater key.
pub open spec fn insert_by_key(s: Seq<(Word, Word)>, e: (Word, Word)) -> Seq<(Word, Word)>
    decreases s.len(),
{
    if s.len() == 0 {
        seq![e]
    } else if key_lt(e.0, s[0].0) {
        seq![e] + s
    } else {
        seq![s[0]] + insert_by_key(s.drop_first(), e)
    }
}

/// The entries sorted by key, entries of equal key in their original order.
pub open spec fn sorted_by_key(s: Seq<(Word, Word)>) -> Seq<(Word, Word)>
    decreases s.len(),
{
    if s.len() == 0 {
        Seq::empty()
    } else {
        insert_by_key(sorted_by_key(s.drop_last()), s.last())
    }
}

/// The entries as tree entries.
pub open spec fn as_tree_entries(s: Seq<(Word, Word)>) -> Seq<TreeEntry> {
    s.map_values(|e: (Word, Word)| TreeEntry { key: e.0, value: e.1 })
}

/// The entries of `lineage` in the rows: the rows of that lineage in order, each leaf's entries
/// sorted by key.
pub open spec fn lineage_entries_spec(lineage: LineageId, rows: Seq<LeafRow>) -> Seq<TreeEntry>
    decreases rows.len(),
{
    if rows.len() == 0 {
        Seq::empty()
    } else {
        let prev = lineage_entries_spec(lineage, rows.drop_last());
        if rows.last().lineage.bytes@ == lineage.bytes@ {
            prev + as_tree_entries(sorted_by_key(rows.last().leaf_entries@))
        } else {
            prev
        }
    }
}

proof fn lemma_insert_by_key_at(s: Seq<(Word, Word)>, e: (Word, Word), p: int)
    requires
        0 <= p <= s.len(),
        forall|j: int| 0 <= j < p ==> !key_lt(e.0, #[trigger] s[j].0),
        p < s.len() ==> key_lt(e.0, s[p].0),
    ensures
        insert_by_key(s, e) == s.insert(p, e),
    decreases s.len(),
{
    if s.len() == 0 {
        assert(s.insert(p, e) =~= seq![e]);
    } else if p == 0 {
        assert(s.insert(0, e) =~= seq![e] + s);
    } else {
        let rest = s.drop_first();
        assert forall|j: int| 0 <= j < p - 1 implies !key_lt(e.0, #[trigger] rest[j].0) by {
            assert(rest[j] == s[j + 1]);
        }
        if p < s.len() {
            assert(rest[p - 1] == s[p]);
        }
        assert(!key_lt(e.0, s[0].0));
        lemma_insert_by_key_at(rest, e, p - 1);
        assert(seq![s[0]] + rest.insert(p - 1, e) =~= s.insert(p, e));
    }
}

/// Inserts `e` into `entries` before the first entry of greater key.
fn insert_entry_by_key(entries: &mut Vec<(Word, Word)>, e: (Word, Word))
    ensures
        final(entries)@ == insert_by_key(old(entries)@, e),
{
    let ghost s = entries@;
    let n = entries.len();
    let mut p: usize = 0;
    while p < n && !word_less(&e.0, &entries[p].0)
        invariant
            n == entries@.len(),
            s == entries@,
            p <= n,
            forall|j: int| 0 <= j < p ==> !key_lt(e.0, #[trigger] s[j].0),
        decreases n - p,
    {
        p += 1;
    }
    proof {
        lemma_insert_by_key_at(s, e, p as int);
    }
    entries.insert(p, e);
}

/// The entries sorted by key, entries of equal key in their original order.
fn sort_entries_by_key(entries: &Vec<(Word, Word)>) -> (r: Vec<(Word, Word)>)
    ensures
        r@ == sorted_by_key(entries@),
{
    let mut out: Vec<(Word, Word)> = Vec::new();
    let n = entries.len();
    let mut i: usize = 0;
    while i < n
        invariant
            n == entries@.len(),
            i <= n,
            out@ == sorted_by_key(entries@.take(i as int)),
        decreases n - i,
    {
        proof {
            assert(entries@.take(i + 1).drop_last() =~= entries@.take(i as int));
        }
        insert_entry_by_key(&mut out, entries[i]);
        i += 1;
    }
    proof {
        assert(entries@.take(n as int) =~= entries@);
    }
    out
}

/// Returns the entries of `lineage` held in the rows of the leaf table: the rows of other
/// lineages are skipped, and the entries of each leaf are yielded sorted by key.
pub fn lineage_entries(lineage: &LineageId, rows: &Vec<LeafRow>) -> (r: Vec<TreeEntry>)
    ensures
        r@ == lineage_entries_spec(*lineage, rows@),
{
    let mut out: Vec<TreeEntry> = Vec::new();
    let n = rows.len();
    let mut i: usize = 0;
    while i < n
        invariant
            n == rows@.len(),
            i <= n,
            out@ == lineage_entries_spec(*lineage, rows@.take(i as int)),
        decreases n - i,
    {
        proof {
            assert(rows@.take(i + 1).drop_last() =~= rows@.take(i as int));
            assert(rows@.take(i + 1).last() == rows@[i as int]);
        }
        let row = &rows[i];
        if row.lineage.same_as(lineage) {
            let sorted = sort_entries_by_key(&row.leaf_entries);
            let ghost base = out@;
            let m = sorted.len();
            let mut k: usize = 0;
            while k < m
                invariant
                    m == sorted@.len(),
                    k <= m,
                    out@ == base + as_tree_entries(sorted@.take(k as int)),
                decreases m - k,
            {
                out.push(TreeEntry { key: sorted[k].0, value: sorted[k].1 });
                proof {
                    assert(out@ =~= base + as_tree_entries(sorted@.take(k + 1)));
                }
                k += 1;
            }
            proof {
                assert(sorted@.take(m as int) =~= sorted@);
            }
        }
        i += 1;
    }
    proof {
        assert(rows@.take(n as int) =~= rows@);
    }
    out
}

/// True when no entry has a key smaller than an entry before it.
pub open spec fn keys_non_decreasing(s: Seq<(Word, Word)>) -> bool {
    forall|i: int, j: int| 0 <= i < j < s.len() ==> !key_lt(#[trigger] s[j].0, #[trigger] s[i].0)
}

proof fn lemma_insert_position(s: Seq<(Word, Word)>, e: (Word, Word)) -> (p: int)
    ensures
        0 <= p <= s.len(),
        insert_by_key(s, e) == s.insert(p, e),
        forall|j: int| 0 <= j < p ==> !key_lt(e.0, #[trigger] s[j].0),
        p < s.len() ==> key_lt(e.0, s[p].0),
    decreases s.len(),
{
    if s.len() == 0 {
        assert(s.insert(0, e) =~= seq![e]);
        0
    } else if key_lt(e.0, s[0].0) {
        assert(s.insert(0, e) =~= seq![e] + s);
        0
    } else {
        let rest = s.drop_first();
        let q = lemma_insert_position(rest, e);
        assert(seq![s[0]] + rest.insert(q, e) =~= s.insert(q + 1, e));
        assert forall|j: int| 0 <= j < q + 1 implies !key_lt(e.0, #[trigger] s[j].0) by {
            if j > 0 {
                assert(s[j] == rest[j - 1]);
            }
        }
        if q + 1 < s.len() {
            assert(s[q + 1] == rest[q]);
        }
        q + 1
    }
}

proof fn lemma_insert_by_key_props(s: Seq<(Word, Word)>, e: (Word, Word))
    requires
        keys_non_decreasing(s),
    ensures
        keys_non_decreasing(insert_by_key(s, e)),
        insert_by_key(s, e).to_multiset() == s.to_multiset().insert(e),
{
    broadcast use vstd::seq_lib::group_to_multiset_ensures;
    let p = lemma_insert_position(s, e);
    let t = s.insert(p, e);
    assert forall|i: int, j: int| 0 <= i < j < t.len() implies !key_lt(#[trigger] t[j].0, #[trigger] t[i].0) by {
        if j < p {
            assert(t[i] == s[i] && t[j] == s[j]);
        } else if j == p {
            assert(t[i] == s[i]);
            lemma_word_order(canonical_word(e.0), canonical_word(s[i].0), canonical_word(e.0));
        } else if i < p {
            assert(t[i] == s[i] && t[j] == s[j - 1]);
            assert(!key_lt(s[j - 1].0, s[i].0));
        } else if i == p {
            assert(t[j] == s[j - 1]);
            assert(p < s.len());
            if j - 1 > p {
                assert(!key_lt(s[j - 1].0, s[p].0));
            }
            lemma_word_order(canonical_word(s[j - 1].0), canonical_word(e.0), canonical_word(s[p].0));
            lemma_word_order(canonical_word(s[p].0), canonical_word(s[j - 1].0), canonical_word(s[p].0));
        } else {
            assert(t[i] == s[i - 1] && t[j] == s[j - 1]);
        }
    }
}

/// Sorting by key orders the entries by key and keeps every entry, each as many times as it
/// occurs.
pub proof fn law_sorted_by_key(s: Seq<(Word, Word)>)
    ensures
        keys_non_decreasing(sorted_by_key(s)),
        sorted_by_key(s).to_multiset() == s.to_multiset(),
    decreases s.len(),
{
    broadcast use vstd::seq_lib::group_to_multiset_ensures;
    if s.len() == 0 {
        assert(sorted_by_key(s).to_multiset() =~= s.to_multiset());
    } else {
        law_sorted_by_key(s.drop_last());
        lemma_insert_by_key_props(sorted_by_key(s.drop_last()), s.last());
        assert(s.drop_last().push(s.last()) =~= s);
    }
}

} // verus!
