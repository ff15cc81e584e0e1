//! The in-memory bookkeeping of a forest of sparse Merkle trees: for each lineage of trees, its
//! latest version and root and the history behind it.
use vstd::prelude::*;
use crate::history::{History, corresponding_index, root_spec, truncate_count, law_truncate_keeps_later_queries, versions_increasing};
use crate::word::Word;

verus! {

// IDENTIFIERS
// ================================================================================================

/// The identifier of a lineage of trees: thirty-two bytes chosen by the user.
#[derive(Debug, Clone, Copy)]
pub struct LineageId {
    /// The bytes of the identifier.
    pub bytes: [u8; 32],
}

impl LineageId {
    /// Creates a lineage identifier.
    pub fn new(bytes: [u8; 32]) -> (r: Self)
        ensures
            r.bytes == bytes,
    {
        LineageId { bytes }
    }

    /// Returns true when both identifiers have the same bytes.
    pub fn same_as(&self, other: &LineageId) -> (r: bool)
        ensures
            r == (self.bytes@ == other.bytes@),
    {
        let mut i: usize = 0;
        while i < 32
            invariant
                i <= 32,
                self.bytes@.len() == 32,
                other.bytes@.len() == 32,
                forall|j: int| 0 <= j < i ==> self.bytes@[j] == other.bytes@[j],
            decreases 32 - i,
        {
            if self.bytes[i] != other.bytes[i] {
                proof {
                    assert(self.bytes@[i as int] != other.bytes@[i as int]);
                }
                return false;
            }
            i += 1;
        }
        proof {
            assert(self.bytes@ =~= other.bytes@);
        }
        true
    }
}

/// The identity of a tree: its lineage and version.
#[derive(Debug, Clone, Copy)]
pub struct TreeId {
    /// The lineage of the tree.
    pub lineage: LineageId,
    /// The version of the tree in its lineage.
    pub version: u64,
}

impl TreeId {
    /// Creates a tree identity.
    pub fn new(lineage: LineageId, version: u64) -> (r: Self)
        ensures
            r.lineage == lineage,
            r.version == version,
    {
        TreeId { lineage, version }
    }
}

/// Information about the role that a queried root plays in the forest.
#[derive(Debug, Clone, Copy, PartialEq, Eq, Structural)]
pub enum RootInfo {
    /// The queried tree is the latest version of its lineage; its root.
    LatestVersion(Word),
    /// The queried tree is a historical version of its lineage; its root.
    HistoricalVersion(Word),
    /// The queried root corresponds to the empty tree.
    EmptyTree,
    /// The queried tree does not belong to any lineage that the forest knows about.
    Missing,
}

// LINEAGE DATA
// ================================================================================================

/// The data the forest holds in memory for a lineage of trees.
#[derive(Debug)]
pub struct LineageData {
    /// The historical overlays for the lineage.
    pub history: History,
    /// The version of the latest tree in the lineage.
    pub latest_version: u64,
    /// The root of the latest tree in the lineage.
    pub latest_root: Word,
}

/// The roots of a lineage, newest first: the latest root, then the roots of its history.
pub open spec fn lineage_roots_spec(d: LineageData) -> Seq<Word> {
    seq![d.latest_root] + d.history.spec_deltas().map_values(|x: crate::history::Delta| x.root).reverse()
}

/// What the forest knows of version `v` of a lineage with data `d`: its latest root at the latest
/// version, the root of the version serving it at an older version its history can serve, and
/// nothing otherwise.
pub open spec fn lineage_root_info(d: LineageData, v: u64) -> RootInfo {
    if d.latest_version == v {
        RootInfo::LatestVersion(d.latest_root)
    } else if v > d.latest_version {
        RootInfo::Missing
    } else {
        match root_spec(d.history.spec_deltas(), v) {
            Ok(r) => RootInfo::HistoricalVersion(r),
            Err(_) => RootInfo::Missing,
        }
    }
}

impl LineageData {
    /// Creates the data of a lineage.
    pub fn new(history: History, latest_version: u64, latest_root: Word) -> (r: Self)
        ensures
            r == (LineageData { history, latest_version, latest_root }),
    {
        LineageData { history, latest_version, latest_root }
    }

    /// Returns the roots of the lineage, newest first: the latest root, then those of its history.
    pub fn roots(&self) -> (r: Vec<Word>)
        ensures
            r@ == lineage_roots_spec(*self),
    {
        let mut out: Vec<Word> = Vec::new();
        out.push(self.latest_root);
        let mut rest = self.history.roots();
        out.append(&mut rest);
        out
    }

    /// Truncates the lineage at `version`, returning true when its history is then empty. At or
    /// past the latest version the history is cleared; otherwise the history keeps the versions
    /// that serve `version` and later.
    pub fn truncate(&mut self, version: u64) -> (r: bool)
        requires
            old(self).history.wf(),
        ensures
            final(self).history.wf(),
            final(self).latest_version == old(self).latest_version,
            final(self).latest_root == old(self).latest_root,
            final(self).history.spec_max_count() == old(self).history.spec_max_count(),
            r == (version >= old(self).latest_version),
            r ==> final(self).history.spec_deltas().len() == 0,
            !r ==> final(self).history.spec_deltas() == old(self).history.spec_deltas().skip(
                truncate_count(old(self).history.spec_deltas(), version) as int,
            ),
    {
        if version >= self.latest_version {
            self.history.clear();
            true
        } else {
            self.history.truncate(version);
            false
        }
    }
}

/// Truncating a lineage at `v` changes nothing the forest knows of any version at or after `v`.
pub proof fn law_lineage_truncate_keeps_later_info(d: LineageData, d2: LineageData, v: u64, w: u64)
    requires
        versions_increasing(d.history.spec_deltas()),
        v <= w,
        d2.latest_version == d.latest_version,
        d2.latest_root == d.latest_root,
        v >= d.latest_version ==> d2.history.spec_deltas().len() == 0,
        v < d.latest_version ==> d2.history.spec_deltas() == d.history.spec_deltas().skip(
            truncate_count(d.history.spec_deltas(), v) as int,
        ),
    ensures
        lineage_root_info(d2, w) == lineage_root_info(d, w),
{
    if v < d.latest_version {
        law_truncate_keeps_later_queries(d.history.spec_deltas(), v, w);
    }
}

// FOREST
// ================================================================================================

/// The position of the first lineage with identifier `id`, if any.
#[verifier::opaque]
pub open spec fn lineage_position(lineages: Seq<(LineageId, LineageData)>, id: LineageId) -> Option<int> {
    if exists|i: int| 0 <= i < lineages.len() && lineages[i].0.bytes@ == id.bytes@ {
        Some(choose|i: int| 0 <= i < lineages.len() && lineages[i].0.bytes@ == id.bytes@ && forall|j: int| 0 <= j < i ==> lineages[j].0.bytes@ != id.bytes@)
    } else {
        None
    }
}

/// True when no two lineages have the same identifier.
pub open spec fn distinct_ids(lineages: Seq<(LineageId, LineageData)>) -> bool {
    forall|i: int, j: int| 0 <= i < j < lineages.len() ==> lineages[i].0.bytes@ != lineages[j].0.bytes@
}

/// True when `id` is in the list.
pub open spec fn listed(ids: Seq<LineageId>, id: LineageId) -> bool {
    exists|j: int| 0 <= j < ids.len() && ids[j].bytes@ == id.bytes@
}

/// True when `d2` is the data of a lineage `d` truncated at `v`.
pub open spec fn lineage_truncated(d: LineageData, d2: LineageData, v: u64) -> bool {
    &&& d2.latest_version == d.latest_version
    &&& d2.latest_root == d.latest_root
    &&& d2.history.spec_max_count() == d.history.spec_max_count()
    &&& v >= d.latest_version ==> d2.history.spec_deltas().len() == 0
    &&& v < d.latest_version ==> d2.history.spec_deltas() == d.history.spec_deltas().skip(
        truncate_count(d.history.spec_deltas(), v) as int,
    )
}

/// What the forest with the given lineages knows of the tree `tree`.
pub open spec fn root_info_spec(lineages: Seq<(LineageId, LineageData)>, tree: TreeId) -> RootInfo {
    match lineage_position(lineages, tree.lineage) {
        None => RootInfo::Missing,
        Some(p) => lineage_root_info(lineages[p].1, tree.version),
    }
}

/// The in-memory data of a forest of sparse Merkle trees: the data of each lineage, and the
/// lineages whose history holds deltas.
#[derive(Debug)]
pub struct LargeSmtForest {
    /// The data of each lineage.
    lineage_data: Vec<(LineageId, LineageData)>,
    /// The lineages whose history holds deltas.
    non_empty_histories: Vec<LineageId>,
}

impl LargeSmtForest {
    /// The lineages and their data.
    pub closed spec fn spec_lineages(&self) -> Seq<(LineageId, LineageData)> {
        self.lineage_data@
    }

    /// The lineages whose history holds deltas.
    pub closed spec fn spec_non_empty(&self) -> Seq<LineageId> {
        self.non_empty_histories@
    }

    /// The invariant of a forest: every lineage's history is well formed, and a lineage whose
    /// history holds deltas is listed as such.
    pub open spec fn wf(&self) -> bool {
        &&& distinct_ids(self.spec_lineages())
        &&& forall|i: int| 0 <= i < self.spec_lineages().len() ==> (#[trigger] self.spec_lineages()[i]).1.history.wf()
        &&& forall|i: int| 0 <= i < self.spec_lineages().len() && (#[trigger] self.spec_lineages()[i]).1.history.spec_deltas().len() > 0
            ==> exists|j: int| 0 <= j < self.spec_non_empty().len() && self.spec_non_empty()[j].bytes@ == self.spec_lineages()[i].0.bytes@
    }

    /// Creates a forest holding the given lineages, each with its data.
    pub fn from_lineages(lineages: Vec<(LineageId, LineageData)>) -> (r: Self)
        requires
            distinct_ids(lineages@),
            forall|i: int| 0 <= i < lineages@.len() ==> (#[trigger] lineages@[i]).1.history.wf(),
        ensures
            r.wf(),
            r.spec_lineages() == lineages@,
    {
        let mut non_empty: Vec<LineageId> = Vec::new();
        let n = lineages.len();
        let mut i: usize = 0;
        while i < n
            invariant
                n == lineages@.len(),
                i <= n,
                forall|m: int| 0 <= m < n ==> (#[trigger] lineages@[m]).1.history.wf(),
                forall|m: int| 0 <= m < i && (#[trigger] lineages@[m]).1.history.spec_deltas().len() > 0 ==> exists|k: int| 0 <= k < non_empty@.len() && non_empty@[k].bytes@ == lineages@[m].0.bytes@,
            decreases n - i,
        {
            let ghost before = non_empty@;
            if lineages[i].1.history.num_versions() > 0 {
                non_empty.push(lineages[i].0);
            }
            proof {
                assert forall|m: int| 0 <= m < i + 1 && (#[trigger] lineages@[m]).1.history.spec_deltas().len() > 0 implies exists|k: int|
                    0 <= k < non_empty@.len() && non_empty@[k].bytes@ == lineages@[m].0.bytes@ by {
                    if m < i {
                        let k = choose|k: int| 0 <= k < before.len() && before[k].bytes@ == lineages@[m].0.bytes@;
                        assert(non_empty@[k] == before[k]);
                    } else {
                        let k = non_empty@.len() - 1;
                        assert(non_empty@[k].bytes@ == lineages@[m].0.bytes@);
                    }
                }
            }
            i += 1;
        }
        let ghost ls = lineages@;
        let ghost ne = non_empty@;
        let r = LargeSmtForest { lineage_data: lineages, non_empty_histories: non_empty };
        proof {
            assert forall|i: int| 0 <= i < r.spec_lineages().len() implies (#[trigger] r.spec_lineages()[i]).1.history.wf() by {
                assert(r.spec_lineages()[i] == ls[i]);
            }
            assert forall|i: int| 0 <= i < r.spec_lineages().len() && (#[trigger] r.spec_lineages()[i]).1.history.spec_deltas().len() > 0
                implies exists|j: int| 0 <= j < r.spec_non_empty().len() && r.spec_non_empty()[j].bytes@ == r.spec_lineages()[i].0.bytes@ by {
                assert(r.spec_lineages()[i] == ls[i]);
                assert(ls[i].1.history.spec_deltas().len() > 0);
                let k = choose|k: int| 0 <= k < ne.len() && ne[k].bytes@ == ls[i].0.bytes@;
                assert(r.spec_non_empty()[k] == ne[k]);
            }
        }
        r
    }
}

/// The position of the lineage with identifier `id`, if any.
fn find_lineage(lineages: &Vec<(LineageId, LineageData)>, id: &LineageId) -> (r: Option<usize>)
    ensures
        match (r, lineage_position(lineages@, *id)) {
            (Some(p), Some(sp)) => p == sp && p < lineages@.len(),
            (None, None) => true,
            _ => false,
        },
{
    reveal(lineage_position);
    let n = lineages.len();
    let mut i: usize = 0;
    while i < n
        invariant
            n == lineages@.len(),
            i <= n,
            forall|j: int| 0 <= j < i ==> lineages@[j].0.bytes@ != id.bytes@,
        decreases n - i,
    {
        if lineages[i].0.same_as(id) {
            proof {
                lemma_first_position(lineages@, *id, i as int);
            }
            return Some(i);
        }
        i += 1;
    }
    None
}

/// Returns true when `id` is in the list.
fn is_listed(ids: &Vec<LineageId>, id: &LineageId) -> (r: bool)
    ensures
        r == listed(ids@, *id),
{
    let n = ids.len();
    let mut i: usize = 0;
    while i < n
        invariant
            n == ids@.len(),
            i <= n,
            forall|j: int| 0 <= j < i ==> ids@[j].bytes@ != id.bytes@,
        decreases n - i,
    {
        if ids[i].same_as(id) {
            return true;
        }
        i += 1;
    }
    false
}

impl LargeSmtForest {
    /// Returns every root the forest knows of with its lineage: for each lineage, its latest root
    /// and then the roots of its history, newest first.
    pub fn roots(&self) -> (r: Vec<(LineageId, Word)>)
        ensures
            r@ == all_roots(self.spec_lineages()),
    {
        let mut out: Vec<(LineageId, Word)> = Vec::new();
        let n = self.lineage_data.len();
        let mut i: usize = 0;
        while i < n
            invariant
                n == self.lineage_data@.len(),
                i <= n,
                out@ == all_roots(self.lineage_data@.take(i as int)),
            decreases n - i,
        {
            proof {
                assert(self.lineage_data@.take(i + 1).drop_last() =~= self.lineage_data@.take(i as int));
            }
            let id = self.lineage_data[i].0;
            let roots = self.lineage_data[i].1.roots();
            let ghost before = out@;
            let m = roots.len();
            let mut k: usize = 0;
            while k < m
                invariant
                    m == roots@.len(),
                    k <= m,
                    out@ == before + roots@.take(k as int).map_values(|w: Word| (id, w)),
                decreases m - k,
            {
                out.push((id, roots[k]));
                proof {
                    assert(out@ =~= before + roots@.take(k + 1).map_values(|w: Word| (id, w)));
                }
                k += 1;
            }
            proof {
                assert(roots@.take(m as int) =~= roots@);
            }
            i += 1;
        }
        proof {
            assert(self.lineage_data@.take(n as int) =~= self.lineage_data@);
        }
        out
    }

    /// Gets the latest version of `lineage`, if the forest knows it.
    pub fn latest_version(&self, lineage: LineageId) -> (r: Option<u64>)
        ensures
            r == match lineage_position(self.spec_lineages(), lineage) {
                None => None,
                Some(p) => Some(self.spec_lineages()[p].1.latest_version),
            },
    {
        match find_lineage(&self.lineage_data, &lineage) {
            None => None,
            Some(p) => Some(self.lineage_data[p].1.latest_version),
        }
    }

    /// Gets the latest root of `lineage`, if the forest knows it.
    pub fn latest_root(&self, lineage: LineageId) -> (r: Option<Word>)
        ensures
            r == match lineage_position(self.spec_lineages(), lineage) {
                None => None,
                Some(p) => Some(self.spec_lineages()[p].1.latest_root),
            },
    {
        match find_lineage(&self.lineage_data, &lineage) {
            None => None,
            Some(p) => Some(self.lineage_data[p].1.latest_root),
        }
    }

    /// Returns the roots of `lineage` newest first, the latest root first, if the forest knows it.
    pub fn lineage_roots(&self, lineage: LineageId) -> (r: Option<Vec<Word>>)
        ensures
            match lineage_position(self.spec_lineages(), lineage) {
                None => r is None,
                Some(p) => r matches Some(v) && v@ == lineage_roots_spec(self.spec_lineages()[p].1),
            },
    {
        match find_lineage(&self.lineage_data, &lineage) {
            None => None,
            Some(p) => Some(self.lineage_data[p].1.roots()),
        }
    }

    /// Returns the historical roots of `lineage` newest first, without its latest root, if the
    /// forest knows it.
    pub fn historical_roots(&self, lineage: LineageId) -> (r: Option<Vec<Word>>)
        ensures
            match lineage_position(self.spec_lineages(), lineage) {
                None => r is None,
                Some(p) => r matches Some(v) && v@ == lineage_roots_spec(self.spec_lineages()[p].1).drop_first(),
            },
    {
        match find_lineage(&self.lineage_data, &lineage) {
            None => None,
            Some(p) => Some(self.lineage_data[p].1.history.roots()),
        }
    }

    /// Returns the number of trees in the forest: every version of every lineage.
    pub fn tree_count(&self) -> (r: usize)
        requires
            all_roots(self.spec_lineages()).len() <= usize::MAX,
        ensures
            r == all_roots(self.spec_lineages()).len(),
    {
        self.roots().len()
    }

    /// Returns the number of lineages in the forest.
    pub fn lineage_count(&self) -> (r: usize)
        ensures
            r == self.spec_lineages().len(),
    {
        self.lineage_data.len()
    }

    /// Returns what the forest knows of `tree`: the latest root of its lineage at the latest
    /// version, the root of the historical version serving an older version, and nothing for an
    /// unknown lineage, a newer version or a version older than the lineage's history.
    pub fn root_info(&self, tree: TreeId) -> (r: RootInfo)
        ensures
            r == root_info_spec(self.spec_lineages(), tree),
    {
        match find_lineage(&self.lineage_data, &tree.lineage) {
            None => RootInfo::Missing,
            Some(p) => {
                let d = &self.lineage_data[p].1;
                if d.latest_version == tree.version {
                    RootInfo::LatestVersion(d.latest_root)
                } else if tree.version > d.latest_version {
                    RootInfo::Missing
                } else {
                    match d.history.root_for_version(tree.version) {
                        Ok(root) => RootInfo::HistoricalVersion(root),
                        Err(_) => RootInfo::Missing,
                    }
                }
            },
        }
    }

    /// Removes the tree versions older than `version` from the lineages whose history holds
    /// deltas, always keeping the latest tree of each lineage. A lineage whose history is then
    /// empty is no longer listed as holding deltas.
    pub fn truncate(&mut self, version: u64)
        requires
            old(self).wf(),
        ensures
            final(self).wf(),
            final(self).spec_lineages().len() == old(self).spec_lineages().len(),
            forall|i: int| 0 <= i < old(self).spec_lineages().len() ==> (#[trigger] old(self).spec_lineages()[i]).0
                == final(self).spec_lineages()[i].0,
            forall|i: int| 0 <= i < old(self).spec_lineages().len() && listed(old(self).spec_non_empty(), (#[trigger] old(self).spec_lineages()[i]).0)
                ==> lineage_truncated(old(self).spec_lineages()[i].1, final(self).spec_lineages()[i].1, version),
            forall|i: int| 0 <= i < old(self).spec_lineages().len() && !listed(old(self).spec_non_empty(), (#[trigger] old(self).spec_lineages()[i]).0)
                ==> final(self).spec_lineages()[i].1 == old(self).spec_lineages()[i].1,
            final(self).spec_non_empty() == old(self).spec_non_empty().filter(
                |l: LineageId| !(lineage_position(old(self).spec_lineages(), l) matches Some(p)
                    && version >= old(self).spec_lineages()[p].1.latest_version),
            ),
    {
        let ghost old_lineages = self.lineage_data@;
        let ghost old_ne = self.non_empty_histories@;
        let ghost pred = |l: LineageId| !(lineage_position(old_lineages, l) matches Some(p) && version >= old_lineages[p].1.latest_version);
        let mut kept: Vec<LineageId> = Vec::new();
        let m = self.non_empty_histories.len();
        let mut k: usize = 0;
        while k < m
            invariant
                m == self.non_empty_histories@.len(),
                self.non_empty_histories@ == old_ne,
                self.lineage_data@ == old_lineages,
                k <= m,
                forall|l: LineageId| #[trigger] pred(l) == !(lineage_position(old_lineages, l) matches Some(p) && version >= old_lineages[p].1.latest_version),
                kept@ == old_ne.take(k as int).filter(pred),
            decreases m - k,
        {
            let l = self.non_empty_histories[k];
            let emptied = match find_lineage(&self.lineage_data, &l) {
                Some(p) => version >= self.lineage_data[p].1.latest_version,
                None => false,
            };
            if !emptied {
                kept.push(l);
            }
            proof {
                assert(old_ne.take(k + 1) =~= old_ne.take(k as int).push(old_ne[k as int]));
                old_ne.take(k as int).lemma_filter_push(old_ne[k as int], pred);
            }
            k += 1;
        }
        proof {
            assert(old_ne.take(m as int) =~= old_ne);
        }
        let n = self.lineage_data.len();
        let mut i: usize = 0;
        while i < n
            invariant
                n == old_lineages.len(),
                self.lineage_data@.len() == n,
                self.non_empty_histories@ == old_ne,
                i <= n,
                forall|j: int| 0 <= j < n ==> (#[trigger] old_lineages[j]).1.history.wf(),
                forall|j: int| i <= j < n ==> self.lineage_data@[j] == old_lineages[j],
                forall|j: int| 0 <= j < i ==> {
                    let before = #[trigger] old_lineages[j];
                    let after = self.lineage_data@[j];
                    &&& after.0 == before.0
                    &&& after.1.history.wf()
                    &&& listed(old_ne, before.0) ==> lineage_truncated(before.1, after.1, version)
                    &&& !listed(old_ne, before.0) ==> after.1 == before.1
                },
            decreases n - i,
        {
            let ghost prev = self.lineage_data@;
            let (id, mut d) = self.lineage_data.remove(i);
            proof {
                assert(id == old_lineages[i as int].0 && d == old_lineages[i as int].1);
            }
            if is_listed(&self.non_empty_histories, &id) {
                d.truncate(version);
            }
            let ghost after = (id, d);
            self.lineage_data.insert(i, (id, d));
            proof {
                assert forall|j: int| i + 1 <= j < n implies self.lineage_data@[j] == old_lineages[j] by {
                    assert(self.lineage_data@[j] == prev[j]);
                }
                assert forall|j: int| 0 <= j < i implies self.lineage_data@[j] == prev[j] by {}
                assert(self.lineage_data@[i as int] == after);
            }
            i += 1;
        }
        self.non_empty_histories = kept;
        proof {
            let fin = self.lineage_data@;
            assert forall|j: int| 0 <= j < fin.len() implies (#[trigger] fin[j]).1.history.wf() by {
                assert(old_lineages[j].0 == fin[j].0);
            }
            assert forall|a: int, b: int| 0 <= a < b < fin.len() implies fin[a].0.bytes@ != fin[b].0.bytes@ by {
                assert(old_lineages[a].0 == fin[a].0 && old_lineages[b].0 == fin[b].0);
            }
            assert forall|j: int| 0 <= j < fin.len() && (#[trigger] fin[j]).1.history.spec_deltas().len() > 0
                implies listed(self.non_empty_histories@, fin[j].0) by {
                let before = old_lineages[j];
                assert(fin[j].0 == before.0);
                if listed(old_ne, before.0) {
                    assert(version < before.1.latest_version);
                    let q = choose|q: int| 0 <= q < old_ne.len() && old_ne[q].bytes@ == before.0.bytes@;
                    assert(lineage_position(old_lineages, old_ne[q]) == Some(j)) by {
                        assert forall|x: int| 0 <= x < j implies old_lineages[x].0.bytes@ != old_ne[q].bytes@ by {
                            assert(old_lineages[x].0.bytes@ != old_lineages[j].0.bytes@);
                        }
                        lemma_first_position(old_lineages, old_ne[q], j);
                    }
                    assert(pred(old_ne[q]));
                    old_ne.filter_lemma(pred);
                    assert(old_ne.filter(pred).contains(old_ne[q]));
                    let w = choose|w: int| 0 <= w < old_ne.filter(pred).len() && old_ne.filter(pred)[w] == old_ne[q];
                    assert(self.non_empty_histories@[w].bytes@ == fin[j].0.bytes@);
                } else {
                    assert(fin[j].1 == before.1);
                    assert(!listed(old_ne, before.0));
                }
            }
        }
        proof {
            let fin = self.lineage_data@;
            assert(self.spec_lineages() == fin);
            assert(self.spec_non_empty() == self.non_empty_histories@);
            assert forall|i: int| 0 <= i < self.spec_lineages().len() && (#[trigger] self.spec_lineages()[i]).1.history.spec_deltas().len() > 0
                implies exists|j: int| 0 <= j < self.spec_non_empty().len() && self.spec_non_empty()[j].bytes@ == self.spec_lineages()[i].0.bytes@ by {
                assert(listed(self.non_empty_histories@, fin[i].0));
            }
        }
    }
}

/// The roots of the lineages with their identifiers: each lineage's roots newest first, the
/// lineages in order.
pub open spec fn all_roots(lineages: Seq<(LineageId, LineageData)>) -> Seq<(LineageId, Word)>
    decreases lineages.len(),
{
    if lineages.len() == 0 {
        Seq::empty()
    } else {
        let last = lineages.last();
        all_roots(lineages.drop_last()) + lineage_roots_spec(last.1).map_values(|w: Word| (last.0, w))
    }
}

proof fn lemma_position_valid(s: Seq<(LineageId, LineageData)>, id: LineageId)
    ensures
        lineage_position(s, id) matches Some(p) ==> 0 <= p < s.len() && s[p].0.bytes@ == id.bytes@,
{
    reveal(lineage_position);
    if exists|i: int| 0 <= i < s.len() && s[i].0.bytes@ == id.bytes@ {
        let w = choose|i: int| 0 <= i < s.len() && s[i].0.bytes@ == id.bytes@;
        lemma_exists_first(s, id, w);
    }
}

proof fn lemma_first_position(s: Seq<(LineageId, LineageData)>, id: LineageId, c: int)
    requires
        0 <= c < s.len(),
        s[c].0.bytes@ == id.bytes@,
        forall|j: int| 0 <= j < c ==> s[j].0.bytes@ != id.bytes@,
    ensures
        lineage_position(s, id) == Some(c),
{
    reveal(lineage_position);
    let d = choose|i: int| 0 <= i < s.len() && s[i].0.bytes@ == id.bytes@ && forall|j: int| 0 <= j < i ==> s[j].0.bytes@ != id.bytes@;
    assert(0 <= d < s.len() && s[d].0.bytes@ == id.bytes@ && forall|j: int| 0 <= j < d ==> s[j].0.bytes@ != id.bytes@);
    if d < c {
        assert(s[d].0.bytes@ != id.bytes@);
    } else if d > c {
        assert(s[c].0.bytes@ != id.bytes@);
    }
}

proof fn lemma_same_positions(a: Seq<(LineageId, LineageData)>, b: Seq<(LineageId, LineageData)>, id: LineageId)
    requires
        a.len() == b.len(),
        forall|i: int| 0 <= i < a.len() ==> (#[trigger] b[i]).0.bytes@ == a[i].0.bytes@,
    ensures
        lineage_position(b, id) == lineage_position(a, id),
{
    reveal(lineage_position);
    if exists|i: int| 0 <= i < a.len() && a[i].0.bytes@ == id.bytes@ {
        let c = choose|i: int| 0 <= i < a.len() && a[i].0.bytes@ == id.bytes@ && forall|j: int| 0 <= j < i ==> a[j].0.bytes@ != id.bytes@;
        let w = choose|i: int| 0 <= i < a.len() && a[i].0.bytes@ == id.bytes@;
        lemma_exists_first(a, id, w);
        assert(0 <= c < a.len() && a[c].0.bytes@ == id.bytes@ && forall|j: int| 0 <= j < c ==> a[j].0.bytes@ != id.bytes@);
        assert(b[c].0.bytes@ == id.bytes@);
        assert forall|j: int| 0 <= j < c implies b[j].0.bytes@ != id.bytes@ by {
            assert(b[j].0.bytes@ == a[j].0.bytes@);
        }
        lemma_first_position(b, id, c);
    } else {
        assert forall|i: int| 0 <= i < b.len() implies b[i].0.bytes@ != id.bytes@ by {
            assert(b[i].0.bytes@ == a[i].0.bytes@);
        }
    }
}

proof fn lemma_exists_first(s: Seq<(LineageId, LineageData)>, id: LineageId, w: int)
    requires
        0 <= w < s.len(),
        s[w].0.bytes@ == id.bytes@,
    ensures
        exists|i: int| 0 <= i < s.len() && s[i].0.bytes@ == id.bytes@ && forall|j: int| 0 <= j < i ==> s[j].0.bytes@ != id.bytes@,
    decreases w,
{
    if exists|j: int| 0 <= j < w && s[j].0.bytes@ == id.bytes@ {
        let j = choose|j: int| 0 <= j < w && s[j].0.bytes@ == id.bytes@;
        lemma_exists_first(s, id, j);
    } else {
        assert(0 <= w < s.len() && s[w].0.bytes@ == id.bytes@ && forall|j: int| 0 <= j < w ==> s[j].0.bytes@ != id.bytes@);
    }
}

/// Truncating the forest at `v` changes nothing it knows of any tree at version `v` or later:
/// a lineage keeps its identifier, latest version and latest root, and its history still serves
/// every version from `v` on.
pub proof fn law_forest_truncate_keeps_later_info(
    before: Seq<(LineageId, LineageData)>,
    non_empty: Seq<LineageId>,
    after: Seq<(LineageId, LineageData)>,
    v: u64,
    tree: TreeId,
)
    requires
        forall|i: int| 0 <= i < before.len() ==> (#[trigger] before[i]).1.history.wf(),
        after.len() == before.len(),
        forall|i: int| 0 <= i < before.len() ==> (#[trigger] before[i]).0 == after[i].0,
        forall|i: int| 0 <= i < before.len() && listed(non_empty, (#[trigger] before[i]).0) ==> lineage_truncated(before[i].1, after[i].1, v),
        forall|i: int| 0 <= i < before.len() && !listed(non_empty, (#[trigger] before[i]).0) ==> after[i].1 == before[i].1,
        v <= tree.version,
    ensures
        root_info_spec(after, tree) == root_info_spec(before, tree),
{
    assert forall|i: int| 0 <= i < before.len() implies (#[trigger] after[i]).0.bytes@ == before[i].0.bytes@ by {
        assert(before[i].0 == after[i].0);
    }
    lemma_same_positions(before, after, tree.lineage);
    lemma_position_valid(before, tree.lineage);
    if let Some(p) = lineage_position(before, tree.lineage) {
        if 0 <= p < before.len() {
            let b = before[p];
            if listed(non_empty, b.0) {
                assert(lineage_truncated(b.1, after[p].1, v));
                law_lineage_truncate_keeps_later_info(b.1, after[p].1, v, tree.version);
            } else {
                assert(after[p].1 == b.1);
            }
        }
    }
}

} // verus!
