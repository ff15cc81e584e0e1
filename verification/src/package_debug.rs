//! The debug information of a package, its queries, and the merge of the debug information of
//! several packages after their MAST forests were merged.
use std::collections::BTreeMap;
use vstd::prelude::*;
use crate::debug_info::{
    DEBUG_ERROR_MESSAGES_VERSION, DEBUG_FUNCTIONS_VERSION, DEBUG_SOURCES_VERSION,
    DEBUG_SOURCE_GRAPH_VERSION, DEBUG_SOURCE_MAP_VERSION, DEBUG_TYPES_VERSION, DebugErrorMessage,
    DebugErrorMessagesSection, DebugFileInfo, DebugSourcesSection, DebugTypesSection, TypeInfoView,
    first_message_index, string_views,
};
use crate::debug_merge::{
    DebugFunctionInfo, DebugFunctionsSection, PackageDebugInfoMergeError, lemma_try_map_err_persists,
    lemma_try_map_len, lemma_try_map_step, map_index,
    merge_debug_functions, merge_debug_sources, merge_debug_types, merge_functions_spec,
    merge_sources_spec, merge_types_spec, try_map, types_view,
};
use crate::source_debug::{
    DebugSourceAsmOp, DebugSourceGraphLookupError, DebugSourceGraphSection,
    DebugSourceInlineCall, DebugSourceMapSection, DebugSourceNode, DebugSourceNodeId,
    DebugSourceVar, MastNodeId, child_node_spec, dedup, is_first_min_row, is_last_max_row_upto,
    row_locations, row_strings, unique_root_spec,
};

verus! {

// FOREST ROOT MAP
// ================================================================================================

/// The node map returned by a MAST forest merge: for the forest at each input position, the
/// entries `(node in the input forest, node in the merged forest)`.
#[derive(Debug)]
pub struct MastForestRootMap {
    /// One entry list per input forest, in input order.
    pub maps: Vec<Vec<(MastNodeId, MastNodeId)>>,
}

/// The merged node of the first entry for `node`, if any.
pub open spec fn first_node_entry(entries: Seq<(MastNodeId, MastNodeId)>, node: MastNodeId) -> Option<MastNodeId> {
    if exists|i: int| 0 <= i < entries.len() && entries[i].0 == node {
        Some(
            entries[choose|i: int|
                0 <= i < entries.len() && entries[i].0 == node && forall|j: int| 0 <= j < i ==> entries[j].0 != node].1,
        )
    } else {
        None
    }
}

impl MastForestRootMap {
    /// The merged node of `node` of the forest at `forest_index`, if the map has one.
    pub open spec fn map_node_spec(&self, forest_index: usize, node: MastNodeId) -> Option<MastNodeId> {
        if (forest_index as int) < self.maps@.len() {
            first_node_entry(self.maps@[forest_index as int]@, node)
        } else {
            None
        }
    }

    /// Creates a root map from one entry list per input forest.
    pub fn new(maps: Vec<Vec<(MastNodeId, MastNodeId)>>) -> (r: Self)
        ensures
            r.maps == maps,
    {
        MastForestRootMap { maps }
    }

    /// Returns the merged node of `node` of the forest at `forest_index`, if the map has one.
    pub fn map_node(&self, forest_index: usize, node: &MastNodeId) -> (r: Option<MastNodeId>)
        ensures
            r == self.map_node_spec(forest_index, *node),
    {
        if forest_index >= self.maps.len() {
            return None;
        }
        let entries = &self.maps[forest_index];
        let n = entries.len();
        let mut i: usize = 0;
        while i < n
            invariant
                n == entries@.len(),
                (forest_index as int) < self.maps@.len(),
                entries@ == self.maps@[forest_index as int]@,
                i <= n,
                forall|j: int| 0 <= j < i ==> entries@[j].0 != *node,
            decreases n - i,
        {
            if entries[i].0 == *node {
                proof {
                    assert(entries@[i as int].0 == *node);
                    let c = choose|c: int|
                        0 <= c < entries@.len() && entries@[c].0 == *node && forall|j: int| 0 <= j < c ==> entries@[j].0 != *node;
                    assert(0 <= c < entries@.len() && entries@[c].0 == *node);
                    if c < i {
                        assert(entries@[c].0 != *node);
                    } else if c > i {
                        assert(entries@[i as int].0 != *node);
                    }
                }
                return Some(entries[i].1);
            }
            i += 1;
        }
        None
    }
}

// PACKAGE DEBUG INFO
// ================================================================================================

/// Package-owned debug information decoded from well-known debug sections.
#[derive(Debug)]
pub struct PackageDebugInfo {
    /// Type definitions for source-level debug consumers.
    pub types: Option<DebugTypesSection>,
    /// Source file table.
    pub sources: Option<DebugSourcesSection>,
    /// Function metadata.
    pub functions: Option<DebugFunctionsSection>,
    /// Source/debug MAST occurrence graph.
    pub source_graph: Option<DebugSourceGraphSection>,
    /// Source-keyed assembly operation and debug variable rows.
    pub source_map: Option<DebugSourceMapSection>,
    /// Assertion error messages keyed by runtime error code.
    pub error_messages: Option<DebugErrorMessagesSection>,
}

impl Default for PackageDebugInfo {
    fn default() -> (r: Self)
        ensures
            r.types is None,
            r.sources is None,
            r.functions is None,
            r.source_graph is None,
            r.source_map is None,
            r.error_messages is None,
    {
        PackageDebugInfo {
            types: None,
            sources: None,
            functions: None,
            source_graph: None,
            source_map: None,
            error_messages: None,
        }
    }
}

impl PackageDebugInfo {
    /// Creates debug info with source/debug graph and map sections.
    pub fn with_source_debug(source_graph: DebugSourceGraphSection, source_map: DebugSourceMapSection) -> (r: Self)
        ensures
            r.types is None,
            r.sources is None,
            r.functions is None,
            r.source_graph == Some(source_graph),
            r.source_map == Some(source_map),
            r.error_messages is None,
    {
        PackageDebugInfo {
            types: None,
            sources: None,
            functions: None,
            source_graph: Some(source_graph),
            source_map: Some(source_map),
            error_messages: None,
        }
    }

    /// Sets the source/debug graph section.
    pub fn with_source_graph(self, source_graph: DebugSourceGraphSection) -> (r: Self)
        ensures
            r == (PackageDebugInfo { source_graph: Some(source_graph), ..self }),
    {
        PackageDebugInfo { source_graph: Some(source_graph), ..self }
    }

    /// Sets the source/debug map section.
    pub fn with_source_map(self, source_map: DebugSourceMapSection) -> (r: Self)
        ensures
            r == (PackageDebugInfo { source_map: Some(source_map), ..self }),
    {
        PackageDebugInfo { source_map: Some(source_map), ..self }
    }

    /// Sets the assertion error messages section.
    pub fn with_error_messages(self, error_messages: DebugErrorMessagesSection) -> (r: Self)
        ensures
            r == (PackageDebugInfo { error_messages: Some(error_messages), ..self }),
    {
        PackageDebugInfo { error_messages: Some(error_messages), ..self }
    }

    /// Returns the type definitions section, if present.
    pub fn types(&self) -> (r: Option<&DebugTypesSection>)
        ensures
            r is Some <==> self.types is Some,
            r is Some ==> *r->0 == self.types->0,
    {
        self.types.as_ref()
    }

    /// Returns the source file table section, if present.
    pub fn sources(&self) -> (r: Option<&DebugSourcesSection>)
        ensures
            r is Some <==> self.sources is Some,
            r is Some ==> *r->0 == self.sources->0,
    {
        self.sources.as_ref()
    }

    /// Returns the function metadata section, if present.
    pub fn functions(&self) -> (r: Option<&DebugFunctionsSection>)
        ensures
            r is Some <==> self.functions is Some,
            r is Some ==> *r->0 == self.functions->0,
    {
        self.functions.as_ref()
    }

    /// Returns the source/debug graph section, if present.
    pub fn source_graph(&self) -> (r: Option<&DebugSourceGraphSection>)
        ensures
            r is Some <==> self.source_graph is Some,
            r is Some ==> *r->0 == self.source_graph->0,
    {
        self.source_graph.as_ref()
    }

    /// Returns the source/debug map section, if present.
    pub fn source_map(&self) -> (r: Option<&DebugSourceMapSection>)
        ensures
            r is Some <==> self.source_map is Some,
            r is Some ==> *r->0 == self.source_map->0,
    {
        self.source_map.as_ref()
    }

    /// Returns the assertion error messages section, if present.
    pub fn error_messages(&self) -> (r: Option<&DebugErrorMessagesSection>)
        ensures
            r is Some <==> self.error_messages is Some,
            r is Some ==> *r->0 == self.error_messages->0,
    {
        self.error_messages.as_ref()
    }

    /// Returns true if no package debug sections were decoded.
    pub fn is_empty(&self) -> (r: bool)
        ensures
            r == (self.types is None && self.sources is None && self.functions is None
                && self.source_graph is None && self.source_map is None && self.error_messages is None),
    {
        self.types.is_none() && self.sources.is_none() && self.functions.is_none()
            && self.source_graph.is_none() && self.source_map.is_none() && self.error_messages.is_none()
    }

    /// Returns a source/debug occurrence by ID.
    pub fn source_node(&self, source_node: DebugSourceNodeId) -> (r: Option<&DebugSourceNode>)
        ensures
            match self.source_graph {
                None => r is None,
                Some(g) => if (source_node.0 as int) < g.nodes@.len() {
                    r == Some(&g.nodes@[source_node.0 as int])
                } else {
                    r is None
                },
            },
    {
        match &self.source_graph {
            None => None,
            Some(g) => g.source_node(source_node),
        }
    }

    /// Returns the unique source/debug root that points at `exec_node`: `Ok(None)` if no source
    /// graph is present, or if no root points at `exec_node`.
    pub fn unique_source_root_for_exec_node(&self, exec_node: MastNodeId) -> (r: Result<Option<DebugSourceNodeId>, DebugSourceGraphLookupError>)
        ensures
            match self.source_graph {
                None => r == Ok::<Option<DebugSourceNodeId>, DebugSourceGraphLookupError>(None),
                Some(g) => r == unique_root_spec(g.nodes@, g.roots@, exec_node),
            },
    {
        match &self.source_graph {
            None => Ok(None),
            Some(g) => g.unique_source_root_for_exec_node(exec_node),
        }
    }

    /// Returns `parent`'s source/debug child at `child_index`: `Ok(None)` if no source graph is
    /// present, or if `child_index` is out of range.
    pub fn child_source_node(&self, parent: DebugSourceNodeId, child_index: usize) -> (r: Result<Option<(DebugSourceNodeId, &DebugSourceNode)>, DebugSourceGraphLookupError>)
        ensures
            match self.source_graph {
                None => r is Ok && r->Ok_0 is None,
                Some(g) => match (r, child_node_spec(g.nodes@, parent, child_index)) {
                    (Ok(Some((id, node))), Ok(Some(sid))) => id == sid && *node == g.nodes@[sid.0 as int],
                    (Ok(None), Ok(None)) => true,
                    (Err(e), Err(se)) => e == se,
                    _ => false,
                },
            },
    {
        match &self.source_graph {
            None => Ok(None),
            Some(g) => g.child_source_node(parent, child_index),
        }
    }

    /// Returns the assembly operation rows of a source/debug occurrence, in row order.
    pub fn asm_ops_for_source_node(&self, source_node: DebugSourceNodeId) -> (r: Vec<&DebugSourceAsmOp>)
        ensures
            match self.source_map {
                None => r@.len() == 0,
                Some(m) => r@.map_values(|x: &DebugSourceAsmOp| *x) == m.spec_asm_ops().filter(
                    |row: DebugSourceAsmOp| row.source_node == source_node,
                ),
            },
    {
        match &self.source_map {
            None => Vec::new(),
            Some(m) => m.asm_ops_for_source_node(source_node),
        }
    }

    /// Returns the first assembly operation row for `source_node` with the least operation
    /// index, if present.
    pub fn first_asm_op_for_source_node(&self, source_node: DebugSourceNodeId) -> (r: Option<&DebugSourceAsmOp>)
        ensures
            match self.source_map {
                None => r is None,
                Some(m) => {
                    &&& (r is None <==> forall|j: int|
                        0 <= j < m.spec_asm_ops().len() ==> m.spec_asm_ops()[j].source_node != source_node)
                    &&& (r matches Some(row) ==> exists|i: int|
                        is_first_min_row(m.spec_asm_ops(), source_node, i) && *row == m.spec_asm_ops()[i])
                },
            },
    {
        match &self.source_map {
            None => None,
            Some(m) => m.first_asm_op_for_source_node(source_node),
        }
    }

    /// Returns the assembly operation row for `source_node` at or before `op_idx` with the
    /// greatest operation index, if present.
    pub fn asm_op_for_operation(&self, source_node: DebugSourceNodeId, op_idx: u32) -> (r: Option<&DebugSourceAsmOp>)
        ensures
            match self.source_map {
                None => r is None,
                Some(m) => {
                    &&& (r is None <==> forall|j: int|
                        0 <= j < m.spec_asm_ops().len() ==> !(m.spec_asm_ops()[j].source_node == source_node
                            && m.spec_asm_ops()[j].op_idx <= op_idx))
                    &&& (r matches Some(row) ==> exists|i: int|
                        is_last_max_row_upto(m.spec_asm_ops(), source_node, op_idx, i) && *row == m.spec_asm_ops()[i])
                },
            },
    {
        match &self.source_map {
            None => None,
            Some(m) => m.asm_op_for_operation(source_node, op_idx),
        }
    }

    /// Returns the debug variable rows of a source/debug occurrence, in row order.
    pub fn debug_vars_for_source_node(&self, source_node: DebugSourceNodeId) -> (r: Vec<&DebugSourceVar>)
        ensures
            match self.source_map {
                None => r@.len() == 0,
                Some(m) => r@.map_values(|x: &DebugSourceVar| *x) == m.spec_debug_vars().filter(
                    |row: DebugSourceVar| row.source_node == source_node,
                ),
            },
    {
        match &self.source_map {
            None => Vec::new(),
            Some(m) => m.debug_vars_for_source_node(source_node),
        }
    }

    /// Returns the debug variable rows of `source_node` at `op_idx`, in row order.
    pub fn debug_vars_for_operation(&self, source_node: DebugSourceNodeId, op_idx: u32) -> (r: Vec<&DebugSourceVar>)
        ensures
            match self.source_map {
                None => r@.len() == 0,
                Some(m) => r@.map_values(|x: &DebugSourceVar| *x) == m.spec_debug_vars().filter(
                    |row: DebugSourceVar| row.source_node == source_node && row.op_idx == op_idx,
                ),
            },
    {
        match &self.source_map {
            None => Vec::new(),
            Some(m) => m.debug_vars_for_operation(source_node, op_idx),
        }
    }

    /// Returns the inline-call rows of a source/debug occurrence, in row order.
    pub fn inline_calls_for_source_node(&self, source_node: DebugSourceNodeId) -> (r: Vec<DebugSourceInlineCall>)
        ensures
            match self.source_map {
                None => r@.len() == 0,
                Some(m) => r@ == m.spec_inline_calls().filter(|row: DebugSourceInlineCall| row.source_node == source_node),
            },
    {
        match &self.source_map {
            None => Vec::new(),
            Some(m) => m.inline_calls_for_source_node(source_node),
        }
    }

    /// Returns the inline-call rows of `source_node` at `op_idx`, in row order.
    pub fn inline_calls_for_operation(&self, source_node: DebugSourceNodeId, op_idx: u32) -> (r: Vec<DebugSourceInlineCall>)
        ensures
            match self.source_map {
                None => r@.len() == 0,
                Some(m) => r@ == m.spec_inline_calls().filter(
                    |row: DebugSourceInlineCall| row.source_node == source_node && row.op_idx == op_idx,
                ),
            },
    {
        match &self.source_map {
            None => Vec::new(),
            Some(m) => m.inline_calls_for_operation(source_node, op_idx),
        }
    }

    /// Returns the assertion error message for `err_code`, if present.
    pub fn error_message(&self, err_code: u64) -> (r: Option<String>)
        ensures
            match self.error_messages {
                None => r is None,
                Some(e) => match first_message_index(e.spec_messages(), err_code) {
                    None => r is None,
                    Some(i) => (r matches Some(m) && m@ == e.spec_messages()[i].message@),
                },
            },
    {
        match &self.error_messages {
            None => None,
            Some(e) => e.message(err_code),
        }
    }
}

// MERGING PACKAGE DEBUG INFO
// ================================================================================================

/// The view of a source/debug occurrence: its executable node, children and operation range.
pub open spec fn node_view(n: DebugSourceNode) -> (MastNodeId, Seq<DebugSourceNodeId>, u32, u32) {
    (n.exec_node, n.children@, n.op_start, n.op_end)
}

/// The merged content built from the inputs merged so far.
pub struct MergeState {
    /// The merged type string table.
    pub type_strings: Seq<Seq<char>>,
    /// The merged type table.
    pub types: Seq<TypeInfoView>,
    /// The merged source string table.
    pub source_strings: Seq<Seq<char>>,
    /// The merged file table.
    pub files: Seq<DebugFileInfo>,
    /// The merged function string table.
    pub function_strings: Seq<Seq<char>>,
    /// The merged function table.
    pub functions: Seq<DebugFunctionInfo>,
    /// The merged source/debug occurrences.
    pub nodes: Seq<(MastNodeId, Seq<DebugSourceNodeId>, u32, u32)>,
    /// The merged source/debug roots.
    pub roots: Seq<DebugSourceNodeId>,
    /// The merged assembly operation rows.
    pub asm_ops: Seq<DebugSourceAsmOp>,
    /// The merged debug variable rows.
    pub debug_vars: Seq<DebugSourceVar>,
    /// The merged inline-call rows.
    pub inline_calls: Seq<DebugSourceInlineCall>,
    /// The merged error messages `(code, message)`, by ascending code.
    pub messages: Seq<(u64, Seq<char>)>,
    /// Whether an input had a types section.
    pub saw_types: bool,
    /// Whether an input had a sources section.
    pub saw_sources: bool,
    /// Whether an input had a functions section.
    pub saw_functions: bool,
    /// Whether an input had a source graph.
    pub saw_source_graph: bool,
    /// Whether an input had a source map beside a source graph.
    pub saw_source_map: bool,
    /// Whether an input had an error messages section.
    pub saw_error_messages: bool,
}

/// The state before any input is merged.
pub open spec fn empty_merge_state() -> MergeState {
    MergeState {
        type_strings: Seq::empty(),
        types: Seq::empty(),
        source_strings: Seq::empty(),
        files: Seq::empty(),
        function_strings: Seq::empty(),
        functions: Seq::empty(),
        nodes: Seq::empty(),
        roots: Seq::empty(),
        asm_ops: Seq::empty(),
        debug_vars: Seq::empty(),
        inline_calls: Seq::empty(),
        messages: Seq::empty(),
        saw_types: false,
        saw_sources: false,
        saw_functions: false,
        saw_source_graph: false,
        saw_source_map: false,
        saw_error_messages: false,
    }
}

/// A reference to the content of an optional section.
pub open spec fn opt_ref<T>(o: &Option<T>) -> Option<&T> {
    match o {
        Some(t) => Some(t),
        None => None,
    }
}

/// The number of table entries of an input that the merge may append: strings, types, files,
/// functions and source/debug occurrences.
pub open spec fn info_size(info: &PackageDebugInfo) -> nat {
    (match info.types {
        Some(t) => t.strings@.len() + t.types@.len(),
        None => 0,
    }) + (match info.sources {
        Some(t) => t.strings@.len() + t.files@.len(),
        None => 0,
    }) + (match info.functions {
        Some(t) => t.strings@.len() + t.functions@.len(),
        None => 0,
    }) + (match info.source_graph {
        Some(g) => g.nodes@.len(),
        None => 0,
    })
}

/// The total [`info_size`] of the inputs.
pub open spec fn inputs_size(inputs: Seq<(usize, &PackageDebugInfo)>) -> nat
    decreases inputs.len(),
{
    if inputs.len() == 0 {
        0
    } else {
        inputs_size(inputs.drop_last()) + info_size(inputs.last().1)
    }
}

/// The number of table entries of a merge state.
pub open spec fn state_size(st: MergeState) -> nat {
    st.type_strings.len() + st.types.len() + st.source_strings.len() + st.files.len()
        + st.function_strings.len() + st.functions.len() + st.nodes.len()
}

/// Rewrites a source/debug occurrence of an input graph of `count` occurrences appended after
/// `base` merged occurrences.
pub open spec fn remap_source_spec(forest_index: usize, id: DebugSourceNodeId, base: nat, count: nat) -> Result<DebugSourceNodeId, PackageDebugInfoMergeError> {
    if (id.0 as nat) < count {
        Ok(DebugSourceNodeId((base + id.0) as u32))
    } else {
        Err(PackageDebugInfoMergeError::MissingSourceNodeMapping { forest_index, source_node: id })
    }
}

/// [`remap_source_spec`] as a function of the occurrence.
pub open spec fn source_remapper(forest_index: usize, base: nat, count: nat) -> spec_fn(DebugSourceNodeId) -> Result<DebugSourceNodeId, PackageDebugInfoMergeError> {
    |id: DebugSourceNodeId| remap_source_spec(forest_index, id, base, count)
}

/// Rewrites a source/debug occurrence record: its executable node through the root map, then its
/// children.
pub open spec fn remap_node_spec(forest_index: usize, n: DebugSourceNode, base: nat, count: nat, root_map: &MastForestRootMap) -> Result<(MastNodeId, Seq<DebugSourceNodeId>, u32, u32), PackageDebugInfoMergeError> {
    match root_map.map_node_spec(forest_index, n.exec_node) {
        None => Err(PackageDebugInfoMergeError::MissingExecNodeMapping { forest_index, exec_node: n.exec_node }),
        Some(exec_node) => match try_map(n.children@, source_remapper(forest_index, base, count)) {
            Err(e) => Err(e),
            Ok(children) => Ok((exec_node, children, n.op_start, n.op_end)),
        },
    }
}

/// [`remap_node_spec`] as a function of the record.
pub open spec fn node_remapper(forest_index: usize, base: nat, count: nat, root_map: &MastForestRootMap) -> spec_fn(DebugSourceNode) -> Result<(MastNodeId, Seq<DebugSourceNodeId>, u32, u32), PackageDebugInfoMergeError> {
    |n: DebugSourceNode| remap_node_spec(forest_index, n, base, count, root_map)
}

/// Rewrites the occurrence of an assembly operation row.
pub open spec fn asm_remapper(forest_index: usize, base: nat, count: nat) -> spec_fn(DebugSourceAsmOp) -> Result<DebugSourceAsmOp, PackageDebugInfoMergeError> {
    |row: DebugSourceAsmOp| match remap_source_spec(forest_index, row.source_node, base, count) {
        Err(e) => Err(e),
        Ok(s) => Ok(DebugSourceAsmOp { source_node: s, ..row }),
    }
}

/// Rewrites the occurrence of a debug variable row.
pub open spec fn var_remapper(forest_index: usize, base: nat, count: nat) -> spec_fn(DebugSourceVar) -> Result<DebugSourceVar, PackageDebugInfoMergeError> {
    |row: DebugSourceVar| match remap_source_spec(forest_index, row.source_node, base, count) {
        Err(e) => Err(e),
        Ok(s) => Ok(DebugSourceVar { source_node: s, ..row }),
    }
}

/// Rewrites the occurrence, callee and file of an inline-call row, in that order.
pub open spec fn call_remapper(forest_index: usize, base: nat, count: nat, functions: Map<u32, u32>, files: Map<u32, u32>) -> spec_fn(DebugSourceInlineCall) -> Result<DebugSourceInlineCall, PackageDebugInfoMergeError> {
    |row: DebugSourceInlineCall| match remap_source_spec(forest_index, row.source_node, base, count) {
        Err(e) => Err(e),
        Ok(s) => match map_index(functions, row.callee_idx) {
            None => Err(PackageDebugInfoMergeError::MissingFunctionMapping { forest_index, function_idx: row.callee_idx }),
            Some(callee_idx) => match map_index(files, row.file_idx) {
                None => Err(PackageDebugInfoMergeError::MissingSourceFileMapping { forest_index, file_idx: row.file_idx }),
                Some(file_idx) => Ok(DebugSourceInlineCall { source_node: s, callee_idx, file_idx, ..row }),
            },
        },
    }
}

/// Merging the rows of a source map whose graph was appended after `base` merged occurrences.
pub open spec fn merge_rows_spec(st: MergeState, forest_index: usize, m: &DebugSourceMapSection, base: nat, count: nat, functions: Map<u32, u32>, files: Map<u32, u32>) -> Result<MergeState, PackageDebugInfoMergeError> {
    match try_map(m.spec_asm_ops(), asm_remapper(forest_index, base, count)) {
        Err(e) => Err(e),
        Ok(a) => match try_map(m.spec_debug_vars(), var_remapper(forest_index, base, count)) {
            Err(e) => Err(e),
            Ok(v) => match try_map(m.spec_inline_calls(), call_remapper(forest_index, base, count, functions, files)) {
                Err(e) => Err(e),
                Ok(c) => Ok(
                    MergeState {
                        asm_ops: st.asm_ops + a,
                        debug_vars: st.debug_vars + v,
                        inline_calls: st.inline_calls + c,
                        saw_source_map: true,
                        ..st
                    },
                ),
            },
        },
    }
}

/// Merging a source graph, then the rows of its source map if present.
pub open spec fn merge_graph_spec(st: MergeState, forest_index: usize, g: &DebugSourceGraphSection, m: Option<&DebugSourceMapSection>, root_map: &MastForestRootMap, functions: Map<u32, u32>, files: Map<u32, u32>) -> Result<MergeState, PackageDebugInfoMergeError> {
    let base = st.nodes.len();
    let count = g.nodes@.len();
    match try_map(g.nodes@, node_remapper(forest_index, base, count, root_map)) {
        Err(e) => Err(e),
        Ok(ns) => match try_map(g.roots@, source_remapper(forest_index, base, count)) {
            Err(e) => Err(e),
            Ok(rs) => {
                let st2 = MergeState { nodes: st.nodes + ns, roots: st.roots + rs, saw_source_graph: true, ..st };
                match m {
                    None => Ok(st2),
                    Some(m) => merge_rows_spec(st2, forest_index, m, base, count, functions, files),
                }
            },
        },
    }
}

/// The index of the first entry of `s` with a code at least `code`, or the length of `s`.
pub open spec fn first_at_least(s: Seq<(u64, Seq<char>)>, code: u64) -> nat {
    if exists|i: int| 0 <= i < s.len() && s[i].0 >= code {
        (choose|i: int| 0 <= i < s.len() && s[i].0 >= code && forall|j: int| 0 <= j < i ==> s[j].0 < code) as nat
    } else {
        s.len()
    }
}

/// Adds a message to the code-ordered messages unless its code is already there.
#[verifier::opaque]
pub open spec fn add_message_spec(s: Seq<(u64, Seq<char>)>, code: u64, message: Seq<char>) -> Seq<(u64, Seq<char>)> {
    if exists|i: int| 0 <= i < s.len() && s[i].0 == code {
        s
    } else {
        s.insert(first_at_least(s, code) as int, (code, message))
    }
}

/// Adds the rows in order, the first message for a code winning.
pub open spec fn add_messages_spec(s: Seq<(u64, Seq<char>)>, rows: Seq<DebugErrorMessage>) -> Seq<(u64, Seq<char>)>
    decreases rows.len(),
{
    if rows.len() == 0 {
        s
    } else {
        let prev = add_messages_spec(s, rows.drop_last());
        add_message_spec(prev, rows.last().err_code, rows.last().message@)
    }
}

/// True when the codes are strictly ascending.
pub open spec fn codes_ascending(s: Seq<(u64, Seq<char>)>) -> bool {
    forall|i: int, j: int| 0 <= i < j < s.len() ==> s[i].0 < s[j].0
}

/// Merging the tables of one input (types, sources, functions) and its error messages: the new
/// state and the function and file maps of the input. A source map with rows but no source graph
/// is an error.
pub open spec fn merge_tables_spec(st: MergeState, forest_index: usize, info: &PackageDebugInfo) -> Result<(MergeState, Map<u32, u32>, Map<u32, u32>), PackageDebugInfoMergeError> {
    match merge_types_spec(forest_index, opt_ref(&info.types), st.type_strings, st.types) {
        Err(e) => Err(e),
        Ok((type_strings, types, type_map)) => match merge_sources_spec(forest_index, opt_ref(&info.sources), st.source_strings, st.files) {
            Err(e) => Err(e),
            Ok((source_strings, files, file_map)) => match merge_functions_spec(forest_index, opt_ref(&info.functions), st.function_strings, st.functions.len(), file_map, type_map) {
                Err(e) => Err(e),
                Ok((function_strings, new_functions, function_map)) => {
                    if info.source_graph is None && (info.source_map matches Some(m) && !(m.spec_asm_ops().len() == 0
                        && m.spec_debug_vars().len() == 0 && m.spec_inline_calls().len() == 0)) {
                        Err(PackageDebugInfoMergeError::SourceMapWithoutGraph { forest_index })
                    } else {
                        Ok(
                            (
                                MergeState {
                                    type_strings,
                                    types,
                                    source_strings,
                                    files,
                                    function_strings,
                                    functions: st.functions + new_functions,
                                    messages: match info.error_messages {
                                        Some(e) => add_messages_spec(st.messages, e.spec_messages()),
                                        None => st.messages,
                                    },
                                    saw_types: st.saw_types || info.types is Some,
                                    saw_sources: st.saw_sources || info.sources is Some,
                                    saw_functions: st.saw_functions || info.functions is Some,
                                    saw_error_messages: st.saw_error_messages || info.error_messages is Some,
                                    ..st
                                },
                                function_map,
                                file_map,
                            ),
                        )
                    }
                },
            },
        },
    }
}

/// Merging one input: its tables and error messages, then its source graph and source map.
#[verifier::opaque]
pub open spec fn merge_step(st: MergeState, forest_index: usize, info: &PackageDebugInfo, root_map: &MastForestRootMap) -> Result<MergeState, PackageDebugInfoMergeError> {
    match merge_tables_spec(st, forest_index, info) {
        Err(e) => Err(e),
        Ok((st1, function_map, file_map)) => match info.source_graph {
            None => Ok(st1),
            Some(g) => merge_graph_spec(st1, forest_index, &g, opt_ref(&info.source_map), root_map, function_map, file_map),
        },
    }
}

/// Merging the inputs in order; the first input that fails gives the error.
pub open spec fn merge_all(inputs: Seq<(usize, &PackageDebugInfo)>, root_map: &MastForestRootMap) -> Result<MergeState, PackageDebugInfoMergeError>
    decreases inputs.len(),
{
    if inputs.len() == 0 {
        Ok(empty_merge_state())
    } else {
        match merge_all(inputs.drop_last(), root_map) {
            Err(e) => Err(e),
            Ok(st) => merge_step(st, inputs.last().0, inputs.last().1, root_map),
        }
    }
}

/// True when `info` holds exactly the merged content `st`: a section is present when an input had
/// one, and the source map interns the locations and strings of its rows.
pub open spec fn holds_merge(info: PackageDebugInfo, st: MergeState) -> bool {
    &&& (info.types is Some <==> st.saw_types)
    &&& (info.types matches Some(t) ==> t.version == DEBUG_TYPES_VERSION && string_views(t.strings@) == st.type_strings
        && types_view(t.types@) == st.types)
    &&& (info.sources is Some <==> st.saw_sources)
    &&& (info.sources matches Some(t) ==> t.version == DEBUG_SOURCES_VERSION && string_views(t.strings@) == st.source_strings
        && t.files@ == st.files)
    &&& (info.functions is Some <==> st.saw_functions)
    &&& (info.functions matches Some(t) ==> t.version == DEBUG_FUNCTIONS_VERSION && string_views(t.strings@)
        == st.function_strings && t.functions@ == st.functions)
    &&& (info.source_graph is Some <==> st.saw_source_graph)
    &&& (info.source_graph matches Some(g) ==> g.version == DEBUG_SOURCE_GRAPH_VERSION && g.nodes@.map_values(
        |n: DebugSourceNode| node_view(n),
    ) == st.nodes && g.roots@ == st.roots)
    &&& (info.source_map is Some <==> st.saw_source_map)
    &&& (info.source_map matches Some(m) ==> m.spec_version() == DEBUG_SOURCE_MAP_VERSION && m.spec_asm_ops() == st.asm_ops
        && m.spec_debug_vars() == st.debug_vars && m.spec_inline_calls() == st.inline_calls && m.spec_locations()
        == dedup(row_locations(st.asm_ops)) && m.spec_strings() == dedup(row_strings(st.asm_ops)))
    &&& (info.error_messages is Some <==> st.saw_error_messages)
    &&& (info.error_messages matches Some(e) ==> e.spec_version() == DEBUG_ERROR_MESSAGES_VERSION
        && e.spec_messages().map_values(|r: DebugErrorMessage| (r.err_code, r.message@)) == st.messages)
}

/// The `(code, message)` view of message rows.
pub open spec fn messages_view(rows: Seq<DebugErrorMessage>) -> Seq<(u64, Seq<char>)> {
    rows.map_values(|r: DebugErrorMessage| (r.err_code, r.message@))
}

proof fn lemma_add_message_present(s: Seq<(u64, Seq<char>)>, code: u64, message: Seq<char>, k: int)
    requires
        0 <= k < s.len(),
        s[k].0 == code,
    ensures
        add_message_spec(s, code, message) == s,
{
    reveal(add_message_spec);
}

proof fn lemma_add_message_absent(s: Seq<(u64, Seq<char>)>, code: u64, message: Seq<char>, k: int)
    requires
        codes_ascending(s),
        0 <= k <= s.len(),
        forall|j: int| 0 <= j < k ==> s[j].0 < code,
        k < s.len() ==> s[k].0 > code,
    ensures
        add_message_spec(s, code, message) == s.insert(k, (code, message)),
        codes_ascending(s.insert(k, (code, message))),
{
    reveal(add_message_spec);
    assert forall|i: int| 0 <= i < s.len() implies s[i].0 != code by {
        if i >= k {
            if i > k {
                assert(s[k].0 < s[i].0);
            }
        }
    }
    if k < s.len() {
        let c = choose|c: int| 0 <= c < s.len() && s[c].0 >= code && forall|j: int| 0 <= j < c ==> s[j].0 < code;
        assert(0 <= c < s.len() && s[c].0 >= code && forall|j: int| 0 <= j < c ==> s[j].0 < code);
        if c < k {
            assert(s[c].0 < code);
        } else if c > k {
            assert(s[k].0 < code);
        }
    } else {
        assert(!exists|i: int| 0 <= i < s.len() && s[i].0 >= code);
    }
    assert(first_at_least(s, code) == k);
    let t = s.insert(k, (code, message));
    assert forall|i: int, j: int| 0 <= i < j < t.len() implies t[i].0 < t[j].0 by {
        if j < k {
        } else if j == k {
        } else if i < k {
            assert(t[j] == s[j - 1]);
            assert(s[k].0 > code);
            if j - 1 > k {
                assert(s[k].0 < s[j - 1].0);
            }
        } else if i == k {
            assert(t[j] == s[j - 1]);
            assert(s[k].0 > code);
            if j - 1 > k {
                assert(s[k].0 < s[j - 1].0);
            }
        } else {
            assert(t[i] == s[i - 1] && t[j] == s[j - 1]);
        }
    }
}

/// Adds `row` to the code-ordered `messages` unless its code is already there.
fn insert_message(messages: &mut Vec<DebugErrorMessage>, row: &DebugErrorMessage)
    requires
        codes_ascending(messages_view(old(messages)@)),
    ensures
        messages_view(final(messages)@) == add_message_spec(messages_view(old(messages)@), row.err_code, row.message@),
        codes_ascending(messages_view(final(messages)@)),
{
    let ghost s = messages_view(messages@);
    let code = row.err_code;
    let n = messages.len();
    let mut k: usize = 0;
    while k < n && messages[k].err_code < code
        invariant
            n == messages@.len(),
            s == messages_view(messages@),
            k <= n,
            forall|j: int| 0 <= j < k ==> s[j].0 < code,
        decreases n - k,
    {
        k += 1;
    }
    if k < n && messages[k].err_code == code {
        proof {
            lemma_add_message_present(s, code, row.message@, k as int);
        }
        return;
    }
    proof {
        lemma_add_message_absent(s, code, row.message@, k as int);
    }
    messages.insert(k, DebugErrorMessage::new(code, row.message.clone()));
    proof {
        assert(messages_view(messages@) =~= s.insert(k as int, (code, row.message@)));
    }
}

/// Adds the rows of an error messages section in order, the first message for a code winning.
fn add_error_messages(messages: &mut Vec<DebugErrorMessage>, section: &DebugErrorMessagesSection)
    requires
        codes_ascending(messages_view(old(messages)@)),
    ensures
        messages_view(final(messages)@) == add_messages_spec(messages_view(old(messages)@), section.spec_messages()),
        codes_ascending(messages_view(final(messages)@)),
{
    let rows = section.messages();
    let ghost s0 = messages_view(messages@);
    let n = rows.len();
    let mut i: usize = 0;
    while i < n
        invariant
            n == rows@.len(),
            rows@ == section.spec_messages(),
            i <= n,
            codes_ascending(messages_view(messages@)),
            messages_view(messages@) == add_messages_spec(s0, rows@.take(i as int)),
        decreases n - i,
    {
        proof {
            assert(rows@.take(i + 1).drop_last() =~= rows@.take(i as int));
        }
        insert_message(messages, &rows[i]);
        i += 1;
    }
    proof {
        assert(rows@.take(n as int) =~= rows@);
    }
}

/// Rewrites a source/debug occurrence of an input graph of `count` occurrences appended after
/// `base` merged occurrences.
fn remap_source_node(forest_index: usize, id: DebugSourceNodeId, base: usize, count: usize) -> (r: Result<DebugSourceNodeId, PackageDebugInfoMergeError>)
    requires
        base + count <= u32::MAX,
    ensures
        r == remap_source_spec(forest_index, id, base as nat, count as nat),
{
    if (id.0 as usize) < count {
        Ok(DebugSourceNodeId((base + id.0 as usize) as u32))
    } else {
        Err(PackageDebugInfoMergeError::MissingSourceNodeMapping { forest_index, source_node: id })
    }
}

/// Appends the assembly operation rows with their occurrences rewritten.
fn remap_asm_rows(forest_index: usize, rows: &[DebugSourceAsmOp], base: usize, count: usize, out: &mut Vec<DebugSourceAsmOp>) -> (r: Result<(), PackageDebugInfoMergeError>)
    requires
        base + count <= u32::MAX,
    ensures
        match (r, try_map(rows@, asm_remapper(forest_index, base as nat, count as nat))) {
            (Ok(_), Ok(a)) => final(out)@ == old(out)@ + a,
            (Err(e), Err(se)) => e == se,
            _ => false,
        },
{
    let ghost f = asm_remapper(forest_index, base as nat, count as nat);
    let ghost start = out@;
    let n = rows.len();
    let mut i: usize = 0;
    while i < n
        invariant
            n == rows@.len(),
            i <= n,
            base + count <= u32::MAX,
            f == asm_remapper(forest_index, base as nat, count as nat),
            start == old(out)@,
            try_map(rows@.take(i as int), f) matches Ok(done) && out@ == start + done,
        decreases n - i,
    {
        proof {
            lemma_try_map_step(rows@, f, i as int);
        }
        let ghost done = try_map(rows@.take(i as int), f)->Ok_0;
        let row = &rows[i];
        let source_node = match remap_source_node(forest_index, row.source_node, base, count) {
            Ok(v) => v,
            Err(e) => {
                proof {
                    lemma_try_map_err_persists(rows@, f, i + 1, n as int);
                    assert(rows@.take(n as int) =~= rows@);
                }
                return Err(e);
            },
        };
        let item = row.rekeyed(source_node);
        out.push(item);
        proof {
            assert(start + done.push(item) =~= (start + done).push(item));
        }
        i += 1;
    }
    proof {
        assert(rows@.take(n as int) =~= rows@);
    }
    Ok(())
}

/// Appends the debug variable rows with their occurrences rewritten.
fn remap_var_rows(forest_index: usize, rows: &[DebugSourceVar], base: usize, count: usize, out: &mut Vec<DebugSourceVar>) -> (r: Result<(), PackageDebugInfoMergeError>)
    requires
        base + count <= u32::MAX,
    ensures
        match (r, try_map(rows@, var_remapper(forest_index, base as nat, count as nat))) {
            (Ok(_), Ok(a)) => final(out)@ == old(out)@ + a,
            (Err(e), Err(se)) => e == se,
            _ => false,
        },
{
    let ghost f = var_remapper(forest_index, base as nat, count as nat);
    let ghost start = out@;
    let n = rows.len();
    let mut i: usize = 0;
    while i < n
        invariant
            n == rows@.len(),
            i <= n,
            base + count <= u32::MAX,
            f == var_remapper(forest_index, base as nat, count as nat),
            start == old(out)@,
            try_map(rows@.take(i as int), f) matches Ok(done) && out@ == start + done,
        decreases n - i,
    {
        proof {
            lemma_try_map_step(rows@, f, i as int);
        }
        let ghost done = try_map(rows@.take(i as int), f)->Ok_0;
        let row = &rows[i];
        let source_node = match remap_source_node(forest_index, row.source_node, base, count) {
            Ok(v) => v,
            Err(e) => {
                proof {
                    lemma_try_map_err_persists(rows@, f, i + 1, n as int);
                    assert(rows@.take(n as int) =~= rows@);
                }
                return Err(e);
            },
        };
        let item = DebugSourceVar::new(source_node, row.op_idx, row.var.duplicate());
        out.push(item);
        proof {
            assert(start + done.push(item) =~= (start + done).push(item));
        }
        i += 1;
    }
    proof {
        assert(rows@.take(n as int) =~= rows@);
    }
    Ok(())
}

/// Appends the inline-call rows with their occurrences, callees and files rewritten.
fn remap_call_rows(forest_index: usize, rows: &[DebugSourceInlineCall], base: usize, count: usize, function_map: &BTreeMap<u32, u32>, file_map: &BTreeMap<u32, u32>, out: &mut Vec<DebugSourceInlineCall>) -> (r: Result<(), PackageDebugInfoMergeError>)
    requires
        base + count <= u32::MAX,
    ensures
        match (r, try_map(rows@, call_remapper(forest_index, base as nat, count as nat, function_map@, file_map@))) {
            (Ok(_), Ok(a)) => final(out)@ == old(out)@ + a,
            (Err(e), Err(se)) => e == se,
            _ => false,
        },
{
    let ghost f = call_remapper(forest_index, base as nat, count as nat, function_map@, file_map@);
    let ghost start = out@;
    let n = rows.len();
    let mut i: usize = 0;
    while i < n
        invariant
            n == rows@.len(),
            i <= n,
            base + count <= u32::MAX,
            f == call_remapper(forest_index, base as nat, count as nat, function_map@, file_map@),
            start == old(out)@,
            try_map(rows@.take(i as int), f) matches Ok(done) && out@ == start + done,
        decreases n - i,
    {
        proof {
            lemma_try_map_step(rows@, f, i as int);
        }
        let ghost done = try_map(rows@.take(i as int), f)->Ok_0;
        let row = &rows[i];
        let source_node = match remap_source_node(forest_index, row.source_node, base, count) {
            Ok(v) => v,
            Err(e) => {
                proof {
                    lemma_try_map_err_persists(rows@, f, i + 1, n as int);
                    assert(rows@.take(n as int) =~= rows@);
                }
                return Err(e);
            },
        };
        let callee_idx = match function_map.get(&row.callee_idx) {
            Some(v) => *v,
            None => {
                proof {
                    lemma_try_map_err_persists(rows@, f, i + 1, n as int);
                    assert(rows@.take(n as int) =~= rows@);
                }
                return Err(PackageDebugInfoMergeError::MissingFunctionMapping { forest_index, function_idx: row.callee_idx });
            },
        };
        let file_idx = match file_map.get(&row.file_idx) {
            Some(v) => *v,
            None => {
                proof {
                    lemma_try_map_err_persists(rows@, f, i + 1, n as int);
                    assert(rows@.take(n as int) =~= rows@);
                }
                return Err(PackageDebugInfoMergeError::MissingSourceFileMapping { forest_index, file_idx: row.file_idx });
            },
        };
        let item = DebugSourceInlineCall::new(
            source_node,
            row.op_idx,
            callee_idx,
            file_idx,
            row.line,
            row.column,
        );
        out.push(item);
        proof {
            assert(start + done.push(item) =~= (start + done).push(item));
        }
        i += 1;
    }
    proof {
        assert(rows@.take(n as int) =~= rows@);
    }
    Ok(())
}

/// Appends the occurrences with each rewritten.
fn remap_ids(forest_index: usize, rows: &[DebugSourceNodeId], base: usize, count: usize, out: &mut Vec<DebugSourceNodeId>) -> (r: Result<(), PackageDebugInfoMergeError>)
    requires
        base + count <= u32::MAX,
    ensures
        match (r, try_map(rows@, source_remapper(forest_index, base as nat, count as nat))) {
            (Ok(_), Ok(a)) => final(out)@ == old(out)@ + a,
            (Err(e), Err(se)) => e == se,
            _ => false,
        },
{
    let ghost f = source_remapper(forest_index, base as nat, count as nat);
    let ghost start = out@;
    let n = rows.len();
    let mut i: usize = 0;
    while i < n
        invariant
            n == rows@.len(),
            i <= n,
            base + count <= u32::MAX,
            f == source_remapper(forest_index, base as nat, count as nat),
            start == old(out)@,
            try_map(rows@.take(i as int), f) matches Ok(done) && out@ == start + done,
        decreases n - i,
    {
        proof {
            lemma_try_map_step(rows@, f, i as int);
        }
        let ghost done = try_map(rows@.take(i as int), f)->Ok_0;
        let row = &rows[i];
        let source_node = match remap_source_node(forest_index, *row, base, count) {
            Ok(v) => v,
            Err(e) => {
                proof {
                    lemma_try_map_err_persists(rows@, f, i + 1, n as int);
                    assert(rows@.take(n as int) =~= rows@);
                }
                return Err(e);
            },
        };
        let item = source_node;
        out.push(item);
        proof {
            assert(start + done.push(item) =~= (start + done).push(item));
        }
        i += 1;
    }
    proof {
        assert(rows@.take(n as int) =~= rows@);
    }
    Ok(())
}

/// The views of a table of source/debug occurrences.
pub open spec fn nodes_view(s: Seq<DebugSourceNode>) -> Seq<(MastNodeId, Seq<DebugSourceNodeId>, u32, u32)> {
    s.map_values(|n: DebugSourceNode| node_view(n))
}

/// Rewrites the children of an occurrence.
fn remap_children(forest_index: usize, children: &Vec<DebugSourceNodeId>, base: usize, count: usize) -> (r: Result<Vec<DebugSourceNodeId>, PackageDebugInfoMergeError>)
    requires
        base + count <= u32::MAX,
    ensures
        match (r, try_map(children@, source_remapper(forest_index, base as nat, count as nat))) {
            (Ok(v), Ok(a)) => v@ == a,
            (Err(e), Err(se)) => e == se,
            _ => false,
        },
{
    let mut out: Vec<DebugSourceNodeId> = Vec::new();
    match remap_ids(forest_index, children.as_slice(), base, count, &mut out) {
        Ok(_) => {
            proof {
                let a = try_map(children@, source_remapper(forest_index, base as nat, count as nat))->Ok_0;
                assert(Seq::<DebugSourceNodeId>::empty() + a =~= a);
            }
            Ok(out)
        },
        Err(e) => Err(e),
    }
}

/// Appends the occurrences of an input graph with their executable nodes and children rewritten.
fn remap_nodes(forest_index: usize, rows: &[DebugSourceNode], base: usize, count: usize, root_map: &MastForestRootMap, out: &mut Vec<DebugSourceNode>) -> (r: Result<(), PackageDebugInfoMergeError>)
    requires
        base + count <= u32::MAX,
    ensures
        match (r, try_map(rows@, node_remapper(forest_index, base as nat, count as nat, root_map))) {
            (Ok(_), Ok(a)) => nodes_view(final(out)@) == nodes_view(old(out)@) + a,
            (Err(e), Err(se)) => e == se,
            _ => false,
        },
{
    let ghost f = node_remapper(forest_index, base as nat, count as nat, root_map);
    let ghost start = nodes_view(out@);
    let n = rows.len();
    let mut i: usize = 0;
    while i < n
        invariant
            n == rows@.len(),
            i <= n,
            base + count <= u32::MAX,
            f == node_remapper(forest_index, base as nat, count as nat, root_map),
            start == nodes_view(old(out)@),
            try_map(rows@.take(i as int), f) matches Ok(done) && nodes_view(out@) == start + done,
        decreases n - i,
    {
        proof {
            lemma_try_map_step(rows@, f, i as int);
        }
        let ghost done = try_map(rows@.take(i as int), f)->Ok_0;
        let row = &rows[i];
        let exec_node = match root_map.map_node(forest_index, &row.exec_node) {
            Some(v) => v,
            None => {
                proof {
                    lemma_try_map_err_persists(rows@, f, i + 1, n as int);
                    assert(rows@.take(n as int) =~= rows@);
                }
                return Err(PackageDebugInfoMergeError::MissingExecNodeMapping { forest_index, exec_node: row.exec_node });
            },
        };
        let children = match remap_children(forest_index, &row.children, base, count) {
            Ok(v) => v,
            Err(e) => {
                proof {
                    lemma_try_map_err_persists(rows@, f, i + 1, n as int);
                    assert(rows@.take(n as int) =~= rows@);
                }
                return Err(e);
            },
        };
        let item = DebugSourceNode::new(exec_node, children, row.op_start, row.op_end);
        let ghost before = out@;
        out.push(item);
        proof {
            assert(nodes_view(out@) =~= nodes_view(before).push(node_view(item)));
            assert(start + done.push(node_view(item)) =~= (start + done).push(node_view(item)));
        }
        i += 1;
    }
    proof {
        assert(rows@.take(n as int) =~= rows@);
    }
    Ok(())
}

/// The tables and rows built while merging.
struct MergeAccumulator {
    types: DebugTypesSection,
    sources: DebugSourcesSection,
    functions: DebugFunctionsSection,
    nodes: Vec<DebugSourceNode>,
    roots: Vec<DebugSourceNodeId>,
    asm_ops: Vec<DebugSourceAsmOp>,
    debug_vars: Vec<DebugSourceVar>,
    inline_calls: Vec<DebugSourceInlineCall>,
    messages: Vec<DebugErrorMessage>,
    saw_types: bool,
    saw_sources: bool,
    saw_functions: bool,
    saw_source_graph: bool,
    saw_source_map: bool,
    saw_error_messages: bool,
}

impl MergeAccumulator {
    spec fn state(&self) -> MergeState {
        MergeState {
            type_strings: string_views(self.types.strings@),
            types: types_view(self.types.types@),
            source_strings: string_views(self.sources.strings@),
            files: self.sources.files@,
            function_strings: string_views(self.functions.strings@),
            functions: self.functions.functions@,
            nodes: nodes_view(self.nodes@),
            roots: self.roots@,
            asm_ops: self.asm_ops@,
            debug_vars: self.debug_vars@,
            inline_calls: self.inline_calls@,
            messages: messages_view(self.messages@),
            saw_types: self.saw_types,
            saw_sources: self.saw_sources,
            saw_functions: self.saw_functions,
            saw_source_graph: self.saw_source_graph,
            saw_source_map: self.saw_source_map,
            saw_error_messages: self.saw_error_messages,
        }
    }

    spec fn wf(&self) -> bool {
        &&& self.types.version == DEBUG_TYPES_VERSION
        &&& self.sources.version == DEBUG_SOURCES_VERSION
        &&& self.functions.version == DEBUG_FUNCTIONS_VERSION
        &&& codes_ascending(messages_view(self.messages@))
    }
}

/// Merges the tables and error messages of one input into the accumulator, returning the
/// function and file maps of the input.
fn merge_tables(acc: &mut MergeAccumulator, forest_index: usize, info: &PackageDebugInfo) -> (r: Result<(BTreeMap<u32, u32>, BTreeMap<u32, u32>), PackageDebugInfoMergeError>)
    requires
        old(acc).wf(),
        state_size(old(acc).state()) + info_size(info) <= u32::MAX,
    ensures
        final(acc).wf(),
        final(acc).nodes == old(acc).nodes,
        final(acc).roots == old(acc).roots,
        final(acc).asm_ops == old(acc).asm_ops,
        final(acc).debug_vars == old(acc).debug_vars,
        final(acc).inline_calls == old(acc).inline_calls,
        final(acc).saw_source_graph == old(acc).saw_source_graph,
        final(acc).saw_source_map == old(acc).saw_source_map,
        match (r, merge_tables_spec(old(acc).state(), forest_index, info)) {
            (Ok((fm, m)), Ok((st, sfm, sm))) => final(acc).state() == st && fm@ == sfm && m@ == sm
                && state_size(st) + (match info.source_graph {
                Some(g) => g.nodes@.len(),
                None => 0,
            }) <= state_size(old(acc).state()) + info_size(info),
            (Err(e), Err(se)) => e == se,
            _ => false,
        },
{
    let types_section = info.types.as_ref();
    assert(types_section == opt_ref(&info.types));
    let type_map = match merge_debug_types(forest_index, types_section, &mut acc.types) {
        Ok(m) => m,
        Err(e) => {
            return Err(e);
        },
    };
    let sources_section = info.sources.as_ref();
    assert(sources_section == opt_ref(&info.sources));
    let file_map = match merge_debug_sources(forest_index, sources_section, &mut acc.sources) {
        Ok(m) => m,
        Err(e) => {
            return Err(e);
        },
    };
    let functions_section = info.functions.as_ref();
    assert(functions_section == opt_ref(&info.functions));
    let function_map = match merge_debug_functions(forest_index, functions_section, &mut acc.functions, &file_map, &type_map) {
        Ok(m) => m,
        Err(e) => {
            return Err(e);
        },
    };
    acc.saw_types = acc.saw_types || info.types.is_some();
    acc.saw_sources = acc.saw_sources || info.sources.is_some();
    acc.saw_functions = acc.saw_functions || info.functions.is_some();
    if info.source_graph.is_none() {
        match &info.source_map {
            Some(m) => {
                if !m.is_empty() {
                    return Err(PackageDebugInfoMergeError::SourceMapWithoutGraph { forest_index });
                }
            },
            None => {},
        }
    }
    match &info.error_messages {
        Some(e) => {
            acc.saw_error_messages = true;
            add_error_messages(&mut acc.messages, e);
        },
        None => {},
    }
    Ok((function_map, file_map))
}

/// Merges the rows of a source map whose graph was appended after `base` merged occurrences.
fn merge_rows(
    acc: &mut MergeAccumulator,
    forest_index: usize,
    m: &DebugSourceMapSection,
    base: usize,
    count: usize,
    function_map: &BTreeMap<u32, u32>,
    file_map: &BTreeMap<u32, u32>,
) -> (r: Result<(), PackageDebugInfoMergeError>)
    requires
        old(acc).wf(),
        base + count <= u32::MAX,
    ensures
        final(acc).wf(),
        match (r, merge_rows_spec(old(acc).state(), forest_index, m, base as nat, count as nat, function_map@, file_map@)) {
            (Ok(_), Ok(st)) => final(acc).state() == st,
            (Err(e), Err(se)) => e == se,
            _ => false,
        },
{
    acc.saw_source_map = true;
    match remap_asm_rows(forest_index, m.asm_ops(), base, count, &mut acc.asm_ops) {
        Ok(_) => {},
        Err(e) => {
            return Err(e);
        },
    }
    match remap_var_rows(forest_index, m.debug_vars(), base, count, &mut acc.debug_vars) {
        Ok(_) => {},
        Err(e) => {
            return Err(e);
        },
    }
    match remap_call_rows(forest_index, m.inline_calls(), base, count, function_map, file_map, &mut acc.inline_calls) {
        Ok(_) => {},
        Err(e) => {
            return Err(e);
        },
    }
    proof {
        assert(acc.state() =~= merge_rows_spec(old(acc).state(), forest_index, m, base as nat, count as nat, function_map@, file_map@)->Ok_0);
    }
    Ok(())
}

/// Merges a source graph, then the rows of its source map if present.
fn merge_graph(
    acc: &mut MergeAccumulator,
    forest_index: usize,
    g: &DebugSourceGraphSection,
    source_map: Option<&DebugSourceMapSection>,
    root_map: &MastForestRootMap,
    function_map: &BTreeMap<u32, u32>,
    file_map: &BTreeMap<u32, u32>,
) -> (r: Result<(), PackageDebugInfoMergeError>)
    requires
        old(acc).wf(),
        old(acc).nodes@.len() + g.nodes@.len() <= u32::MAX,
    ensures
        final(acc).wf(),
        match (r, merge_graph_spec(old(acc).state(), forest_index, g, source_map, root_map, function_map@, file_map@)) {
            (Ok(_), Ok(st)) => final(acc).state() == st,
            (Err(e), Err(se)) => e == se,
            _ => false,
        },
{
    let ghost st1 = acc.state();
    acc.saw_source_graph = true;
    let base = acc.nodes.len();
    let count = g.nodes.len();
    assert(st1.nodes.len() == base);
    let ghost f_nodes = node_remapper(forest_index, base as nat, count as nat, root_map);
    let ghost f_roots = source_remapper(forest_index, base as nat, count as nat);
    match remap_nodes(forest_index, g.nodes.as_slice(), base, count, root_map, &mut acc.nodes) {
        Ok(_) => {},
        Err(e) => {
            return Err(e);
        },
    }
    match remap_ids(forest_index, g.roots.as_slice(), base, count, &mut acc.roots) {
        Ok(_) => {},
        Err(e) => {
            return Err(e);
        },
    }
    let ghost st2 = MergeState {
        nodes: st1.nodes + try_map(g.nodes@, f_nodes)->Ok_0,
        roots: st1.roots + try_map(g.roots@, f_roots)->Ok_0,
        saw_source_graph: true,
        ..st1
    };
    assert(acc.state() =~= st2);
    match source_map {
        None => Ok(()),
        Some(m) => merge_rows(acc, forest_index, m, base, count, function_map, file_map),
    }
}

/// Merges one input into the accumulator.
fn merge_one(acc: &mut MergeAccumulator, forest_index: usize, info: &PackageDebugInfo, root_map: &MastForestRootMap) -> (r: Result<(), PackageDebugInfoMergeError>)
    requires
        old(acc).wf(),
        state_size(old(acc).state()) + info_size(info) <= u32::MAX,
    ensures
        final(acc).wf(),
        match (r, merge_step(old(acc).state(), forest_index, info, root_map)) {
            (Ok(_), Ok(st)) => final(acc).state() == st && state_size(st) <= state_size(old(acc).state()) + info_size(info),
            (Err(e), Err(se)) => e == se,
            _ => false,
        },
{
    reveal(merge_step);
    let (function_map, file_map) = match merge_tables(acc, forest_index, info) {
        Ok(maps) => maps,
        Err(e) => {
            return Err(e);
        },
    };
    let ghost st1 = acc.state();
    match &info.source_graph {
        None => Ok(()),
        Some(g) => {
            assert(acc.nodes@.len() == st1.nodes.len());
            let source_map = info.source_map.as_ref();
            assert(source_map == opt_ref(&info.source_map));
            let r = merge_graph(acc, forest_index, g, source_map, root_map, &function_map, &file_map);
            proof {
                if r is Ok {
                    let st = acc.state();
                    let base = st1.nodes.len();
                    let count = g.nodes@.len();
                    lemma_try_map_len(g.nodes@, node_remapper(forest_index, base, count, root_map));
                    assert(state_size(st) == state_size(st1) + g.nodes@.len());
                }
            }
            r
        },
    }
}

proof fn lemma_inputs_size_prefix(inputs: Seq<(usize, &PackageDebugInfo)>, i: int)
    requires
        0 <= i < inputs.len(),
    ensures
        inputs_size(inputs.take(i + 1)) == inputs_size(inputs.take(i)) + info_size(inputs[i].1),
        inputs_size(inputs.take(i + 1)) <= inputs_size(inputs),
    decreases inputs.len() - i,
{
    assert(inputs.take(i + 1).drop_last() =~= inputs.take(i));
    if i + 1 < inputs.len() {
        lemma_inputs_size_prefix(inputs, i + 1);
    } else {
        assert(inputs.take(i + 1) =~= inputs);
    }
}

proof fn lemma_merge_all_err_persists(inputs: Seq<(usize, &PackageDebugInfo)>, root_map: &MastForestRootMap, i: int, j: int)
    requires
        0 <= i <= j <= inputs.len(),
        merge_all(inputs.take(i), root_map) is Err,
    ensures
        merge_all(inputs.take(j), root_map) == merge_all(inputs.take(i), root_map),
    decreases j - i,
{
    if i < j {
        lemma_merge_all_err_persists(inputs, root_map, i, j - 1);
        assert(inputs.take(j).drop_last() =~= inputs.take(j - 1));
    }
}


/// Builds the merged debug information from the accumulator: a section is present when an input
/// had one.
fn finish_merge(acc: MergeAccumulator) -> (r: PackageDebugInfo)
    requires
        acc.wf(),
    ensures
        holds_merge(r, acc.state()),
{
    let ghost st = acc.state();
    let MergeAccumulator {
        types,
        sources,
        functions,
        nodes,
        roots,
        asm_ops,
        debug_vars,
        inline_calls,
        messages,
        saw_types,
        saw_sources,
        saw_functions,
        saw_source_graph,
        saw_source_map,
        saw_error_messages,
    } = acc;
    PackageDebugInfo {
        types: if saw_types {
            Some(types)
        } else {
            None
        },
        sources: if saw_sources {
            Some(sources)
        } else {
            None
        },
        functions: if saw_functions {
            Some(functions)
        } else {
            None
        },
        source_graph: if saw_source_graph {
            Some(DebugSourceGraphSection::from_parts(nodes, roots))
        } else {
            None
        },
        source_map: if saw_source_map {
            Some(DebugSourceMapSection::from_parts_with_inline_calls(asm_ops, debug_vars, inline_calls))
        } else {
            None
        },
        error_messages: if saw_error_messages {
            Some(DebugErrorMessagesSection::from_parts(messages))
        } else {
            None
        },
    }
}

impl PackageDebugInfo {
    /// Merges package-owned source/debug metadata after a MAST forest merge.
    ///
    /// Each input is the position of its forest in the forest merge and its debug information;
    /// `root_map` maps the nodes of each input forest to the merged forest. The type, source-file
    /// and function tables are merged too, as the inline-call rows of source maps refer to them.
    /// A section is present in the result when an input had one; error messages keep the first
    /// message of each code and are ordered by code.
    pub fn merge_source_debug(inputs: &[(usize, &PackageDebugInfo)], root_map: &MastForestRootMap) -> (r: Result<PackageDebugInfo, PackageDebugInfoMergeError>)
        requires
            inputs_size(inputs@) <= u32::MAX,
        ensures
            match (r, merge_all(inputs@, root_map)) {
                (Ok(info), Ok(st)) => holds_merge(info, st),
                (Err(e), Err(se)) => e == se,
                _ => false,
            },
    {
        let mut acc = MergeAccumulator {
            types: DebugTypesSection::new(),
            sources: DebugSourcesSection::new(),
            functions: DebugFunctionsSection::new(),
            nodes: Vec::new(),
            roots: Vec::new(),
            asm_ops: Vec::new(),
            debug_vars: Vec::new(),
            inline_calls: Vec::new(),
            messages: Vec::new(),
            saw_types: false,
            saw_sources: false,
            saw_functions: false,
            saw_source_graph: false,
            saw_source_map: false,
            saw_error_messages: false,
        };
        proof {
            assert(string_views(acc.types.strings@) =~= Seq::<Seq<char>>::empty());
            assert(types_view(acc.types.types@) =~= Seq::<TypeInfoView>::empty());
            assert(string_views(acc.sources.strings@) =~= Seq::<Seq<char>>::empty());
            assert(string_views(acc.functions.strings@) =~= Seq::<Seq<char>>::empty());
            assert(nodes_view(acc.nodes@) =~= Seq::<(MastNodeId, Seq<DebugSourceNodeId>, u32, u32)>::empty());
            assert(messages_view(acc.messages@) =~= Seq::<(u64, Seq<char>)>::empty());
            assert(acc.sources.files@ =~= Seq::<DebugFileInfo>::empty());
            assert(acc.functions.functions@ =~= Seq::<DebugFunctionInfo>::empty());
            assert(acc.state() == empty_merge_state());
            assert(inputs@.take(0) =~= Seq::<(usize, &PackageDebugInfo)>::empty());
        }
        let n = inputs.len();
        let mut i: usize = 0;
        while i < n
            invariant
                n == inputs@.len(),
                i <= n,
                acc.wf(),
                inputs_size(inputs@) <= u32::MAX,
                merge_all(inputs@.take(i as int), root_map) == Ok::<MergeState, PackageDebugInfoMergeError>(acc.state()),
                state_size(acc.state()) <= inputs_size(inputs@.take(i as int)),
            decreases n - i,
        {
            let (forest_index, info) = inputs[i];
            proof {
                lemma_inputs_size_prefix(inputs@, i as int);
                assert(inputs@.take(i + 1).drop_last() =~= inputs@.take(i as int));
            }
            match merge_one(&mut acc, forest_index, info, root_map) {
                Ok(_) => {},
                Err(e) => {
                    proof {
                        lemma_merge_all_err_persists(inputs@, root_map, i + 1, n as int);
                        assert(inputs@.take(n as int) =~= inputs@);
                    }
                    return Err(e);
                },
            }
            i += 1;
        }
        proof {
            assert(inputs@.take(n as int) =~= inputs@);
        }
        Ok(finish_merge(acc))
    }
}

proof fn lemma_add_message_ascending(s: Seq<(u64, Seq<char>)>, code: u64, message: Seq<char>)
    requires
        codes_ascending(s),
    ensures
        codes_ascending(add_message_spec(s, code, message)),
{
    if exists|i: int| 0 <= i < s.len() && s[i].0 == code {
        let i = choose|i: int| 0 <= i < s.len() && s[i].0 == code;
        lemma_add_message_present(s, code, message, i);
    } else {
        let k = first_at_least(s, code) as int;
        if exists|i: int| 0 <= i < s.len() && s[i].0 >= code {
            let c = choose|c: int| 0 <= c < s.len() && s[c].0 >= code && forall|j: int| 0 <= j < c ==> s[j].0 < code;
            assert(exists|c: int| 0 <= c < s.len() && s[c].0 >= code && forall|j: int| 0 <= j < c ==> s[j].0 < code) by {
                let w = choose|i: int| 0 <= i < s.len() && s[i].0 >= code;
                lemma_first_at_least_exists(s, code, w);
            }
            assert(0 <= c < s.len() && s[c].0 >= code && forall|j: int| 0 <= j < c ==> s[j].0 < code);
            assert(k == c);
            assert(s[k].0 != code);
        } else {
            assert forall|j: int| 0 <= j < s.len() implies s[j].0 < code by {}
        }
        lemma_add_message_absent(s, code, message, k);
    }
}

proof fn lemma_first_at_least_exists(s: Seq<(u64, Seq<char>)>, code: u64, w: int)
    requires
        0 <= w < s.len(),
        s[w].0 >= code,
    ensures
        exists|c: int| 0 <= c < s.len() && s[c].0 >= code && forall|j: int| 0 <= j < c ==> s[j].0 < code,
    decreases w,
{
    if exists|j: int| 0 <= j < w && s[j].0 >= code {
        let j = choose|j: int| 0 <= j < w && s[j].0 >= code;
        lemma_first_at_least_exists(s, code, j);
    } else {
        assert(0 <= w < s.len() && s[w].0 >= code && forall|j: int| 0 <= j < w ==> s[j].0 < code);
    }
}

proof fn lemma_add_messages_ascending(s: Seq<(u64, Seq<char>)>, rows: Seq<DebugErrorMessage>)
    requires
        codes_ascending(s),
    ensures
        codes_ascending(add_messages_spec(s, rows)),
    decreases rows.len(),
{
    if rows.len() > 0 {
        lemma_add_messages_ascending(s, rows.drop_last());
        lemma_add_message_ascending(add_messages_spec(s, rows.drop_last()), rows.last().err_code, rows.last().message@);
    }
}

proof fn lemma_merge_step_messages(st: MergeState, forest_index: usize, info: &PackageDebugInfo, root_map: &MastForestRootMap)
    requires
        codes_ascending(st.messages),
    ensures
        merge_step(st, forest_index, info, root_map) matches Ok(st2) ==> codes_ascending(st2.messages),
{
    reveal(merge_step);
    match info.error_messages {
        Some(e) => lemma_add_messages_ascending(st.messages, e.spec_messages()),
        None => {},
    }
}

/// The merged error messages are ordered by strictly ascending code, so no code occurs twice,
/// whatever the inputs.
pub proof fn law_merged_messages_ascending(inputs: Seq<(usize, &PackageDebugInfo)>, root_map: &MastForestRootMap)
    ensures
        merge_all(inputs, root_map) matches Ok(st) ==> codes_ascending(st.messages),
    decreases inputs.len(),
{
    if inputs.len() > 0 {
        law_merged_messages_ascending(inputs.drop_last(), root_map);
        match merge_all(inputs.drop_last(), root_map) {
            Ok(st) => lemma_merge_step_messages(st, inputs.last().0, inputs.last().1, root_map),
            Err(_) => {},
        }
    }
}

} // verus!
