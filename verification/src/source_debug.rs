//! Package-owned source/debug metadata: the source occurrence graph and the source-keyed map of
//! assembly operations, debug variables and inline calls.
//!
//! A [`DebugSourceNode`] is one source occurrence of code that produced an executable MAST node.
//! Several source occurrences may point at the same executable node; the [`DebugSourceNodeId`] is
//! the identity of an occurrence, and `exec_node` only says which executable node it describes.
use vstd::prelude::*;

verus! {

// IDENTIFIERS
// ================================================================================================

/// The identifier of an executable node in a MAST forest.
#[derive(Debug, Clone, Copy, PartialEq, Eq, Structural)]
pub struct MastNodeId(pub u32);

/// A strongly-typed index into the source/debug MAST occurrence graph.
#[derive(Debug, Clone, Copy, PartialEq, Eq, Structural)]
pub struct DebugSourceNodeId(pub u32);

impl DebugSourceNodeId {
    /// Returns the inner value as a `u32`.
    pub fn as_u32(self) -> (r: u32)
        ensures
            r == self.0,
    {
        self.0
    }
}

/// A line number in a source file.
#[derive(Debug, Clone, Copy, PartialEq, Eq, Structural)]
pub struct LineNumber(pub u32);

/// A column number in a source file.
#[derive(Debug, Clone, Copy, PartialEq, Eq, Structural)]
pub struct ColumnNumber(pub u32);

/// A source span: the file it belongs to and its byte range.
#[derive(Debug)]
pub struct Location {
    /// The source file.
    pub uri: String,
    /// Inclusive start byte offset.
    pub start: u32,
    /// Exclusive end byte offset.
    pub end: u32,
}

impl Location {
    /// Returns an equal copy of the location.
    pub fn duplicate(&self) -> (r: Location)
        ensures
            r == *self,
    {
        Location { uri: self.uri.clone(), start: self.start, end: self.end }
    }

    /// Returns true if both locations have the same file and span.
    pub fn same_as(&self, other: &Location) -> (r: bool)
        ensures
            r == (self.uri@ == other.uri@ && self.start == other.start && self.end == other.end),
    {
        self.start == other.start && self.end == other.end && self.uri == other.uri
    }
}

/// Where a debug variable lives at run time.
#[derive(Debug, Clone, Copy, PartialEq, Eq, Structural)]
pub enum DebugVarLocation {
    /// At the given depth of the operand stack.
    Stack(u8),
    /// At the given memory address.
    Memory(u32),
}

/// A source-level variable and where it lives.
#[derive(Debug)]
pub struct DebugVarInfo {
    /// The variable name.
    pub name: String,
    /// The variable location.
    pub location: DebugVarLocation,
}

impl DebugVarInfo {
    /// Creates a debug variable record.
    pub fn new(name: String, location: DebugVarLocation) -> (r: Self)
        ensures
            r.name == name,
            r.location == location,
    {
        DebugVarInfo { name, location }
    }

    /// Returns the variable name.
    pub fn name(&self) -> (r: &String)
        ensures
            r == self.name,
    {
        &self.name
    }

    /// Returns an equal copy of the record.
    pub fn duplicate(&self) -> (r: DebugVarInfo)
        ensures
            r == *self,
    {
        DebugVarInfo { name: self.name.clone(), location: self.location }
    }
}

// LOOKUP ERRORS
// ================================================================================================

/// Error returned when a caller needs a unique source/debug occurrence but the graph cannot supply
/// one.
#[derive(Debug, Clone, Copy, PartialEq, Eq, Structural)]
pub enum DebugSourceGraphLookupError {
    /// The requested parent source/debug occurrence is not present.
    MissingSourceNode { source_node: DebugSourceNodeId },
    /// Multiple source/debug roots point at the same executable MAST node.
    AmbiguousRoot { exec_node: MastNodeId },
}

// SOURCE GRAPH
// ================================================================================================

/// A source/debug occurrence for code that produced an executable MAST node.
#[derive(Debug)]
pub struct DebugSourceNode {
    /// The executable MAST node represented by this source occurrence.
    pub exec_node: MastNodeId,
    /// Child source occurrences, in the same order as the executable node's children.
    pub children: Vec<DebugSourceNodeId>,
    /// Inclusive start operation index in the executable node.
    pub op_start: u32,
    /// Exclusive end operation index in the executable node.
    pub op_end: u32,
}

impl DebugSourceNode {
    /// Creates a source/debug occurrence record.
    pub fn new(exec_node: MastNodeId, children: Vec<DebugSourceNodeId>, op_start: u32, op_end: u32) -> (r: Self)
        ensures
            r.exec_node == exec_node,
            r.children == children,
            r.op_start == op_start,
            r.op_end == op_end,
    {
        DebugSourceNode { exec_node, children, op_start, op_end }
    }
}

/// Package-owned source/debug MAST occurrence graph.
#[derive(Debug)]
pub struct DebugSourceGraphSection {
    /// Version of the debug source graph format.
    pub version: u8,
    /// Source/debug occurrence nodes.
    pub nodes: Vec<DebugSourceNode>,
    /// Source/debug occurrence roots.
    pub roots: Vec<DebugSourceNodeId>,
}

/// True when `root` names a node of `nodes` that points at `exec_node`.
pub open spec fn root_points_at(nodes: Seq<DebugSourceNode>, root: DebugSourceNodeId, exec_node: MastNodeId) -> bool {
    (root.0 as int) < nodes.len() && nodes[root.0 as int].exec_node == exec_node
}

/// The outcome of looking up the unique root of `exec_node`: an error when two roots point at it,
/// otherwise the only such root, if any.
pub open spec fn unique_root_spec(
    nodes: Seq<DebugSourceNode>,
    roots: Seq<DebugSourceNodeId>,
    exec_node: MastNodeId,
) -> Result<Option<DebugSourceNodeId>, DebugSourceGraphLookupError> {
    if exists|i: int, j: int|
        0 <= i < j < roots.len() && root_points_at(nodes, roots[i], exec_node) && root_points_at(
            nodes,
            roots[j],
            exec_node,
        ) {
        Err(DebugSourceGraphLookupError::AmbiguousRoot { exec_node })
    } else if exists|i: int| 0 <= i < roots.len() && root_points_at(nodes, roots[i], exec_node) {
        Ok(Some(roots[choose|i: int| 0 <= i < roots.len() && root_points_at(nodes, roots[i], exec_node)]))
    } else {
        Ok(None)
    }
}

/// The outcome of looking up the child of `parent` at `child_index`.
pub open spec fn child_node_spec(
    nodes: Seq<DebugSourceNode>,
    parent: DebugSourceNodeId,
    child_index: usize,
) -> Result<Option<DebugSourceNodeId>, DebugSourceGraphLookupError> {
    if parent.0 as int >= nodes.len() {
        Err(DebugSourceGraphLookupError::MissingSourceNode { source_node: parent })
    } else if child_index as int >= nodes[parent.0 as int].children@.len() {
        Ok(None)
    } else {
        let child = nodes[parent.0 as int].children@[child_index as int];
        if child.0 as int >= nodes.len() {
            Err(DebugSourceGraphLookupError::MissingSourceNode { source_node: child })
        } else {
            Ok(Some(child))
        }
    }
}

impl DebugSourceGraphSection {
    /// Creates an empty source/debug occurrence graph section.
    pub fn new() -> (r: Self)
        ensures
            r.version == crate::debug_info::DEBUG_SOURCE_GRAPH_VERSION,
            r.nodes@.len() == 0,
            r.roots@.len() == 0,
    {
        DebugSourceGraphSection {
            version: crate::debug_info::DEBUG_SOURCE_GRAPH_VERSION,
            nodes: Vec::new(),
            roots: Vec::new(),
        }
    }

    /// Creates a source/debug occurrence graph section from validated parts.
    pub fn from_parts(nodes: Vec<DebugSourceNode>, roots: Vec<DebugSourceNodeId>) -> (r: Self)
        ensures
            r.version == crate::debug_info::DEBUG_SOURCE_GRAPH_VERSION,
            r.nodes == nodes,
            r.roots == roots,
    {
        DebugSourceGraphSection { version: crate::debug_info::DEBUG_SOURCE_GRAPH_VERSION, nodes, roots }
    }

    /// Returns the source graph section format version.
    pub fn version(&self) -> (r: u8)
        ensures
            r == self.version,
    {
        self.version
    }

    /// Returns source/debug occurrence nodes.
    pub fn nodes(&self) -> (r: &[DebugSourceNode])
        ensures
            r@ == self.nodes@,
    {
        self.nodes.as_slice()
    }

    /// Returns source/debug occurrence roots.
    pub fn roots(&self) -> (r: &[DebugSourceNodeId])
        ensures
            r@ == self.roots@,
    {
        self.roots.as_slice()
    }

    /// Returns true if the section contains no source occurrences.
    pub fn is_empty(&self) -> (r: bool)
        ensures
            r == (self.nodes@.len() == 0 && self.roots@.len() == 0),
    {
        self.nodes.len() == 0 && self.roots.len() == 0
    }

    /// Returns a source/debug occurrence by ID.
    pub fn source_node(&self, source_node: DebugSourceNodeId) -> (r: Option<&DebugSourceNode>)
        ensures
            (source_node.0 as int) < self.nodes@.len() ==> r == Some(&self.nodes@[source_node.0 as int]),
            (source_node.0 as int) >= self.nodes@.len() ==> r is None,
    {
        if (source_node.0 as usize) < self.nodes.len() {
            Some(&self.nodes[source_node.0 as usize])
        } else {
            None
        }
    }

    /// Returns the unique source/debug root that points at `exec_node`.
    ///
    /// Roots that name no node are skipped; two roots pointing at `exec_node` are an error.
    pub fn unique_source_root_for_exec_node(&self, exec_node: MastNodeId) -> (r: Result<
        Option<DebugSourceNodeId>,
        DebugSourceGraphLookupError,
    >)
        ensures
            r == unique_root_spec(self.nodes@, self.roots@, exec_node),
    {
        let ghost nodes = self.nodes@;
        let ghost roots = self.roots@;
        let n = self.roots.len();
        let mut first: Option<usize> = None;
        let mut i: usize = 0;
        while i < n
            invariant
                n == roots.len(),
                nodes == self.nodes@,
                roots == self.roots@,
                i <= n,
                match first {
                    None => forall|j: int| 0 <= j < i ==> !root_points_at(nodes, roots[j], exec_node),
                    Some(f) => {
                        &&& f < i
                        &&& root_points_at(nodes, roots[f as int], exec_node)
                        &&& forall|j: int|
                            0 <= j < i && j != f ==> !root_points_at(nodes, roots[j], exec_node)
                    },
                },
            decreases n - i,
        {
            let root = self.roots[i];
            let hit = match self.source_node(root) {
                Some(node) => node.exec_node == exec_node,
                None => false,
            };
            if hit {
                match first {
                    Some(f) => {
                        proof {
                            assert(root_points_at(nodes, roots[i as int], exec_node));
                            assert(exists|a: int, b: int|
                                0 <= a < b < roots.len() && root_points_at(nodes, roots[a], exec_node)
                                    && root_points_at(nodes, roots[b], exec_node)) by {
                                assert(0 <= f < i < roots.len());
                            }
                        }
                        return Err(DebugSourceGraphLookupError::AmbiguousRoot { exec_node });
                    },
                    None => {
                        first = Some(i);
                    },
                }
            }
            i += 1;
        }
        match first {
            None => Ok(None),
            Some(f) => {
                proof {
                    assert(!exists|a: int, b: int|
                        0 <= a < b < roots.len() && root_points_at(nodes, roots[a], exec_node)
                            && root_points_at(nodes, roots[b], exec_node));
                    assert(root_points_at(nodes, roots[f as int], exec_node));
                    let c = choose|c: int| 0 <= c < roots.len() && root_points_at(nodes, roots[c], exec_node);
                    assert(c == f);
                }
                Ok(Some(self.roots[f]))
            },
        }
    }

    /// Returns `parent`'s source/debug child at `child_index`, if present.
    pub fn child_source_node(&self, parent: DebugSourceNodeId, child_index: usize) -> (r: Result<
        Option<(DebugSourceNodeId, &DebugSourceNode)>,
        DebugSourceGraphLookupError,
    >)
        ensures
            match (r, child_node_spec(self.nodes@, parent, child_index)) {
                (Ok(Some((id, node))), Ok(Some(sid))) => id == sid && *node == self.nodes@[sid.0 as int],
                (Ok(None), Ok(None)) => true,
                (Err(e), Err(se)) => e == se,
                _ => false,
            },
    {
        let parent_node = match self.source_node(parent) {
            Some(node) => node,
            None => {
                return Err(DebugSourceGraphLookupError::MissingSourceNode { source_node: parent });
            },
        };
        if child_index >= parent_node.children.len() {
            return Ok(None);
        }
        let child = parent_node.children[child_index];
        match self.source_node(child) {
            Some(child_node) => Ok(Some((child, child_node))),
            None => Err(DebugSourceGraphLookupError::MissingSourceNode { source_node: child }),
        }
    }
}

// SOURCE MAP ROWS
// ================================================================================================

/// Assembly operation metadata keyed by a source/debug MAST occurrence.
#[derive(Debug)]
pub struct DebugSourceAsmOp {
    /// Source/debug occurrence that owns this operation row.
    pub source_node: DebugSourceNodeId,
    /// Operation index local to the reduced execution node.
    pub op_idx: u32,
    /// Optional source location for the assembly operation.
    pub location: Option<Location>,
    /// Assembly context name.
    pub context_name: String,
    /// Assembly operation text.
    pub op: String,
    /// Number of VM cycles taken by the operation.
    pub num_cycles: u8,
}

impl DebugSourceAsmOp {
    /// Creates a source-keyed assembly operation metadata row.
    pub fn new(
        source_node: DebugSourceNodeId,
        op_idx: u32,
        location: Option<Location>,
        context_name: String,
        op: String,
        num_cycles: u8,
    ) -> (r: Self)
        ensures
            r.source_node == source_node,
            r.op_idx == op_idx,
            r.location == location,
            r.context_name == context_name,
            r.op == op,
            r.num_cycles == num_cycles,
    {
        DebugSourceAsmOp { source_node, op_idx, location, context_name, op, num_cycles }
    }

    /// Returns an equal copy of the row with its source occurrence replaced.
    pub fn rekeyed(&self, source_node: DebugSourceNodeId) -> (r: Self)
        ensures
            r == (DebugSourceAsmOp { source_node, ..*self }),
    {
        let location = match &self.location {
            Some(l) => Some(l.duplicate()),
            None => None,
        };
        DebugSourceAsmOp {
            source_node,
            op_idx: self.op_idx,
            location,
            context_name: self.context_name.clone(),
            op: self.op.clone(),
            num_cycles: self.num_cycles,
        }
    }
}

/// Debug variable metadata keyed by a source/debug MAST occurrence.
#[derive(Debug)]
pub struct DebugSourceVar {
    /// Source/debug occurrence that owns this variable row.
    pub source_node: DebugSourceNodeId,
    /// Operation index local to the reduced execution node.
    pub op_idx: u32,
    /// Debug variable metadata.
    pub var: DebugVarInfo,
}

impl DebugSourceVar {
    /// Creates a source-keyed debug variable metadata row.
    pub fn new(source_node: DebugSourceNodeId, op_idx: u32, var: DebugVarInfo) -> (r: Self)
        ensures
            r.source_node == source_node,
            r.op_idx == op_idx,
            r.var == var,
    {
        DebugSourceVar { source_node, op_idx, var }
    }
}

/// Inline-call metadata keyed by a source/debug MAST occurrence.
#[derive(Debug, Clone, Copy, PartialEq, Eq, Structural)]
pub struct DebugSourceInlineCall {
    /// Source/debug occurrence that owns this inline-call row.
    pub source_node: DebugSourceNodeId,
    /// Operation index local to the reduced execution node.
    pub op_idx: u32,
    /// Inlined callee function index in the debug functions table.
    pub callee_idx: u32,
    /// Call-site source file index in the debug sources table.
    pub file_idx: u32,
    /// Call-site line number.
    pub line: LineNumber,
    /// Call-site column number.
    pub column: ColumnNumber,
}

impl DebugSourceInlineCall {
    /// Creates a source-keyed inline-call metadata row.
    pub fn new(
        source_node: DebugSourceNodeId,
        op_idx: u32,
        callee_idx: u32,
        file_idx: u32,
        line: LineNumber,
        column: ColumnNumber,
    ) -> (r: Self)
        ensures
            r == (DebugSourceInlineCall { source_node, op_idx, callee_idx, file_idx, line, column }),
    {
        DebugSourceInlineCall { source_node, op_idx, callee_idx, file_idx, line, column }
    }
}

// SOURCE MAP SECTION
// ================================================================================================

/// The views of the locations referenced by the rows, in row order.
pub open spec fn row_locations(rows: Seq<DebugSourceAsmOp>) -> Seq<(Seq<char>, u32, u32)>
    decreases rows.len(),
{
    if rows.len() == 0 {
        Seq::empty()
    } else {
        let rest = row_locations(rows.drop_last());
        match rows.last().location {
            Some(l) => rest.push((l.uri@, l.start, l.end)),
            None => rest,
        }
    }
}

/// The views of the strings referenced by the rows: each row's context name then its operation.
pub open spec fn row_strings(rows: Seq<DebugSourceAsmOp>) -> Seq<Seq<char>>
    decreases rows.len(),
{
    if rows.len() == 0 {
        Seq::empty()
    } else {
        row_strings(rows.drop_last()).push(rows.last().context_name@).push(rows.last().op@)
    }
}

/// The distinct elements of `s`, each at its first occurrence, in order of first occurrence.
pub open spec fn dedup<T>(s: Seq<T>) -> Seq<T>
    decreases s.len(),
{
    if s.len() == 0 {
        Seq::empty()
    } else {
        let d = dedup(s.drop_last());
        if d.contains(s.last()) {
            d
        } else {
            d.push(s.last())
        }
    }
}

/// The view of a location.
pub open spec fn location_view(l: Location) -> (Seq<char>, u32, u32) {
    (l.uri@, l.start, l.end)
}

/// Package-owned source-keyed debug metadata rows.
#[derive(Debug)]
pub struct DebugSourceMapSection {
    /// Version of the debug source map format.
    version: u8,
    /// Deduplicated source locations referenced by assembly operation rows.
    locations: Vec<Location>,
    /// Deduplicated strings referenced by assembly operation rows.
    strings: Vec<String>,
    /// Source-keyed assembly operation rows.
    asm_ops: Vec<DebugSourceAsmOp>,
    /// Source-keyed debug variable rows.
    debug_vars: Vec<DebugSourceVar>,
    /// Source-keyed inline-call rows.
    inline_calls: Vec<DebugSourceInlineCall>,
}

/// True when row `i` of `rows` is the first among the rows of `id` with the least operation index.
pub open spec fn is_first_min_row(rows: Seq<DebugSourceAsmOp>, id: DebugSourceNodeId, i: int) -> bool {
    &&& 0 <= i < rows.len()
    &&& rows[i].source_node == id
    &&& forall|j: int| 0 <= j < rows.len() && rows[j].source_node == id ==> rows[i].op_idx <= rows[j].op_idx
    &&& forall|j: int| 0 <= j < i && rows[j].source_node == id ==> rows[i].op_idx < rows[j].op_idx
}

/// True when row `i` of `rows` is the last among the rows of `id` at or before `op_idx` with the
/// greatest operation index.
pub open spec fn is_last_max_row_upto(rows: Seq<DebugSourceAsmOp>, id: DebugSourceNodeId, op_idx: u32, i: int) -> bool {
    &&& 0 <= i < rows.len()
    &&& rows[i].source_node == id
    &&& rows[i].op_idx <= op_idx
    &&& forall|j: int|
        0 <= j < rows.len() && rows[j].source_node == id && rows[j].op_idx <= op_idx ==> rows[j].op_idx
            <= rows[i].op_idx
    &&& forall|j: int|
        i < j < rows.len() && rows[j].source_node == id && rows[j].op_idx <= op_idx ==> rows[j].op_idx
            < rows[i].op_idx
}

impl DebugSourceMapSection {
    /// The section format version.
    pub closed spec fn spec_version(&self) -> u8 {
        self.version
    }

    /// The assembly operation rows.
    pub closed spec fn spec_asm_ops(&self) -> Seq<DebugSourceAsmOp> {
        self.asm_ops@
    }

    /// The debug variable rows.
    pub closed spec fn spec_debug_vars(&self) -> Seq<DebugSourceVar> {
        self.debug_vars@
    }

    /// The inline-call rows.
    pub closed spec fn spec_inline_calls(&self) -> Seq<DebugSourceInlineCall> {
        self.inline_calls@
    }

    /// The deduplicated locations, as views.
    pub closed spec fn spec_locations(&self) -> Seq<(Seq<char>, u32, u32)> {
        self.locations@.map_values(|l: Location| location_view(l))
    }

    /// The deduplicated strings, as views.
    pub closed spec fn spec_strings(&self) -> Seq<Seq<char>> {
        self.strings@.map_values(|s: String| s@)
    }

    /// Creates an empty source-keyed debug metadata section.
    pub fn new() -> (r: Self)
        ensures
            r.spec_version() == crate::debug_info::DEBUG_SOURCE_MAP_VERSION,
            r.spec_asm_ops().len() == 0,
            r.spec_debug_vars().len() == 0,
            r.spec_inline_calls().len() == 0,
            r.spec_locations().len() == 0,
            r.spec_strings().len() == 0,
    {
        DebugSourceMapSection {
            version: crate::debug_info::DEBUG_SOURCE_MAP_VERSION,
            locations: Vec::new(),
            strings: Vec::new(),
            asm_ops: Vec::new(),
            debug_vars: Vec::new(),
            inline_calls: Vec::new(),
        }
    }

    /// Creates a source-keyed debug metadata section from rows.
    pub fn from_parts(asm_ops: Vec<DebugSourceAsmOp>, debug_vars: Vec<DebugSourceVar>) -> (r: Self)
        ensures
            r.spec_version() == crate::debug_info::DEBUG_SOURCE_MAP_VERSION,
            r.spec_asm_ops() == asm_ops@,
            r.spec_debug_vars() == debug_vars@,
            r.spec_inline_calls().len() == 0,
            r.spec_locations() == dedup(row_locations(asm_ops@)),
            r.spec_strings() == dedup(row_strings(asm_ops@)),
    {
        Self::from_parts_with_inline_calls(asm_ops, debug_vars, Vec::new())
    }

    /// Creates a source-keyed debug metadata section from rows, including inline calls.
    ///
    /// The locations and strings referenced by the assembly operation rows are interned in order of
    /// first occurrence.
    pub fn from_parts_with_inline_calls(
        asm_ops: Vec<DebugSourceAsmOp>,
        debug_vars: Vec<DebugSourceVar>,
        inline_calls: Vec<DebugSourceInlineCall>,
    ) -> (r: Self)
        ensures
            r.spec_version() == crate::debug_info::DEBUG_SOURCE_MAP_VERSION,
            r.spec_asm_ops() == asm_ops@,
            r.spec_debug_vars() == debug_vars@,
            r.spec_inline_calls() == inline_calls@,
            r.spec_locations() == dedup(row_locations(asm_ops@)),
            r.spec_strings() == dedup(row_strings(asm_ops@)),
    {
        let locations = intern_locations(&asm_ops);
        let strings = intern_source_map_strings(&asm_ops);
        let r = DebugSourceMapSection {
            version: crate::debug_info::DEBUG_SOURCE_MAP_VERSION,
            locations,
            strings,
            asm_ops,
            debug_vars,
            inline_calls,
        };
        r
    }

    /// Returns the source map section format version.
    pub fn version(&self) -> (r: u8)
        ensures
            r == self.spec_version(),
    {
        self.version
    }

    /// Returns source-keyed assembly operation rows.
    pub fn asm_ops(&self) -> (r: &[DebugSourceAsmOp])
        ensures
            r@ == self.spec_asm_ops(),
    {
        self.asm_ops.as_slice()
    }

    /// Returns the deduplicated source locations referenced by assembly operation rows.
    pub fn locations(&self) -> (r: &[Location])
        ensures
            r@.map_values(|l: Location| location_view(l)) == self.spec_locations(),
    {
        self.locations.as_slice()
    }

    /// Returns the deduplicated strings referenced by assembly operation rows.
    pub fn strings(&self) -> (r: &[String])
        ensures
            r@.map_values(|s: String| s@) == self.spec_strings(),
    {
        self.strings.as_slice()
    }

    /// Returns source-keyed debug variable rows.
    pub fn debug_vars(&self) -> (r: &[DebugSourceVar])
        ensures
            r@ == self.spec_debug_vars(),
    {
        self.debug_vars.as_slice()
    }

    /// Returns source-keyed inline-call rows.
    pub fn inline_calls(&self) -> (r: &[DebugSourceInlineCall])
        ensures
            r@ == self.spec_inline_calls(),
    {
        self.inline_calls.as_slice()
    }

    /// Returns true if the section contains no metadata rows.
    pub fn is_empty(&self) -> (r: bool)
        ensures
            r == (self.spec_asm_ops().len() == 0 && self.spec_debug_vars().len() == 0
                && self.spec_inline_calls().len() == 0),
    {
        self.asm_ops.len() == 0 && self.debug_vars.len() == 0 && self.inline_calls.len() == 0
    }

    /// Returns the assembly operation rows of a source/debug occurrence, in row order.
    pub fn asm_ops_for_source_node(&self, source_node: DebugSourceNodeId) -> (r: Vec<&DebugSourceAsmOp>)
        ensures
            r@.map_values(|x: &DebugSourceAsmOp| *x) == self.spec_asm_ops().filter(
                |row: DebugSourceAsmOp| row.source_node == source_node,
            ),
    {
        let ghost pred = |row: DebugSourceAsmOp| row.source_node == source_node;
        let ghost rows = self.asm_ops@;
        let mut out: Vec<&DebugSourceAsmOp> = Vec::new();
        let n = self.asm_ops.len();
        let mut i: usize = 0;
        while i < n
            invariant
                n == rows.len(),
                rows == self.asm_ops@,
                i <= n,
                forall|r: DebugSourceAsmOp| #[trigger] pred(r) == (r.source_node == source_node),
                out@.map_values(|x: &DebugSourceAsmOp| *x) == rows.take(i as int).filter(pred),
            decreases n - i,
        {
            let ghost before = out@.map_values(|x: &DebugSourceAsmOp| *x);
            let row = &self.asm_ops[i];
            if row.source_node == source_node {
                out.push(row);
                proof {
                    assert(out@.map_values(|x: &DebugSourceAsmOp| *x) =~= before.push(*row));
                }
            }
            proof {
                assert(rows.take(i + 1) =~= rows.take(i as int).push(rows[i as int]));
                rows.take(i as int).lemma_filter_push(rows[i as int], pred);
            }
            i += 1;
        }
        proof {
            assert(rows.take(n as int) =~= rows);
        }
        out
    }

    /// Returns the first assembly operation row for `source_node` with the least operation index.
    pub fn first_asm_op_for_source_node(&self, source_node: DebugSourceNodeId) -> (r: Option<&DebugSourceAsmOp>)
        ensures
            r is None <==> forall|j: int|
                0 <= j < self.spec_asm_ops().len() ==> self.spec_asm_ops()[j].source_node != source_node,
            r matches Some(row) ==> exists|i: int|
                is_first_min_row(self.spec_asm_ops(), source_node, i) && *row == self.spec_asm_ops()[i],
    {
        let ghost rows = self.asm_ops@;
        let n = self.asm_ops.len();
        let mut best: Option<usize> = None;
        let mut i: usize = 0;
        while i < n
            invariant
                n == rows.len(),
                rows == self.asm_ops@,
                i <= n,
                match best {
                    None => forall|j: int| 0 <= j < i ==> rows[j].source_node != source_node,
                    Some(b) => {
                        &&& b < i
                        &&& is_first_min_row(rows.take(i as int), source_node, b as int)
                    },
                },
            decreases n - i,
        {
            if self.asm_ops[i].source_node == source_node {
                match best {
                    None => {
                        best = Some(i);
                    },
                    Some(b) => {
                        if self.asm_ops[i].op_idx < self.asm_ops[b].op_idx {
                            best = Some(i);
                        }
                    },
                }
            }
            proof {
                let t = rows.take(i + 1);
                match best {
                    None => {},
                    Some(b) => {
                        assert forall|j: int| 0 <= j < t.len() && t[j].source_node == source_node implies t[b as int].op_idx <= t[j].op_idx by {
                            if j < i {
                                assert(rows.take(i as int)[j] == t[j]);
                            }
                        }
                        assert forall|j: int| 0 <= j < b && t[j].source_node == source_node implies t[b as int].op_idx < t[j].op_idx by {
                            assert(rows.take(i as int)[j] == t[j]);
                        }
                    },
                }
            }
            i += 1;
        }
        proof {
            assert(rows.take(n as int) =~= rows);
        }
        match best {
            None => None,
            Some(b) => Some(&self.asm_ops[b]),
        }
    }

    /// Returns the assembly operation row for `source_node` at or before `op_idx`: among those
    /// rows, the last one with the greatest operation index.
    pub fn asm_op_for_operation(&self, source_node: DebugSourceNodeId, op_idx: u32) -> (r: Option<&DebugSourceAsmOp>)
        ensures
            r is None <==> forall|j: int|
                0 <= j < self.spec_asm_ops().len() ==> !(self.spec_asm_ops()[j].source_node
                    == source_node && self.spec_asm_ops()[j].op_idx <= op_idx),
            r matches Some(row) ==> exists|i: int|
                is_last_max_row_upto(self.spec_asm_ops(), source_node, op_idx, i) && *row
                    == self.spec_asm_ops()[i],
    {
        let ghost rows = self.asm_ops@;
        let n = self.asm_ops.len();
        let mut best: Option<usize> = None;
        let mut i: usize = 0;
        while i < n
            invariant
                n == rows.len(),
                rows == self.asm_ops@,
                i <= n,
                match best {
                    None => forall|j: int|
                        0 <= j < i ==> !(rows[j].source_node == source_node && rows[j].op_idx <= op_idx),
                    Some(b) => {
                        &&& b < i
                        &&& is_last_max_row_upto(rows.take(i as int), source_node, op_idx, b as int)
                    },
                },
            decreases n - i,
        {
            let row = &self.asm_ops[i];
            if row.source_node == source_node && row.op_idx <= op_idx {
                match best {
                    None => {
                        best = Some(i);
                    },
                    Some(b) => {
                        if row.op_idx >= self.asm_ops[b].op_idx {
                            best = Some(i);
                        }
                    },
                }
            }
            proof {
                let t = rows.take(i + 1);
                match best {
                    None => {},
                    Some(b) => {
                        assert forall|j: int|
                            0 <= j < t.len() && t[j].source_node == source_node && t[j].op_idx <= op_idx implies t[j].op_idx
                            <= t[b as int].op_idx by {
                            if j < i {
                                assert(rows.take(i as int)[j] == t[j]);
                            }
                        }
                        assert forall|j: int|
                            b < j < t.len() && t[j].source_node == source_node && t[j].op_idx <= op_idx implies t[j].op_idx
                            < t[b as int].op_idx by {
                            if j < i {
                                assert(rows.take(i as int)[j] == t[j]);
                            }
                        }
                    },
                }
            }
            i += 1;
        }
        proof {
            assert(rows.take(n as int) =~= rows);
        }
        match best {
            None => None,
            Some(b) => Some(&self.asm_ops[b]),
        }
    }

    /// Returns the debug variable rows of `source_node`, in row order.
    pub fn debug_vars_for_source_node(&self, source_node: DebugSourceNodeId) -> (r: Vec<&DebugSourceVar>)
        ensures
            r@.map_values(|x: &DebugSourceVar| *x) == self.spec_debug_vars().filter(
                |row: DebugSourceVar| row.source_node == source_node,
            ),
    {
        let ghost pred = |row: DebugSourceVar| row.source_node == source_node;
        let ghost rows = self.debug_vars@;
        let mut out: Vec<&DebugSourceVar> = Vec::new();
        let n = self.debug_vars.len();
        let mut i: usize = 0;
        while i < n
            invariant
                n == rows.len(),
                rows == self.debug_vars@,
                i <= n,
                forall|r: DebugSourceVar| #[trigger] pred(r) == (r.source_node == source_node),
                out@.map_values(|x: &DebugSourceVar| *x) == rows.take(i as int).filter(pred),
            decreases n - i,
        {
            let ghost before = out@.map_values(|x: &DebugSourceVar| *x);
            let row = &self.debug_vars[i];
            if row.source_node == source_node {
                out.push(row);
                proof {
                    assert(out@.map_values(|x: &DebugSourceVar| *x) =~= before.push(*row));
                }
            }
            proof {
                assert(rows.take(i + 1) =~= rows.take(i as int).push(rows[i as int]));
                rows.take(i as int).lemma_filter_push(rows[i as int], pred);
            }
            i += 1;
        }
        proof {
            assert(rows.take(n as int) =~= rows);
        }
        out
    }

    /// Returns the inline-call rows of `source_node`, in row order.
    pub fn inline_calls_for_source_node(&self, source_node: DebugSourceNodeId) -> (r: Vec<DebugSourceInlineCall>)
        ensures
            r@ == self.spec_inline_calls().filter(|row: DebugSourceInlineCall| row.source_node == source_node),
    {
        let ghost pred = |row: DebugSourceInlineCall| row.source_node == source_node;
        let ghost rows = self.inline_calls@;
        let mut out: Vec<DebugSourceInlineCall> = Vec::new();
        let n = self.inline_calls.len();
        let mut i: usize = 0;
        while i < n
            invariant
                n == rows.len(),
                rows == self.inline_calls@,
                i <= n,
                forall|r: DebugSourceInlineCall| #[trigger] pred(r) == (r.source_node == source_node),
                out@ == rows.take(i as int).filter(pred),
            decreases n - i,
        {
            let row = self.inline_calls[i];
            if row.source_node == source_node {
                out.push(row);
            }
            proof {
                assert(rows.take(i + 1) =~= rows.take(i as int).push(rows[i as int]));
                rows.take(i as int).lemma_filter_push(rows[i as int], pred);
            }
            i += 1;
        }
        proof {
            assert(rows.take(n as int) =~= rows);
        }
        out
    }

    /// Returns the debug variable rows of `source_node` at `op_idx`, in row order.
    pub fn debug_vars_for_operation(&self, source_node: DebugSourceNodeId, op_idx: u32) -> (r: Vec<&DebugSourceVar>)
        ensures
            r@.map_values(|x: &DebugSourceVar| *x) == self.spec_debug_vars().filter(
                |row: DebugSourceVar| row.source_node == source_node && row.op_idx == op_idx,
            ),
    {
        let ghost pred = |row: DebugSourceVar| row.source_node == source_node && row.op_idx == op_idx;
        let ghost rows = self.debug_vars@;
        let mut out: Vec<&DebugSourceVar> = Vec::new();
        let n = self.debug_vars.len();
        let mut i: usize = 0;
        while i < n
            invariant
                n == rows.len(),
                rows == self.debug_vars@,
                i <= n,
                forall|r: DebugSourceVar| #[trigger] pred(r) == (r.source_node == source_node && r.op_idx == op_idx),
                out@.map_values(|x: &DebugSourceVar| *x) == rows.take(i as int).filter(pred),
            decreases n - i,
        {
            let ghost before = out@.map_values(|x: &DebugSourceVar| *x);
            let row = &self.debug_vars[i];
            if row.source_node == source_node && row.op_idx == op_idx {
                out.push(row);
                proof {
                    assert(out@.map_values(|x: &DebugSourceVar| *x) =~= before.push(*row));
                }
            }
            proof {
                assert(rows.take(i + 1) =~= rows.take(i as int).push(rows[i as int]));
                rows.take(i as int).lemma_filter_push(rows[i as int], pred);
            }
            i += 1;
        }
        proof {
            assert(rows.take(n as int) =~= rows);
        }
        out
    }

    /// Returns the inline-call rows of `source_node` at `op_idx`, in row order.
    pub fn inline_calls_for_operation(&self, source_node: DebugSourceNodeId, op_idx: u32) -> (r: Vec<DebugSourceInlineCall>)
        ensures
            r@ == self.spec_inline_calls().filter(
                |row: DebugSourceInlineCall| row.source_node == source_node && row.op_idx == op_idx,
            ),
    {
        let ghost pred = |row: DebugSourceInlineCall| row.source_node == source_node && row.op_idx == op_idx;
        let ghost rows = self.inline_calls@;
        let mut out: Vec<DebugSourceInlineCall> = Vec::new();
        let n = self.inline_calls.len();
        let mut i: usize = 0;
        while i < n
            invariant
                n == rows.len(),
                rows == self.inline_calls@,
                i <= n,
                forall|r: DebugSourceInlineCall| #[trigger] pred(r) == (r.source_node == source_node && r.op_idx == op_idx),
                out@ == rows.take(i as int).filter(pred),
            decreases n - i,
        {
            let row = self.inline_calls[i];
            if row.source_node == source_node && row.op_idx == op_idx {
                out.push(row);
            }
            proof {
                assert(rows.take(i + 1) =~= rows.take(i as int).push(rows[i as int]));
                rows.take(i as int).lemma_filter_push(rows[i as int], pred);
            }
            i += 1;
        }
        proof {
            assert(rows.take(n as int) =~= rows);
        }
        out
    }
}

/// Interns the locations referenced by the rows, in order of first occurrence.
fn intern_locations(asm_ops: &Vec<DebugSourceAsmOp>) -> (r: Vec<Location>)
    ensures
        r@.map_values(|l: Location| location_view(l)) == dedup(row_locations(asm_ops@)),
{
    let ghost rows = asm_ops@;
    let mut locations: Vec<Location> = Vec::new();
    let n = asm_ops.len();
    let mut i: usize = 0;
    while i < n
        invariant
            n == rows.len(),
            rows == asm_ops@,
            i <= n,
            locations@.map_values(|l: Location| location_view(l)) == dedup(row_locations(rows.take(i as int))),
        decreases n - i,
    {
        proof {
            assert(rows.take(i + 1).drop_last() =~= rows.take(i as int));
        }
        let ghost prev = row_locations(rows.take(i as int));
        match &asm_ops[i].location {
            Some(loc) => {
                let ghost before = locations@.map_values(|l: Location| location_view(l));
                proof {
                    assert(row_locations(rows.take(i + 1)) == prev.push(location_view(*loc)));
                    assert(prev.push(location_view(*loc)).drop_last() =~= prev);
                }
                let mut found = false;
                let mut k: usize = 0;
                while k < locations.len()
                    invariant
                        k <= locations@.len(),
                        before == locations@.map_values(|l: Location| location_view(l)),
                        !found ==> forall|j: int| 0 <= j < k ==> before[j] != location_view(*loc),
                        found ==> before.contains(location_view(*loc)),
                    decreases locations@.len() - k,
                {
                    if locations[k].same_as(loc) {
                        proof {
                            assert(before[k as int] == location_view(*loc));
                        }
                        found = true;
                    }
                    k += 1;
                }
                if !found {
                    proof {
                        assert(!before.contains(location_view(*loc)));
                    }
                    locations.push(loc.duplicate());
                    proof {
                        assert(locations@.map_values(|l: Location| location_view(l)) =~= before.push(location_view(*loc)));
                    }
                }
            },
            None => {
                proof {
                    assert(row_locations(rows.take(i + 1)) == prev);
                }
            },
        }
        i += 1;
    }
    proof {
        assert(rows.take(n as int) =~= rows);
    }
    locations
}

/// Adds `value` to `strings` unless an equal string is already there.
fn intern_into(strings: &mut Vec<String>, value: &String)
    ensures
        final(strings)@.map_values(|s: String| s@) == if old(strings)@.map_values(|s: String| s@).contains(value@) {
            old(strings)@.map_values(|s: String| s@)
        } else {
            old(strings)@.map_values(|s: String| s@).push(value@)
        },
{
    let ghost before = strings@.map_values(|s: String| s@);
    let mut k: usize = 0;
    while k < strings.len()
        invariant
            k <= strings@.len(),
            before == strings@.map_values(|s: String| s@),
            forall|j: int| 0 <= j < k ==> before[j] != value@,
        decreases strings@.len() - k,
    {
        if strings[k] == *value {
            proof {
                assert(before[k as int] == value@);
            }
            return;
        }
        k += 1;
    }
    strings.push(value.clone());
    proof {
        assert(strings@.map_values(|s: String| s@) =~= before.push(value@));
    }
}

/// Interns the strings referenced by the rows (each row's context name, then its operation text),
/// in order of first occurrence.
fn intern_source_map_strings(asm_ops: &Vec<DebugSourceAsmOp>) -> (r: Vec<String>)
    ensures
        r@.map_values(|s: String| s@) == dedup(row_strings(asm_ops@)),
{
    let ghost rows = asm_ops@;
    let mut strings: Vec<String> = Vec::new();
    let n = asm_ops.len();
    let mut i: usize = 0;
    while i < n
        invariant
            n == rows.len(),
            rows == asm_ops@,
            i <= n,
            strings@.map_values(|s: String| s@) == dedup(row_strings(rows.take(i as int))),
        decreases n - i,
    {
        let ghost x = row_strings(rows.take(i as int));
        let ghost a = rows[i as int].context_name@;
        let ghost b = rows[i as int].op@;
        proof {
            assert(rows.take(i + 1).drop_last() =~= rows.take(i as int));
            assert(row_strings(rows.take(i + 1)) == x.push(a).push(b));
            assert(x.push(a).drop_last() =~= x);
            assert(x.push(a).push(b).drop_last() =~= x.push(a));
        }
        intern_into(&mut strings, &asm_ops[i].context_name);
        assert(strings@.map_values(|s: String| s@) == dedup(x.push(a)));
        intern_into(&mut strings, &asm_ops[i].op);
        assert(strings@.map_values(|s: String| s@) == dedup(x.push(a).push(b)));
        i += 1;
    }
    proof {
        assert(rows.take(n as int) =~= rows);
    }
    strings
}

} // verus!
