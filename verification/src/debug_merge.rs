//! Function metadata, and the remapping of debug rows when the debug information of several
//! packages is merged into one.
//!
//! Each debug section has its own string table, and rows refer to strings, types, files and
//! functions by index. Merging appends the tables of each input to the tables built so far, so
//! every index in a row of the input is rewritten through a map from the input's indices to the
//! merged ones. An index with no entry in its map is an error naming the input and the index.
use std::collections::BTreeMap;
use vstd::prelude::*;
use crate::debug_info::{
    DEBUG_FUNCTIONS_VERSION, DebugFieldInfo, DebugFileInfo, DebugSourcesSection, DebugTypeIdx,
    DebugTypeInfo, DebugTypesSection, DebugVariantInfo, TypeInfoView, intern_index, intern_string,
    intern_table, law_interned_string_read_back, same_checksum, string_at, string_views,
};
use crate::source_debug::{ColumnNumber, DebugSourceNodeId, LineNumber, MastNodeId};
use crate::word::Word;

verus! {

// MERGE ERRORS
// ================================================================================================

/// Error returned when package-owned source/debug metadata cannot be remapped after a forest
/// merge.
#[derive(Debug, Clone, Copy, PartialEq, Eq, Structural)]
pub enum PackageDebugInfoMergeError {
    /// The package has source-keyed metadata rows without a source graph to define source IDs.
    SourceMapWithoutGraph { forest_index: usize },
    /// A source/debug occurrence points at an execution node that was not present in the merge
    /// map.
    MissingExecNodeMapping { forest_index: usize, exec_node: MastNodeId },
    /// A source-keyed metadata row refers to a source/debug occurrence that was not present in the
    /// corresponding source graph.
    MissingSourceNodeMapping { forest_index: usize, source_node: DebugSourceNodeId },
    /// A debug type row refers to a string index that is not present in its type string table.
    MissingTypeStringMapping { forest_index: usize, string_idx: u32 },
    /// A debug type or function row refers to a type index that is not present in its type table.
    MissingTypeMapping { forest_index: usize, type_idx: DebugTypeIdx },
    /// A debug source-file row refers to a string index that is not present in its source string
    /// table.
    MissingSourceStringMapping { forest_index: usize, string_idx: u32 },
    /// A debug function or inline-call row refers to a source-file index that is not present in
    /// its source-file table.
    MissingSourceFileMapping { forest_index: usize, file_idx: u32 },
    /// A debug function row refers to a string index that is not present in its function string
    /// table.
    MissingFunctionStringMapping { forest_index: usize, string_idx: u32 },
    /// A debug inline-call row refers to a function index that is not present in its function
    /// table.
    MissingFunctionMapping { forest_index: usize, function_idx: u32 },
}

/// The string table an index refers to, which decides the error reported for a missing index.
#[derive(Debug, Clone, Copy, PartialEq, Eq, Structural)]
pub enum StringTable {
    /// The string table of a debug types section.
    Types,
    /// The string table of a debug sources section.
    Sources,
    /// The string table of a debug functions section.
    Functions,
}

/// The error for a string index of `table` that has no entry in its map.
pub open spec fn missing_string_error(table: StringTable, forest_index: usize, string_idx: u32) -> PackageDebugInfoMergeError {
    match table {
        StringTable::Types => PackageDebugInfoMergeError::MissingTypeStringMapping { forest_index, string_idx },
        StringTable::Sources => PackageDebugInfoMergeError::MissingSourceStringMapping { forest_index, string_idx },
        StringTable::Functions => PackageDebugInfoMergeError::MissingFunctionStringMapping { forest_index, string_idx },
    }
}

// INDEX MAPS
// ================================================================================================

/// An index map sends an index of an input table to its index in the merged table; an index
/// without an entry has no image.
pub open spec fn map_index(map: Map<u32, u32>, idx: u32) -> Option<u32> {
    if map.dom().contains(idx) {
        Some(map[idx])
    } else {
        None
    }
}

/// Rewrites a string index of `table`.
pub open spec fn remap_string_spec(table: StringTable, forest_index: usize, idx: u32, map: Map<u32, u32>) -> Result<u32, PackageDebugInfoMergeError> {
    match map_index(map, idx) {
        Some(v) => Ok(v),
        None => Err(missing_string_error(table, forest_index, idx)),
    }
}

/// Rewrites a type index.
pub open spec fn remap_type_spec(forest_index: usize, idx: DebugTypeIdx, map: Map<u32, DebugTypeIdx>) -> Result<DebugTypeIdx, PackageDebugInfoMergeError> {
    if map.dom().contains(idx.0) {
        Ok(map[idx.0])
    } else {
        Err(PackageDebugInfoMergeError::MissingTypeMapping { forest_index, type_idx: idx })
    }
}

/// Rewrites an optional type index.
pub open spec fn remap_opt_type_spec(forest_index: usize, idx: Option<DebugTypeIdx>, map: Map<u32, DebugTypeIdx>) -> Result<Option<DebugTypeIdx>, PackageDebugInfoMergeError> {
    match idx {
        None => Ok(None),
        Some(i) => match remap_type_spec(forest_index, i, map) {
            Ok(v) => Ok(Some(v)),
            Err(e) => Err(e),
        },
    }
}

/// Applies `f` to each element in order; the first element on which `f` fails gives the error.
pub open spec fn try_map<A, B>(s: Seq<A>, f: spec_fn(A) -> Result<B, PackageDebugInfoMergeError>) -> Result<Seq<B>, PackageDebugInfoMergeError>
    decreases s.len(),
{
    if s.len() == 0 {
        Ok(Seq::empty())
    } else {
        match try_map(s.drop_last(), f) {
            Err(e) => Err(e),
            Ok(prefix) => match f(s.last()) {
                Err(e) => Err(e),
                Ok(b) => Ok(prefix.push(b)),
            },
        }
    }
}

/// One step of [`try_map`]: the result on `s.take(i + 1)` from the result on `s.take(i)`.
pub proof fn lemma_try_map_step<A, B>(s: Seq<A>, f: spec_fn(A) -> Result<B, PackageDebugInfoMergeError>, i: int)
    requires
        0 <= i < s.len(),
    ensures
        try_map(s.take(i + 1), f) == match try_map(s.take(i), f) {
            Err(e) => Err(e),
            Ok(prefix) => match f(s[i]) {
                Err(e) => Err(e),
                Ok(b) => Ok(prefix.push(b)),
            },
        },
{
    assert(s.take(i + 1).drop_last() =~= s.take(i));
}

/// Once [`try_map`] has failed on a prefix it fails with the same error on every longer prefix.
pub proof fn lemma_try_map_err_persists<A, B>(s: Seq<A>, f: spec_fn(A) -> Result<B, PackageDebugInfoMergeError>, i: int, j: int)
    requires
        0 <= i <= j <= s.len(),
        try_map(s.take(i), f) is Err,
    ensures
        try_map(s.take(j), f) == try_map(s.take(i), f),
    decreases j - i,
{
    if i < j {
        lemma_try_map_err_persists(s, f, i, j - 1);
        lemma_try_map_step(s, f, j - 1);
    }
}

/// A successful [`try_map`] keeps the length.
pub proof fn lemma_try_map_len<A, B>(s: Seq<A>, f: spec_fn(A) -> Result<B, PackageDebugInfoMergeError>)
    ensures
        try_map(s, f) matches Ok(t) ==> t.len() == s.len(),
    decreases s.len(),
{
    if s.len() > 0 {
        lemma_try_map_len(s.drop_last(), f);
    }
}

/// Rewrites a struct field.
pub open spec fn remap_field_spec(forest_index: usize, field: DebugFieldInfo, strings: Map<u32, u32>, types: Map<u32, DebugTypeIdx>) -> Result<DebugFieldInfo, PackageDebugInfoMergeError> {
    match remap_string_spec(StringTable::Types, forest_index, field.name_idx, strings) {
        Err(e) => Err(e),
        Ok(name_idx) => match remap_type_spec(forest_index, field.type_idx, types) {
            Err(e) => Err(e),
            Ok(type_idx) => Ok(DebugFieldInfo { name_idx, type_idx, offset: field.offset }),
        },
    }
}

/// Rewrites an enum variant.
pub open spec fn remap_variant_spec(forest_index: usize, variant: DebugVariantInfo, strings: Map<u32, u32>, types: Map<u32, DebugTypeIdx>) -> Result<DebugVariantInfo, PackageDebugInfoMergeError> {
    match remap_string_spec(StringTable::Types, forest_index, variant.name_idx, strings) {
        Err(e) => Err(e),
        Ok(name_idx) => match remap_opt_type_spec(forest_index, variant.type_idx, types) {
            Err(e) => Err(e),
            Ok(type_idx) => Ok(
                DebugVariantInfo {
                    name_idx,
                    type_idx,
                    payload_offset: variant.payload_offset,
                    discriminant: variant.discriminant,
                },
            ),
        },
    }
}

/// [`remap_field_spec`] as a function of the field.
pub open spec fn field_remapper(forest_index: usize, strings: Map<u32, u32>, types: Map<u32, DebugTypeIdx>) -> spec_fn(DebugFieldInfo) -> Result<DebugFieldInfo, PackageDebugInfoMergeError> {
    |f: DebugFieldInfo| remap_field_spec(forest_index, f, strings, types)
}

/// [`remap_variant_spec`] as a function of the variant.
pub open spec fn variant_remapper(forest_index: usize, strings: Map<u32, u32>, types: Map<u32, DebugTypeIdx>) -> spec_fn(DebugVariantInfo) -> Result<DebugVariantInfo, PackageDebugInfoMergeError> {
    |v: DebugVariantInfo| remap_variant_spec(forest_index, v, strings, types)
}

/// [`remap_type_spec`] as a function of the index.
pub open spec fn type_remapper(forest_index: usize, types: Map<u32, DebugTypeIdx>) -> spec_fn(DebugTypeIdx) -> Result<DebugTypeIdx, PackageDebugInfoMergeError> {
    |t: DebugTypeIdx| remap_type_spec(forest_index, t, types)
}

/// Rewrites every string and type index of a type definition. The indices are visited in the
/// order in which they are written in the definition.
pub open spec fn remap_type_info_spec(forest_index: usize, ty: TypeInfoView, strings: Map<u32, u32>, types: Map<u32, DebugTypeIdx>) -> Result<TypeInfoView, PackageDebugInfoMergeError> {
    match ty {
        TypeInfoView::Primitive(p) => Ok(TypeInfoView::Primitive(p)),
        TypeInfoView::Pointer { pointee_type_idx } => match remap_type_spec(forest_index, pointee_type_idx, types) {
            Err(e) => Err(e),
            Ok(t) => Ok(TypeInfoView::Pointer { pointee_type_idx: t }),
        },
        TypeInfoView::Array { element_type_idx, count } => match remap_type_spec(forest_index, element_type_idx, types) {
            Err(e) => Err(e),
            Ok(t) => Ok(TypeInfoView::Array { element_type_idx: t, count }),
        },
        TypeInfoView::Struct { name_idx, size, fields } => match remap_string_spec(StringTable::Types, forest_index, name_idx, strings) {
            Err(e) => Err(e),
            Ok(n) => match try_map(fields, field_remapper(forest_index, strings, types)) {
                Err(e) => Err(e),
                Ok(fs) => Ok(TypeInfoView::Struct { name_idx: n, size, fields: fs }),
            },
        },
        TypeInfoView::Function { return_type_idx, param_type_indices } => match remap_opt_type_spec(forest_index, return_type_idx, types) {
            Err(e) => Err(e),
            Ok(rt) => match try_map(param_type_indices, type_remapper(forest_index, types)) {
                Err(e) => Err(e),
                Ok(ps) => Ok(TypeInfoView::Function { return_type_idx: rt, param_type_indices: ps }),
            },
        },
        TypeInfoView::Enum { name_idx, size, discriminant_type_idx, variants } => match remap_string_spec(StringTable::Types, forest_index, name_idx, strings) {
            Err(e) => Err(e),
            Ok(n) => match remap_type_spec(forest_index, discriminant_type_idx, types) {
                Err(e) => Err(e),
                Ok(d) => match try_map(variants, variant_remapper(forest_index, strings, types)) {
                    Err(e) => Err(e),
                    Ok(vs) => Ok(TypeInfoView::Enum { name_idx: n, size, discriminant_type_idx: d, variants: vs }),
                },
            },
        },
        TypeInfoView::Unknown => Ok(TypeInfoView::Unknown),
    }
}

/// Rewrites a string index through `string_map`.
pub fn remap_string_index(table: StringTable, forest_index: usize, string_idx: u32, string_map: &BTreeMap<u32, u32>) -> (r: Result<u32, PackageDebugInfoMergeError>)
    ensures
        r == remap_string_spec(table, forest_index, string_idx, string_map@),
{
    if let Some(v) = string_map.get(&string_idx) {
        Ok(*v)
    } else {
        Err(
            match table {
                StringTable::Types => PackageDebugInfoMergeError::MissingTypeStringMapping { forest_index, string_idx },
                StringTable::Sources => PackageDebugInfoMergeError::MissingSourceStringMapping { forest_index, string_idx },
                StringTable::Functions => PackageDebugInfoMergeError::MissingFunctionStringMapping { forest_index, string_idx },
            },
        )
    }
}

/// Rewrites a type index through `type_map`.
pub fn remap_type_idx(forest_index: usize, type_idx: DebugTypeIdx, type_map: &BTreeMap<u32, DebugTypeIdx>) -> (r: Result<DebugTypeIdx, PackageDebugInfoMergeError>)
    ensures
        r == remap_type_spec(forest_index, type_idx, type_map@),
{
    if let Some(v) = type_map.get(&type_idx.0) {
        Ok(*v)
    } else {
        Err(PackageDebugInfoMergeError::MissingTypeMapping { forest_index, type_idx })
    }
}

fn remap_opt_type_idx(forest_index: usize, type_idx: Option<DebugTypeIdx>, type_map: &BTreeMap<u32, DebugTypeIdx>) -> (r: Result<Option<DebugTypeIdx>, PackageDebugInfoMergeError>)
    ensures
        r == remap_opt_type_spec(forest_index, type_idx, type_map@),
{
    match type_idx {
        None => Ok(None),
        Some(idx) => match remap_type_idx(forest_index, idx, type_map) {
            Ok(v) => Ok(Some(v)),
            Err(e) => Err(e),
        },
    }
}

fn remap_fields(forest_index: usize, fields: &Vec<DebugFieldInfo>, string_map: &BTreeMap<u32, u32>, type_map: &BTreeMap<u32, DebugTypeIdx>) -> (r: Result<Vec<DebugFieldInfo>, PackageDebugInfoMergeError>)
    ensures
        match (r, try_map(fields@, field_remapper(forest_index, string_map@, type_map@))) {
            (Ok(v), Ok(s)) => v@ == s,
            (Err(e), Err(se)) => e == se,
            _ => false,
        },
{
    let ghost f = field_remapper(forest_index, string_map@, type_map@);
    let mut out: Vec<DebugFieldInfo> = Vec::new();
    let n = fields.len();
    let mut i: usize = 0;
    while i < n
        invariant
            n == fields@.len(),
            i <= n,
            f == field_remapper(forest_index, string_map@, type_map@),
            try_map(fields@.take(i as int), f) == Ok::<Seq<DebugFieldInfo>, PackageDebugInfoMergeError>(out@),
        decreases n - i,
    {
        proof {
            lemma_try_map_step(fields@, f, i as int);
        }
        let field = fields[i];
        let name_idx = match remap_string_index(StringTable::Types, forest_index, field.name_idx, string_map) {
            Ok(v) => v,
            Err(e) => {
                proof {
                    lemma_try_map_err_persists(fields@, f, i + 1, n as int);
                    assert(fields@.take(n as int) =~= fields@);
                }
                return Err(e);
            },
        };
        let type_idx = match remap_type_idx(forest_index, field.type_idx, type_map) {
            Ok(v) => v,
            Err(e) => {
                proof {
                    lemma_try_map_err_persists(fields@, f, i + 1, n as int);
                    assert(fields@.take(n as int) =~= fields@);
                }
                return Err(e);
            },
        };
        out.push(DebugFieldInfo { name_idx, type_idx, offset: field.offset });
        i += 1;
    }
    proof {
        assert(fields@.take(n as int) =~= fields@);
    }
    Ok(out)
}

fn remap_variants(forest_index: usize, variants: &Vec<DebugVariantInfo>, string_map: &BTreeMap<u32, u32>, type_map: &BTreeMap<u32, DebugTypeIdx>) -> (r: Result<Vec<DebugVariantInfo>, PackageDebugInfoMergeError>)
    ensures
        match (r, try_map(variants@, variant_remapper(forest_index, string_map@, type_map@))) {
            (Ok(v), Ok(s)) => v@ == s,
            (Err(e), Err(se)) => e == se,
            _ => false,
        },
{
    let ghost f = variant_remapper(forest_index, string_map@, type_map@);
    let mut out: Vec<DebugVariantInfo> = Vec::new();
    let n = variants.len();
    let mut i: usize = 0;
    while i < n
        invariant
            n == variants@.len(),
            i <= n,
            f == variant_remapper(forest_index, string_map@, type_map@),
            try_map(variants@.take(i as int), f) == Ok::<Seq<DebugVariantInfo>, PackageDebugInfoMergeError>(out@),
        decreases n - i,
    {
        proof {
            lemma_try_map_step(variants@, f, i as int);
        }
        let variant = variants[i];
        let name_idx = match remap_string_index(StringTable::Types, forest_index, variant.name_idx, string_map) {
            Ok(v) => v,
            Err(e) => {
                proof {
                    lemma_try_map_err_persists(variants@, f, i + 1, n as int);
                    assert(variants@.take(n as int) =~= variants@);
                }
                return Err(e);
            },
        };
        let type_idx = match remap_opt_type_idx(forest_index, variant.type_idx, type_map) {
            Ok(v) => v,
            Err(e) => {
                proof {
                    lemma_try_map_err_persists(variants@, f, i + 1, n as int);
                    assert(variants@.take(n as int) =~= variants@);
                }
                return Err(e);
            },
        };
        out.push(
            DebugVariantInfo {
                name_idx,
                type_idx,
                payload_offset: variant.payload_offset,
                discriminant: variant.discriminant,
            },
        );
        i += 1;
    }
    proof {
        assert(variants@.take(n as int) =~= variants@);
    }
    Ok(out)
}

fn remap_type_list(forest_index: usize, indices: &Vec<DebugTypeIdx>, type_map: &BTreeMap<u32, DebugTypeIdx>) -> (r: Result<Vec<DebugTypeIdx>, PackageDebugInfoMergeError>)
    ensures
        match (r, try_map(indices@, type_remapper(forest_index, type_map@))) {
            (Ok(v), Ok(s)) => v@ == s,
            (Err(e), Err(se)) => e == se,
            _ => false,
        },
{
    let ghost f = type_remapper(forest_index, type_map@);
    let mut out: Vec<DebugTypeIdx> = Vec::new();
    let n = indices.len();
    let mut i: usize = 0;
    while i < n
        invariant
            n == indices@.len(),
            i <= n,
            f == type_remapper(forest_index, type_map@),
            try_map(indices@.take(i as int), f) == Ok::<Seq<DebugTypeIdx>, PackageDebugInfoMergeError>(out@),
        decreases n - i,
    {
        proof {
            lemma_try_map_step(indices@, f, i as int);
        }
        match remap_type_idx(forest_index, indices[i], type_map) {
            Ok(v) => {
                out.push(v);
            },
            Err(e) => {
                proof {
                    lemma_try_map_err_persists(indices@, f, i + 1, n as int);
                    assert(indices@.take(n as int) =~= indices@);
                }
                return Err(e);
            },
        }
        i += 1;
    }
    proof {
        assert(indices@.take(n as int) =~= indices@);
    }
    Ok(out)
}

/// Rewrites every string and type index of a type definition through the given maps.
pub fn remap_debug_type_info(forest_index: usize, ty: &DebugTypeInfo, string_map: &BTreeMap<u32, u32>, type_map: &BTreeMap<u32, DebugTypeIdx>) -> (r: Result<DebugTypeInfo, PackageDebugInfoMergeError>)
    ensures
        match (r, remap_type_info_spec(forest_index, ty@, string_map@, type_map@)) {
            (Ok(t), Ok(s)) => t@ == s,
            (Err(e), Err(se)) => e == se,
            _ => false,
        },
{
    match ty {
        DebugTypeInfo::Primitive(p) => Ok(DebugTypeInfo::Primitive(*p)),
        DebugTypeInfo::Pointer { pointee_type_idx } => match remap_type_idx(forest_index, *pointee_type_idx, type_map) {
            Ok(t) => Ok(DebugTypeInfo::Pointer { pointee_type_idx: t }),
            Err(e) => Err(e),
        },
        DebugTypeInfo::Array { element_type_idx, count } => match remap_type_idx(forest_index, *element_type_idx, type_map) {
            Ok(t) => Ok(DebugTypeInfo::Array { element_type_idx: t, count: *count }),
            Err(e) => Err(e),
        },
        DebugTypeInfo::Struct { name_idx, size, fields } => {
            let n = match remap_string_index(StringTable::Types, forest_index, *name_idx, string_map) {
                Ok(v) => v,
                Err(e) => {
                    return Err(e);
                },
            };
            match remap_fields(forest_index, fields, string_map, type_map) {
                Ok(fs) => Ok(DebugTypeInfo::Struct { name_idx: n, size: *size, fields: fs }),
                Err(e) => Err(e),
            }
        },
        DebugTypeInfo::Function { return_type_idx, param_type_indices } => {
            let rt = match remap_opt_type_idx(forest_index, *return_type_idx, type_map) {
                Ok(v) => v,
                Err(e) => {
                    return Err(e);
                },
            };
            match remap_type_list(forest_index, param_type_indices, type_map) {
                Ok(ps) => Ok(DebugTypeInfo::Function { return_type_idx: rt, param_type_indices: ps }),
                Err(e) => Err(e),
            }
        },
        DebugTypeInfo::Enum { name_idx, size, discriminant_type_idx, variants } => {
            let n = match remap_string_index(StringTable::Types, forest_index, *name_idx, string_map) {
                Ok(v) => v,
                Err(e) => {
                    return Err(e);
                },
            };
            let d = match remap_type_idx(forest_index, *discriminant_type_idx, type_map) {
                Ok(v) => v,
                Err(e) => {
                    return Err(e);
                },
            };
            match remap_variants(forest_index, variants, string_map, type_map) {
                Ok(vs) => Ok(DebugTypeInfo::Enum { name_idx: n, size: *size, discriminant_type_idx: d, variants: vs }),
                Err(e) => Err(e),
            }
        },
        DebugTypeInfo::Unknown => Ok(DebugTypeInfo::Unknown),
    }
}

// DEBUG FUNCTIONS SECTION
// ================================================================================================

/// Debug information for a function: links source-level function information to the compiled
/// MAST representation.
#[derive(Debug, Clone, Copy)]
pub struct DebugFunctionInfo {
    /// Name of the function (index into string table).
    pub name_idx: u32,
    /// Linkage name / mangled name (index into string table, optional).
    pub linkage_name_idx: Option<u32>,
    /// File containing this function (index into file table).
    pub file_idx: u32,
    /// Line number where the function starts (1-indexed).
    pub line: LineNumber,
    /// Column number where the function starts (1-indexed).
    pub column: ColumnNumber,
    /// Type of this function (index into type table, optional).
    pub type_idx: Option<DebugTypeIdx>,
    /// MAST root digest of this function, if known.
    pub mast_root: Option<Word>,
}

impl DebugFunctionInfo {
    /// Creates a new function info with no linkage name, type or MAST root.
    pub fn new(name_idx: u32, file_idx: u32, line: LineNumber, column: ColumnNumber) -> (r: Self)
        ensures
            r == (DebugFunctionInfo {
                name_idx,
                linkage_name_idx: None,
                file_idx,
                line,
                column,
                type_idx: None,
                mast_root: None,
            }),
    {
        DebugFunctionInfo { name_idx, linkage_name_idx: None, file_idx, line, column, type_idx: None, mast_root: None }
    }

    /// Sets the linkage name.
    pub fn with_linkage_name(self, linkage_name_idx: u32) -> (r: Self)
        ensures
            r == (DebugFunctionInfo { linkage_name_idx: Some(linkage_name_idx), ..self }),
    {
        DebugFunctionInfo { linkage_name_idx: Some(linkage_name_idx), ..self }
    }

    /// Sets the type index.
    pub fn with_type(self, type_idx: DebugTypeIdx) -> (r: Self)
        ensures
            r == (DebugFunctionInfo { type_idx: Some(type_idx), ..self }),
    {
        DebugFunctionInfo { type_idx: Some(type_idx), ..self }
    }

    /// Sets the MAST root digest.
    pub fn with_mast_root(self, mast_root: Word) -> (r: Self)
        ensures
            r == (DebugFunctionInfo { mast_root: Some(mast_root), ..self }),
    {
        DebugFunctionInfo { mast_root: Some(mast_root), ..self }
    }
}

/// Debug functions section containing function metadata. String indices in rows are relative to
/// this section's own string table.
#[derive(Debug, Clone)]
pub struct DebugFunctionsSection {
    /// Version of the debug functions format.
    pub version: u8,
    /// String table containing function names and linkage names.
    pub strings: Vec<String>,
    /// Function debug information.
    pub functions: Vec<DebugFunctionInfo>,
}

impl DebugFunctionsSection {
    /// Creates a new empty debug functions section.
    pub fn new() -> (r: Self)
        ensures
            r.version == DEBUG_FUNCTIONS_VERSION,
            r.strings@.len() == 0,
            r.functions@.len() == 0,
    {
        DebugFunctionsSection { version: DEBUG_FUNCTIONS_VERSION, strings: Vec::new(), functions: Vec::new() }
    }

    /// Adds a string to the string table and returns its index; an equal string already in the
    /// table is reused.
    pub fn add_string(&mut self, s: String) -> (r: u32)
        requires
            old(self).strings@.len() <= u32::MAX,
        ensures
            r as nat == intern_index(string_views(old(self).strings@), s@),
            string_views(final(self).strings@) == intern_table(string_views(old(self).strings@), s@),
            final(self).strings@[r as int]@ == s@,
            final(self).functions == old(self).functions,
            final(self).version == old(self).version,
    {
        intern_string(&mut self.strings, s)
    }

    /// Gets a string by index.
    pub fn get_string(&self, idx: u32) -> (r: Option<String>)
        ensures
            (idx as int) < self.strings@.len() ==> (r matches Some(s) && s@ == self.strings@[idx as int]@),
            (idx as int) >= self.strings@.len() ==> r is None,
    {
        string_at(&self.strings, idx)
    }

    /// Adds a function to the function table.
    pub fn add_function(&mut self, func: DebugFunctionInfo)
        ensures
            final(self).functions@ == old(self).functions@.push(func),
            final(self).strings == old(self).strings,
            final(self).version == old(self).version,
    {
        self.functions.push(func);
    }

    /// Returns true if the section is empty (no functions).
    pub fn is_empty(&self) -> (r: bool)
        ensures
            r == (self.functions@.len() == 0),
    {
        self.functions.len() == 0
    }
}

// MERGING STRING TABLES
// ================================================================================================

/// Interns the strings `s` one after the other into the table `t`: the final table, and the
/// index at which each string of `s` was found or placed.
pub open spec fn intern_all(t: Seq<Seq<char>>, s: Seq<Seq<char>>) -> (Seq<Seq<char>>, Map<u32, u32>)
    decreases s.len(),
{
    if s.len() == 0 {
        (t, Map::empty())
    } else {
        let (t1, m) = intern_all(t, s.drop_last());
        (intern_table(t1, s.last()), m.insert((s.len() - 1) as u32, intern_index(t1, s.last()) as u32))
    }
}

proof fn lemma_intern_all_len(t: Seq<Seq<char>>, s: Seq<Seq<char>>)
    ensures
        intern_all(t, s).0.len() <= t.len() + s.len(),
    decreases s.len(),
{
    if s.len() > 0 {
        lemma_intern_all_len(t, s.drop_last());
    }
}

/// Interns every string of `strings` into `output`, returning the index of each.
fn intern_strings(output: &mut Vec<String>, strings: &Vec<String>) -> (r: BTreeMap<u32, u32>)
    requires
        old(output)@.len() + strings@.len() <= u32::MAX,
    ensures
        (string_views(final(output)@), r@) == intern_all(string_views(old(output)@), string_views(strings@)),
        final(output)@.len() <= old(output)@.len() + strings@.len(),
{
    let ghost t0 = string_views(output@);
    let ghost src = string_views(strings@);
    let mut map: BTreeMap<u32, u32> = BTreeMap::new();
    let n = strings.len();
    let mut i: usize = 0;
    while i < n
        invariant
            n == strings@.len(),
            src == string_views(strings@),
            i <= n,
            (string_views(output@), map@) == intern_all(t0, src.take(i as int)),
            output@.len() <= t0.len() + i,
            t0.len() + n <= u32::MAX,
        decreases n - i,
    {
        proof {
            assert(src.take(i + 1).drop_last() =~= src.take(i as int));
            assert(src.take(i + 1).last() == strings@[i as int]@);
        }
        let idx = intern_string(output, strings[i].clone());
        proof {
            assert(string_views(output@).len() == output@.len());
        }
        map.insert(i as u32, idx);
        i += 1;
    }
    proof {
        assert(src.take(n as int) =~= src);
    }
    map
}

// MERGING THE TYPES SECTION
// ================================================================================================

/// The views of a table of type definitions.
pub open spec fn types_view(t: Seq<DebugTypeInfo>) -> Seq<TypeInfoView> {
    t.map_values(|x: DebugTypeInfo| x@)
}

/// [`remap_type_info_spec`] as a function of the definition.
pub open spec fn type_info_remapper(forest_index: usize, strings: Map<u32, u32>, types: Map<u32, DebugTypeIdx>) -> spec_fn(TypeInfoView) -> Result<TypeInfoView, PackageDebugInfoMergeError> {
    |t: TypeInfoView| remap_type_info_spec(forest_index, t, strings, types)
}

/// The type map of an input table of `count` types appended after `base` merged types.
pub open spec fn appended_type_map(base: nat, count: nat) -> Map<u32, DebugTypeIdx> {
    Map::new(|k: u32| (k as nat) < count, |k: u32| DebugTypeIdx((base + k) as u32))
}

/// Merging a types section into the merged string table `strings` and type table `types`: the
/// new tables and the type map of the input, or the first error in table order.
pub open spec fn merge_types_spec(
    forest_index: usize,
    section: Option<&DebugTypesSection>,
    strings: Seq<Seq<char>>,
    types: Seq<TypeInfoView>,
) -> Result<(Seq<Seq<char>>, Seq<TypeInfoView>, Map<u32, DebugTypeIdx>), PackageDebugInfoMergeError> {
    match section {
        None => Ok((strings, types, Map::empty())),
        Some(sec) => {
            let (strings2, smap) = intern_all(strings, string_views(sec.strings@));
            let tmap = appended_type_map(types.len(), sec.types@.len());
            match try_map(types_view(sec.types@), type_info_remapper(forest_index, smap, tmap)) {
                Err(e) => Err(e),
                Ok(new_types) => Ok((strings2, types + new_types, tmap)),
            }
        },
    }
}

/// Merges a types section into `output`, returning the map from the input's type indices to the
/// merged ones.
pub fn merge_debug_types(forest_index: usize, section: Option<&DebugTypesSection>, output: &mut DebugTypesSection) -> (r: Result<BTreeMap<u32, DebugTypeIdx>, PackageDebugInfoMergeError>)
    requires
        section matches Some(sec) ==> old(output).strings@.len() + sec.strings@.len() <= u32::MAX
            && old(output).types@.len() + sec.types@.len() <= u32::MAX,
    ensures
        final(output).version == old(output).version,
        match (r, merge_types_spec(forest_index, section, string_views(old(output).strings@), types_view(old(output).types@))) {
            (Ok(m), Ok((s, t, tm))) => string_views(final(output).strings@) == s && types_view(final(output).types@) == t && m@ == tm,
            (Err(e), Err(se)) => e == se,
            _ => false,
        },
        section is None ==> r is Ok && *final(output) == *old(output),
        section matches Some(sec) ==> (r is Ok ==> final(output).strings@.len() <= old(output).strings@.len() + sec.strings@.len()
            && final(output).types@.len() == old(output).types@.len() + sec.types@.len()),
{
    let sec = match section {
        None => {
            return Ok(BTreeMap::new());
        },
        Some(sec) => sec,
    };
    let ghost old_types = types_view(output.types@);
    assert(old_types.len() == output.types@.len());
    let string_map = intern_strings(&mut output.strings, &sec.strings);
    let base = output.types.len();
    let n = sec.types.len();
    let mut type_map: BTreeMap<u32, DebugTypeIdx> = BTreeMap::new();
    let mut k: usize = 0;
    while k < n
        invariant
            n == sec.types@.len(),
            base == output.types@.len(),
            base + n <= u32::MAX,
            k <= n,
            type_map@ == appended_type_map(base as nat, k as nat),
        decreases n - k,
    {
        type_map.insert(k as u32, DebugTypeIdx((base + k) as u32));
        proof {
            assert(type_map@ =~= appended_type_map(base as nat, (k + 1) as nat));
        }
        k += 1;
    }
    let ghost f = type_info_remapper(forest_index, string_map@, type_map@);
    let ghost src = types_view(sec.types@);
    let mut i: usize = 0;
    while i < n
        invariant
            n == sec.types@.len(),
            src == types_view(sec.types@),
            section == Some(sec),
            f == type_info_remapper(forest_index, string_map@, type_map@),
            i <= n,
            base + n <= u32::MAX,
            old_types.len() == base,
            old_types == types_view(old(output).types@),
            (string_views(output.strings@), string_map@) == intern_all(string_views(old(output).strings@), string_views(sec.strings@)),
            type_map@ == appended_type_map(base as nat, n as nat),
            output.types@.len() == base + i,
            output.version == old(output).version,
            output.strings@.len() <= old(output).strings@.len() + sec.strings@.len(),
            try_map(src.take(i as int), f) matches Ok(done) && types_view(output.types@) == old_types + done,
        decreases n - i,
    {
        proof {
            lemma_try_map_step(src, f, i as int);
        }
        let ghost before = types_view(output.types@);
        match remap_debug_type_info(forest_index, &sec.types[i], &string_map, &type_map) {
            Ok(t) => {
                output.add_type(t);
                proof {
                    assert(types_view(output.types@) =~= before.push(t@));
                    let done = try_map(src.take(i as int), f)->Ok_0;
                    assert(old_types + done.push(t@) =~= (old_types + done).push(t@));
                }
            },
            Err(e) => {
                proof {
                    assert(src[i as int] == sec.types@[i as int]@);
                    assert(f(src[i as int]) == Err::<TypeInfoView, PackageDebugInfoMergeError>(e));
                    assert(try_map(src.take(i + 1), f) == Err::<Seq<TypeInfoView>, PackageDebugInfoMergeError>(e));
                    lemma_try_map_err_persists(src, f, i + 1, n as int);
                    assert(src.take(n as int) =~= src);
                    assert(try_map(src, f) == Err::<Seq<TypeInfoView>, PackageDebugInfoMergeError>(e));
                    let (strings2, smap) = intern_all(string_views(old(output).strings@), string_views(sec.strings@));
                    assert(smap == string_map@);
                    assert(appended_type_map(types_view(old(output).types@).len(), sec.types@.len()) == type_map@);
                }
                return Err(e);
            },
        }
        i += 1;
    }
    proof {
        assert(src.take(n as int) =~= src);
    }
    Ok(type_map)
}

// MERGING THE SOURCES SECTION
// ================================================================================================

/// True when both file records have the same path index and checksum.
pub open spec fn file_eq(a: DebugFileInfo, b: DebugFileInfo) -> bool {
    a.path_idx == b.path_idx && same_checksum(a.checksum, b.checksum)
}

/// True when `files` holds a record equal to `f`.
pub open spec fn has_file(files: Seq<DebugFileInfo>, f: DebugFileInfo) -> bool {
    exists|i: int| 0 <= i < files.len() && file_eq(files[i], f)
}

/// The index of the first record of `files` equal to `f`, or the table length.
#[verifier::opaque]
pub open spec fn file_position(files: Seq<DebugFileInfo>, f: DebugFileInfo) -> nat {
    if has_file(files, f) {
        (choose|i: int| 0 <= i < files.len() && file_eq(files[i], f) && forall|j: int| 0 <= j < i ==> !file_eq(files[j], f)) as nat
    } else {
        files.len()
    }
}

/// The file table after adding `f`: unchanged when an equal record is present.
#[verifier::opaque]
pub open spec fn add_file_spec(files: Seq<DebugFileInfo>, f: DebugFileInfo) -> Seq<DebugFileInfo> {
    if has_file(files, f) {
        files
    } else {
        files.push(f)
    }
}

proof fn lemma_first_file_unique(files: Seq<DebugFileInfo>, f: DebugFileInfo, i: int)
    requires
        0 <= i < files.len(),
        file_eq(files[i], f),
        forall|j: int| 0 <= j < i ==> !file_eq(files[j], f),
    ensures
        file_position(files, f) == i,
{
    reveal(file_position);
    let c = choose|c: int| 0 <= c < files.len() && file_eq(files[c], f) && forall|j: int| 0 <= j < c ==> !file_eq(files[j], f);
    assert(0 <= c < files.len() && file_eq(files[c], f) && forall|j: int| 0 <= j < c ==> !file_eq(files[j], f));
    if c < i {
        assert(!file_eq(files[c], f));
    } else if c > i {
        assert(!file_eq(files[i], f));
    }
}

/// Adding the input file records one after the other to `files`, each with its path index
/// rewritten through `strings`: the final table and the merged index of each input record, or
/// the first error.
pub open spec fn merge_files_spec(forest_index: usize, input: Seq<DebugFileInfo>, strings: Map<u32, u32>, files: Seq<DebugFileInfo>) -> Result<(Seq<DebugFileInfo>, Map<u32, u32>), PackageDebugInfoMergeError>
    decreases input.len(),
{
    if input.len() == 0 {
        Ok((files, Map::empty()))
    } else {
        match merge_files_spec(forest_index, input.drop_last(), strings, files) {
            Err(e) => Err(e),
            Ok((fs, m)) => match remap_string_spec(StringTable::Sources, forest_index, input.last().path_idx, strings) {
                Err(e) => Err(e),
                Ok(path_idx) => {
                    let f = DebugFileInfo { path_idx, checksum: input.last().checksum };
                    Ok((add_file_spec(fs, f), m.insert((input.len() - 1) as u32, file_position(fs, f) as u32)))
                },
            },
        }
    }
}

/// Merging a sources section into the merged string table `strings` and file table `files`: the
/// new tables and the file map of the input, or the first error in table order.
pub open spec fn merge_sources_spec(
    forest_index: usize,
    section: Option<&DebugSourcesSection>,
    strings: Seq<Seq<char>>,
    files: Seq<DebugFileInfo>,
) -> Result<(Seq<Seq<char>>, Seq<DebugFileInfo>, Map<u32, u32>), PackageDebugInfoMergeError> {
    match section {
        None => Ok((strings, files, Map::empty())),
        Some(sec) => {
            let (strings2, smap) = intern_all(strings, string_views(sec.strings@));
            match merge_files_spec(forest_index, sec.files@, smap, files) {
                Err(e) => Err(e),
                Ok((files2, fmap)) => Ok((strings2, files2, fmap)),
            }
        },
    }
}

/// The index of the first record of `files` equal to `f`, if any.
fn find_file(files: &Vec<DebugFileInfo>, f: &DebugFileInfo) -> (r: Option<usize>)
    ensures
        r is None <==> !has_file(files@, *f),
        r matches Some(p) ==> p == file_position(files@, *f) && p < files@.len(),
{
    let m = files.len();
    let mut k: usize = 0;
    while k < m
        invariant
            m == files@.len(),
            k <= m,
            forall|j: int| 0 <= j < k ==> !file_eq(files@[j], *f),
        decreases m - k,
    {
        if files[k].same_as(f) {
            proof {
                lemma_first_file_unique(files@, *f, k as int);
            }
            return Some(k);
        }
        k += 1;
    }
    None
}

/// Adds `f` to `files` unless an equal record is there, returning the index of its record.
fn add_file_if_new(files: &mut Vec<DebugFileInfo>, f: DebugFileInfo) -> (r: u32)
    requires
        old(files)@.len() < u32::MAX,
    ensures
        r == file_position(old(files)@, f),
        final(files)@ == add_file_spec(old(files)@, f),
        final(files)@.len() <= old(files)@.len() + 1,
{
    reveal(file_position);
    reveal(add_file_spec);
    match find_file(files, &f) {
        Some(p) => p as u32,
        None => {
            let m = files.len();
            files.push(f);
            m as u32
        },
    }
}

/// Merges a sources section into `output`, returning the map from the input's file indices to
/// the merged ones. Equal file records are stored once.
pub fn merge_debug_sources(forest_index: usize, section: Option<&DebugSourcesSection>, output: &mut DebugSourcesSection) -> (r: Result<BTreeMap<u32, u32>, PackageDebugInfoMergeError>)
    requires
        section matches Some(sec) ==> old(output).strings@.len() + sec.strings@.len() <= u32::MAX
            && old(output).files@.len() + sec.files@.len() <= u32::MAX,
    ensures
        final(output).version == old(output).version,
        match (r, merge_sources_spec(forest_index, section, string_views(old(output).strings@), old(output).files@)) {
            (Ok(m), Ok((s, f, fm))) => string_views(final(output).strings@) == s && final(output).files@ == f && m@ == fm,
            (Err(e), Err(se)) => e == se,
            _ => false,
        },
        section is None ==> r is Ok && *final(output) == *old(output),
        section matches Some(sec) ==> (r is Ok ==> final(output).strings@.len() <= old(output).strings@.len() + sec.strings@.len()
            && final(output).files@.len() <= old(output).files@.len() + sec.files@.len()),
{
    let sec = match section {
        None => {
            return Ok(BTreeMap::new());
        },
        Some(sec) => sec,
    };
    let ghost old_files = output.files@;
    let string_map = intern_strings(&mut output.strings, &sec.strings);
    let mut file_map: BTreeMap<u32, u32> = BTreeMap::new();
    let n = sec.files.len();
    let mut i: usize = 0;
    while i < n
        invariant
            n == sec.files@.len(),
            section == Some(sec),
            i <= n,
            old_files == old(output).files@,
            old_files.len() + n <= u32::MAX,
            (string_views(output.strings@), string_map@) == intern_all(string_views(old(output).strings@), string_views(sec.strings@)),
            output.strings@.len() <= old(output).strings@.len() + sec.strings@.len(),
            output.version == old(output).version,
            output.files@.len() <= old_files.len() + i,
            merge_files_spec(forest_index, sec.files@.take(i as int), string_map@, old_files) == Ok::<(Seq<DebugFileInfo>, Map<u32, u32>), PackageDebugInfoMergeError>((output.files@, file_map@)),
        decreases n - i,
    {
        proof {
            assert(sec.files@.take(i + 1).drop_last() =~= sec.files@.take(i as int));
        }
        let file = &sec.files[i];
        let path_idx = match remap_string_index(StringTable::Sources, forest_index, file.path_idx, &string_map) {
            Ok(v) => v,
            Err(e) => {
                proof {
                    lemma_merge_files_err_persists(forest_index, sec.files@, string_map@, old_files, i + 1, n as int);
                    assert(sec.files@.take(n as int) =~= sec.files@);
                }
                return Err(e);
            },
        };
        let merged = DebugFileInfo { path_idx, checksum: file.checksum };
        let new_idx = add_file_if_new(&mut output.files, merged);
        file_map.insert(i as u32, new_idx);
        i += 1;
    }
    proof {
        assert(sec.files@.take(n as int) =~= sec.files@);
    }
    Ok(file_map)
}

proof fn lemma_merge_files_err_persists(forest_index: usize, input: Seq<DebugFileInfo>, strings: Map<u32, u32>, files: Seq<DebugFileInfo>, i: int, j: int)
    requires
        0 <= i <= j <= input.len(),
        merge_files_spec(forest_index, input.take(i), strings, files) is Err,
    ensures
        merge_files_spec(forest_index, input.take(j), strings, files) == merge_files_spec(forest_index, input.take(i), strings, files),
    decreases j - i,
{
    if i < j {
        lemma_merge_files_err_persists(forest_index, input, strings, files, i, j - 1);
        assert(input.take(j).drop_last() =~= input.take(j - 1));
    }
}

// MERGING THE FUNCTIONS SECTION
// ================================================================================================

/// Rewrites the string, file and type indices of a function record.
pub open spec fn remap_function_spec(
    forest_index: usize,
    f: DebugFunctionInfo,
    strings: Map<u32, u32>,
    files: Map<u32, u32>,
    types: Map<u32, DebugTypeIdx>,
) -> Result<DebugFunctionInfo, PackageDebugInfoMergeError> {
    match remap_string_spec(StringTable::Functions, forest_index, f.name_idx, strings) {
        Err(e) => Err(e),
        Ok(name_idx) => match (match f.linkage_name_idx {
            None => Ok(None),
            Some(idx) => match remap_string_spec(StringTable::Functions, forest_index, idx, strings) {
                Err(e) => Err(e),
                Ok(v) => Ok(Some(v)),
            },
        }) {
            Err(e) => Err(e),
            Ok(linkage_name_idx) => match map_index(files, f.file_idx) {
                None => Err(PackageDebugInfoMergeError::MissingSourceFileMapping { forest_index, file_idx: f.file_idx }),
                Some(file_idx) => match remap_opt_type_spec(forest_index, f.type_idx, types) {
                    Err(e) => Err(e),
                    Ok(type_idx) => Ok(
                        DebugFunctionInfo {
                            name_idx,
                            linkage_name_idx,
                            file_idx,
                            line: f.line,
                            column: f.column,
                            type_idx,
                            mast_root: f.mast_root,
                        },
                    ),
                },
            },
        },
    }
}

/// [`remap_function_spec`] as a function of the record.
pub open spec fn function_remapper(forest_index: usize, strings: Map<u32, u32>, files: Map<u32, u32>, types: Map<u32, DebugTypeIdx>) -> spec_fn(DebugFunctionInfo) -> Result<DebugFunctionInfo, PackageDebugInfoMergeError> {
    |f: DebugFunctionInfo| remap_function_spec(forest_index, f, strings, files, types)
}

/// The function map of an input table of `count` functions appended after `base` merged ones.
pub open spec fn appended_index_map(base: nat, count: nat) -> Map<u32, u32> {
    Map::new(|k: u32| (k as nat) < count, |k: u32| (base + k) as u32)
}

/// Merging a functions section into the merged string table `strings` after `base` merged
/// functions: the new string table, the rewritten records to append and the function map of the
/// input, or the first error in table order.
pub open spec fn merge_functions_spec(
    forest_index: usize,
    section: Option<&DebugFunctionsSection>,
    strings: Seq<Seq<char>>,
    base: nat,
    files: Map<u32, u32>,
    types: Map<u32, DebugTypeIdx>,
) -> Result<(Seq<Seq<char>>, Seq<DebugFunctionInfo>, Map<u32, u32>), PackageDebugInfoMergeError> {
    match section {
        None => Ok((strings, Seq::empty(), Map::empty())),
        Some(sec) => {
            let (strings2, smap) = intern_all(strings, string_views(sec.strings@));
            match try_map(sec.functions@, function_remapper(forest_index, smap, files, types)) {
                Err(e) => Err(e),
                Ok(fs) => Ok((strings2, fs, appended_index_map(base, sec.functions@.len()))),
            }
        },
    }
}

fn remap_function(
    forest_index: usize,
    function: &DebugFunctionInfo,
    string_map: &BTreeMap<u32, u32>,
    source_file_map: &BTreeMap<u32, u32>,
    type_map: &BTreeMap<u32, DebugTypeIdx>,
) -> (r: Result<DebugFunctionInfo, PackageDebugInfoMergeError>)
    ensures
        r == remap_function_spec(forest_index, *function, string_map@, source_file_map@, type_map@),
{
    let name_idx = match remap_string_index(StringTable::Functions, forest_index, function.name_idx, string_map) {
        Ok(v) => v,
        Err(e) => {
            return Err(e);
        },
    };
    let linkage_name_idx = match function.linkage_name_idx {
        None => None,
        Some(idx) => match remap_string_index(StringTable::Functions, forest_index, idx, string_map) {
            Ok(v) => Some(v),
            Err(e) => {
                return Err(e);
            },
        },
    };
    let file_idx = match source_file_map.get(&function.file_idx) {
        Some(v) => *v,
        None => {
            return Err(PackageDebugInfoMergeError::MissingSourceFileMapping { forest_index, file_idx: function.file_idx });
        },
    };
    let type_idx = match remap_opt_type_idx(forest_index, function.type_idx, type_map) {
        Ok(v) => v,
        Err(e) => {
            return Err(e);
        },
    };
    Ok(
        DebugFunctionInfo {
            name_idx,
            linkage_name_idx,
            file_idx,
            line: function.line,
            column: function.column,
            type_idx,
            mast_root: function.mast_root,
        },
    )
}

/// Merges a functions section into `output`, rewriting file indices through `source_file_map`
/// and type indices through `type_map`, and returns the map from the input's function indices to
/// the merged ones.
pub fn merge_debug_functions(
    forest_index: usize,
    section: Option<&DebugFunctionsSection>,
    output: &mut DebugFunctionsSection,
    source_file_map: &BTreeMap<u32, u32>,
    type_map: &BTreeMap<u32, DebugTypeIdx>,
) -> (r: Result<BTreeMap<u32, u32>, PackageDebugInfoMergeError>)
    requires
        section matches Some(sec) ==> old(output).strings@.len() + sec.strings@.len() <= u32::MAX
            && old(output).functions@.len() + sec.functions@.len() <= u32::MAX,
    ensures
        final(output).version == old(output).version,
        match (r, merge_functions_spec(forest_index, section, string_views(old(output).strings@), old(output).functions@.len(), source_file_map@, type_map@)) {
            (Ok(m), Ok((s, fs, fm))) => string_views(final(output).strings@) == s && final(output).functions@ == old(output).functions@ + fs && m@ == fm,
            (Err(e), Err(se)) => e == se,
            _ => false,
        },
        section is None ==> r is Ok && *final(output) == *old(output),
        section matches Some(sec) ==> (r is Ok ==> final(output).strings@.len() <= old(output).strings@.len() + sec.strings@.len()
            && final(output).functions@.len() == old(output).functions@.len() + sec.functions@.len()),
{
    let sec = match section {
        None => {
            return Ok(BTreeMap::new());
        },
        Some(sec) => sec,
    };
    let ghost old_functions = output.functions@;
    let string_map = intern_strings(&mut output.strings, &sec.strings);
    let ghost f = function_remapper(forest_index, string_map@, source_file_map@, type_map@);
    let base = output.functions.len();
    let n = sec.functions.len();
    let mut function_map: BTreeMap<u32, u32> = BTreeMap::new();
    let mut i: usize = 0;
    while i < n
        invariant
            n == sec.functions@.len(),
            section == Some(sec),
            i <= n,
            base == old_functions.len(),
            old_functions == old(output).functions@,
            base + n <= u32::MAX,
            f == function_remapper(forest_index, string_map@, source_file_map@, type_map@),
            (string_views(output.strings@), string_map@) == intern_all(string_views(old(output).strings@), string_views(sec.strings@)),
            output.strings@.len() <= old(output).strings@.len() + sec.strings@.len(),
            output.version == old(output).version,
            output.functions@.len() == base + i,
            function_map@ == appended_index_map(base as nat, i as nat),
            try_map(sec.functions@.take(i as int), f) matches Ok(done) && output.functions@ == old_functions + done,
        decreases n - i,
    {
        proof {
            lemma_try_map_step(sec.functions@, f, i as int);
        }
        let merged = match remap_function(forest_index, &sec.functions[i], &string_map, source_file_map, type_map) {
            Ok(v) => v,
            Err(e) => {
                proof {
                    lemma_try_map_err_persists(sec.functions@, f, i + 1, n as int);
                    assert(sec.functions@.take(n as int) =~= sec.functions@);
                }
                return Err(e);
            },
        };
        let new_idx = output.functions.len() as u32;
        let ghost done = try_map(sec.functions@.take(i as int), f)->Ok_0;
        output.add_function(merged);
        function_map.insert(i as u32, new_idx);
        proof {
            assert(old_functions + done.push(merged) =~= (old_functions + done).push(merged));
            assert(function_map@ =~= appended_index_map(base as nat, (i + 1) as nat));
        }
        i += 1;
    }
    proof {
        assert(sec.functions@.take(n as int) =~= sec.functions@);
    }
    Ok(function_map)
}

// LAWS
// ================================================================================================

/// A successful [`try_map`] applies `f` to each element in place.
pub proof fn lemma_try_map_at<A, B>(s: Seq<A>, f: spec_fn(A) -> Result<B, PackageDebugInfoMergeError>)
    ensures
        try_map(s, f) matches Ok(t) ==> t.len() == s.len() && forall|j: int| 0 <= j < s.len() ==> f(#[trigger] s[j]) == Ok::<B, PackageDebugInfoMergeError>(t[j]),
    decreases s.len(),
{
    if s.len() > 0 {
        lemma_try_map_at(s.drop_last(), f);
        if let Ok(t) = try_map(s, f) {
            let prefix = try_map(s.drop_last(), f)->Ok_0;
            assert forall|j: int| 0 <= j < s.len() implies f(#[trigger] s[j]) == Ok::<B, PackageDebugInfoMergeError>(t[j]) by {
                if j < s.len() - 1 {
                    assert(s[j] == s.drop_last()[j]);
                    assert(t[j] == prefix[j]);
                }
            }
        }
    }
}

/// True when the index map of an interning sends position `k` to a position of the resulting
/// table that holds `x`.
pub open spec fn interned_at(r: (Seq<Seq<char>>, Map<u32, u32>), k: int, x: Seq<char>) -> bool {
    &&& r.1.dom().contains(k as u32)
    &&& (r.1[k as u32] as int) < r.0.len()
    &&& r.0[r.1[k as u32] as int] == x
}

/// Interning strings one after the other into a table keeps the table's strings in place, and
/// maps the position of each interned string to a position of the resulting table that holds the
/// same text.
#[verifier::spinoff_prover]
pub proof fn law_intern_all_keeps_text(t: Seq<Seq<char>>, s: Seq<Seq<char>>)
    requires
        t.len() + s.len() <= u32::MAX,
    ensures
        t.len() <= intern_all(t, s).0.len() <= t.len() + s.len(),
        forall|i: int| 0 <= i < t.len() ==> #[trigger] intern_all(t, s).0[i] == t[i],
        forall|k: int| 0 <= k < s.len() ==> #[trigger] interned_at(intern_all(t, s), k, s[k]),
    decreases s.len(),
{
    if s.len() > 0 {
        let init = s.drop_last();
        law_intern_all_keeps_text(t, init);
        let (t1, m1) = intern_all(t, init);
        let x = s.last();
        law_interned_string_read_back(t1, x);
        let t2 = intern_table(t1, x);
        let idx = intern_index(t1, x);
        let key = (s.len() - 1) as u32;
        assert(key as int == s.len() - 1);
        assert(intern_all(t, s) == (t2, m1.insert(key, idx as u32)));
        assert(idx < t2.len() && t2[idx as int] == x);
        assert((idx as u32) as int == idx);
        assert forall|k: int| 0 <= k < s.len() implies #[trigger] interned_at(intern_all(t, s), k, s[k]) by {
            let m = intern_all(t, s).1;
            assert(interned_at(intern_all(t, init), k, init[k]) || k == s.len() - 1);
            if k < s.len() - 1 {
                assert(s[k] == init[k]);
                assert((k as u32) as int == k);
                assert((k as u32) != key);
                let v = m1[k as u32];
                assert(t1[v as int] == init[k]);
                assert(t2[v as int] == t1[v as int]);
                assert(m[k as u32] == v);
            } else {
                assert((k as u32) == key);
                assert(m[k as u32] == idx as u32);
            }
        }
    }
}

/// Rewriting a function record maps its name and linkage name through the string map, its file
/// through the file map and its type through the type map, and keeps its position and MAST root;
/// an unmapped name, linkage name or file is an error.
#[verifier::spinoff_prover]
pub proof fn law_remap_function_maps_indices(
    forest_index: usize,
    f: DebugFunctionInfo,
    strings: Map<u32, u32>,
    files: Map<u32, u32>,
    types: Map<u32, DebugTypeIdx>,
)
    ensures
        remap_function_spec(forest_index, f, strings, files, types) matches Ok(g) ==> {
            &&& strings.dom().contains(f.name_idx) && g.name_idx == strings[f.name_idx]
            &&& (f.linkage_name_idx matches Some(i) ==> strings.dom().contains(i) && g.linkage_name_idx == Some(strings[i]))
            &&& (f.linkage_name_idx is None ==> g.linkage_name_idx is None)
            &&& files.dom().contains(f.file_idx) && g.file_idx == files[f.file_idx]
            &&& (f.type_idx matches Some(ti) ==> types.dom().contains(ti.0) && g.type_idx == Some(types[ti.0]))
            &&& (f.type_idx is None ==> g.type_idx is None)
            &&& g.line == f.line && g.column == f.column && g.mast_root == f.mast_root
        },
        !strings.dom().contains(f.name_idx) ==> remap_function_spec(forest_index, f, strings, files, types) == Err::<DebugFunctionInfo, PackageDebugInfoMergeError>(
            PackageDebugInfoMergeError::MissingFunctionStringMapping { forest_index, string_idx: f.name_idx },
        ),
{
}

/// After a functions section is merged, the name and the linkage name of every merged function
/// index strings of the merged table with the same text as the input function's indices in the
/// input table.
#[verifier::spinoff_prover]
pub proof fn law_merged_functions_keep_names(
    forest_index: usize,
    sec: &DebugFunctionsSection,
    strings: Seq<Seq<char>>,
    base: nat,
    files: Map<u32, u32>,
    types: Map<u32, DebugTypeIdx>,
)
    requires
        strings.len() + sec.strings@.len() <= u32::MAX,
    ensures
        merge_functions_spec(forest_index, Some(sec), strings, base, files, types) matches Ok((merged, fs, _)) ==> {
            &&& fs.len() == sec.functions@.len()
            &&& forall|j: int| 0 <= j < fs.len() ==> {
                let f = sec.functions@[j];
                let g = #[trigger] fs[j];
                &&& (f.name_idx as int) < sec.strings@.len() && (g.name_idx as int) < merged.len()
                &&& merged[g.name_idx as int] == sec.strings@[f.name_idx as int]@
                &&& (f.linkage_name_idx matches Some(i) ==> ((i as int) < sec.strings@.len()
                    && (g.linkage_name_idx matches Some(gi) && (gi as int) < merged.len()
                    && merged[gi as int] == sec.strings@[i as int]@)))
                &&& (f.linkage_name_idx is None ==> g.linkage_name_idx is None)
            }
        },
{
    let src = string_views(sec.strings@);
    law_intern_all_keeps_text(strings, src);
    let (strings2, smap) = intern_all(strings, src);
    let fr = function_remapper(forest_index, smap, files, types);
    lemma_try_map_at(sec.functions@, fr);
    if let Ok(fs) = try_map(sec.functions@, fr) {
        assert forall|j: int| 0 <= j < fs.len() implies {
            let f = sec.functions@[j];
            let g = #[trigger] fs[j];
            &&& (f.name_idx as int) < sec.strings@.len() && (g.name_idx as int) < strings2.len()
            &&& strings2[g.name_idx as int] == sec.strings@[f.name_idx as int]@
            &&& (f.linkage_name_idx matches Some(i) ==> ((i as int) < sec.strings@.len()
                && (g.linkage_name_idx matches Some(gi) && (gi as int) < strings2.len()
                && strings2[gi as int] == sec.strings@[i as int]@)))
            &&& (f.linkage_name_idx is None ==> g.linkage_name_idx is None)
        } by {
            let f = sec.functions@[j];
            assert(fr(f) == Ok::<DebugFunctionInfo, PackageDebugInfoMergeError>(fs[j]));
            law_remap_function_maps_indices(forest_index, f, smap, files, types);
            lemma_intern_all_dom(strings, src);
            let k = f.name_idx as int;
            assert(smap.dom().contains(f.name_idx));
            assert(0 <= k < src.len());
            assert((k as u32) == f.name_idx);
            assert(src[k] == sec.strings@[k]@);
            assert(interned_at(intern_all(strings, src), k, src[k]));
            if let Some(i) = f.linkage_name_idx {
                assert(smap.dom().contains(i));
                assert(((i as int) as u32) == i);
                assert(src[i as int] == sec.strings@[i as int]@);
                assert(interned_at(intern_all(strings, src), i as int, src[i as int]));
            }
        }
    }
}

/// The keys of the index map of interned strings are exactly the positions of those strings.
proof fn lemma_intern_all_dom(t: Seq<Seq<char>>, s: Seq<Seq<char>>)
    requires
        s.len() <= u32::MAX,
    ensures
        forall|x: u32| intern_all(t, s).1.dom().contains(x) <==> (x as int) < s.len(),
    decreases s.len(),
{
    if s.len() > 0 {
        let init = s.drop_last();
        lemma_intern_all_dom(t, init);
        let m1 = intern_all(t, init).1;
        let key = (s.len() - 1) as u32;
        assert(key as int == s.len() - 1);
        assert(intern_all(t, s).1 == m1.insert(key, intern_index(intern_all(t, init).0, s.last()) as u32));
        assert forall|x: u32| intern_all(t, s).1.dom().contains(x) <==> (x as int) < s.len() by {
            if x == key {
            } else {
                assert((x as int) != s.len() - 1);
            }
        }
    }
}

/// True when `b` is the image of the type index `a` in `types`.
pub open spec fn type_mapped(types: Map<u32, DebugTypeIdx>, a: DebugTypeIdx, b: DebugTypeIdx) -> bool {
    types.dom().contains(a.0) && b == types[a.0]
}

/// True when `b` is the image of the optional type index `a` in `types`.
pub open spec fn opt_type_mapped(types: Map<u32, DebugTypeIdx>, a: Option<DebugTypeIdx>, b: Option<DebugTypeIdx>) -> bool {
    match (a, b) {
        (None, None) => true,
        (Some(x), Some(y)) => type_mapped(types, x, y),
        _ => false,
    }
}

/// True when `b` is the image of the string index `a` in `strings`.
pub open spec fn string_mapped(strings: Map<u32, u32>, a: u32, b: u32) -> bool {
    strings.dom().contains(a) && b == strings[a]
}

/// Rewriting a type definition keeps its kind, its sizes, counts, offsets and discriminants, and
/// sends every string index through the string map and every type index through the type map,
/// field by field and variant by variant in order.
#[verifier::spinoff_prover]
pub proof fn law_remap_type_info_maps_indices(forest_index: usize, ty: TypeInfoView, strings: Map<u32, u32>, types: Map<u32, DebugTypeIdx>)
    ensures
        remap_type_info_spec(forest_index, ty, strings, types) matches Ok(t) ==> match (ty, t) {
            (TypeInfoView::Primitive(p), TypeInfoView::Primitive(q)) => p == q,
            (TypeInfoView::Pointer { pointee_type_idx: a }, TypeInfoView::Pointer { pointee_type_idx: b }) => type_mapped(types, a, b),
            (TypeInfoView::Array { element_type_idx: a, count: c1 }, TypeInfoView::Array { element_type_idx: b, count: c2 }) => type_mapped(types, a, b) && c1 == c2,
            (TypeInfoView::Struct { name_idx: n1, size: s1, fields: f1 }, TypeInfoView::Struct { name_idx: n2, size: s2, fields: f2 }) => {
                &&& string_mapped(strings, n1, n2) && s1 == s2 && f1.len() == f2.len()
                &&& forall|j: int| 0 <= j < f1.len() ==> string_mapped(strings, (#[trigger] f1[j]).name_idx, f2[j].name_idx)
                    && type_mapped(types, f1[j].type_idx, f2[j].type_idx) && f1[j].offset == f2[j].offset
            },
            (TypeInfoView::Function { return_type_idx: r1, param_type_indices: p1 }, TypeInfoView::Function { return_type_idx: r2, param_type_indices: p2 }) => {
                &&& opt_type_mapped(types, r1, r2) && p1.len() == p2.len()
                &&& forall|j: int| 0 <= j < p1.len() ==> type_mapped(types, #[trigger] p1[j], p2[j])
            },
            (
                TypeInfoView::Enum { name_idx: n1, size: s1, discriminant_type_idx: d1, variants: v1 },
                TypeInfoView::Enum { name_idx: n2, size: s2, discriminant_type_idx: d2, variants: v2 },
            ) => {
                &&& string_mapped(strings, n1, n2) && s1 == s2 && type_mapped(types, d1, d2) && v1.len() == v2.len()
                &&& forall|j: int| 0 <= j < v1.len() ==> string_mapped(strings, (#[trigger] v1[j]).name_idx, v2[j].name_idx)
                    && opt_type_mapped(types, v1[j].type_idx, v2[j].type_idx) && v1[j].payload_offset == v2[j].payload_offset
                    && v1[j].discriminant == v2[j].discriminant
            },
            (TypeInfoView::Unknown, TypeInfoView::Unknown) => true,
            _ => false,
        },
{
    match ty {
        TypeInfoView::Struct { name_idx, size, fields } => {
            lemma_try_map_at(fields, field_remapper(forest_index, strings, types));
        },
        TypeInfoView::Function { return_type_idx, param_type_indices } => {
            lemma_try_map_at(param_type_indices, type_remapper(forest_index, types));
        },
        TypeInfoView::Enum { name_idx, size, discriminant_type_idx, variants } => {
            lemma_try_map_at(variants, variant_remapper(forest_index, strings, types));
        },
        _ => {},
    }
}

} // verus!
