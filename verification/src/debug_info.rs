//! Type definitions for the debug-info sections of a package.
//!
//! The debug info sections hold type definitions, deduplicated source file paths, function
//! metadata and assertion error messages. Every section keeps its own string table, and indices
//! stored in rows are relative to the table of the section that owns them.
use vstd::prelude::*;

verus! {

// INDICES
// ================================================================================================

/// A strongly-typed index into the type table of a [`DebugTypesSection`].
#[derive(Debug, Clone, Copy, PartialEq, Eq, Structural)]
pub struct DebugTypeIdx(pub u32);

impl DebugTypeIdx {
    /// Returns the inner value as a `u32`.
    pub fn as_u32(self) -> (r: u32)
        ensures
            r == self.0,
    {
        self.0
    }
}

impl From<u32> for DebugTypeIdx {
    fn from(value: u32) -> (r: Self) {
        DebugTypeIdx(value)
    }
}

impl vstd::std_specs::convert::FromSpecImpl<u32> for DebugTypeIdx {
    open spec fn obeys_from_spec() -> bool {
        true
    }

    open spec fn from_spec(v: u32) -> DebugTypeIdx {
        DebugTypeIdx(v)
    }
}

impl From<DebugTypeIdx> for u32 {
    fn from(value: DebugTypeIdx) -> (r: Self) {
        value.0
    }
}

impl vstd::std_specs::convert::FromSpecImpl<DebugTypeIdx> for u32 {
    open spec fn obeys_from_spec() -> bool {
        true
    }

    open spec fn from_spec(v: DebugTypeIdx) -> u32 {
        v.0
    }
}

/// The conversions between indices and `u32` undo each other.
pub proof fn law_type_idx_round_trip(i: u32, idx: DebugTypeIdx)
    ensures
        <u32 as vstd::std_specs::convert::FromSpec<DebugTypeIdx>>::from_spec(
            <DebugTypeIdx as vstd::std_specs::convert::FromSpec<u32>>::from_spec(i),
        ) == i,
        <DebugTypeIdx as vstd::std_specs::convert::FromSpec<u32>>::from_spec(
            <u32 as vstd::std_specs::convert::FromSpec<DebugTypeIdx>>::from_spec(idx),
        ) == idx,
{
}

// STRING TABLES
// ================================================================================================

/// The views of the strings of a table.
pub open spec fn string_views(t: Seq<String>) -> Seq<Seq<char>> {
    t.map_values(|s: String| s@)
}

/// True when `s` occurs in the table `t`.
pub open spec fn table_contains(t: Seq<Seq<char>>, s: Seq<char>) -> bool {
    exists|i: int| 0 <= i < t.len() && t[i] == s
}

/// The index at which interning `s` into `t` places it: its first occurrence when present,
/// otherwise the end of the table.
pub open spec fn intern_index(t: Seq<Seq<char>>, s: Seq<char>) -> nat {
    if table_contains(t, s) {
        (choose|i: int| 0 <= i < t.len() && t[i] == s && forall|j: int| 0 <= j < i ==> t[j] != s)
            as nat
    } else {
        t.len()
    }
}

/// The table after interning `s`: unchanged when `s` is present, otherwise `s` appended.
pub open spec fn intern_table(t: Seq<Seq<char>>, s: Seq<char>) -> Seq<Seq<char>> {
    if table_contains(t, s) {
        t
    } else {
        t.push(s)
    }
}

/// True when no string occurs twice in the table.
pub open spec fn no_duplicates(t: Seq<Seq<char>>) -> bool {
    forall|i: int, j: int| 0 <= i < t.len() && 0 <= j < t.len() && i != j ==> t[i] != t[j]
}

/// Interning a string and then reading the index it returns gives the string back, and the
/// table keeps every string it held.
pub proof fn law_interned_string_read_back(t: Seq<Seq<char>>, s: Seq<char>)
    ensures
        intern_index(t, s) < intern_table(t, s).len(),
        intern_table(t, s)[intern_index(t, s) as int] == s,
        forall|i: int| 0 <= i < t.len() ==> intern_table(t, s)[i] == t[i],
{
    if table_contains(t, s) {
        let w = choose|i: int| 0 <= i < t.len() && t[i] == s;
        lemma_first_occurrence_exists(t, s, w);
    }
}

proof fn lemma_first_occurrence_exists(t: Seq<Seq<char>>, s: Seq<char>, w: int)
    requires
        0 <= w < t.len(),
        t[w] == s,
    ensures
        exists|i: int| 0 <= i < t.len() && t[i] == s && forall|j: int| 0 <= j < i ==> t[j] != s,
    decreases w,
{
    if exists|j: int| 0 <= j < w && t[j] == s {
        let j = choose|j: int| 0 <= j < w && t[j] == s;
        lemma_first_occurrence_exists(t, s, j);
    } else {
        assert(0 <= w < t.len() && t[w] == s && forall|j: int| 0 <= j < w ==> t[j] != s);
    }
}

proof fn lemma_first_index_unique(t: Seq<Seq<char>>, s: Seq<char>, i: int)
    requires
        0 <= i < t.len(),
        t[i] == s,
        forall|j: int| 0 <= j < i ==> t[j] != s,
    ensures
        intern_index(t, s) == i,
{
    let c = choose|c: int| 0 <= c < t.len() && t[c] == s && forall|j: int| 0 <= j < c ==> t[j] != s;
    assert(0 <= c < t.len() && t[c] == s && forall|j: int| 0 <= j < c ==> t[j] != s);
    if c < i {
        assert(t[c] != s);
    } else if c > i {
        assert(t[i] != s);
    }
}

/// Interning keeps a string table free of duplicates, places the string at the index it returns,
/// and interning the same string again returns the same index and leaves the table unchanged.
pub proof fn law_intern_dedup(t: Seq<Seq<char>>, s: Seq<char>)
    requires
        no_duplicates(t),
    ensures
        no_duplicates(intern_table(t, s)),
        intern_index(t, s) < intern_table(t, s).len(),
        intern_table(t, s)[intern_index(t, s) as int] == s,
        intern_table(intern_table(t, s), s) == intern_table(t, s),
        intern_index(intern_table(t, s), s) == intern_index(t, s),
{
    let t2 = intern_table(t, s);
    if table_contains(t, s) {
        let c = choose|c: int| 0 <= c < t.len() && t[c] == s && forall|j: int| 0 <= j < c ==> t[j] != s;
        let w = choose|i: int| 0 <= i < t.len() && t[i] == s;
        assert(0 <= w < t.len() && t[w] == s);
        assert forall|j: int| 0 <= j < w implies t[j] != s by {
            assert(t[j] != t[w]);
        }
        lemma_first_index_unique(t, s, w);
    } else {
        assert(t2[t.len() as int] == s);
        assert(table_contains(t2, s));
        assert forall|j: int| 0 <= j < t.len() implies t2[j] != s by {
            assert(t2[j] == t[j]);
        }
        lemma_first_index_unique(t2, s, t.len() as int);
    }
}

/// Adds `s` to the string table unless an equal string is already there, returning its index.
pub(crate) fn intern_string(strings: &mut Vec<String>, s: String) -> (r: u32)
    requires
        old(strings)@.len() <= u32::MAX,
    ensures
        r as nat == intern_index(string_views(old(strings)@), s@),
        string_views(final(strings)@) == intern_table(string_views(old(strings)@), s@),
        (r as int) < final(strings)@.len(),
        final(strings)@[r as int]@ == s@,
        table_contains(string_views(old(strings)@), s@) ==> final(strings)@ == old(strings)@,
{
    let ghost t = string_views(strings@);
    let n = strings.len();
    let mut i: usize = 0;
    while i < n
        invariant
            n == strings@.len(),
            n <= u32::MAX,
            t == string_views(strings@),
            i <= n,
            forall|j: int| 0 <= j < i ==> t[j] != s@,
        decreases n - i,
    {
        if strings[i] == s {
            proof {
                lemma_first_index_unique(t, s@, i as int);
            }
            return i as u32;
        }
        i += 1;
    }
    proof {
        assert(!table_contains(t, s@));
    }
    strings.push(s);
    proof {
        assert(string_views(strings@) =~= t.push(s@));
    }
    n as u32
}

/// Returns a copy of the string at `idx`, if present.
pub(crate) fn string_at(strings: &Vec<String>, idx: u32) -> (r: Option<String>)
    ensures
        (idx as int) < strings@.len() ==> (r matches Some(s) && s@ == strings@[idx as int]@),
        (idx as int) >= strings@.len() ==> r is None,
{
    if (idx as usize) < strings.len() {
        Some(strings[idx as usize].clone())
    } else {
        None
    }
}

// DEBUG TYPES SECTION
// ================================================================================================

/// The version of the debug_types section format.
pub const DEBUG_TYPES_VERSION: u8 = 1;

/// The version of the debug_sources section format.
pub const DEBUG_SOURCES_VERSION: u8 = 1;

/// The version of the debug_functions section format.
pub const DEBUG_FUNCTIONS_VERSION: u8 = 2;

/// The version of the debug_source_graph section format.
pub const DEBUG_SOURCE_GRAPH_VERSION: u8 = 1;

/// The version of the debug_source_map section format.
pub const DEBUG_SOURCE_MAP_VERSION: u8 = 1;

/// The version of the debug_error_messages section format.
pub const DEBUG_ERROR_MESSAGES_VERSION: u8 = 1;

/// Debug types section containing type definitions.
///
/// String indices in rows (e.g. `name_idx` in [`DebugFieldInfo`]) are relative to this section's
/// own string table.
#[derive(Debug, Clone)]
pub struct DebugTypesSection {
    /// Version of the debug types format.
    pub version: u8,
    /// String table containing type names and field names.
    pub strings: Vec<String>,
    /// Type table containing all type definitions.
    pub types: Vec<DebugTypeInfo>,
}

impl DebugTypesSection {
    /// Creates a new empty debug types section.
    pub fn new() -> (r: Self)
        ensures
            r.version == DEBUG_TYPES_VERSION,
            r.strings@.len() == 0,
            r.types@.len() == 0,
    {
        DebugTypesSection { version: DEBUG_TYPES_VERSION, strings: Vec::new(), types: Vec::new() }
    }

    /// Adds a string to the string table and returns its index; an equal string already in the
    /// table is reused.
    pub fn add_string(&mut self, s: String) -> (r: u32)
        requires
            old(self).strings@.len() <= u32::MAX,
        ensures
            r as nat == intern_index(string_views(old(self).strings@), s@),
            string_views(final(self).strings@) == intern_table(string_views(old(self).strings@), s@),
            (r as int) < final(self).strings@.len(),
            final(self).strings@[r as int]@ == s@,
            final(self).types == old(self).types,
            final(self).version == old(self).version,
    {
        intern_string(&mut self.strings, s)
    }

    /// Gets a string by index.
    pub fn get_string(&self, idx: u32) -> (r: Option<String>)
        ensures
            (idx as int) < self.strings@.len() ==> (r matches Some(s) && s@ == self.strings@[idx as int]@),
            (idx as int) >= self.strings@.len() ==> r is None,
    {
        string_at(&self.strings, idx)
    }

    /// Adds a type to the type table and returns its index.
    pub fn add_type(&mut self, ty: DebugTypeInfo) -> (r: DebugTypeIdx)
        requires
            old(self).types@.len() <= u32::MAX,
        ensures
            r.0 == old(self).types@.len(),
            final(self).types@ == old(self).types@.push(ty),
            final(self).strings == old(self).strings,
            final(self).version == old(self).version,
    {
        let idx = DebugTypeIdx(self.types.len() as u32);
        self.types.push(ty);
        idx
    }

    /// Gets a type by index.
    pub fn get_type(&self, idx: DebugTypeIdx) -> (r: Option<&DebugTypeInfo>)
        ensures
            (idx.0 as int) < self.types@.len() ==> r == Some(&self.types@[idx.0 as int]),
            (idx.0 as int) >= self.types@.len() ==> r is None,
    {
        if (idx.0 as usize) < self.types.len() {
            Some(&self.types[idx.0 as usize])
        } else {
            None
        }
    }

    /// Returns true if the section is empty (no types).
    pub fn is_empty(&self) -> (r: bool)
        ensures
            r == (self.types@.len() == 0),
    {
        self.types.len() == 0
    }
}

// DEBUG SOURCES SECTION
// ================================================================================================

/// Source file information: a path (index into the string table of the owning section) and an
/// optional checksum of the file content.
#[derive(Debug, Clone, Copy)]
pub struct DebugFileInfo {
    /// Full path to the source file (index into string table).
    pub path_idx: u32,
    /// Optional checksum of the file content.
    pub checksum: Option<[u8; 32]>,
}

/// True when both checksums are absent, or both present with the same bytes.
pub open spec fn same_checksum(a: Option<[u8; 32]>, b: Option<[u8; 32]>) -> bool {
    match (a, b) {
        (None, None) => true,
        (Some(x), Some(y)) => x@ == y@,
        _ => false,
    }
}

impl DebugFileInfo {
    /// Creates a new file info with a path and no checksum.
    pub fn new(path_idx: u32) -> (r: Self)
        ensures
            r.path_idx == path_idx,
            r.checksum is None,
    {
        DebugFileInfo { path_idx, checksum: None }
    }

    /// Sets the checksum.
    pub fn with_checksum(self, checksum: [u8; 32]) -> (r: Self)
        ensures
            r.path_idx == self.path_idx,
            r.checksum == Some(checksum),
    {
        DebugFileInfo { path_idx: self.path_idx, checksum: Some(checksum) }
    }

    /// Returns true if both file records have the same path index and checksum.
    pub fn same_as(&self, other: &DebugFileInfo) -> (r: bool)
        ensures
            r == (self.path_idx == other.path_idx && same_checksum(self.checksum, other.checksum)),
    {
        if self.path_idx != other.path_idx {
            return false;
        }
        match (self.checksum, other.checksum) {
            (None, None) => true,
            (Some(a), Some(b)) => {
                let mut i: usize = 0;
                while i < 32
                    invariant
                        i <= 32,
                        self.path_idx == other.path_idx,
                        self.checksum == Some(a),
                        other.checksum == Some(b),
                        a@.len() == 32,
                        b@.len() == 32,
                        forall|j: int| 0 <= j < i ==> a@[j] == b@[j],
                    decreases 32 - i,
                {
                    if a[i] != b[i] {
                        proof {
                            assert(a@[i as int] != b@[i as int]);
                            assert(a@ != b@);
                        }
                        return false;
                    }
                    i += 1;
                }
                proof {
                    assert(a@ =~= b@);
                }
                true
            },
            _ => false,
        }
    }
}

/// The index of the first file in `files` with path index `path_idx`, or the table length.
pub open spec fn file_index_by_path(files: Seq<DebugFileInfo>, path_idx: u32) -> nat {
    if exists|i: int| 0 <= i < files.len() && files[i].path_idx == path_idx {
        (choose|i: int|
            0 <= i < files.len() && files[i].path_idx == path_idx && forall|j: int|
                0 <= j < i ==> files[j].path_idx != path_idx) as nat
    } else {
        files.len()
    }
}

/// Debug sources section containing source file paths and checksums.
#[derive(Debug, Clone)]
pub struct DebugSourcesSection {
    /// Version of the debug sources format.
    pub version: u8,
    /// String table containing file paths.
    pub strings: Vec<String>,
    /// Source file table.
    pub files: Vec<DebugFileInfo>,
}

impl DebugSourcesSection {
    /// Creates a new empty debug sources section.
    pub fn new() -> (r: Self)
        ensures
            r.version == DEBUG_SOURCES_VERSION,
            r.strings@.len() == 0,
            r.files@.len() == 0,
    {
        DebugSourcesSection { version: DEBUG_SOURCES_VERSION, strings: Vec::new(), files: Vec::new() }
    }

    /// Adds a string to the string table and returns its index; an equal string already in the
    /// table is reused.
    pub fn add_string(&mut self, s: String) -> (r: u32)
        requires
            old(self).strings@.len() <= u32::MAX,
        ensures
            r as nat == intern_index(string_views(old(self).strings@), s@),
            string_views(final(self).strings@) == intern_table(string_views(old(self).strings@), s@),
            (r as int) < final(self).strings@.len(),
            final(self).strings@[r as int]@ == s@,
            final(self).files == old(self).files,
            final(self).version == old(self).version,
    {
        intern_string(&mut self.strings, s)
    }

    /// Gets a string by index.
    pub fn get_string(&self, idx: u32) -> (r: Option<String>)
        ensures
            (idx as int) < self.strings@.len() ==> (r matches Some(s) && s@ == self.strings@[idx as int]@),
            (idx as int) >= self.strings@.len() ==> r is None,
    {
        string_at(&self.strings, idx)
    }

    /// Adds a file to the file table and returns its index; a file with the same path index
    /// already in the table is reused.
    pub fn add_file(&mut self, file: DebugFileInfo) -> (r: u32)
        requires
            old(self).files@.len() <= u32::MAX,
        ensures
            r as nat == file_index_by_path(old(self).files@, file.path_idx),
            (exists|i: int|
                0 <= i < old(self).files@.len() && old(self).files@[i].path_idx == file.path_idx)
                ==> final(self).files@ == old(self).files@,
            !(exists|i: int|
                0 <= i < old(self).files@.len() && old(self).files@[i].path_idx == file.path_idx)
                ==> final(self).files@ == old(self).files@.push(file),
            (r as int) < final(self).files@.len(),
            final(self).files@[r as int].path_idx == file.path_idx,
            final(self).strings == old(self).strings,
            final(self).version == old(self).version,
    {
        let ghost f = self.files@;
        let n = self.files.len();
        let mut i: usize = 0;
        while i < n
            invariant
                n == self.files@.len(),
                n <= u32::MAX,
                f == self.files@,
                i <= n,
                forall|j: int| 0 <= j < i ==> f[j].path_idx != file.path_idx,
            decreases n - i,
        {
            if self.files[i].path_idx == file.path_idx {
                proof {
                    let c = choose|c: int|
                        0 <= c < f.len() && f[c].path_idx == file.path_idx && forall|j: int|
                            0 <= j < c ==> f[j].path_idx != file.path_idx;
                    assert(exists|k: int| 0 <= k < f.len() && f[k].path_idx == file.path_idx) by {
                        assert(f[i as int].path_idx == file.path_idx);
                    }
                    if c < i {
                        assert(f[c].path_idx != file.path_idx);
                    } else if c > i {
                        assert(f[i as int].path_idx != file.path_idx);
                    }
                }
                return i as u32;
            }
            i += 1;
        }
        self.files.push(file);
        n as u32
    }

    /// Gets a file by index.
    pub fn get_file(&self, idx: u32) -> (r: Option<&DebugFileInfo>)
        ensures
            (idx as int) < self.files@.len() ==> r == Some(&self.files@[idx as int]),
            (idx as int) >= self.files@.len() ==> r is None,
    {
        if (idx as usize) < self.files.len() {
            Some(&self.files[idx as usize])
        } else {
            None
        }
    }

    /// Returns true if the section is empty (no files).
    pub fn is_empty(&self) -> (r: bool)
        ensures
            r == (self.files@.len() == 0),
    {
        self.files.len() == 0
    }
}

// DEBUG TYPE INFO
// ================================================================================================

/// Primitive type variants supported by the debug info format.
///
/// New variants must be added at the end to maintain backwards compatibility with previously
/// serialized debug info.
#[derive(Debug, Clone, Copy, PartialEq, Eq, Structural)]
pub enum DebugPrimitiveType {
    /// Void type (0 bytes)
    Void,
    /// Boolean (1 byte)
    Bool,
    /// Signed 8-bit integer
    I8,
    /// Unsigned 8-bit integer
    U8,
    /// Signed 16-bit integer
    I16,
    /// Unsigned 16-bit integer
    U16,
    /// Signed 32-bit integer
    I32,
    /// Unsigned 32-bit integer
    U32,
    /// Signed 64-bit integer
    I64,
    /// Unsigned 64-bit integer
    U64,
    /// Signed 128-bit integer
    I128,
    /// Unsigned 128-bit integer
    U128,
    /// 32-bit floating point
    F32,
    /// 64-bit floating point
    F64,
    /// Miden field element (64-bit, but with field semantics)
    Felt,
    /// Miden word (4 field elements)
    Word,
    /// Unsigned 256-bit integer
    U256,
}

/// The discriminant byte of a primitive type: its position in the declaration order.
pub open spec fn primitive_discriminant(t: DebugPrimitiveType) -> u8 {
    match t {
        DebugPrimitiveType::Void => 0,
        DebugPrimitiveType::Bool => 1,
        DebugPrimitiveType::I8 => 2,
        DebugPrimitiveType::U8 => 3,
        DebugPrimitiveType::I16 => 4,
        DebugPrimitiveType::U16 => 5,
        DebugPrimitiveType::I32 => 6,
        DebugPrimitiveType::U32 => 7,
        DebugPrimitiveType::I64 => 8,
        DebugPrimitiveType::U64 => 9,
        DebugPrimitiveType::I128 => 10,
        DebugPrimitiveType::U128 => 11,
        DebugPrimitiveType::F32 => 12,
        DebugPrimitiveType::F64 => 13,
        DebugPrimitiveType::Felt => 14,
        DebugPrimitiveType::Word => 15,
        DebugPrimitiveType::U256 => 16,
    }
}

impl DebugPrimitiveType {
    /// Converts a discriminant byte to a primitive type.
    pub fn from_discriminant(discriminant: u8) -> (r: Option<Self>)
        ensures
            discriminant <= 16 ==> (r matches Some(t) && primitive_discriminant(t) == discriminant),
            discriminant > 16 ==> r is None,
    {
        match discriminant {
            0 => Some(DebugPrimitiveType::Void),
            1 => Some(DebugPrimitiveType::Bool),
            2 => Some(DebugPrimitiveType::I8),
            3 => Some(DebugPrimitiveType::U8),
            4 => Some(DebugPrimitiveType::I16),
            5 => Some(DebugPrimitiveType::U16),
            6 => Some(DebugPrimitiveType::I32),
            7 => Some(DebugPrimitiveType::U32),
            8 => Some(DebugPrimitiveType::I64),
            9 => Some(DebugPrimitiveType::U64),
            10 => Some(DebugPrimitiveType::I128),
            11 => Some(DebugPrimitiveType::U128),
            12 => Some(DebugPrimitiveType::F32),
            13 => Some(DebugPrimitiveType::F64),
            14 => Some(DebugPrimitiveType::Felt),
            15 => Some(DebugPrimitiveType::Word),
            16 => Some(DebugPrimitiveType::U256),
            _ => None,
        }
    }

    /// Returns the discriminant byte of this primitive type.
    pub fn discriminant(self) -> (r: u8)
        ensures
            r == primitive_discriminant(self),
    {
        match self {
            DebugPrimitiveType::Void => 0,
            DebugPrimitiveType::Bool => 1,
            DebugPrimitiveType::I8 => 2,
            DebugPrimitiveType::U8 => 3,
            DebugPrimitiveType::I16 => 4,
            DebugPrimitiveType::U16 => 5,
            DebugPrimitiveType::I32 => 6,
            DebugPrimitiveType::U32 => 7,
            DebugPrimitiveType::I64 => 8,
            DebugPrimitiveType::U64 => 9,
            DebugPrimitiveType::I128 => 10,
            DebugPrimitiveType::U128 => 11,
            DebugPrimitiveType::F32 => 12,
            DebugPrimitiveType::F64 => 13,
            DebugPrimitiveType::Felt => 14,
            DebugPrimitiveType::Word => 15,
            DebugPrimitiveType::U256 => 16,
        }
    }
}

/// Every discriminant byte up to 16 decodes to the primitive type whose discriminant it is, and
/// every primitive type's discriminant decodes back to that type; bytes above 16 decode to nothing.
pub proof fn law_primitive_discriminant_roundtrip(t: DebugPrimitiveType)
    ensures
        primitive_discriminant(t) <= 16,
        forall|u: DebugPrimitiveType|
            primitive_discriminant(u) == primitive_discriminant(t) ==> u == t,
{
}

/// Field information within a struct type.
#[derive(Debug, Clone, Copy, PartialEq, Eq, Structural)]
pub struct DebugFieldInfo {
    /// Name of the field (index into string table)
    pub name_idx: u32,
    /// Type of the field (index into type table)
    pub type_idx: DebugTypeIdx,
    /// Byte offset within the struct
    pub offset: u32,
}

/// Variant information within an enum type.
#[derive(Debug, Clone, Copy, PartialEq, Eq, Structural)]
pub struct DebugVariantInfo {
    /// Name of the variant (index into string table).
    pub name_idx: u32,
    /// Payload type of this variant (index into type table), if present.
    pub type_idx: Option<DebugTypeIdx>,
    /// Byte offset of the payload from the base of the enum value, if present.
    pub payload_offset: Option<u32>,
    /// Discriminant value for this variant.
    pub discriminant: u128,
}

/// Type information for debug purposes.
#[derive(Debug, Clone)]
pub enum DebugTypeInfo {
    /// A primitive type (e.g., i32, i64, felt, etc.)
    Primitive(DebugPrimitiveType),
    /// A pointer type pointing to another type
    Pointer {
        /// The type being pointed to (index into type table)
        pointee_type_idx: DebugTypeIdx,
    },
    /// An array type
    Array {
        /// The element type (index into type table)
        element_type_idx: DebugTypeIdx,
        /// Number of elements (None for dynamically-sized arrays)
        count: Option<u32>,
    },
    /// A struct type
    Struct {
        /// Name of the struct (index into string table)
        name_idx: u32,
        /// Size in bytes
        size: u32,
        /// Fields of the struct
        fields: Vec<DebugFieldInfo>,
    },
    /// A function type
    Function {
        /// Return type (index into type table, None for void)
        return_type_idx: Option<DebugTypeIdx>,
        /// Parameter types (indices into type table)
        param_type_indices: Vec<DebugTypeIdx>,
    },
    /// An enum type.
    Enum {
        /// Name of the enum (index into string table).
        name_idx: u32,
        /// Size in bytes.
        size: u32,
        /// Type of the enum discriminant.
        discriminant_type_idx: DebugTypeIdx,
        /// Variants of the enum.
        variants: Vec<DebugVariantInfo>,
    },
    /// An unknown or opaque type
    Unknown,
}

/// The mathematical content of a [`DebugTypeInfo`], with sequences in place of vectors.
pub enum TypeInfoView {
    Primitive(DebugPrimitiveType),
    Pointer { pointee_type_idx: DebugTypeIdx },
    Array { element_type_idx: DebugTypeIdx, count: Option<u32> },
    Struct { name_idx: u32, size: u32, fields: Seq<DebugFieldInfo> },
    Function { return_type_idx: Option<DebugTypeIdx>, param_type_indices: Seq<DebugTypeIdx> },
    Enum {
        name_idx: u32,
        size: u32,
        discriminant_type_idx: DebugTypeIdx,
        variants: Seq<DebugVariantInfo>,
    },
    Unknown,
}

impl View for DebugTypeInfo {
    type V = TypeInfoView;

    open spec fn view(&self) -> TypeInfoView {
        match self {
            DebugTypeInfo::Primitive(p) => TypeInfoView::Primitive(*p),
            DebugTypeInfo::Pointer { pointee_type_idx } => TypeInfoView::Pointer {
                pointee_type_idx: *pointee_type_idx,
            },
            DebugTypeInfo::Array { element_type_idx, count } => TypeInfoView::Array {
                element_type_idx: *element_type_idx,
                count: *count,
            },
            DebugTypeInfo::Struct { name_idx, size, fields } => TypeInfoView::Struct {
                name_idx: *name_idx,
                size: *size,
                fields: fields@,
            },
            DebugTypeInfo::Function { return_type_idx, param_type_indices } =>
                TypeInfoView::Function {
                    return_type_idx: *return_type_idx,
                    param_type_indices: param_type_indices@,
                },
            DebugTypeInfo::Enum { name_idx, size, discriminant_type_idx, variants } =>
                TypeInfoView::Enum {
                    name_idx: *name_idx,
                    size: *size,
                    discriminant_type_idx: *discriminant_type_idx,
                    variants: variants@,
                },
            DebugTypeInfo::Unknown => TypeInfoView::Unknown,
        }
    }
}

// DEBUG ERROR MESSAGES SECTION
// ================================================================================================

/// Assertion error message keyed by its runtime error code.
#[derive(Debug, Clone)]
pub struct DebugErrorMessage {
    /// Runtime error code emitted by the assembled assertion operation.
    pub err_code: u64,
    /// Human-readable assertion error message from source.
    pub message: String,
}

impl DebugErrorMessage {
    /// Creates an assertion error message metadata row.
    pub fn new(err_code: u64, message: String) -> (r: Self)
        ensures
            r.err_code == err_code,
            r.message@ == message@,
    {
        DebugErrorMessage { err_code, message }
    }
}

/// Package-owned assertion error messages.
#[derive(Debug, Clone)]
pub struct DebugErrorMessagesSection {
    /// Version of the debug error messages format.
    version: u8,
    /// Error messages keyed by runtime error code.
    messages: Vec<DebugErrorMessage>,
}

/// The index of the first row with error code `code`, if any.
pub open spec fn first_message_index(rows: Seq<DebugErrorMessage>, code: u64) -> Option<int> {
    if exists|i: int| 0 <= i < rows.len() && rows[i].err_code == code {
        Some(
            choose|i: int|
                0 <= i < rows.len() && rows[i].err_code == code && forall|j: int|
                    0 <= j < i ==> rows[j].err_code != code,
        )
    } else {
        None
    }
}

impl DebugErrorMessagesSection {
    /// The section format version.
    pub closed spec fn spec_version(&self) -> u8 {
        self.version
    }

    /// The message rows of the section.
    pub closed spec fn spec_messages(&self) -> Seq<DebugErrorMessage> {
        self.messages@
    }

    /// Creates an empty assertion error message section.
    pub fn new() -> (r: Self)
        ensures
            r.spec_version() == DEBUG_ERROR_MESSAGES_VERSION,
            r.spec_messages().len() == 0,
    {
        DebugErrorMessagesSection { version: DEBUG_ERROR_MESSAGES_VERSION, messages: Vec::new() }
    }

    /// Creates an assertion error message section from rows.
    pub fn from_parts(messages: Vec<DebugErrorMessage>) -> (r: Self)
        ensures
            r.spec_version() == DEBUG_ERROR_MESSAGES_VERSION,
            r.spec_messages() == messages@,
    {
        DebugErrorMessagesSection { version: DEBUG_ERROR_MESSAGES_VERSION, messages }
    }

    /// Returns the error message section format version.
    pub fn version(&self) -> (r: u8)
        ensures
            r == self.spec_version(),
    {
        self.version
    }

    /// Returns error message rows.
    pub fn messages(&self) -> (r: &[DebugErrorMessage])
        ensures
            r@ == self.spec_messages(),
    {
        self.messages.as_slice()
    }

    /// Returns true if the section contains no metadata rows.
    pub fn is_empty(&self) -> (r: bool)
        ensures
            r == (self.spec_messages().len() == 0),
    {
        self.messages.len() == 0
    }

    /// Returns the assertion error message for `err_code`: the message of the first row with that
    /// code, if any.
    pub fn message(&self, err_code: u64) -> (r: Option<String>)
        ensures
            match first_message_index(self.spec_messages(), err_code) {
                None => r is None,
                Some(i) => (r matches Some(m) && m@ == self.spec_messages()[i].message@),
            },
    {
        let ghost rows = self.messages@;
        let n = self.messages.len();
        let mut i: usize = 0;
        while i < n
            invariant
                n == rows.len(),
                rows == self.messages@,
                i <= n,
                forall|j: int| 0 <= j < i ==> rows[j].err_code != err_code,
            decreases n - i,
        {
            if self.messages[i].err_code == err_code {
                proof {
                    assert(rows[i as int].err_code == err_code);
                    let c = choose|c: int|
                        0 <= c < rows.len() && rows[c].err_code == err_code && forall|j: int|
                            0 <= j < c ==> rows[j].err_code != err_code;
                    if c < i {
                        assert(rows[c].err_code != err_code);
                    } else if c > i {
                        assert(rows[i as int].err_code != err_code);
                    }
                }
                return Some(self.messages[i].message.clone());
            }
            i += 1;
        }
        None
    }
}

} // verus!
