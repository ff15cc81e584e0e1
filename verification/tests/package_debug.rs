use miden_logic::debug_info::{
    DebugErrorMessage, DebugErrorMessagesSection, DebugFieldInfo, DebugFileInfo,
    DebugPrimitiveType, DebugSourcesSection, DebugTypeIdx, DebugTypeInfo, DebugTypesSection,
    DEBUG_SOURCE_GRAPH_VERSION,
};
use miden_logic::debug_merge::{
    remap_debug_type_info, DebugFunctionInfo, DebugFunctionsSection, PackageDebugInfoMergeError,
};
use std::collections::BTreeMap;
use miden_logic::package_debug::{MastForestRootMap, PackageDebugInfo};
use miden_logic::source_debug::{
    ColumnNumber, DebugSourceAsmOp, DebugSourceGraphSection, DebugSourceInlineCall,
    DebugSourceMapSection, DebugSourceNode, DebugSourceNodeId, LineNumber, MastNodeId,
};

fn graph(nodes: Vec<DebugSourceNode>, roots: Vec<DebugSourceNodeId>) -> DebugSourceGraphSection {
    DebugSourceGraphSection { version: DEBUG_SOURCE_GRAPH_VERSION, nodes, roots }
}

fn identity_map(n: u32) -> MastForestRootMap {
    MastForestRootMap::new(vec![(0..n).map(|i| (MastNodeId(i), MastNodeId(i))).collect()])
}

fn merge_one(info: &PackageDebugInfo) -> Result<PackageDebugInfo, PackageDebugInfoMergeError> {
    PackageDebugInfo::merge_source_debug(&[(0, info)], &identity_map(4))
}

#[test]
fn default_debug_info_is_empty() {
    let info = PackageDebugInfo::default();
    assert!(info.is_empty());
    assert!(info.types().is_none());
    assert!(info.error_message(1).is_none());
    let merged = merge_one(&info).unwrap();
    assert!(merged.is_empty());
}

#[test]
fn source_map_without_graph_is_refused() {
    let rows = DebugSourceMapSection::from_parts(
        vec![DebugSourceAsmOp::new(DebugSourceNodeId(0), 0, None, "c".into(), "add".into(), 1)],
        vec![],
    );
    let info = PackageDebugInfo { source_map: Some(rows), ..PackageDebugInfo::default() };
    assert_eq!(merge_one(&info).err(), Some(PackageDebugInfoMergeError::SourceMapWithoutGraph { forest_index: 0 }));

    let empty = PackageDebugInfo { source_map: Some(DebugSourceMapSection::new()), ..PackageDebugInfo::default() };
    assert!(merge_one(&empty).is_ok());
}

#[test]
fn unmapped_execution_node_is_refused() {
    let info = PackageDebugInfo::with_source_debug(
        graph(vec![DebugSourceNode::new(MastNodeId(9), vec![], 0, 1)], vec![DebugSourceNodeId(0)]),
        DebugSourceMapSection::new(),
    );
    assert_eq!(
        merge_one(&info).err(),
        Some(PackageDebugInfoMergeError::MissingExecNodeMapping { forest_index: 0, exec_node: MastNodeId(9) })
    );
}

#[test]
fn unknown_source_node_is_refused() {
    let info = PackageDebugInfo::with_source_debug(
        graph(vec![DebugSourceNode::new(MastNodeId(1), vec![], 0, 1)], vec![DebugSourceNodeId(0)]),
        DebugSourceMapSection::from_parts(
            vec![DebugSourceAsmOp::new(DebugSourceNodeId(5), 0, None, "c".into(), "add".into(), 1)],
            vec![],
        ),
    );
    assert_eq!(
        merge_one(&info).err(),
        Some(PackageDebugInfoMergeError::MissingSourceNodeMapping {
            forest_index: 0,
            source_node: DebugSourceNodeId(5)
        })
    );
}

#[test]
fn type_errors_are_refused() {
    let mut types = DebugTypesSection::new();
    types.add_type(DebugTypeInfo::Struct {
        name_idx: 3,
        size: 8,
        fields: vec![DebugFieldInfo { name_idx: 0, type_idx: DebugTypeIdx(0), offset: 0 }],
    });
    let info = PackageDebugInfo { types: Some(types), ..PackageDebugInfo::default() };
    assert_eq!(
        merge_one(&info).err(),
        Some(PackageDebugInfoMergeError::MissingTypeStringMapping { forest_index: 0, string_idx: 3 })
    );

    let mut types = DebugTypesSection::new();
    types.add_type(DebugTypeInfo::Pointer { pointee_type_idx: DebugTypeIdx(7) });
    let info = PackageDebugInfo { types: Some(types), ..PackageDebugInfo::default() };
    assert_eq!(
        merge_one(&info).err(),
        Some(PackageDebugInfoMergeError::MissingTypeMapping { forest_index: 0, type_idx: DebugTypeIdx(7) })
    );
}

#[test]
fn source_file_errors_are_refused() {
    let mut sources = DebugSourcesSection::new();
    sources.add_file(DebugFileInfo::new(4));
    let info = PackageDebugInfo { sources: Some(sources), ..PackageDebugInfo::default() };
    assert_eq!(
        merge_one(&info).err(),
        Some(PackageDebugInfoMergeError::MissingSourceStringMapping { forest_index: 0, string_idx: 4 })
    );
}

#[test]
fn function_errors_are_refused() {
    let mut functions = DebugFunctionsSection::new();
    let name = functions.add_string("f".into());
    functions.add_function(DebugFunctionInfo::new(name, 2, LineNumber(1), ColumnNumber(1)));
    let info = PackageDebugInfo { functions: Some(functions), ..PackageDebugInfo::default() };
    assert_eq!(
        merge_one(&info).err(),
        Some(PackageDebugInfoMergeError::MissingSourceFileMapping { forest_index: 0, file_idx: 2 })
    );

    let mut sources = DebugSourcesSection::new();
    let path = sources.add_string("a.masm".into());
    let file = sources.add_file(DebugFileInfo::new(path));
    let mut functions = DebugFunctionsSection::new();
    functions.add_function(DebugFunctionInfo::new(6, file, LineNumber(1), ColumnNumber(1)));
    let info = PackageDebugInfo { sources: Some(sources), functions: Some(functions), ..PackageDebugInfo::default() };
    assert_eq!(
        merge_one(&info).err(),
        Some(PackageDebugInfoMergeError::MissingFunctionStringMapping { forest_index: 0, string_idx: 6 })
    );
}

#[test]
fn inline_call_to_unknown_function_is_refused() {
    let mut sources = DebugSourcesSection::new();
    let path = sources.add_string("a.masm".into());
    let file = sources.add_file(DebugFileInfo::new(path));
    let info = PackageDebugInfo {
        sources: Some(sources),
        functions: Some(DebugFunctionsSection::new()),
        source_graph: Some(graph(vec![DebugSourceNode::new(MastNodeId(0), vec![], 0, 1)], vec![DebugSourceNodeId(0)])),
        source_map: Some(DebugSourceMapSection::from_parts_with_inline_calls(
            vec![],
            vec![],
            vec![DebugSourceInlineCall::new(DebugSourceNodeId(0), 0, 3, file, LineNumber(1), ColumnNumber(1))],
        )),
        ..PackageDebugInfo::default()
    };
    assert_eq!(
        merge_one(&info).err(),
        Some(PackageDebugInfoMergeError::MissingFunctionMapping { forest_index: 0, function_idx: 3 })
    );
}

#[test]
fn merged_types_share_strings_and_are_renumbered() {
    let make = |name: &str| {
        let mut types = DebugTypesSection::new();
        let s = types.add_string(name.into());
        let u8_ty = types.add_type(DebugTypeInfo::Primitive(DebugPrimitiveType::U8));
        types.add_type(DebugTypeInfo::Struct {
            name_idx: s,
            size: 1,
            fields: vec![DebugFieldInfo { name_idx: s, type_idx: u8_ty, offset: 0 }],
        });
        PackageDebugInfo { types: Some(types), ..PackageDebugInfo::default() }
    };
    let (a, b) = (make("point"), make("point"));
    let maps = MastForestRootMap::new(vec![vec![], vec![]]);
    let merged = PackageDebugInfo::merge_source_debug(&[(0, &a), (1, &b)], &maps).unwrap();
    let types = merged.types().unwrap();
    assert_eq!(types.strings.len(), 1);
    assert_eq!(types.types.len(), 4);
    match types.get_type(DebugTypeIdx(3)).unwrap() {
        DebugTypeInfo::Struct { name_idx, fields, .. } => {
            assert_eq!(*name_idx, 0);
            assert_eq!(fields[0].type_idx, DebugTypeIdx(2));
        }
        other => panic!("unexpected type {other:?}"),
    }
}

#[test]
fn merged_error_messages_are_ordered_and_first_wins() {
    let make = |rows: Vec<(u64, &str)>| PackageDebugInfo {
        error_messages: Some(DebugErrorMessagesSection::from_parts(
            rows.into_iter().map(|(c, m)| DebugErrorMessage::new(c, m.into())).collect(),
        )),
        ..PackageDebugInfo::default()
    };
    let a = make(vec![(30, "thirty"), (10, "ten")]);
    let b = make(vec![(10, "TEN"), (20, "twenty")]);
    let maps = MastForestRootMap::new(vec![vec![], vec![]]);
    let merged = PackageDebugInfo::merge_source_debug(&[(0, &a), (1, &b)], &maps).unwrap();
    let codes: Vec<u64> = merged.error_messages().unwrap().messages().iter().map(|m| m.err_code).collect();
    assert_eq!(codes, vec![10, 20, 30]);
    assert_eq!(merged.error_message(10), Some("ten".to_string()));
    assert_eq!(merged.error_message(20), Some("twenty".to_string()));
    assert_eq!(merged.error_message(99), None);
}

#[test]
fn root_map_lookup_takes_the_first_entry() {
    let map = MastForestRootMap::new(vec![vec![(MastNodeId(1), MastNodeId(5)), (MastNodeId(1), MastNodeId(6))]]);
    assert_eq!(map.map_node(0, &MastNodeId(1)), Some(MastNodeId(5)));
    assert_eq!(map.map_node(0, &MastNodeId(2)), None);
    assert_eq!(map.map_node(1, &MastNodeId(1)), None);
}

#[test]
fn type_definitions_are_remapped_through_the_maps() {
    let string_map: BTreeMap<u32, u32> = BTreeMap::from([(0, 10), (1, 11)]);
    let type_map: BTreeMap<u32, DebugTypeIdx> = BTreeMap::from([(0, DebugTypeIdx(5)), (2, DebugTypeIdx(7))]);
    let ty = DebugTypeInfo::Struct {
        name_idx: 1,
        size: 8,
        fields: vec![DebugFieldInfo { name_idx: 0, type_idx: DebugTypeIdx(2), offset: 4 }],
    };
    match remap_debug_type_info(3, &ty, &string_map, &type_map).unwrap() {
        DebugTypeInfo::Struct { name_idx, size, fields } => {
            assert_eq!((name_idx, size), (11, 8));
            assert_eq!(fields, vec![DebugFieldInfo { name_idx: 10, type_idx: DebugTypeIdx(7), offset: 4 }]);
        },
        other => panic!("unexpected {other:?}"),
    }
    let missing = DebugTypeInfo::Pointer { pointee_type_idx: DebugTypeIdx(1) };
    assert_eq!(
        remap_debug_type_info(3, &missing, &string_map, &type_map).err(),
        Some(PackageDebugInfoMergeError::MissingTypeMapping { forest_index: 3, type_idx: DebugTypeIdx(1) })
    );
}
