use miden_logic::debug_info::{DebugFileInfo, DebugSourcesSection, DEBUG_SOURCE_GRAPH_VERSION};
use miden_logic::debug_merge::{DebugFunctionInfo, DebugFunctionsSection};
use miden_logic::package_debug::{MastForestRootMap, PackageDebugInfo};
use miden_logic::source_debug::{
    ColumnNumber, DebugSourceAsmOp, DebugSourceGraphLookupError, DebugSourceGraphSection,
    DebugSourceInlineCall, DebugSourceMapSection, DebugSourceNode, DebugSourceNodeId,
    DebugSourceVar, DebugVarInfo, DebugVarLocation, LineNumber, MastNodeId,
};

fn sid(i: u32) -> DebugSourceNodeId {
    DebugSourceNodeId(i)
}

#[test]
fn test_debug_functions_section_string_dedup() {
    let mut section = DebugFunctionsSection::new();

    let idx1 = section.add_string(String::from("foo"));
    let idx2 = section.add_string(String::from("bar"));
    let idx3 = section.add_string(String::from("foo")); // Duplicate

    assert_eq!(idx1, 0);
    assert_eq!(idx2, 1);
    assert_eq!(idx3, 0);
    assert_eq!(section.strings.len(), 2);
}

#[test]
fn test_debug_source_map_inline_calls_are_keyed_by_source_operation() {
    let source_a = sid(0);
    let source_b = sid(1);
    let inline_a = DebugSourceInlineCall::new(source_a, 3, 0, 0, LineNumber(10), ColumnNumber(4));
    let inline_b = DebugSourceInlineCall::new(source_b, 3, 1, 0, LineNumber(20), ColumnNumber(8));
    let source_map =
        DebugSourceMapSection::from_parts_with_inline_calls(vec![], vec![], vec![inline_a, inline_b]);

    assert_eq!(source_map.inline_calls(), &[inline_a, inline_b]);
    assert_eq!(source_map.inline_calls_for_operation(source_a, 3), vec![inline_a]);
    assert!(source_map.inline_calls_for_operation(source_a, 4).is_empty());
}

fn debug_info_for_block(block: MastNodeId, context: &str, var_name: &str) -> PackageDebugInfo {
    let source_node = sid(0);
    let mut sources = DebugSourcesSection::new();
    let path_idx = sources.add_string(format!("{context}.masm"));
    let file_idx = sources.add_file(DebugFileInfo::new(path_idx));
    let mut functions = DebugFunctionsSection::new();
    let name_idx = functions.add_string(format!("{context}_callee"));
    functions.add_function(DebugFunctionInfo::new(name_idx, file_idx, LineNumber(7), ColumnNumber(3)));
    PackageDebugInfo {
        sources: Some(sources),
        functions: Some(functions),
        source_graph: Some(DebugSourceGraphSection {
            version: DEBUG_SOURCE_GRAPH_VERSION,
            nodes: vec![DebugSourceNode::new(block, vec![], 0, 1)],
            roots: vec![source_node],
        }),
        source_map: Some(DebugSourceMapSection::from_parts_with_inline_calls(
            vec![DebugSourceAsmOp::new(source_node, 0, None, context.into(), "add".into(), 1)],
            vec![DebugSourceVar::new(
                source_node,
                0,
                DebugVarInfo::new(var_name.into(), DebugVarLocation::Stack(0)),
            )],
            vec![DebugSourceInlineCall::new(source_node, 0, 0, file_idx, LineNumber(9), ColumnNumber(5))],
        )),
        ..PackageDebugInfo::default()
    }
}

#[test]
fn test_package_source_debug_merge_remaps_execution_nodes_without_collapsing_sources() {
    // Two forests each holding one identical block; merging them collapses both blocks into one.
    let (block_a, block_b) = (MastNodeId(0), MastNodeId(0));
    let debug_a = debug_info_for_block(block_a, "alias_a", "x");
    let debug_b = debug_info_for_block(block_b, "alias_b", "y");
    let merged_node = MastNodeId(0);
    let root_map = MastForestRootMap::new(vec![vec![(block_a, merged_node)], vec![(block_b, merged_node)]]);
    let merged_a = root_map.map_node(0, &block_a).unwrap();
    let merged_b = root_map.map_node(1, &block_b).unwrap();
    assert_eq!(merged_a, merged_b);

    let merged_debug =
        PackageDebugInfo::merge_source_debug(&[(0, &debug_a), (1, &debug_b)], &root_map).unwrap();
    let source_graph = merged_debug.source_graph.as_ref().unwrap();
    assert_eq!(source_graph.nodes.len(), 2);
    assert_eq!(source_graph.roots.len(), 2);
    assert!(source_graph.nodes.iter().all(|node| node.exec_node == merged_a));

    let source_a = source_graph.roots[0];
    let source_b = source_graph.roots[1];
    assert_ne!(source_a, source_b);
    assert_eq!(merged_debug.first_asm_op_for_source_node(source_a).unwrap().context_name, "alias_a");
    assert_eq!(merged_debug.first_asm_op_for_source_node(source_b).unwrap().context_name, "alias_b");
    let names = |s| {
        merged_debug
            .debug_vars_for_operation(s, 0)
            .iter()
            .map(|row| row.var.name().clone())
            .collect::<Vec<_>>()
    };
    assert_eq!(names(source_a), vec!["x"]);
    assert_eq!(names(source_b), vec!["y"]);

    let sources = merged_debug.sources.as_ref().unwrap();
    let functions = merged_debug.functions.as_ref().unwrap();
    let inline_a = merged_debug.inline_calls_for_operation(source_a, 0);
    let inline_b = merged_debug.inline_calls_for_operation(source_b, 0);
    assert_eq!(inline_a.len(), 1);
    assert_eq!(inline_b.len(), 1);

    let file_a = sources.get_file(inline_a[0].file_idx).unwrap();
    let path_a = sources.get_string(file_a.path_idx).unwrap();
    let function_a = &functions.functions[inline_a[0].callee_idx as usize];
    let function_name_a = functions.get_string(function_a.name_idx).unwrap();
    assert_eq!(path_a, "alias_a.masm");
    assert_eq!(function_name_a, "alias_a_callee");
    assert_eq!(function_a.file_idx, inline_a[0].file_idx);

    let file_b = sources.get_file(inline_b[0].file_idx).unwrap();
    let path_b = sources.get_string(file_b.path_idx).unwrap();
    let function_b = &functions.functions[inline_b[0].callee_idx as usize];
    let function_name_b = functions.get_string(function_b.name_idx).unwrap();
    assert_eq!(path_b, "alias_b.masm");
    assert_eq!(function_name_b, "alias_b_callee");
    assert_eq!(function_b.file_idx, inline_b[0].file_idx);
}

#[test]
fn test_package_source_debug_merge_remaps_non_root_execution_nodes() {
    // A forest of a callee block and a call node; merged alone, the nodes are renumbered.
    let (callee, call) = (MastNodeId(0), MastNodeId(1));
    let root_source = sid(0);
    let child_source = sid(1);
    let debug_info = PackageDebugInfo {
        source_graph: Some(DebugSourceGraphSection {
            version: DEBUG_SOURCE_GRAPH_VERSION,
            nodes: vec![
                DebugSourceNode::new(call, vec![child_source], 0, 1),
                DebugSourceNode::new(callee, vec![], 0, 1),
            ],
            roots: vec![root_source],
        }),
        source_map: Some(DebugSourceMapSection::from_parts(
            vec![DebugSourceAsmOp::new(child_source, 0, None, "callee".into(), "add".into(), 1)],
            vec![],
        )),
        ..PackageDebugInfo::default()
    };

    let root_map = MastForestRootMap::new(vec![vec![(call, MastNodeId(5)), (callee, MastNodeId(4))]]);
    let merged_callee = root_map.map_node(0, &callee).unwrap();

    let merged_debug = PackageDebugInfo::merge_source_debug(&[(0, &debug_info)], &root_map).unwrap();
    let source_graph = merged_debug.source_graph.as_ref().unwrap();
    let merged_child = source_graph.nodes[source_graph.roots[0].as_u32() as usize].children[0];
    assert_eq!(source_graph.nodes[merged_child.as_u32() as usize].exec_node, merged_callee);
    assert_eq!(merged_debug.first_asm_op_for_source_node(merged_child).unwrap().context_name, "callee");
}

#[test]
fn test_source_debug_lookup_uses_source_node_identity() {
    let exec_node = MastNodeId(7);
    let source_a = sid(0);
    let source_b = sid(1);
    let graph = DebugSourceGraphSection {
        version: DEBUG_SOURCE_GRAPH_VERSION,
        nodes: vec![
            DebugSourceNode::new(exec_node, vec![], 0, 1),
            DebugSourceNode::new(exec_node, vec![], 0, 1),
        ],
        roots: vec![source_a, source_b],
    };
    assert_eq!(graph.nodes().iter().filter(|node| node.exec_node == exec_node).count(), 2);
    assert_eq!(graph.source_node(source_a).unwrap().exec_node, exec_node);

    let source_map = DebugSourceMapSection::from_parts(
        vec![
            DebugSourceAsmOp::new(source_a, 0, None, "alias_a".into(), "add".into(), 1),
            DebugSourceAsmOp::new(source_b, 0, None, "alias_b".into(), "add".into(), 1),
            DebugSourceAsmOp::new(source_b, 2, None, "alias_b_later".into(), "mul".into(), 1),
        ],
        vec![
            DebugSourceVar::new(source_a, 0, DebugVarInfo::new("x".into(), DebugVarLocation::Stack(0))),
            DebugSourceVar::new(source_b, 0, DebugVarInfo::new("y".into(), DebugVarLocation::Stack(1))),
        ],
    );

    assert_eq!(source_map.asm_op_for_operation(source_a, 0).unwrap().context_name, "alias_a");
    assert_eq!(source_map.asm_op_for_operation(source_b, 0).unwrap().context_name, "alias_b");
    assert_eq!(source_map.first_asm_op_for_source_node(source_b).unwrap().context_name, "alias_b");
    let vars_b = source_map.debug_vars_for_operation(source_b, 0);
    assert_eq!(vars_b.len(), 1);
    assert_eq!(vars_b[0].var.name(), "y");
}

#[test]
fn test_source_graph_navigation_uses_child_indices() {
    let root_exec = MastNodeId(7);
    let child_exec = MastNodeId(8);
    let other_exec = MastNodeId(9);
    let root = sid(0);
    let child_a = sid(1);
    let child_b = sid(2);
    let other_root = sid(3);
    let nodes = || {
        vec![
            DebugSourceNode::new(root_exec, vec![child_a, child_b], 0, 1),
            DebugSourceNode::new(child_exec, vec![], 0, 1),
            DebugSourceNode::new(child_exec, vec![], 0, 1),
            DebugSourceNode::new(root_exec, vec![], 0, 1),
        ]
    };
    let graph = DebugSourceGraphSection { version: DEBUG_SOURCE_GRAPH_VERSION, nodes: nodes(), roots: vec![root] };

    assert_eq!(graph.unique_source_root_for_exec_node(root_exec).unwrap(), Some(root));
    assert_eq!(graph.unique_source_root_for_exec_node(other_exec).unwrap(), None);
    assert_eq!(graph.child_source_node(root, 0).unwrap().unwrap().0, child_a);
    assert_eq!(graph.child_source_node(root, 1).unwrap().unwrap().0, child_b);
    assert!(graph.child_source_node(root, 2).unwrap().is_none());
    assert_eq!(
        graph.child_source_node(sid(99), 0).map(|r| r.map(|(id, _)| id)),
        Err(DebugSourceGraphLookupError::MissingSourceNode { source_node: sid(99) }),
    );

    let ambiguous_roots = DebugSourceGraphSection {
        version: DEBUG_SOURCE_GRAPH_VERSION,
        nodes: nodes(),
        roots: vec![root, other_root],
    };
    assert_eq!(
        ambiguous_roots.unique_source_root_for_exec_node(root_exec),
        Err(DebugSourceGraphLookupError::AmbiguousRoot { exec_node: root_exec }),
    );

    let package_debug = PackageDebugInfo { source_graph: Some(ambiguous_roots), ..PackageDebugInfo::default() };
    assert_eq!(
        package_debug.unique_source_root_for_exec_node(root_exec),
        Err(DebugSourceGraphLookupError::AmbiguousRoot { exec_node: root_exec }),
    );
    assert_eq!(package_debug.child_source_node(root, 1).unwrap().unwrap().0, child_b);
}

#[test]
fn source_map_interns_locations_and_strings_once() {
    let op = |s: u32, ctx: &str, name: &str| DebugSourceAsmOp::new(sid(s), 0, None, ctx.into(), name.into(), 1);
    let map = DebugSourceMapSection::from_parts(vec![op(0, "a", "add"), op(1, "a", "mul"), op(2, "b", "add")], vec![]);
    assert_eq!(map.strings().len(), 4);
    assert!(map.locations().is_empty());
}
