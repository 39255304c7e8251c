use ucm::code_parser::{
    extract_classes_ts, extract_functions_rust, extract_functions_ts, extract_imports_python, extract_imports_rust,
    extract_imports_ts, extract_python_entities, extract_routes_ts, extract_structs_rust, file_name_of,
    infer_crate_src_root, parent_dir, parse_python_bases, parse_python_import_symbols, resolve_path, rust_fn_name,
    rust_current_module_dir, rust_parent_module_dir, ts_function_name, ts_import_path, ts_import_symbols,
    ts_route_path, PythonEntity, PythonPackageRoot, RustCrateMap,
};
use ucm::edge::RelationType;
use ucm::entity::EntityKind;
use ucm::event::EventPayload;
use ucm::graph::UcmGraph;
use ucm::projection::GraphProjection;
use ucm::source_events::{parse_source_code, parse_source_code_full, parse_source_code_with_context};

#[test]
fn test_parse_typescript_emits_module_entity() {
    let source = "\nimport { DatabaseClient } from './db/client';\nexport async function validateToken(token: string): Promise<boolean> {\n    return true;\n}\n";
    let events = parse_source_code("src/auth/service.ts", source, "typescript");
    let entity_events: Vec<_> =
        events.iter().filter(|e| matches!(&e.payload, EventPayload::EntityDiscovered { .. })).collect();
    assert!(entity_events.len() >= 2, "Expected module + function entities");
    let dep_events: Vec<_> =
        events.iter().filter(|e| matches!(&e.payload, EventPayload::DependencyLinked { .. })).collect();
    assert!(dep_events.len() >= 2, "Expected function→module + module→import edges");
}

#[test]
fn test_module_entity_is_discovered_before_import_edges() {
    let source = "import { Foo } from './foo';\nfunction bar() {}";
    let events = parse_source_code("src/main.ts", source, "typescript");
    let first_entity = events.iter().position(|e| matches!(&e.payload, EventPayload::EntityDiscovered { .. }));
    let first_dep = events.iter().position(|e| matches!(&e.payload, EventPayload::DependencyLinked { .. }));
    assert!(first_entity < first_dep, "EntityDiscovered must precede DependencyLinked");
}

#[test]
fn test_parse_rust_functions_and_structs() {
    let source = "\nuse crate::graph::UcmGraph;\n\npub struct GraphProjection;\n\nimpl GraphProjection {\n    pub fn replay_all(events: &[UcmEvent]) -> UcmGraph {\n        UcmGraph::new()\n    }\n\n    pub async fn apply_event(graph: &mut UcmGraph, event: &UcmEvent) {}\n}\n";
    let events = parse_source_code("src/projection.rs", source, "rust");
    let entities: Vec<_> = events
        .iter()
        .filter(|e| matches!(&e.payload, EventPayload::EntityDiscovered { kind: EntityKind::Function { .. }, .. }))
        .collect();
    assert!(entities.len() >= 2, "Should find replay_all and apply_event");
    let structs: Vec<_> = events
        .iter()
        .filter(|e| matches!(&e.payload, EventPayload::EntityDiscovered { kind: EntityKind::DataModel { .. }, .. }))
        .collect();
    assert!(!structs.is_empty(), "Should find GraphProjection struct");
}

#[test]
fn test_parse_rust_imports() {
    let source = "\nuse crate::entity::EntityId;\nuse crate::graph::UcmGraph;\nuse std::collections::HashMap;\n";
    let empty_map = RustCrateMap::new();
    let imports = extract_imports_rust(source, "ucm-core/src/main.rs", &empty_map);
    assert_eq!(imports.len(), 2, "Should find 2 crate imports, skip std");
    assert!(imports.iter().any(|(syms, _, _)| syms.contains(&"EntityId".to_string())));
    assert!(imports.iter().any(|(syms, _, _)| syms.contains(&"UcmGraph".to_string())));
    let entity_import = imports.iter().find(|(s, _, _)| s.contains(&"EntityId".to_string())).unwrap();
    assert_eq!(entity_import.1, "ucm-core/src/entity.rs");
    let graph_import = imports.iter().find(|(s, _, _)| s.contains(&"UcmGraph".to_string())).unwrap();
    assert_eq!(graph_import.1, "ucm-core/src/graph.rs");
}

#[test]
fn test_rust_cross_crate_imports() {
    let source = "\nuse ucm_graph_core::graph::UcmGraph;\nuse ucm_graph_core::entity::{EntityId, EntityKind};\nuse ucm_ingest::code_parser;\nuse serde::Serialize;\n";
    let mut crate_map = RustCrateMap::new();
    crate_map.insert("ucm_graph_core".to_string(), "ucm-core/src".to_string());
    crate_map.insert("ucm_ingest".to_string(), "ucm-ingest/src".to_string());
    let imports = extract_imports_rust(source, "ucm-api/src/main.rs", &crate_map);
    assert_eq!(imports.len(), 3, "Should find 3 sibling crate imports, skip serde: got {imports:?}");
    let graph_import = imports.iter().find(|(s, _, _)| s.contains(&"UcmGraph".to_string())).unwrap();
    assert_eq!(graph_import.1, "ucm-core/src/graph.rs");
    let entity_import = imports.iter().find(|(s, _, _)| s.contains(&"EntityId".to_string())).unwrap();
    assert_eq!(entity_import.1, "ucm-core/src/entity.rs");
    assert!(entity_import.0.contains(&"EntityKind".to_string()), "Should import both EntityId and EntityKind");
    let parser_import = imports.iter().find(|(_, path, _)| path.contains("ucm-ingest")).unwrap();
    assert_eq!(parser_import.1, "ucm-ingest/src/code_parser.rs");
}

#[test]
fn test_parse_api_routes() {
    let source = "\napp.get('/api/v1/users', getUsers);\napp.post('/api/v1/auth/login', handleLogin);\n";
    let events = parse_source_code("src/routes.ts", source, "typescript");
    let routes: Vec<_> = events
        .iter()
        .filter(|e| matches!(&e.payload, EventPayload::EntityDiscovered { kind: EntityKind::ApiEndpoint { .. }, .. }))
        .collect();
    assert_eq!(routes.len(), 2);
}

#[test]
fn test_resolve_path_parent_traversal() {
    assert_eq!(resolve_path("fraud", "../pipeline/rag-pipeline", &["ts"]), "pipeline/rag-pipeline.ts");
    assert_eq!(resolve_path("src/fraud", "../pipeline/rag", &["ts"]), "src/pipeline/rag.ts");
    assert_eq!(resolve_path("fraud", "./compliance-checker", &["ts"]), "fraud/compliance-checker.ts");
    assert_eq!(resolve_path("", "./embedding-service", &["ts"]), "embedding-service.ts");
}

#[test]
fn test_full_graph_has_edges() {
    let auth_src = "export async function validateToken() {}";
    let mid_src = "import { validateToken } from './auth';\nexport function authMiddleware() {}";
    let mut graph = UcmGraph::new();
    for ev in parse_source_code("src/auth.ts", auth_src, "typescript") {
        GraphProjection::apply_event(&mut graph, &ev);
    }
    for ev in parse_source_code("src/middleware.ts", mid_src, "typescript") {
        GraphProjection::apply_event(&mut graph, &ev);
    }
    let stats = graph.stats();
    assert!(stats.entity_count >= 2, "Should have entities");
    assert!(stats.edge_count >= 1, "Should have at least one edge");
}

#[test]
fn test_python_absolute_imports() {
    let source = "\nfrom marimo._runtime.dataflow import DirectedGraph\nfrom marimo._ast.visitor import parse_cell\nimport os\nimport marimo._plugins.ui as ui\n";
    let pkg_root = Some("marimo".to_string());
    let imports = extract_imports_python(source, "_runtime/runtime.py", &pkg_root);
    assert_eq!(imports.len(), 3, "Expected 3 marimo imports, got {imports:?}");
    let dg_import = imports.iter().find(|(s, _, _)| s.contains(&"DirectedGraph".to_string())).unwrap();
    assert_eq!(dg_import.1, "_runtime/dataflow.py");
    let visitor_import = imports.iter().find(|(s, _, _)| s.contains(&"parse_cell".to_string())).unwrap();
    assert_eq!(visitor_import.1, "_ast/visitor.py");
    let bare_import = imports.iter().find(|(_, path, _)| path.contains("_plugins")).unwrap();
    assert_eq!(bare_import.1, "_plugins/ui.py");
}

#[test]
fn test_python_absolute_imports_skip_external() {
    let source = "\nfrom marimo._runtime.dataflow import DirectedGraph\nfrom typing import Optional\nimport json\nfrom dataclasses import dataclass\n";
    let pkg_root = Some("marimo".to_string());
    let imports = extract_imports_python(source, "marimo/test.py", &pkg_root);
    assert_eq!(imports.len(), 1, "Should skip external imports, got {imports:?}");
}

#[test]
fn python_imports_of_a_package_sharing_the_root_prefix_are_external() {
    let pkg_root = Some("marimo".to_string());
    let imports = extract_imports_python("from marimoext.util import X\nimport marimoext.util\n", "a.py", &pkg_root);
    assert!(imports.is_empty(), "got {imports:?}");
    let imports = extract_imports_python("from marimo import X\nimport marimo.util\n", "a.py", &pkg_root);
    assert_eq!(imports.len(), 2, "got {imports:?}");
    assert_eq!(imports[0].1, "__init__.py");
    assert_eq!(imports[1].1, "util.py");
}

#[test]
fn test_python_relative_imports_still_work() {
    let source = "\nfrom .dataflow import DirectedGraph\nfrom ..utils import serialize\n";
    let pkg_root = Some("marimo".to_string());
    let imports = extract_imports_python(source, "marimo/_runtime/runtime.py", &pkg_root);
    assert_eq!(imports.len(), 2, "Should find 2 relative imports");
    let dg = imports.iter().find(|(s, _, _)| s.contains(&"DirectedGraph".to_string())).unwrap();
    assert_eq!(dg.1, "marimo/_runtime/dataflow.py");
    let util = imports.iter().find(|(s, _, _)| s.contains(&"serialize".to_string())).unwrap();
    assert_eq!(util.1, "marimo/utils.py");
}

#[test]
fn test_python_class_method_association() {
    let source = "\nclass DirectedGraph:\n    def __init__(self):\n        pass\n\n    def add_edge(self, src, dst):\n        pass\n\n    async def traverse(self):\n        pass\n\ndef standalone_function():\n    pass\n";
    let entities = extract_python_entities(source);
    let classes: Vec<_> = entities.iter().filter(|e| matches!(e, PythonEntity::Class { .. })).collect();
    assert_eq!(classes.len(), 1, "Should find 1 class");
    let methods: Vec<_> =
        entities.iter().filter(|e| matches!(e, PythonEntity::Function { class_name: Some(_), .. })).collect();
    assert_eq!(methods.len(), 3, "Should find 3 methods in DirectedGraph");
    let standalone: Vec<_> =
        entities.iter().filter(|e| matches!(e, PythonEntity::Function { class_name: None, .. })).collect();
    assert_eq!(standalone.len(), 1, "Should find 1 standalone function");
    for m in &methods {
        if let PythonEntity::Function { class_name, .. } = m {
            assert_eq!(class_name.as_deref(), Some("DirectedGraph"));
        }
    }
}

#[test]
fn test_python_class_method_events() {
    let source = "\nclass MyClass:\n    def my_method(self):\n        pass\n";
    let events = parse_source_code("test.py", source, "python");
    let contains_edges: Vec<_> = events
        .iter()
        .filter(|e| {
            matches!(&e.payload, EventPayload::DependencyLinked { relation_type: RelationType::Contains, .. })
        })
        .collect();
    assert_eq!(contains_edges.len(), 1, "Should have 1 Contains edge for class→method");
    let method_entities: Vec<_> = events
        .iter()
        .filter_map(|e| {
            if let EventPayload::EntityDiscovered { kind: EntityKind::Function { .. }, name, .. } = &e.payload {
                Some(name.clone())
            } else {
                None
            }
        })
        .collect();
    assert!(method_entities.contains(&"MyClass.my_method".to_string()), "got {method_entities:?}");
}

#[test]
fn test_python_inheritance_edges() {
    let source = "\nclass Animal:\n    pass\n\nclass Dog(Animal):\n    pass\n\nclass GuideDog(Dog, Trainable):\n    pass\n";
    let entities = extract_python_entities(source);
    let classes: Vec<_> = entities
        .iter()
        .filter_map(|e| {
            if let PythonEntity::Class { name, bases, .. } = e {
                Some((name.clone(), bases.clone()))
            } else {
                None
            }
        })
        .collect();
    assert_eq!(classes.len(), 3);
    let animal = classes.iter().find(|(n, _)| n == "Animal").unwrap();
    assert!(animal.1.is_empty(), "Animal has no bases");
    let dog = classes.iter().find(|(n, _)| n == "Dog").unwrap();
    assert_eq!(dog.1, vec!["Animal"]);
    let guide = classes.iter().find(|(n, _)| n == "GuideDog").unwrap();
    assert_eq!(guide.1, vec!["Dog", "Trainable"]);
}

#[test]
fn test_python_inheritance_events() {
    let source = "\nclass Base:\n    pass\n\nclass Child(Base):\n    pass\n";
    let events = parse_source_code("test.py", source, "python");
    let extends_edges: Vec<_> = events
        .iter()
        .filter(|e| {
            matches!(&e.payload, EventPayload::DependencyLinked { relation_type: RelationType::Extends, .. })
        })
        .collect();
    assert_eq!(extends_edges.len(), 1, "Should have 1 Extends edge (Child → Base)");
}

#[test]
fn test_python_no_package_root_skips_absolute() {
    let source = "from marimo._runtime import foo\nimport json\n";
    let no_pkg: PythonPackageRoot = None;
    let imports = extract_imports_python(source, "test.py", &no_pkg);
    assert!(imports.is_empty(), "Without package root, absolute imports should be skipped");
}

#[test]
fn test_python_metaclass_skipped_in_bases() {
    let source = "class Foo(Bar, metaclass=ABCMeta):\n    pass\n";
    let entities = extract_python_entities(source);
    if let Some(PythonEntity::Class { bases, .. }) = entities.first() {
        assert_eq!(bases, &["Bar"], "metaclass= arg should be skipped");
    } else {
        panic!("Expected a class entity");
    }
}

// ─── Helpers of the parsers, on exact values ──────────────────────

#[test]
fn typescript_line_helpers() {
    assert_eq!(ts_function_name("export async function go(a) {"), Some("go".to_string()));
    assert_eq!(ts_function_name("const x = 1;"), None);
    assert_eq!(ts_route_path("app.get('/a/b', h);"), Some("/a/b".to_string()));
    assert_eq!(ts_import_path("import { A } from './a';"), Some("./a".to_string()));
    assert_eq!(ts_import_symbols("import { A, B as C } from './a';"), vec!["A".to_string(), "B".to_string()]);
}

#[test]
fn typescript_extractors() {
    let src = "export class Foo {}\nasync function bar() {}\nrouter.post('/x', h);\nimport { Y } from '../y';";
    assert_eq!(extract_classes_ts(src).len(), 1);
    let fns = extract_functions_ts(src);
    assert_eq!(fns.len(), 1);
    assert_eq!(fns[0].0, "bar");
    assert!(fns[0].1);
    assert_eq!(extract_routes_ts(src).len(), 1);
    let imports = extract_imports_ts(src, "src/a/b.ts");
    assert_eq!(imports.len(), 1);
    assert_eq!(imports[0].1, "src/y.ts");
}

#[test]
fn rust_helpers() {
    assert_eq!(rust_fn_name("pub(crate) async fn run(x: u8) {"), Some("run".to_string()));
    let fns = extract_functions_rust("fn a() {}\npub async fn b() {}");
    assert_eq!(fns.len(), 2);
    assert!(fns[1].1);
    assert_eq!(extract_structs_rust("pub struct S;\nstruct T { x: u8 }\nenum E {}").len(), 3);
    assert_eq!(infer_crate_src_root("ucm-core/src/graph.rs"), "ucm-core/src");
    assert_eq!(rust_current_module_dir("ucm-core/src", "a/mod.rs"), "ucm-core/src/a");
    assert_eq!(rust_parent_module_dir("ucm-core/src", "a/b.rs"), "ucm-core/src");
    assert_eq!(rust_parent_module_dir("ucm-core/src", "a/b/c.rs"), "ucm-core/src/a");
}

#[test]
fn path_helpers() {
    assert_eq!(parent_dir("src/a/b.ts"), "src/a");
    assert_eq!(parent_dir("b.ts"), "");
    assert_eq!(file_name_of("src/a/b.ts"), "b.ts");
}

#[test]
fn python_helpers() {
    assert_eq!(parse_python_bases("(A, B):"), vec!["A".to_string(), "B".to_string()]);
    assert_eq!(parse_python_import_symbols("a as b, c"), vec!["a".to_string(), "c".to_string()]);
}

#[test]
fn context_variants_agree_without_context() {
    let src = "function a() {}";
    let plain = parse_source_code("src/a.ts", src, "typescript");
    let ctx = parse_source_code_with_context("src/a.ts", src, "typescript", &RustCrateMap::new());
    let full = parse_source_code_full("src/a.ts", src, "typescript", &RustCrateMap::new(), &None);
    assert_eq!(plain.len(), ctx.len());
    assert_eq!(plain.len(), full.len());
}

#[test]
fn unknown_language_gives_only_the_module() {
    let events = parse_source_code("README.md", "# hi", "markdown");
    assert!(events.len() <= 1);
}
