use ucm::ambiguity::detect_ambiguities;
use ucm::demo::{seed_context_demo_graph, seed_demo_graph};
use ucm::edge::{RelationType, UcmEdge};
use ucm::entity::{DiscoverySource, EntityId, EntityKind};
use ucm::event::{count_discoveries_and_links, EventPayload, UcmEvent};
use ucm::graph::UcmGraph;
use ucm::scan::{
    crate_name_of_manifest, is_package_dir_candidate, is_python_language, is_rust_language, pyproject_name_of_line,
    skips_in_crate_scan, skips_in_walk, source_extensions, underscored_name, within_entity_limit,
};
use ucm::source_events::{parse_source_code, source_parseable};

#[test]
fn extensions_by_language() {
    assert_eq!(source_extensions("typescript"), vec!["ts", "tsx"]);
    assert_eq!(source_extensions("js"), vec!["js", "jsx"]);
    assert_eq!(source_extensions("rs"), vec!["rs"]);
    assert_eq!(source_extensions("python"), vec!["py"]);
    assert_eq!(source_extensions("cobol"), vec!["ts", "js", "rs", "py"]);
    assert!(is_rust_language("rust") && !is_rust_language("Rust"));
    assert!(is_python_language("py"));
}

#[test]
fn skipped_directories() {
    assert!(skips_in_walk(".git"));
    assert!(skips_in_walk("node_modules"));
    assert!(skips_in_walk("__pycache__"));
    assert!(!skips_in_walk("src"));
    assert!(skips_in_crate_scan("target"));
    assert!(!skips_in_crate_scan("dist"));
    assert!(is_package_dir_candidate("marimo"));
    assert!(!is_package_dir_candidate("_private"));
    assert!(!is_package_dir_candidate("tests"));
}

#[test]
fn manifest_names() {
    assert_eq!(pyproject_name_of_line("  name = \"my-pkg\""), Some("my-pkg".to_string()));
    assert_eq!(pyproject_name_of_line("name = 'x'"), Some("x".to_string()));
    assert_eq!(pyproject_name_of_line("version = \"1\""), None);
    assert_eq!(pyproject_name_of_line("name = \"\""), None);
    assert_eq!(underscored_name("my-pkg"), "my_pkg");
    let cargo = "[package]\nname = \"ucm-core\"\nversion = \"0.1.0\"\n";
    assert_eq!(crate_name_of_manifest(cargo), Some("ucm-core".to_string()));
    assert_eq!(crate_name_of_manifest("[package]\n  name = \"x\"\n"), None);
    assert_eq!(crate_name_of_manifest("[workspace]\n"), None);
}

#[test]
fn entity_limits() {
    assert!(within_entity_limit(500, false));
    assert!(!within_entity_limit(501, false));
    assert!(within_entity_limit(50_000, true));
    assert!(!within_entity_limit(50_001, true));
}

#[test]
fn parseable_sources() {
    assert!(source_parseable("class A(B):\n    pass\n", "python"));
    assert!(!source_parseable("class A)B(:\n", "python"));
    assert!(source_parseable("import { a } from './a';", "typescript"));
    assert!(!source_parseable("import } a { from './a';", "typescript"));
    assert!(source_parseable("import } a { from './a';", "rust"));
}

#[test]
fn discoveries_and_links_are_counted() {
    let events = parse_source_code("src/a.ts", "import { b } from './b';\nfunction a() {}", "typescript");
    let (d, l) = count_discoveries_and_links(&events);
    assert_eq!(d, 2);
    assert_eq!(l, 2);
}

#[test]
fn file_path_is_the_path_component() {
    assert_eq!(EntityId::local("src/a.ts", "a").file_path(), Some("src/a.ts"));
    assert_eq!(EntityId::local("project", "x").file_path(), Some("project"));
    assert_eq!(EntityId::new("npm", "pkg", "1.0", "lib/x/y.js", "f").file_path(), Some("lib/x/y.js"));
    assert_eq!(EntityId("q#w/e/r/t".to_string()).file_path(), Some("t"));
    assert_eq!(EntityId("a/b#c".to_string()).file_path(), None);
    assert_eq!(EntityId::local("src/a.ts", "a").symbol_name(), Some("a"));
}

#[test]
fn demo_graph_shape() {
    let mut graph = UcmGraph::new();
    seed_demo_graph(&mut graph);
    let stats = graph.stats();
    assert_eq!(stats.entity_count, 7);
    assert_eq!(stats.edge_count, 5);
    let mut core = UcmGraph::new();
    seed_context_demo_graph(&mut core);
    assert_eq!(core.stats().entity_count, 7);
    assert_eq!(core.stats().edge_count, 5);
    // The demo relationships are all well attested: none is flagged below 0.6.
    let report = detect_ambiguities(&graph, 600_000, &graph.edge_confidences());
    assert_eq!(report.total_low_confidence_edges, 0);
    let kinds: Vec<&str> = graph.all_entities().iter().map(|e| e.kind.variant_name()).collect();
    assert_eq!(kinds, vec!["Function", "Function", "Function", "Function", "Function", "ApiEndpoint", "Requirement"]);
}

#[test]
fn snapshot_lists_edges_with_endpoints() {
    let mut graph = UcmGraph::new();
    seed_context_demo_graph(&mut graph);
    let edges = graph.edge_snapshot();
    assert_eq!(edges.len(), 5);
    assert_eq!(edges[0].0.name, "authMiddleware()");
    assert_eq!(edges[0].1.name, "validateToken()");
    assert_eq!(edges[0].2.relation_type, RelationType::Imports);
}

#[test]
fn elapsed_hours_truncate_toward_zero() {
    let mut edge = UcmEdge::new(RelationType::Calls, DiscoverySource::StaticAnalysis, 500_000, "c".into());
    edge.verified_at = Some(0);
    assert_eq!(edge.elapsed_hours(3_600_000 * 5 + 10), 5);
    assert_eq!(edge.elapsed_hours(-3_600_000 * 2 - 10), -2);
    edge.verified_at = None;
    edge.discovered_at = 3_600_000;
    assert_eq!(edge.elapsed_hours(3_600_000 * 25), 24);
}

#[test]
fn kinds_have_names() {
    let k = EntityKind::Module { language: "rust".into(), exports: vec![] };
    assert_eq!(k.variant_name(), "Module");
    let e = UcmEvent::new(EventPayload::EdgeVerified {
        source_entity: EntityId::local("a", "a"),
        target_entity: EntityId::local("b", "b"),
    });
    assert_eq!(count_discoveries_and_links(&[e]), (0, 0));
}
