use ucm::confidence::{chain_confidence, multi_path_confidence, noisy_or};
use ucm::edge::{ConfidenceTier, ContextEdge, RelationType, UcmEdge};
use ucm::entity::{DiscoverySource, EntityId, EntityKind, UcmEntity};
use ucm::event::{ChangeType, EventPayload, UcmEvent};
use ucm::graph::{ContextGraph, ImpactType, UcmGraph};

fn function(path: &str, symbol: &str, is_async: bool, parameter_count: usize, return_type: Option<&str>) -> UcmEntity {
    UcmEntity::new(
        EntityId::local(path, symbol),
        EntityKind::Function {
            is_async,
            parameter_count,
            return_type: return_type.map(|s| s.to_string()),
        },
        symbol.to_string(),
        path.to_string(),
        "typescript".to_string(),
        DiscoverySource::StaticAnalysis,
    )
}

fn make_test_graph() -> UcmGraph {
    let mut graph = UcmGraph::new();
    graph.add_entity(function("src/auth/service.ts", "validateToken", true, 1, Some("boolean"))).unwrap();
    graph.add_entity(function("src/api/middleware.ts", "authMiddleware", true, 2, None)).unwrap();
    graph.add_entity(function("src/payments/checkout.ts", "processPayment", true, 1, Some("PaymentResult"))).unwrap();
    graph.add_entity(function("src/admin/reports.ts", "generateReport", false, 0, Some("Report"))).unwrap();
    graph
        .add_relationship(
            &EntityId::local("src/api/middleware.ts", "authMiddleware"),
            &EntityId::local("src/auth/service.ts", "validateToken"),
            UcmEdge::new(
                RelationType::Imports,
                DiscoverySource::StaticAnalysis,
                950_000,
                "imports validateToken directly".to_string(),
            ),
        )
        .unwrap();
    graph
        .add_relationship(
            &EntityId::local("src/payments/checkout.ts", "processPayment"),
            &EntityId::local("src/api/middleware.ts", "authMiddleware"),
            UcmEdge::new(
                RelationType::DependsOn,
                DiscoverySource::StaticAnalysis,
                800_000,
                "route uses authMiddleware".to_string(),
            ),
        )
        .unwrap();
    graph
}

// ─── Confidence ────────────────────────────────────────────────────

#[test]
fn test_noisy_or_single_source() {
    assert_eq!(noisy_or(&vec![800_000]), 800_000);
}

#[test]
fn test_noisy_or_compounds_agreement() {
    // Two sources at 0.8: 1 - (0.2 × 0.2) = 0.96
    let result = noisy_or(&vec![800_000, 800_000]);
    assert!((result as i64 - 960_000).abs() < 1_000);
    assert_eq!(result, 960_000);
}

#[test]
fn noisy_or_does_not_depend_on_evidence_order() {
    let a = noisy_or(&vec![499_999, 999_998, 1]);
    let b = noisy_or(&vec![1, 499_999, 999_998]);
    let c = noisy_or(&vec![999_998, 1, 499_999]);
    assert_eq!(a, b);
    assert_eq!(a, c);
    assert_eq!(noisy_or(&vec![920_000, 750_000]), noisy_or(&vec![750_000, 920_000]));
    assert_eq!(noisy_or(&vec![920_000, 750_000]), 980_000);
}

#[test]
fn test_noisy_or_empty() {
    assert_eq!(noisy_or(&vec![]), 0);
}

#[test]
fn test_chain_confidence() {
    // 3-hop chain: 0.95 × 0.90 × 0.80 = 0.684
    let chain = chain_confidence(&vec![950_000, 900_000, 800_000]);
    assert!((chain as i64 - 684_000).abs() < 1_000);
    assert_eq!(chain, 684_000);
}

#[test]
fn test_multi_path() {
    // Path 1: 0.72, path 2: 0.42, noisy-OR: 1 - 0.28 × 0.58 = 0.8376
    let result = multi_path_confidence(&vec![vec![900_000, 800_000], vec![700_000, 600_000]]);
    assert!((result as i64 - 837_600).abs() < 1_000);
    assert_eq!(result, 837_600);
}

#[test]
fn noisy_or_clamps_out_of_range_confidences() {
    assert_eq!(noisy_or(&vec![1_500_000]), 1_000_000);
    assert_eq!(noisy_or(&vec![0, 0]), 0);
}

#[test]
fn chain_of_nothing_is_certain() {
    assert_eq!(chain_confidence(&vec![]), 1_000_000);
    assert_eq!(multi_path_confidence(&vec![]), 0);
}

// ─── Graph (both names of the graph) ───────────────────────────────

#[test]
fn test_entity_lookup() {
    let graph: ContextGraph = make_test_graph();
    let entity = graph.get_entity(&EntityId::local("src/auth/service.ts", "validateToken"));
    assert!(entity.is_some());
    assert_eq!(entity.unwrap().name, "validateToken");
}

#[test]
fn graph_test_entity_lookup() {
    let graph = make_test_graph();
    let entity = graph.get_entity(&EntityId::local("src/auth/service.ts", "validateToken"));
    assert!(entity.is_some());
    assert_eq!(entity.unwrap().name, "validateToken");
}

#[test]
fn test_duplicate_entity_error() {
    let mut graph: ContextGraph = make_test_graph();
    let dup = function("src/auth/service.ts", "validateToken", false, 0, None);
    assert!(graph.add_entity(dup).is_err());
}

#[test]
fn graph_test_duplicate_entity_error() {
    let mut graph = make_test_graph();
    let dup = function("src/auth/service.ts", "validateToken", false, 0, None);
    assert!(graph.add_entity(dup).is_err());
}

#[test]
fn test_reverse_deps() {
    let graph: ContextGraph = make_test_graph();
    let rdeps = graph.reverse_deps(&EntityId::local("src/auth/service.ts", "validateToken")).unwrap();
    assert_eq!(rdeps.len(), 1);
    assert_eq!(rdeps[0].0.name, "authMiddleware");
}

#[test]
fn graph_test_reverse_deps() {
    let graph = make_test_graph();
    let rdeps = graph.reverse_deps(&EntityId::local("src/auth/service.ts", "validateToken")).unwrap();
    assert_eq!(rdeps.len(), 1);
    assert_eq!(rdeps[0].0.name, "authMiddleware");
}

#[test]
fn test_impact_bfs_direct() {
    let graph: ContextGraph = make_test_graph();
    let changed = vec![EntityId::local("src/auth/service.ts", "validateToken")];
    let impacted = graph.impact_bfs(&changed, 100_000, 10, &graph.edge_confidences());
    let auth_middleware = impacted.iter().find(|i| i.name == "authMiddleware");
    assert!(auth_middleware.is_some());
    assert_eq!(auth_middleware.unwrap().impact_type, ImpactType::Direct);
}

#[test]
fn test_impact_bfs_indirect() {
    let graph: ContextGraph = make_test_graph();
    let changed = vec![EntityId::local("src/auth/service.ts", "validateToken")];
    let impacted = graph.impact_bfs(&changed, 100_000, 10, &graph.edge_confidences());
    let payment = impacted.iter().find(|i| i.name == "processPayment");
    assert!(payment.is_some());
    assert_eq!(payment.unwrap().impact_type, ImpactType::Indirect);
    assert!(payment.unwrap().confidence < 950_000);
    // 0.95 × 0.80
    assert_eq!(payment.unwrap().confidence, 760_000);
}

#[test]
fn test_not_impacted() {
    let graph: ContextGraph = make_test_graph();
    let changed = vec![EntityId::local("src/auth/service.ts", "validateToken")];
    let impacted = graph.impact_bfs(&changed, 100_000, 10, &graph.edge_confidences());
    let not_impacted = graph.not_impacted(&changed, &impacted);
    let admin = not_impacted.iter().find(|n| n.name == "generateReport");
    assert!(admin.is_some());
    assert!(admin.unwrap().reason.contains("No graph path"));
}

#[test]
fn test_file_invalidation() {
    let mut graph: ContextGraph = make_test_graph();
    assert!(graph.get_entity(&EntityId::local("src/auth/service.ts", "validateToken")).is_some());
    let removed = graph.invalidate_file("src/auth/service.ts");
    assert_eq!(removed.len(), 1);
    assert!(graph.get_entity(&EntityId::local("src/auth/service.ts", "validateToken")).is_none());
}

#[test]
fn graph_test_file_invalidation() {
    let mut graph = make_test_graph();
    assert!(graph.get_entity(&EntityId::local("src/auth/service.ts", "validateToken")).is_some());
    let removed = graph.invalidate_file("src/auth/service.ts");
    assert_eq!(removed.len(), 1);
    assert!(graph.get_entity(&EntityId::local("src/auth/service.ts", "validateToken")).is_none());
}

#[test]
fn test_graph_stats() {
    let graph: ContextGraph = make_test_graph();
    let stats = graph.stats();
    assert_eq!(stats.entity_count, 4);
    assert_eq!(stats.edge_count, 2);
    assert!(stats.avg_confidence > 0);
}

#[test]
fn graph_test_graph_stats() {
    let graph = make_test_graph();
    let stats = graph.stats();
    assert_eq!(stats.entity_count, 4);
    assert_eq!(stats.edge_count, 2);
    assert!(stats.avg_confidence > 0);
    // (0.95 + 0.80) / 2
    assert_eq!(stats.avg_confidence, 875_000);
    assert_eq!(stats.files_tracked, 4);
}

#[test]
fn invalidation_removes_the_edges_of_the_file() {
    let mut graph = make_test_graph();
    graph.invalidate_file("src/api/middleware.ts");
    let stats = graph.stats();
    assert_eq!(stats.entity_count, 3);
    assert_eq!(stats.edge_count, 0);
    assert_eq!(stats.avg_confidence, 0);
    assert_eq!(stats.files_tracked, 3);
    assert!(graph.invalidate_file("src/unknown.ts").is_empty());
}

#[test]
fn relationship_to_an_unknown_entity_is_refused() {
    let mut graph = make_test_graph();
    let r = graph.add_relationship(
        &EntityId::local("src/nowhere.ts", "ghost"),
        &EntityId::local("src/auth/service.ts", "validateToken"),
        UcmEdge::new(RelationType::Calls, DiscoverySource::StaticAnalysis, 500_000, "x".to_string()),
    );
    assert!(r.is_err());
    assert_eq!(graph.stats().edge_count, 2);
}

#[test]
fn upsert_replaces_an_entity_in_place() {
    let mut graph = make_test_graph();
    let before = graph.stats();
    let n = graph.upsert_entity(function("src/auth/service.ts", "validateToken", false, 3, None));
    assert_eq!(graph.entity_node_index(&EntityId::local("src/auth/service.ts", "validateToken")), Some(n));
    assert_eq!(graph.stats().entity_count, before.entity_count);
    match &graph.get_entity(&EntityId::local("src/auth/service.ts", "validateToken")).unwrap().kind {
        EntityKind::Function { parameter_count, .. } => assert_eq!(*parameter_count, 3),
        _ => panic!("kind changed"),
    }
    assert_eq!(graph.stats().edge_count, 2);
}

#[test]
fn dependencies_follow_outgoing_edges() {
    let graph = make_test_graph();
    let deps = graph.dependencies(&EntityId::local("src/payments/checkout.ts", "processPayment")).unwrap();
    assert_eq!(deps.len(), 1);
    assert_eq!(deps[0].0.name, "authMiddleware");
    assert_eq!(deps[0].1.relation_type_str(), "depends on");
    assert!(graph.dependencies(&EntityId::local("src/none.ts", "none")).is_err());
    assert_eq!(graph.all_entities().len(), 4);
}

#[test]
fn context_edge_relation_text() {
    let edge: ContextEdge = UcmEdge::new(RelationType::CoChanged, DiscoverySource::HistoricalContext, 500_000, "c".to_string());
    assert_eq!(edge.relation_type_str(), "co-changed with");
    assert_eq!(ucm::edge::relation_type_str(RelationType::TestedBy), "tested by");
}

// ─── Edges ─────────────────────────────────────────────────────────

#[test]
fn test_edge_creation() {
    let edge = UcmEdge::new(
        RelationType::Imports,
        DiscoverySource::StaticAnalysis,
        950_000,
        "import statement found in AST".to_string(),
    );
    assert_eq!(edge.relation_type, RelationType::Imports);
    assert_eq!(edge.confidence, 950_000);
    assert_eq!(edge.evidence.len(), 1);
    assert_eq!(edge.decay_rate, 1_000);
}

#[test]
fn test_evidence_fusion() {
    let mut edge = UcmEdge::new(
        RelationType::DependsOn,
        DiscoverySource::StaticAnalysis,
        800_000,
        "static analysis found dependency".to_string(),
    );
    edge.add_evidence(
        DiscoverySource::ApiTraffic,
        700_000,
        "API traffic confirms runtime dependency".to_string(),
    );
    // Noisy-OR: 1 - (1-0.8)(1-0.7) = 0.94
    assert!((edge.confidence as i64 - 940_000).abs() < 10_000);
    assert_eq!(edge.confidence, 940_000);
    assert_eq!(edge.evidence.len(), 2);
}

#[test]
fn test_confidence_tier() {
    assert_eq!(ConfidenceTier::from_score(900_000), ConfidenceTier::High);
    assert_eq!(ConfidenceTier::from_score(720_000), ConfidenceTier::Medium);
    assert_eq!(ConfidenceTier::from_score(450_000), ConfidenceTier::Low);
}

#[test]
fn tier_boundaries_and_markers() {
    assert_eq!(ConfidenceTier::from_score(850_000), ConfidenceTier::High);
    assert_eq!(ConfidenceTier::from_score(849_999), ConfidenceTier::Medium);
    assert_eq!(ConfidenceTier::from_score(600_000), ConfidenceTier::Medium);
    assert_eq!(ConfidenceTier::from_score(599_999), ConfidenceTier::Low);
    assert_eq!(ConfidenceTier::High.emoji(), "🟢");
    assert_eq!(ConfidenceTier::Medium.emoji(), "🟡");
    assert_eq!(ConfidenceTier::Low.emoji(), "🔴");
}

#[test]
fn decay_rates_by_relation_and_source() {
    assert_eq!(UcmEdge::default_decay_rate(RelationType::Calls, DiscoverySource::StaticAnalysis), 5_000);
    assert_eq!(UcmEdge::default_decay_rate(RelationType::TestedBy, DiscoverySource::ApiTraffic), 10_000);
    assert_eq!(UcmEdge::default_decay_rate(RelationType::DependsOn, DiscoverySource::ApiTraffic), 100_000);
    assert_eq!(UcmEdge::default_decay_rate(RelationType::DependsOn, DiscoverySource::HistoricalContext), 50_000);
    assert_eq!(UcmEdge::default_decay_rate(RelationType::DependsOn, DiscoverySource::StaticAnalysis), 20_000);
}

// ─── Identifiers ───────────────────────────────────────────────────

#[test]
fn test_scip_id_construction() {
    let id = EntityId::new("npm", "my-app", "1.0.0", "src/auth/service.ts", "validateToken");
    assert_eq!(id.as_str(), "scip:npm/my-app/1.0.0/src/auth/service.ts#validateToken");
}

#[test]
fn test_scip_id_local() {
    let id = EntityId::local("src/main.rs", "main");
    assert!(id.as_str().contains("local/project"));
    assert_eq!(id.as_str(), "scip:local/project/0.0.0/src/main.rs#main");
}

#[test]
fn test_entity_symbol_name() {
    let id = EntityId::new("npm", "my-app", "1.0.0", "src/auth/service.ts", "validateToken");
    assert_eq!(id.symbol_name(), Some("validateToken"));
}

#[test]
fn identifier_parts() {
    let id = EntityId::new("npm", "my-app", "1.0.0", "src/auth/service.ts", "validateToken");
    assert_eq!(id.file_path(), Some("src/auth/service.ts"));
    let bare = EntityId("no-symbol".to_string());
    assert_eq!(bare.symbol_name(), None);
}

#[test]
fn line_range_is_attached() {
    let e = function("src/a.ts", "a", false, 0, None).with_line_range(3, 9);
    assert_eq!(e.line_range, Some((3, 9)));
    assert_eq!(e.name, "a");
}

// ─── Events ────────────────────────────────────────────────────────

#[test]
fn test_event_creation() {
    let event = UcmEvent::new(EventPayload::EntityDiscovered {
        entity_id: EntityId::local("src/auth/service.ts", "validateToken"),
        kind: EntityKind::Function { is_async: true, parameter_count: 1, return_type: Some("boolean".into()) },
        name: "validateToken".into(),
        file_path: "src/auth/service.ts".into(),
        language: "typescript".into(),
        source: DiscoverySource::StaticAnalysis,
        line_range: Some((10, 25)),
    });
    assert_eq!(event.schema_version, 1);
    assert!(event.causation_id.is_none());
}

#[test]
fn event_test_causation_chain() {
    let parent = UcmEvent::new(EventPayload::ChangeDetected {
        file_path: "src/auth/service.ts".into(),
        change_type: ChangeType::SignatureChange,
        affected_entities: vec![EntityId::local("src/auth/service.ts", "validateToken")],
        before_snapshot: None,
        after_snapshot: None,
    });
    let child = UcmEvent::caused_by(
        EventPayload::ConfidenceUpdated {
            source_entity: EntityId::local("src/auth/service.ts", "validateToken"),
            target_entity: EntityId::local("src/api/middleware.ts", "authMiddleware"),
            new_evidence_confidence: 950_000,
            source: DiscoverySource::StaticAnalysis,
            description: "re-analyzed after change".into(),
        },
        parent.event_id,
    );
    assert_eq!(child.causation_id, Some(parent.event_id));
}

#[test]
fn events_get_distinct_identifiers() {
    let a = UcmEvent::new(EventPayload::EdgeVerified {
        source_entity: EntityId::local("a.ts", "a"),
        target_entity: EntityId::local("b.ts", "b"),
    });
    let b = UcmEvent::new(EventPayload::EdgeVerified {
        source_entity: EntityId::local("a.ts", "a"),
        target_entity: EntityId::local("b.ts", "b"),
    });
    assert_ne!(a.event_id, b.event_id);
}
