use ucm::ambiguity::{detect_ambiguities, enrich_with_ambiguities, AmbiguityType};
use ucm::edge::{RelationType, UcmEdge};
use ucm::entity::{DiscoverySource, EntityId, EntityKind, UcmEntity};
use ucm::explanation::{explain_impact, explain_not_impacted, ExplanationChain};
use ucm::graph::{ImpactType, ImpactedEntity, UcmGraph};
use ucm::impact::{find_not_impacted, has_path_to_any, impact_bfs};
use ucm::intent::{generate_test_intent, RiskSeverity};
use ucm::replay::compare_traces;
use ucm::report::analyze_impact;
use ucm::trace::{trace_impact_analysis, TraceStore};

fn entity(file: &str, symbol: &str) -> UcmEntity {
    UcmEntity::new(
        EntityId::local(file, symbol),
        EntityKind::Function { is_async: true, parameter_count: 1, return_type: None },
        symbol.to_string(),
        file.to_string(),
        "typescript".to_string(),
        DiscoverySource::StaticAnalysis,
    )
}

fn build_test_graph() -> UcmGraph {
    let mut graph = UcmGraph::new();
    for (file, symbol) in [
        ("src/auth/service.ts", "validateToken"),
        ("src/api/middleware.ts", "authMiddleware"),
        ("src/payments/checkout.ts", "processPayment"),
        ("src/admin/reports.ts", "generateReport"),
    ] {
        graph.add_entity(entity(file, symbol)).unwrap();
    }
    graph
        .add_relationship(
            &EntityId::local("src/api/middleware.ts", "authMiddleware"),
            &EntityId::local("src/auth/service.ts", "validateToken"),
            UcmEdge::new(RelationType::Imports, DiscoverySource::StaticAnalysis, 950_000, "imports directly".into()),
        )
        .unwrap();
    graph
        .add_relationship(
            &EntityId::local("src/payments/checkout.ts", "processPayment"),
            &EntityId::local("src/api/middleware.ts", "authMiddleware"),
            UcmEdge::new(RelationType::DependsOn, DiscoverySource::StaticAnalysis, 800_000, "uses auth middleware".into()),
        )
        .unwrap();
    graph
}

fn changed() -> Vec<EntityId> {
    vec![EntityId::local("src/auth/service.ts", "validateToken")]
}

// ─── Explanations ──────────────────────────────────────────────────

#[test]
fn test_explanation_chain() {
    let mut chain = ExplanationChain::new("authMiddleware is directly impacted");
    chain.add_step(
        "git diff shows validateToken() signature changed",
        "Return type changed from boolean to Result<Claims, AuthError>",
        1_000_000,
    );
    chain.add_step(
        "Static analysis: authMiddleware imports validateToken",
        "authMiddleware must handle new Result type",
        950_000,
    );
    assert_eq!(chain.steps.len(), 2);
    assert!((chain.overall_confidence as i64 - 950_000).abs() < 10_000);
    let narrative = chain.to_narrative();
    assert!(narrative.contains("Step 1"));
    assert!(narrative.contains("Step 2"));
}

#[test]
fn narrative_is_exact() {
    let mut chain = ExplanationChain::new("S");
    chain.add_step("e", "i", 725_000);
    assert_eq!(
        chain.to_narrative(),
        "**S**\n\nStep 1: Based on e → concluded i (confidence: 72%)\n\nOverall confidence: 72%"
    );
    let mut even = ExplanationChain::new("T");
    even.add_step("e", "i", 735_000);
    assert_eq!(even.overall_confidence, 735_000);
    assert!(even.to_narrative().ends_with("Overall confidence: 74%"));
}

#[test]
fn test_explain_impact() {
    let chain = explain_impact(
        "processPayment",
        &["validateToken".into(), "authMiddleware".into(), "processPayment".into()],
        720_000,
    );
    assert!(!chain.steps.is_empty());
    assert!(chain.summary.contains("processPayment"));
    assert_eq!(chain.steps.len(), 2);
    assert_eq!(chain.steps[0].evidence, "Graph traversal found dependency path: validateToken → authMiddleware → processPayment");
    assert_eq!(chain.steps[1].evidence, "Transitive confidence decays over 2 hops");
}

#[test]
fn explain_direct_impact_has_one_step() {
    let chain = explain_impact("m", &["m".into()], 900_000);
    assert_eq!(chain.steps.len(), 1);
    assert_eq!(chain.steps[0].inference, "m directly references the changed code");
    let strong = explain_impact("p", &["a".into(), "p".into()], 900_000);
    assert_eq!(strong.steps.len(), 1);
}

#[test]
fn test_explain_not_impacted() {
    let chain = explain_not_impacted("generateReport", "No graph path exists; uses separate admin auth flow", 880_000);
    assert!(chain.summary.contains("NOT impacted"));
    assert_eq!(chain.overall_confidence, 880_000);
}

// ─── Impact ────────────────────────────────────────────────────────

#[test]
fn test_impact_analysis() {
    let graph = build_test_graph();
    let report = analyze_impact(&graph, &changed(), 100_000, 10, &graph.edge_confidences());
    assert!(!report.direct_impacts.is_empty(), "Should have direct impacts");
    assert!(report.direct_impacts.iter().any(|i| i.name == "authMiddleware"));
    assert!(!report.indirect_impacts.is_empty(), "Should have indirect impacts");
    assert!(report.indirect_impacts.iter().any(|i| i.name == "processPayment"));
    assert!(!report.not_impacted.is_empty(), "Should have not-impacted");
    assert!(report.not_impacted.iter().any(|n| n.name == "generateReport"));
    for impact in &report.direct_impacts {
        assert!(!impact.explanation_chain.steps.is_empty());
    }
    assert_eq!(report.stats.total_entities, 4);
    assert_eq!(report.stats.max_depth_reached, 2);
    assert_eq!(report.changes.len(), 1);
    assert_eq!(report.changes[0].name, "validateToken");
}

#[test]
fn test_find_not_impacted() {
    let graph = build_test_graph();
    let impacted = vec![ImpactedEntity {
        entity_id: EntityId::local("src/api/middleware.ts", "authMiddleware"),
        name: "authMiddleware".to_string(),
        confidence: 950_000,
        depth: 1,
        impact_type: ImpactType::Direct,
        path: vec!["validateToken".to_string(), "authMiddleware".to_string()],
        reason: "imports directly".to_string(),
    }];
    let not_impacted = find_not_impacted(&graph, &changed(), &impacted);
    let report_ni = not_impacted.iter().find(|ni| ni.name == "generateReport");
    assert!(report_ni.is_some());
    assert_eq!(report_ni.unwrap().reason, "No graph path exists to changed entities");
    assert_eq!(report_ni.unwrap().confidence, 900_000);
    let payment_ni = not_impacted.iter().find(|ni| ni.name == "processPayment");
    assert!(payment_ni.is_some());
    assert_eq!(payment_ni.unwrap().reason, "Path exists but confidence below threshold");
    assert_eq!(payment_ni.unwrap().confidence, 600_000);
    assert!(!not_impacted.iter().any(|ni| ni.name == "validateToken"));
    assert!(!not_impacted.iter().any(|ni| ni.name == "authMiddleware"));
}

#[test]
fn threshold_and_depth_prune_the_traversal() {
    let graph = build_test_graph();
    let w = graph.edge_confidences();
    // 0.95 × 0.80 = 0.76 is below 0.8: only the direct impact stays.
    let r = impact_bfs(&graph, &changed(), 800_000, 10, &w);
    assert_eq!(r.len(), 1);
    assert_eq!(r[0].name, "authMiddleware");
    assert_eq!(r[0].reason, "imports via scip:local/project/0.0.0/src/auth/service.ts#validateToken (🟢)");
    let r = impact_bfs(&graph, &changed(), 100_000, 1, &w);
    assert_eq!(r.len(), 1);
    let r = impact_bfs(&graph, &changed(), 100_000, 0, &w);
    assert!(r.is_empty());
    let r = impact_bfs(&graph, &[EntityId::local("nope.ts", "nope")], 100_000, 10, &w);
    assert!(r.is_empty());
}

#[test]
fn a_stronger_longer_path_replaces_a_weak_direct_one() {
    let mut graph = UcmGraph::new();
    for (file, symbol) in [("a.ts", "a"), ("b.ts", "b"), ("c.ts", "c")] {
        graph.add_entity(entity(file, symbol)).unwrap();
    }
    let link = |g: &mut UcmGraph, from: &str, to: &str, conf: u32| {
        g.add_relationship(
            &EntityId::local(&format!("{from}.ts"), from),
            &EntityId::local(&format!("{to}.ts"), to),
            UcmEdge::new(RelationType::Calls, DiscoverySource::StaticAnalysis, conf, "calls".into()),
        )
        .unwrap();
    };
    // b depends weakly on a, and strongly on c, which depends strongly on a.
    link(&mut graph, "b", "a", 500_000);
    link(&mut graph, "c", "a", 900_000);
    link(&mut graph, "b", "c", 900_000);
    let w = graph.edge_confidences();
    let r = impact_bfs(&graph, &[EntityId::local("a.ts", "a")], 100_000, 10, &w);
    assert_eq!(r.len(), 2);
    let b = r.iter().find(|i| i.name == "b").unwrap();
    assert_eq!(b.confidence, 810_000);
    assert_eq!(b.depth, 2);
    assert_eq!(b.impact_type, ImpactType::Indirect);
    assert_eq!(b.path.len(), 3);
    // With one hop allowed, only the direct findings remain.
    let r = impact_bfs(&graph, &[EntityId::local("a.ts", "a")], 100_000, 1, &w);
    let b = r.iter().find(|i| i.name == "b").unwrap();
    assert_eq!(b.confidence, 500_000);
    assert_eq!(b.depth, 1);
    assert_eq!(b.impact_type, ImpactType::Direct);
}

#[test]
fn a_weaker_shallow_trail_is_still_followed() {
    let mut graph = UcmGraph::new();
    for (file, symbol) in [("c.ts", "c"), ("u.ts", "u"), ("v.ts", "v"), ("w.ts", "w")] {
        graph.add_entity(entity(file, symbol)).unwrap();
    }
    let link = |g: &mut UcmGraph, from: &str, to: &str, conf: u32| {
        g.add_relationship(
            &EntityId::local(&format!("{from}.ts"), from),
            &EntityId::local(&format!("{to}.ts"), to),
            UcmEdge::new(RelationType::Calls, DiscoverySource::StaticAnalysis, conf, "calls".into()),
        )
        .unwrap();
    };
    link(&mut graph, "v", "c", 500_000);
    link(&mut graph, "u", "c", 900_000);
    link(&mut graph, "v", "u", 1_000_000);
    link(&mut graph, "w", "v", 1_000_000);
    let w = graph.edge_confidences();
    let r = impact_bfs(&graph, &[EntityId::local("c.ts", "c")], 100_000, 2, &w);
    let v = r.iter().find(|i| i.name == "v").unwrap();
    assert_eq!(v.confidence, 900_000);
    assert_eq!(v.depth, 2);
    let w_entity = r.iter().find(|i| i.name == "w").unwrap();
    assert_eq!(w_entity.confidence, 500_000);
    assert_eq!(w_entity.depth, 2);
    assert_eq!(r.len(), 3);
}

#[test]
fn an_equally_confident_deeper_trail_keeps_the_shallow_depth() {
    let mut graph = UcmGraph::new();
    for (file, symbol) in [("c.ts", "c"), ("a.ts", "a"), ("b.ts", "b")] {
        graph.add_entity(entity(file, symbol)).unwrap();
    }
    let link = |g: &mut UcmGraph, from: &str, to: &str, conf: u32| {
        g.add_relationship(
            &EntityId::local(&format!("{from}.ts"), from),
            &EntityId::local(&format!("{to}.ts"), to),
            UcmEdge::new(RelationType::Calls, DiscoverySource::StaticAnalysis, conf, "calls".into()),
        )
        .unwrap();
    };
    link(&mut graph, "a", "c", 500_000);
    link(&mut graph, "b", "c", 1_000_000);
    link(&mut graph, "a", "b", 500_000);
    let w = graph.edge_confidences();
    let r = impact_bfs(&graph, &[EntityId::local("c.ts", "c")], 100_000, 5, &w);
    let a = r.iter().find(|i| i.name == "a").unwrap();
    assert_eq!(a.confidence, 500_000);
    assert_eq!(a.depth, 1);
    assert_eq!(a.impact_type, ImpactType::Direct);
}

#[test]
fn paths_follow_dependencies() {
    let graph = build_test_graph();
    let t = changed();
    assert!(has_path_to_any(&graph, &EntityId::local("src/payments/checkout.ts", "processPayment"), &t));
    assert!(!has_path_to_any(&graph, &EntityId::local("src/admin/reports.ts", "generateReport"), &t));
    assert!(has_path_to_any(&graph, &EntityId::local("src/auth/service.ts", "validateToken"), &t));
    assert!(!has_path_to_any(&graph, &EntityId::local("x.ts", "x"), &t));
}

// ─── Intent ────────────────────────────────────────────────────────

#[test]
fn test_generate_test_intent() {
    let graph = build_test_graph();
    let mut g2 = UcmGraph::new();
    for (file, symbol) in [
        ("src/auth/service.ts", "validateToken"),
        ("src/api/middleware.ts", "authMiddleware"),
        ("src/payments/checkout.ts", "processPayment"),
    ] {
        g2.add_entity(entity(file, symbol)).unwrap();
    }
    g2.add_relationship(
        &EntityId::local("src/api/middleware.ts", "authMiddleware"),
        &EntityId::local("src/auth/service.ts", "validateToken"),
        UcmEdge::new(RelationType::Imports, DiscoverySource::StaticAnalysis, 950_000, "imports".into()),
    )
    .unwrap();
    g2.add_relationship(
        &EntityId::local("src/payments/checkout.ts", "processPayment"),
        &EntityId::local("src/api/middleware.ts", "authMiddleware"),
        UcmEdge::new(RelationType::DependsOn, DiscoverySource::StaticAnalysis, 800_000, "depends".into()),
    )
    .unwrap();
    let report = analyze_impact(&g2, &changed(), 100_000, 10, &g2.edge_confidences());
    let intent = generate_test_intent(&report);
    assert!(intent.summary.total_scenarios > 0);
    assert!(!intent.risks.is_empty());
    assert!(!intent.high_confidence.is_empty());
    for scenario in &intent.high_confidence {
        assert!(!scenario.explanation_chain.steps.is_empty());
    }
    let _ = graph;
}

#[test]
fn intent_scenarios_and_risks_are_exact() {
    let graph = build_test_graph();
    let report = analyze_impact(&graph, &changed(), 100_000, 10, &graph.edge_confidences());
    let intent = generate_test_intent(&report);
    // authMiddleware (0.95, high): its scenario and its error scenario (0.855, high).
    assert_eq!(intent.high_confidence.len(), 2);
    assert_eq!(intent.high_confidence[0].description, "Verify authMiddleware still functions correctly after change");
    assert_eq!(intent.high_confidence[1].confidence, 855_000);
    assert_eq!(intent.high_confidence[1].explanation_chain.overall_confidence, 855_000);
    // processPayment (0.76, medium).
    assert_eq!(intent.medium_confidence.len(), 1);
    assert_eq!(
        intent.medium_confidence[0].description,
        "Verify processPayment end-to-end flow still works (transitive dependency via 2 hops)"
    );
    assert!(intent.low_confidence.is_empty());
    assert_eq!(intent.summary.total_scenarios, 3);
    assert_eq!(intent.risks.len(), 2);
    assert_eq!(intent.risks[0].severity, RiskSeverity::High);
    assert_eq!(intent.risks[1].severity, RiskSeverity::Medium);
    assert_eq!(intent.risks[1].description, "processPayment is indirectly affected via 2-hop chain with 76% confidence");
    assert_eq!(intent.coverage_gaps.len(), 2);
    assert_eq!(intent.decided_not_to_test.len(), 1);
    assert_eq!(intent.decided_not_to_test[0].entity, "generateReport");
    assert_eq!(intent.decided_not_to_test[0].confidence_of_safety, 900_000);
}

// ─── Ambiguity ─────────────────────────────────────────────────────

#[test]
fn test_detect_low_confidence() {
    let mut graph = UcmGraph::new();
    graph.add_entity(entity("src/a.ts", "fnA")).unwrap();
    graph.add_entity(entity("src/b.ts", "fnB")).unwrap();
    graph
        .add_relationship(
            &EntityId::local("src/a.ts", "fnA"),
            &EntityId::local("src/b.ts", "fnB"),
            UcmEdge::new(RelationType::DependsOn, DiscoverySource::HistoricalContext, 400_000, "weak heuristic".into()),
        )
        .unwrap();
    let report = detect_ambiguities(&graph, 600_000, &graph.edge_confidences());
    assert!(report.total_low_confidence_edges > 0);
    assert!(!report.flags.is_empty());
    assert_eq!(report.flags[0].flag_type, AmbiguityType::LowConfidence);
    assert_eq!(report.flags[0].description, "Low confidence (40%) on relationship: fnA → fnB");
    assert_eq!(report.flags[0].severity, "🔴");
    assert!(report.flags[0].evidence[0].starts_with("weak heuristic: 40% ("));
    // The observation time is printed as chrono prints a UTC instant.
    assert!(report.flags[0].evidence[0].ends_with(" UTC)"), "{}", report.flags[0].evidence[0]);
    assert_eq!(report.total_stale_edges, 0);
}

#[test]
fn stale_edges_are_flagged() {
    let graph = build_test_graph();
    // Decayed to half of what was observed: both edges are stale, neither weak.
    let decayed: Vec<u32> = graph.edge_confidences().iter().map(|c| c / 2).collect();
    let report = detect_ambiguities(&graph, 100_000, &decayed);
    assert_eq!(report.total_low_confidence_edges, 0);
    assert_eq!(report.total_stale_edges, 2);
    assert_eq!(report.flags.len(), 2);
    let stale = report.flags.iter().find(|f| f.description.starts_with("Stale relationship: authMiddleware")).unwrap();
    assert_eq!(stale.description, "Stale relationship: authMiddleware → validateToken (base 95%, decayed to 48%)");
    assert!(stale.evidence[0].starts_with("Last verified: Some("));
    assert!(stale.evidence[0].ends_with("Z), decay rate: 0.001"), "{}", stale.evidence[0]);
    assert_eq!(stale.recommendation, "Re-verify this relationship with fresh analysis");
    // Exactly 0.8 of the confidence is not stale.
    let decayed: Vec<u32> = graph.edge_confidences().iter().map(|c| c / 5 * 4).collect();
    assert_eq!(detect_ambiguities(&graph, 100_000, &decayed).total_stale_edges, 0);
}

#[test]
fn ambiguities_enrich_a_report() {
    let graph = build_test_graph();
    let mut report = analyze_impact(&graph, &changed(), 100_000, 10, &graph.edge_confidences());
    let before = report.direct_impacts.len();
    enrich_with_ambiguities(&mut report, &graph, 900_000, &graph.edge_confidences());
    assert_eq!(report.ambiguities.len(), 1);
    assert_eq!(report.ambiguities[0].ambiguity_type, "LowConfidence");
    assert_eq!(report.direct_impacts.len(), before);
    let intent = generate_test_intent(&report);
    assert!(intent.risks.iter().any(|r| r.description.starts_with("Ambiguity: Low confidence (80%)")));
}

// ─── Traces and replay ─────────────────────────────────────────────

#[test]
fn test_trace_store() {
    let mut store = TraceStore::new();
    let trigger_id: u128 = 0x0190_0000_0000_7000_8000_0000_0000_0001;
    let trace = trace_impact_analysis(trigger_id, 10, &[EntityId::local("src/auth.ts", "validateToken")], 2, 3, 5, 42);
    let trace_id = trace.trace_id;
    store.record(trace);
    assert_eq!(store.len(), 1);
    assert!(store.get(&trace_id).is_some());
    let by_trigger = store.by_trigger(&trigger_id);
    assert_eq!(by_trigger.len(), 1);
}

#[test]
fn trace_contents_are_exact() {
    let trace = trace_impact_analysis(7, 10, &[EntityId::local("src/main.ts", "main")], 1, 2, 7, 15);
    assert_eq!(trace.reasoning_steps.len(), 3);
    assert_eq!(trace.reasoning_steps[1].operation, "reverse_bfs");
    assert_eq!(trace.reasoning_steps[0].input, "1 entities changed");
    assert_eq!(trace.reasoning_steps[0].output, "Change set: [\"scip:local/project/0.0.0/src/main.ts#main\"]");
    assert_eq!(trace.reasoning_steps[1].output, "1 direct + 2 indirect impacts found");
    assert_eq!(trace.output_summary, "Impact analysis: 1 direct, 2 indirect, 7 not impacted");
    assert_eq!(trace.graph_state_hash, "entities:10");
    assert_eq!(trace.duration_ms, 15);
    assert_eq!(trace.reasoning_steps[2].timestamp, trace.timestamp);
}

#[test]
fn trace_store_orders() {
    let mut store = TraceStore::default();
    assert!(store.is_empty());
    let a = trace_impact_analysis(1, 1, &[], 0, 0, 0, 1);
    let b = trace_impact_analysis(2, 1, &[], 0, 0, 0, 1);
    let (ida, idb) = (a.trace_id, b.trace_id);
    store.record(a);
    store.record(b);
    let all = store.all();
    assert_eq!(all[0].trace_id, idb);
    assert_eq!(all[1].trace_id, ida);
    assert_eq!(store.by_trigger(&3).len(), 0);
    assert!(store.get(&0).is_none());
}

#[test]
fn test_deterministic_replay() {
    let trigger: u128 = 99;
    let changed = vec![EntityId::local("src/auth.ts", "validate")];
    let trace1 = trace_impact_analysis(trigger, 10, &changed, 2, 3, 5, 42);
    let trace2 = trace_impact_analysis(trigger, 10, &changed, 2, 3, 5, 43);
    let result = compare_traces(&trace1, &trace2);
    assert!(result.is_deterministic);
    assert_eq!(result.summary, "Replay verified: decision is deterministic");
}

#[test]
fn test_divergent_replay() {
    let trigger: u128 = 99;
    let changed = vec![EntityId::local("src/auth.ts", "validate")];
    let trace1 = trace_impact_analysis(trigger, 10, &changed, 2, 3, 5, 42);
    let trace2 = trace_impact_analysis(trigger, 10, &changed, 3, 4, 3, 43);
    let result = compare_traces(&trace1, &trace2);
    assert!(!result.is_deterministic);
    assert!(!result.divergences.is_empty());
    // Steps 2 and 3 differ in output, and the summary differs.
    assert_eq!(result.divergences.len(), 3);
    assert_eq!(result.divergences[0].step, 2);
    assert_eq!(result.divergences[2].field, "output_summary");
    assert_eq!(result.summary, "Replay found 3 divergences");
}

#[test]
fn confidence_divergence_is_printed_with_four_decimals() {
    let t1 = trace_impact_analysis(1, 1, &[], 0, 0, 0, 1);
    let mut t2 = trace_impact_analysis(1, 1, &[], 0, 0, 0, 1);
    t2.reasoning_steps[0].confidence = 123_456;
    t2.reasoning_steps.pop();
    let result = compare_traces(&t1, &t2);
    assert_eq!(result.divergences[0].field, "step_count");
    assert_eq!(result.divergences[0].original_value, "3");
    assert_eq!(result.divergences[0].replayed_value, "2");
    assert_eq!(result.divergences[1].field, "confidence");
    assert_eq!(result.divergences[1].original_value, "1.0000");
    assert_eq!(result.divergences[1].replayed_value, "0.1235");
}
