use ucm::api_log_adapter::{ingest_api_logs, ApiLogEntry};
use ucm::diff_parser::{extract_function_signatures, extract_import_lines, parse_diff};
use ucm::edge::RelationType;
use ucm::entity::{DiscoverySource, EntityId, EntityKind};
use ucm::event::{ChangeType, EventPayload, UcmEvent};
use ucm::git_history_adapter::{ingest_co_changes, CoChangeEntry};
use ucm::jira_adapter::{ingest_ticket, JiraTicket};
use ucm::linear_adapter::{ingest_linear_issue, LinearIssue};
use ucm::projection::GraphProjection;
use ucm::store::EventStore;

fn discovered(path: &str, symbol: &str, language: &str, line_range: Option<(usize, usize)>) -> UcmEvent {
    UcmEvent::new(EventPayload::EntityDiscovered {
        entity_id: EntityId::local(path, symbol),
        kind: EntityKind::Function { is_async: false, parameter_count: 0, return_type: None },
        name: symbol.to_string(),
        file_path: path.to_string(),
        language: language.to_string(),
        source: DiscoverySource::StaticAnalysis,
        line_range,
    })
}

// ─── Projection ────────────────────────────────────────────────────

#[test]
fn test_replay_builds_graph() {
    let events = vec![
        UcmEvent::new(EventPayload::EntityDiscovered {
            entity_id: EntityId::local("src/auth/service.ts", "validateToken"),
            kind: EntityKind::Function { is_async: true, parameter_count: 1, return_type: Some("boolean".into()) },
            name: "validateToken".into(),
            file_path: "src/auth/service.ts".into(),
            language: "typescript".into(),
            source: DiscoverySource::StaticAnalysis,
            line_range: Some((10, 25)),
        }),
        UcmEvent::new(EventPayload::EntityDiscovered {
            entity_id: EntityId::local("src/api/middleware.ts", "authMiddleware"),
            kind: EntityKind::Function { is_async: true, parameter_count: 2, return_type: None },
            name: "authMiddleware".into(),
            file_path: "src/api/middleware.ts".into(),
            language: "typescript".into(),
            source: DiscoverySource::StaticAnalysis,
            line_range: None,
        }),
        UcmEvent::new(EventPayload::DependencyLinked {
            source_entity: EntityId::local("src/api/middleware.ts", "authMiddleware"),
            target_entity: EntityId::local("src/auth/service.ts", "validateToken"),
            relation_type: RelationType::Imports,
            confidence: 950_000,
            source: DiscoverySource::StaticAnalysis,
            description: "import statement".into(),
        }),
    ];
    let graph = GraphProjection::replay_all(&events);
    let stats = graph.stats();
    assert_eq!(stats.entity_count, 2);
    assert_eq!(stats.edge_count, 1);
}

#[test]
fn test_replay_is_idempotent() {
    let events = vec![discovered("src/main.rs", "main", "rust", None)];
    let graph1 = GraphProjection::replay_all(&events);
    let graph2 = GraphProjection::replay_all(&events);
    assert_eq!(graph1.stats().entity_count, graph2.stats().entity_count);
}

#[test]
fn rediscovery_does_not_duplicate() {
    let e = discovered("src/main.rs", "main", "rust", None);
    let events = vec![e.clone(), e];
    let graph = GraphProjection::replay_all(&events);
    assert_eq!(graph.stats().entity_count, 1);
}

fn link(from: (&str, &str), to: (&str, &str), confidence: u32) -> UcmEvent {
    UcmEvent::new(EventPayload::DependencyLinked {
        source_entity: EntityId::local(from.0, from.1),
        target_entity: EntityId::local(to.0, to.1),
        relation_type: RelationType::Imports,
        confidence,
        source: DiscoverySource::StaticAnalysis,
        description: "import statement".into(),
    })
}

#[test]
fn relinking_merges_with_the_existing_edge() {
    let l = link(("src/a.ts", "a"), ("src/b.ts", "b"), 800_000);
    let events = vec![discovered("src/a.ts", "a", "typescript", None), discovered("src/b.ts", "b", "typescript", None), l.clone()];
    let mut graph = GraphProjection::replay_all(&events);
    let before = graph.stats();
    GraphProjection::apply_event(&mut graph, &l);
    let after = graph.stats();
    assert_eq!(before.entity_count, after.entity_count);
    assert_eq!(before.edge_count, 1);
    assert_eq!(after.edge_count, 1);
    assert_eq!(graph.dependencies(&EntityId::local("src/a.ts", "a")).unwrap().len(), 1);
}

#[test]
fn confidence_update_adds_evidence_to_the_edge() {
    let events = vec![
        discovered("src/a.ts", "a", "typescript", None),
        discovered("src/b.ts", "b", "typescript", None),
        link(("src/a.ts", "a"), ("src/b.ts", "b"), 800_000),
        UcmEvent::new(EventPayload::ConfidenceUpdated {
            source_entity: EntityId::local("src/a.ts", "a"),
            target_entity: EntityId::local("src/b.ts", "b"),
            new_evidence_confidence: 800_000,
            source: DiscoverySource::GitDiff,
            description: "seen changing together".into(),
        }),
    ];
    let graph = GraphProjection::replay_all(&events);
    assert_eq!(graph.stats().entity_count, 2);
    assert_eq!(graph.stats().edge_count, 1);
    let deps = graph.dependencies(&EntityId::local("src/a.ts", "a")).unwrap();
    assert_eq!(deps[0].1.evidence.len(), 2);
    // 1 - (1 - 0.8)(1 - 0.8) = 0.96
    assert_eq!(deps[0].1.confidence, 960_000);
}

#[test]
fn rediscovery_in_another_file_moves_ownership() {
    let mut moved = discovered("src/a.ts", "x", "typescript", None);
    if let EventPayload::EntityDiscovered { file_path, .. } = &mut moved.payload {
        *file_path = "src/b.ts".to_string();
    }
    let events = vec![discovered("src/a.ts", "x", "typescript", None), moved];
    let mut graph = GraphProjection::replay_all(&events);
    assert_eq!(graph.stats().entity_count, 1);
    assert!(graph.invalidate_file("src/a.ts").is_empty());
    assert_eq!(graph.invalidate_file("src/b.ts"), vec![EntityId::local("src/a.ts", "x")]);
    assert_eq!(graph.stats().entity_count, 0);
}

#[test]
fn change_detected_hides_the_file() {
    let mut events = vec![discovered("src/a.rs", "a", "rust", None), discovered("src/b.rs", "b", "rust", None)];
    events.push(UcmEvent::new(EventPayload::ChangeDetected {
        file_path: "src/a.rs".into(),
        change_type: ChangeType::BodyChange,
        affected_entities: vec![],
        before_snapshot: None,
        after_snapshot: None,
    }));
    let graph = GraphProjection::replay_all(&events);
    assert_eq!(graph.stats().entity_count, 1);
    assert!(graph.get_entity(&EntityId::local("src/a.rs", "a")).is_none());
    assert!(graph.get_entity(&EntityId::local("src/b.rs", "b")).is_some());
}

#[test]
fn link_to_unknown_entity_is_skipped() {
    let events = vec![
        discovered("src/a.rs", "a", "rust", None),
        UcmEvent::new(EventPayload::DependencyLinked {
            source_entity: EntityId::local("src/a.rs", "a"),
            target_entity: EntityId::local("src/zz.rs", "zz"),
            relation_type: RelationType::Calls,
            confidence: 500_000,
            source: DiscoverySource::StaticAnalysis,
            description: "call".into(),
        }),
    ];
    let graph = GraphProjection::replay_all(&events);
    assert_eq!(graph.stats().edge_count, 0);
}

// ─── Store ─────────────────────────────────────────────────────────

#[test]
fn test_append_and_retrieve() {
    let mut store = EventStore::new();
    let event = discovered("src/main.rs", "main", "rust", Some((1, 10)));
    let event_id = event.event_id;
    store.append(event);
    assert_eq!(store.len(), 1);
    assert!(store.get_by_id(&event_id).is_some());
    assert!(!store.is_empty());
}

#[test]
fn test_replay() {
    let mut store = EventStore::new();
    for i in 0..5 {
        store.append(discovered("src/main.rs", &format!("fn_{i}"), "rust", None));
    }
    let all = store.replay(None);
    assert_eq!(all.len(), 5);
}

#[test]
fn test_checkpoint() {
    let mut store = EventStore::new();
    for i in 0..3 {
        store.append(discovered("src/main.rs", &format!("fn_{i}"), "rust", None));
    }
    store.advance_checkpoint();
    for i in 3..5 {
        store.append(discovered("src/main.rs", &format!("fn_{i}"), "rust", None));
    }
    assert_eq!(store.events_since_checkpoint().len(), 2);
}

#[test]
fn store_test_causation_chain() {
    let mut store = EventStore::new();
    let root = UcmEvent::new(EventPayload::ChangeDetected {
        file_path: "src/auth/service.ts".into(),
        change_type: ChangeType::SignatureChange,
        affected_entities: vec![],
        before_snapshot: None,
        after_snapshot: None,
    });
    let root_id = root.event_id;
    store.append(root);
    let child = UcmEvent::caused_by(
        EventPayload::ConfidenceUpdated {
            source_entity: EntityId::local("src/auth/service.ts", "validateToken"),
            target_entity: EntityId::local("src/api/middleware.ts", "authMiddleware"),
            new_evidence_confidence: 900_000,
            source: DiscoverySource::StaticAnalysis,
            description: "re-analyzed".into(),
        },
        root_id,
    );
    let child_id = child.event_id;
    store.append(child);
    let chain = store.causation_chain(&child_id);
    assert_eq!(chain.len(), 2);
    assert_eq!(chain[0].event_id, root_id);
    assert_eq!(chain[1].event_id, child_id);
}

#[test]
fn replay_from_a_time_and_streams() {
    let mut store = EventStore::new();
    store.append(discovered("src/a.rs", "a", "rust", None));
    store.append(discovered("src/b.rs", "b", "rust", None));
    store.append(discovered("src/a.rs", "a2", "rust", None));
    assert_eq!(store.stream("src/a.rs").len(), 2);
    assert_eq!(store.stream("src/b.rs").len(), 1);
    assert_eq!(store.stream("src/c.rs").len(), 0);
    assert_eq!(store.replay(Some(i64::MAX)).len(), 0);
    assert_eq!(store.replay(Some(i64::MIN)).len(), 3);
    assert!(store.get_by_id(&0).is_none());
}

// ─── API logs ──────────────────────────────────────────────────────

fn log(method: &str, path: &str, status: u16, ms: u64) -> ApiLogEntry {
    ApiLogEntry {
        method: method.into(),
        path: path.into(),
        status_code: status,
        response_time_ms: ms,
        handler: Some("handleLogin".into()),
        timestamp: "2024-01-15T10:00:00Z".into(),
    }
}

#[test]
fn test_ingest_api_logs() {
    let logs = vec![
        ApiLogEntry {
            method: "POST".into(),
            path: "/api/v1/auth/login".into(),
            status_code: 200,
            response_time_ms: 150,
            handler: Some("handleLogin".into()),
            timestamp: "2024-01-15T10:00:00Z".into(),
        },
        ApiLogEntry {
            method: "POST".into(),
            path: "/api/v1/auth/login".into(),
            status_code: 200,
            response_time_ms: 120,
            handler: Some("handleLogin".into()),
            timestamp: "2024-01-15T10:01:00Z".into(),
        },
    ];
    let events = ingest_api_logs(&logs);
    assert!(!events.is_empty());
    let endpoints: Vec<_> = events
        .iter()
        .filter(|e| matches!(&e.payload, EventPayload::EntityDiscovered { kind: EntityKind::ApiEndpoint { .. }, .. }))
        .collect();
    assert_eq!(endpoints.len(), 1);
}

#[test]
fn error_rate_above_five_percent_is_flagged() {
    let mut logs = Vec::new();
    for _ in 0..9 {
        logs.push(log("GET", "/x", 200, 10));
    }
    logs.push(log("GET", "/x", 500, 10));
    let events = ingest_api_logs(&logs);
    let flags: Vec<_> = events
        .iter()
        .filter(|e| matches!(&e.payload, EventPayload::ConflictFlagged { .. }))
        .collect();
    assert_eq!(flags.len(), 1);
    if let EventPayload::ConflictFlagged { description, .. } = &flags[0].payload {
        assert!(description.contains("10.0%"), "{description}");
    }
    // Exactly 5% is not flagged.
    let mut logs = Vec::new();
    for _ in 0..19 {
        logs.push(log("GET", "/y", 200, 10));
    }
    logs.push(log("GET", "/y", 503, 10));
    let events = ingest_api_logs(&logs);
    assert!(!events.iter().any(|e| matches!(&e.payload, EventPayload::ConflictFlagged { .. })));
}

#[test]
fn empty_logs_give_no_events() {
    assert!(ingest_api_logs(&[]).is_empty());
}

// ─── Git history ───────────────────────────────────────────────────

#[test]
fn test_ingest_co_changes() {
    let entries = vec![
        CoChangeEntry {
            file_a: "src/auth/service.ts".into(),
            file_b: "src/auth/middleware.ts".into(),
            co_change_count: 25,
            last_seen: "2024-12-01T10:00:00Z".into(),
        },
        CoChangeEntry {
            file_a: "src/payments/checkout.ts".into(),
            file_b: "src/payments/refund.ts".into(),
            co_change_count: 80,
            last_seen: "2025-01-15T14:30:00Z".into(),
        },
    ];
    let events = ingest_co_changes(&entries);
    assert_eq!(events.len(), 6);
    let dep_events: Vec<_> = events
        .iter()
        .filter(|e| matches!(&e.payload, EventPayload::DependencyLinked { .. }))
        .collect();
    assert_eq!(dep_events.len(), 2);
    if let EventPayload::DependencyLinked { confidence, relation_type, source, .. } = &dep_events[0].payload {
        assert!(*confidence > 490_000 && *confidence < 510_000);
        assert!(matches!(relation_type, RelationType::CoChanged));
        assert!(matches!(source, DiscoverySource::HistoricalContext));
    } else {
        panic!("Expected DependencyLinked");
    }
    if let EventPayload::DependencyLinked { confidence, .. } = &dep_events[1].payload {
        assert!((*confidence as i64 - 900_000).abs() < 10_000);
    } else {
        panic!("Expected DependencyLinked");
    }
}

#[test]
fn rare_co_change_is_clamped_up() {
    let entries = vec![CoChangeEntry {
        file_a: "a.ts".into(),
        file_b: "b.ts".into(),
        co_change_count: 1,
        last_seen: "x".into(),
    }];
    let events = ingest_co_changes(&entries);
    if let EventPayload::DependencyLinked { confidence, .. } = &events[2].payload {
        assert_eq!(*confidence, 200_000);
    } else {
        panic!("Expected DependencyLinked");
    }
}

// ─── Linear ────────────────────────────────────────────────────────

#[test]
fn test_ingest_linear_issue() {
    let issue = LinearIssue {
        identifier: "ENG-123".into(),
        title: "Add user authentication".into(),
        description: "Implement OAuth2 login flow".into(),
        state: "In Progress".into(),
        priority: "High".into(),
        labels: vec!["auth".into(), "security".into()],
        assignee: Some("alice".into()),
        url: Some("https://linear.app/team/issue/ENG-123".into()),
    };
    let events = ingest_linear_issue(&issue);
    assert_eq!(events.len(), 2, "Should create requirement + feature entities");
    match &events[0].payload {
        EventPayload::EntityDiscovered { name, source, .. } => {
            assert!(name.contains("ENG-123"));
            assert!(matches!(source, DiscoverySource::TicketSystem));
        },
        _ => panic!("First event should be EntityDiscovered"),
    }
}

// ─── Diffs ─────────────────────────────────────────────────────────

#[test]
fn test_detect_signature_change() {
    let before = "\nfunction validateToken(token: string): boolean {\n    return jwt.verify(token);\n}\n";
    let after = "\nfunction validateToken(token: string): Result<Claims, AuthError> {\n    return jwt.verify(token);\n}\n";
    let events = parse_diff("src/auth/service.ts", before, after);
    assert!(!events.is_empty());
    match &events[0].payload {
        EventPayload::ChangeDetected { change_type, .. } => {
            assert!(matches!(change_type, ChangeType::SignatureChange));
        },
        _ => panic!("Expected ChangeDetected event"),
    }
}

#[test]
fn test_detect_new_function() {
    let before = "function existing() {}";
    let after = "function existing() {}\nfunction newFunction() {}";
    let events = parse_diff("src/main.ts", before, after);
    let added: Vec<_> = events
        .iter()
        .filter(|e| matches!(&e.payload, EventPayload::ChangeDetected { change_type: ChangeType::EntityAdded, .. }))
        .collect();
    assert!(!added.is_empty());
}

#[test]
fn test_detect_removed_function() {
    let before = "function toRemove() {}\nfunction toKeep() {}";
    let after = "function toKeep() {}";
    let events = parse_diff("src/main.ts", before, after);
    let removed: Vec<_> = events
        .iter()
        .filter(|e| matches!(&e.payload, EventPayload::ChangeDetected { change_type: ChangeType::EntityDeleted, .. }))
        .collect();
    assert!(!removed.is_empty());
}

#[test]
fn unchanged_source_gives_no_events() {
    let src = "function a() {}\nimport x from 'y';";
    assert!(parse_diff("src/main.ts", src, src).is_empty());
}

#[test]
fn import_changes_are_detected() {
    let events = parse_diff("src/main.ts", "import a from 'a';", "import a from 'a';\nimport b from 'b';");
    assert!(events
        .iter()
        .any(|e| matches!(&e.payload, EventPayload::ChangeDetected { change_type: ChangeType::ImportChange, .. })));
    assert_eq!(extract_import_lines("import a from 'a';\nconst x = 1;\nuse std::fmt;").len(), 1);
}

#[test]
fn signatures_are_keyed_by_name() {
    let sigs = extract_function_signatures("function f(a) {\n}\nfunction g(b) {}\nfunction f(c) {}");
    assert_eq!(sigs.len(), 2);
}

// ─── Jira ──────────────────────────────────────────────────────────

#[test]
fn test_ingest_ticket() {
    let ticket = JiraTicket {
        key: "AUTH-42".into(),
        summary: "Implement OAuth2 authentication".into(),
        description: "Users should be able to log in via OAuth2 providers".into(),
        acceptance_criteria: vec![
            "Users can log in with Google".into(),
            "Users can log in with GitHub".into(),
            "Session persists for 24 hours".into(),
        ],
        linked_files: vec!["src/auth/service.ts".into()],
        status: "In Progress".into(),
    };
    let events = ingest_ticket(&ticket);
    assert!(events.len() >= 2, "Should create requirement + feature entities");
    let deps: Vec<_> = events.iter().filter(|e| matches!(&e.payload, EventPayload::DependencyLinked { .. })).collect();
    assert_eq!(deps.len(), 1, "Should link file to requirement");
}
