//! The demonstration graph: an auth service, the middleware and routes that
//! depend on it, a requirement ticket, and two weak relationships that the
//! ambiguity detector flags.
use vstd::prelude::*;

use crate::edge::{decay_rate_for, RelationType, UcmEdge};
use crate::graph::UcmGraph;
use crate::entity::{local_id, DiscoverySource, EntityId, EntityKind, KindView, UcmEntity};
use crate::projection::{add_fresh_entity, edge_fact, entity_fact, facts, link_present, new_edge_facts, new_entity_facts, EdgeFact, EntityFact, GraphFacts};

verus! {

broadcast use vstd::string::group_string_axioms;

/// The fact of a demo entity.
pub open spec fn demo_entity(kind: KindView, name: Seq<char>, file_path: Seq<char>, language: Seq<char>, source: DiscoverySource) -> EntityFact {
    EntityFact { kind, name, file_path, line_range: None, language, source }
}

/// The demo entities: identifier and fact, in the order they are added.
pub open spec fn demo_entities() -> Seq<(Seq<char>, EntityFact)> {
    seq![
        (
            local_id("src/auth/service.ts"@, "validateToken"@),
            demo_entity(
                KindView::Function { is_async: true, parameter_count: 1, return_type: Some("boolean"@) },
                "validateToken()"@,
                "src/auth/service.ts"@,
                "typescript"@,
                DiscoverySource::StaticAnalysis,
            ),
        ),
        (
            local_id("src/api/middleware.ts"@, "authMiddleware"@),
            demo_entity(
                KindView::Function { is_async: true, parameter_count: 2, return_type: None },
                "authMiddleware()"@,
                "src/api/middleware.ts"@,
                "typescript"@,
                DiscoverySource::StaticAnalysis,
            ),
        ),
        (
            local_id("src/payments/checkout.ts"@, "processPayment"@),
            demo_entity(
                KindView::Function { is_async: true, parameter_count: 1, return_type: Some("PaymentResult"@) },
                "processPayment()"@,
                "src/payments/checkout.ts"@,
                "typescript"@,
                DiscoverySource::StaticAnalysis,
            ),
        ),
        (
            local_id("src/users/profile.ts"@, "getUserProfile"@),
            demo_entity(
                KindView::Function { is_async: true, parameter_count: 1, return_type: Some("UserProfile"@) },
                "getUserProfile()"@,
                "src/users/profile.ts"@,
                "typescript"@,
                DiscoverySource::StaticAnalysis,
            ),
        ),
        (
            local_id("src/admin/reports.ts"@, "generateReport"@),
            demo_entity(
                KindView::Function { is_async: false, parameter_count: 0, return_type: Some("Report"@) },
                "generateReport()"@,
                "src/admin/reports.ts"@,
                "typescript"@,
                DiscoverySource::StaticAnalysis,
            ),
        ),
        (
            local_id("src/routes/checkout.ts"@, "POST /api/checkout"@),
            demo_entity(
                KindView::ApiEndpoint { method: "POST"@, route: "/api/checkout"@, handler: "processPayment"@ },
                "POST /api/checkout"@,
                "src/routes/checkout.ts"@,
                "typescript"@,
                DiscoverySource::StaticAnalysis,
            ),
        ),
        (
            local_id("jira"@, "JIRA-AUTH-42"@),
            demo_entity(
                KindView::Requirement {
                    ticket_id: Some("AUTH-42"@),
                    acceptance_criteria: seq!["OAuth2 migration for validateToken"@],
                },
                "JIRA-AUTH-42: OAuth2 Migration"@,
                "jira"@,
                "jira"@,
                DiscoverySource::TicketSystem,
            ),
        ),
    ]
}

/// The fact of a demo edge with a single piece of evidence.
pub open spec fn demo_edge(
    from: Seq<char>,
    to: Seq<char>,
    relation: RelationType,
    source: DiscoverySource,
    confidence: u32,
    description: Seq<char>,
) -> EdgeFact {
    EdgeFact {
        from,
        to,
        relation,
        confidence,
        evidence: seq![(source, confidence, description)],
        decay_rate: decay_rate_for(relation, source),
    }
}

/// The demo edges, in the order they are added.
pub open spec fn demo_edges() -> Seq<EdgeFact> {
    let auth = local_id("src/auth/service.ts"@, "validateToken"@);
    let middleware = local_id("src/api/middleware.ts"@, "authMiddleware"@);
    let payment = local_id("src/payments/checkout.ts"@, "processPayment"@);
    let profile = local_id("src/users/profile.ts"@, "getUserProfile"@);
    let route = local_id("src/routes/checkout.ts"@, "POST /api/checkout"@);
    let ticket = local_id("jira"@, "JIRA-AUTH-42"@);
    seq![
        demo_edge(middleware, auth, RelationType::Imports, DiscoverySource::StaticAnalysis, 950_000, "imports validateToken directly"@),
        demo_edge(payment, middleware, RelationType::Calls, DiscoverySource::StaticAnalysis, 800_000, "route uses authMiddleware"@),
        demo_edge(profile, middleware, RelationType::Calls, DiscoverySource::StaticAnalysis, 850_000, "route uses authMiddleware"@),
        demo_edge(
            route,
            payment,
            RelationType::Implements,
            DiscoverySource::StaticAnalysis,
            920_000,
            "POST /api/checkout handler calls processPayment"@,
        ),
        demo_edge(
            ticket,
            auth,
            RelationType::RequiredBy,
            DiscoverySource::TicketSystem,
            700_000,
            "AUTH-42 requires OAuth2 migration of validateToken"@,
        ),
    ]
}

/// The facts with some new entities, in order.
pub open spec fn with_entities(a: GraphFacts, es: Seq<(Seq<char>, EntityFact)>) -> GraphFacts
    decreases es.len(),
{
    if es.len() == 0 {
        a
    } else {
        new_entity_facts(with_entities(a, es.drop_last()), es.last().0, es.last().1)
    }
}

/// The facts with some new edges, in order.
pub open spec fn with_edges(a: GraphFacts, fs: Seq<EdgeFact>) -> GraphFacts
    decreases fs.len(),
{
    if fs.len() == 0 {
        a
    } else {
        new_edge_facts(with_edges(a, fs.drop_last()), fs.last())
    }
}

/// The identifiers of the demo entities.
pub open spec fn demo_ids() -> Seq<Seq<char>> {
    demo_entities().map_values(|p: (Seq<char>, EntityFact)| p.0)
}

/// The demo identifiers are distinct.
proof fn lemma_demo_ids_distinct()
    ensures
        demo_ids().no_duplicates(),
{
    reveal_strlit("scip:local/project/0.0.0/");
    reveal_strlit("#");
    reveal_strlit("src/auth/service.ts");
    reveal_strlit("validateToken");
    reveal_strlit("src/api/middleware.ts");
    reveal_strlit("authMiddleware");
    reveal_strlit("src/payments/checkout.ts");
    reveal_strlit("processPayment");
    reveal_strlit("src/users/profile.ts");
    reveal_strlit("getUserProfile");
    reveal_strlit("src/admin/reports.ts");
    reveal_strlit("generateReport");
    reveal_strlit("src/routes/checkout.ts");
    reveal_strlit("POST /api/checkout");
    reveal_strlit("jira");
    reveal_strlit("JIRA-AUTH-42");
    let ids = demo_ids();
    assert(ids.len() == 7);
    assert(ids[3][29] != ids[4][29]);
    assert forall|i: int, j: int| 0 <= i < j < 7 implies ids[i] != ids[j] by {
        if i == 3 && j == 4 {
            assert(ids[3][29] != ids[4][29]);
        } else {
            assert(ids[i].len() != ids[j].len());
        }
    }
}

/// Add an entity built from the parts of a demo fact.
fn add_demo(graph: &mut UcmGraph, path: &str, symbol: &str, kind: EntityKind, name: &str, file_path: &str, language: &str, source: DiscoverySource)
    requires
        old(graph).wf(),
        !old(graph).index().contains_key(local_id(path@, symbol@)),
    ensures
        final(graph).wf(),
        facts(*final(graph)) == new_entity_facts(
            facts(*old(graph)),
            local_id(path@, symbol@),
            demo_entity(kind@, name@, file_path@, language@, source),
        ),
        final(graph).index().dom() == old(graph).index().dom().insert(local_id(path@, symbol@)),
{
    let e = UcmEntity::new(
        EntityId::local(path, symbol),
        kind,
        name.to_string(),
        file_path.to_string(),
        language.to_string(),
        source,
    );
    add_fresh_entity(graph, e);
}

/// Link two demo entities with a single piece of evidence.
fn link_demo(
    graph: &mut UcmGraph,
    from: (&str, &str),
    to: (&str, &str),
    relation: RelationType,
    source: DiscoverySource,
    confidence: u32,
    description: &str,
)
    requires
        old(graph).wf(),
        old(graph).index().contains_key(local_id(from.0@, from.1@)),
        old(graph).index().contains_key(local_id(to.0@, to.1@)),
    ensures
        final(graph).wf(),
        facts(*final(graph)) == new_edge_facts(
            facts(*old(graph)),
            demo_edge(local_id(from.0@, from.1@), local_id(to.0@, to.1@), relation, source, confidence, description@),
        ),
        final(graph).index() == old(graph).index(),
{
    let a = EntityId::local(from.0, from.1);
    let b = EntityId::local(to.0, to.1);
    let edge = UcmEdge::new(relation, source, confidence, description.to_string());
    let ghost ed = edge;
    link_present(graph, &a, &b, edge);
    assert(ed.evidence@.map_values(|v: crate::edge::EvidenceSource| (v.source, v.confidence, v.description@))
        =~= seq![(source, confidence, description@)]);
    assert(edge_fact(a@, b@, ed) == demo_edge(a@, b@, relation, source, confidence, description@));
}

/// Seed a graph with the core of the demo scenario: seven entities (an auth
/// service, the middleware that imports it, a payment flow and a profile
/// route behind it, an admin report, a checkout route and a requirement
/// ticket) and the five relationships between them that are well attested.
pub fn seed_context_demo_graph(graph: &mut UcmGraph)
    requires
        old(graph).wf(),
        forall|i: int| 0 <= i < 7 ==> !old(graph).index().contains_key(#[trigger] demo_ids()[i]),
    ensures
        final(graph).wf(),
        facts(*final(graph)) == with_edges(with_entities(facts(*old(graph)), demo_entities()), demo_edges()),
        forall|i: int| 0 <= i < 7 ==> final(graph).index().contains_key(#[trigger] demo_ids()[i]),
{
    let ghost f0 = facts(*graph);
    let ghost i0 = graph.index().dom();
    let ghost es = demo_entities();
    let ghost ids = demo_ids();
    proof {
        lemma_demo_ids_distinct();
        assert(ids.len() == 7);
        assert forall|k: int| 0 <= k < 7 implies #[trigger] ids[k] == es[k].0 by {}
        assert forall|k: int| 0 <= k < 7 implies !i0.contains(#[trigger] ids[k]) by {
            assert(!graph.index().contains_key(demo_ids()[k]));
        }
        assert(!graph.index().contains_key(ids[0]));
    }
    add_demo(
        graph,
        "src/auth/service.ts",
        "validateToken",
        EntityKind::Function { is_async: true, parameter_count: 1, return_type: Some("boolean".to_string()) },
        "validateToken()",
        "src/auth/service.ts",
        "typescript",
        DiscoverySource::StaticAnalysis,
    );
    assert(!graph.index().contains_key(ids[1])) by {
        assert(ids[0] != ids[1]);
        assert(!i0.contains(ids[1]));
    }
    add_demo(
        graph,
        "src/api/middleware.ts",
        "authMiddleware",
        EntityKind::Function { is_async: true, parameter_count: 2, return_type: None },
        "authMiddleware()",
        "src/api/middleware.ts",
        "typescript",
        DiscoverySource::StaticAnalysis,
    );
    assert(!graph.index().contains_key(ids[2])) by {
        assert(ids[0] != ids[2] && ids[1] != ids[2]);
        assert(!i0.contains(ids[2]));
    }
    add_demo(
        graph,
        "src/payments/checkout.ts",
        "processPayment",
        EntityKind::Function { is_async: true, parameter_count: 1, return_type: Some("PaymentResult".to_string()) },
        "processPayment()",
        "src/payments/checkout.ts",
        "typescript",
        DiscoverySource::StaticAnalysis,
    );
    assert(!graph.index().contains_key(ids[3])) by {
        assert(ids[0] != ids[3] && ids[1] != ids[3] && ids[2] != ids[3]);
        assert(!i0.contains(ids[3]));
    }
    add_demo(
        graph,
        "src/users/profile.ts",
        "getUserProfile",
        EntityKind::Function { is_async: true, parameter_count: 1, return_type: Some("UserProfile".to_string()) },
        "getUserProfile()",
        "src/users/profile.ts",
        "typescript",
        DiscoverySource::StaticAnalysis,
    );
    assert(!graph.index().contains_key(ids[4])) by {
        assert(ids[0] != ids[4] && ids[1] != ids[4] && ids[2] != ids[4] && ids[3] != ids[4]);
        assert(!i0.contains(ids[4]));
    }
    add_demo(
        graph,
        "src/admin/reports.ts",
        "generateReport",
        EntityKind::Function { is_async: false, parameter_count: 0, return_type: Some("Report".to_string()) },
        "generateReport()",
        "src/admin/reports.ts",
        "typescript",
        DiscoverySource::StaticAnalysis,
    );
    assert(!graph.index().contains_key(ids[5])) by {
        assert(ids[0] != ids[5] && ids[1] != ids[5] && ids[2] != ids[5] && ids[3] != ids[5] && ids[4] != ids[5]);
        assert(!i0.contains(ids[5]));
    }
    add_demo(
        graph,
        "src/routes/checkout.ts",
        "POST /api/checkout",
        EntityKind::ApiEndpoint {
            method: "POST".to_string(),
            route: "/api/checkout".to_string(),
            handler: "processPayment".to_string(),
        },
        "POST /api/checkout",
        "src/routes/checkout.ts",
        "typescript",
        DiscoverySource::StaticAnalysis,
    );
    assert(!graph.index().contains_key(ids[6])) by {
        assert(ids[0] != ids[6] && ids[1] != ids[6] && ids[2] != ids[6] && ids[3] != ids[6] && ids[4] != ids[6]
            && ids[5] != ids[6]);
        assert(!i0.contains(ids[6]));
    }
    let mut criteria: Vec<String> = Vec::new();
    criteria.push("OAuth2 migration for validateToken".to_string());
    let ghost cv = crate::text::views(criteria@);
    assert(cv =~= seq!["OAuth2 migration for validateToken"@]);
    add_demo(
        graph,
        "jira",
        "JIRA-AUTH-42",
        EntityKind::Requirement { ticket_id: Some("AUTH-42".to_string()), acceptance_criteria: criteria },
        "JIRA-AUTH-42: OAuth2 Migration",
        "jira",
        "jira",
        DiscoverySource::TicketSystem,
    );
    let ghost i7 = graph.index();
    assert forall|k: int| 0 <= k < 7 implies i7.contains_key(#[trigger] ids[k]) by {}
    proof {
        let w = with_entities(f0, es);
        assert(es.take(7) =~= es);
        assert(facts(*graph) == w) by {
            reveal_with_fuel(with_entities, 8);
            assert(es.drop_last() =~= es.take(6));
            assert(es.take(6).drop_last() =~= es.take(5));
            assert(es.take(5).drop_last() =~= es.take(4));
            assert(es.take(4).drop_last() =~= es.take(3));
            assert(es.take(3).drop_last() =~= es.take(2));
            assert(es.take(2).drop_last() =~= es.take(1));
            assert(es.take(1).drop_last() =~= es.take(0));
        }
    }
    let ghost fe = facts(*graph);
    link_demo(
        graph,
        ("src/api/middleware.ts", "authMiddleware"),
        ("src/auth/service.ts", "validateToken"),
        RelationType::Imports,
        DiscoverySource::StaticAnalysis,
        950_000,
        "imports validateToken directly",
    );
    link_demo(
        graph,
        ("src/payments/checkout.ts", "processPayment"),
        ("src/api/middleware.ts", "authMiddleware"),
        RelationType::Calls,
        DiscoverySource::StaticAnalysis,
        800_000,
        "route uses authMiddleware",
    );
    link_demo(
        graph,
        ("src/users/profile.ts", "getUserProfile"),
        ("src/api/middleware.ts", "authMiddleware"),
        RelationType::Calls,
        DiscoverySource::StaticAnalysis,
        850_000,
        "route uses authMiddleware",
    );
    link_demo(
        graph,
        ("src/routes/checkout.ts", "POST /api/checkout"),
        ("src/payments/checkout.ts", "processPayment"),
        RelationType::Implements,
        DiscoverySource::StaticAnalysis,
        920_000,
        "POST /api/checkout handler calls processPayment",
    );
    link_demo(
        graph,
        ("jira", "JIRA-AUTH-42"),
        ("src/auth/service.ts", "validateToken"),
        RelationType::RequiredBy,
        DiscoverySource::TicketSystem,
        700_000,
        "AUTH-42 requires OAuth2 migration of validateToken",
    );
    assert(graph.index() == i7);
    proof {
        let ls = demo_edges();
        assert(facts(*graph) == with_edges(fe, ls)) by {
            reveal_with_fuel(with_edges, 6);
            assert(ls.drop_last() =~= ls.take(4));
            assert(ls.take(4).drop_last() =~= ls.take(3));
            assert(ls.take(3).drop_last() =~= ls.take(2));
            assert(ls.take(2).drop_last() =~= ls.take(1));
            assert(ls.take(1).drop_last() =~= ls.take(0));
        }
    }
}

/// Seed a graph with the demo scenario of the API server: the seven entities
/// and five relationships that match the dashboard's demo data (the same
/// graph as `seed_context_demo_graph`).
pub fn seed_demo_graph(graph: &mut UcmGraph)
    requires
        old(graph).wf(),
        forall|i: int| 0 <= i < 7 ==> !old(graph).index().contains_key(#[trigger] demo_ids()[i]),
    ensures
        final(graph).wf(),
        facts(*final(graph)) == with_edges(with_entities(facts(*old(graph)), demo_entities()), demo_edges()),
        forall|i: int| 0 <= i < 7 ==> final(graph).index().contains_key(#[trigger] demo_ids()[i]),
{
    seed_context_demo_graph(graph);
}

} // verus!
