//! Event-to-graph projection: each event maps to a graph mutation with
//! upsert and merge semantics (an entity is replaced, a link already present
//! with the same endpoints and relation is not added again), so that
//! replaying the same events builds the same graph. New evidence for a link
//! is fused into the one edge that links the pair.
//!
//! "The same graph" is stated over the graph's facts, which leave out what
//! depends on when the projection ran (discovery and verification times) and
//! which indices the stable graph handed out: the entities by identifier, the
//! entities each file owns, and how many edges link each pair of identifiers
//! with each relation and evidence.
use vstd::prelude::*;

use crate::confidence::noisy_or_spec;
use crate::edge::{decay_rate_for, evidence_added, evidence_confidences, RelationType, UcmEdge};
use crate::stable_graph::graph_edges_directed;
use crate::entity::{id_file_path, DiscoverySource, EntityId, KindView, UcmEntity};
use crate::text::same_text;
use crate::event::{EventPayload, PayloadView, UcmEvent};
use crate::graph::{ids_of, lemma_ids_without, links_avoiding, moved_owner, owned_by, without, UcmGraph};

verus! {

broadcast use vstd::string::group_string_axioms;

/// What the graph knows of an entity, apart from when it was discovered.
pub struct EntityFact {
    pub kind: KindView,
    pub name: Seq<char>,
    pub file_path: Seq<char>,
    pub line_range: Option<(usize, usize)>,
    pub language: Seq<char>,
    pub source: DiscoverySource,
}

/// What the graph knows of an edge, apart from when it was discovered,
/// observed and verified: its endpoints by identifier, relation, fused
/// confidence, evidence (source, confidence, description) and decay rate.
pub struct EdgeFact {
    pub from: Seq<char>,
    pub to: Seq<char>,
    pub relation: RelationType,
    pub confidence: u32,
    pub evidence: Seq<(DiscoverySource, u32, Seq<char>)>,
    pub decay_rate: u32,
}

/// The facts of a graph: entities by identifier, the identifiers each file
/// owns (in order), and the number of edges with each edge fact.
#[verifier::ext_equal]
pub struct GraphFacts {
    pub entities: Map<Seq<char>, EntityFact>,
    pub owners: Map<Seq<char>, Seq<Seq<char>>>,
    pub edges: spec_fn(EdgeFact) -> nat,
}

/// The fact of a stored entity.
pub open spec fn entity_fact(e: UcmEntity) -> EntityFact {
    EntityFact {
        kind: e.kind@,
        name: e.name@,
        file_path: e.file_path@,
        line_range: e.line_range,
        language: e.language@,
        source: e.discovery_source,
    }
}

/// The fact of a stored edge between two identifiers.
pub open spec fn edge_fact(from: Seq<char>, to: Seq<char>, r: UcmEdge) -> EdgeFact {
    EdgeFact {
        from,
        to,
        relation: r.relation_type,
        confidence: r.confidence,
        evidence: r.evidence@.map_values(
            |v: crate::edge::EvidenceSource| (v.source, v.confidence, v.description@),
        ),
        decay_rate: r.decay_rate,
    }
}

/// The fact of a live edge of a graph.
pub open spec fn link_fact(g: UcmGraph, e: usize) -> EdgeFact {
    edge_fact(g.nodes()[g.links()[e].0].id@, g.nodes()[g.links()[e].1].id@, g.edge_at(e))
}

/// How many live edges of a graph have a fact.
pub open spec fn edge_multiplicity(g: UcmGraph, f: EdgeFact) -> nat {
    g.links().dom().filter(|e: usize| link_fact(g, e) == f).len()
}

/// The facts of a graph.
pub open spec fn facts(g: UcmGraph) -> GraphFacts {
    GraphFacts {
        entities: g.index().map_values(|n: usize| entity_fact(g.nodes()[n])),
        owners: g.owners().map_values(|s: Seq<usize>| ids_of(g.nodes(), s)),
        edges: |f: EdgeFact| edge_multiplicity(g, f),
    }
}

/// The facts of an empty graph.
pub open spec fn no_facts() -> GraphFacts {
    GraphFacts { entities: Map::empty(), owners: Map::empty(), edges: |f: EdgeFact| 0nat }
}

/// The identifiers a file owns (none where it owns nothing).
pub open spec fn owned_ids(owners: Map<Seq<char>, Seq<Seq<char>>>, f: Seq<char>) -> Seq<Seq<char>> {
    if owners.contains_key(f) {
        owners[f]
    } else {
        seq![]
    }
}

/// The facts after a file is invalidated: its entities go, with every edge at
/// them, and the file is forgotten.
pub open spec fn invalidate_facts(a: GraphFacts, file: Seq<char>) -> GraphFacts {
    let gone = owned_ids(a.owners, file).to_set();
    GraphFacts {
        entities: a.entities.remove_keys(gone),
        owners: a.owners.remove(file),
        edges: |f: EdgeFact|
            if gone.contains(f.from) || gone.contains(f.to) {
                0nat
            } else {
                (a.edges)(f)
            },
    }
}

/// The ownership facts with an identifier moved from one file to another.
pub open spec fn moved_ids(
    owners: Map<Seq<char>, Seq<Seq<char>>>,
    id: Seq<char>,
    from: Seq<char>,
    to: Seq<char>,
) -> Map<Seq<char>, Seq<Seq<char>>> {
    let rest = if owners.contains_key(from) {
        owners.insert(from, without(owners[from], id))
    } else {
        owners
    };
    rest.insert(to, owned_ids(rest, to).push(id))
}

/// The facts with an entity's fact replaced (its identifier already present):
/// where its file changes, the new file owns it in place of the old one.
pub open spec fn replace_entity_facts(a: GraphFacts, id: Seq<char>, fact: EntityFact) -> GraphFacts {
    let from = a.entities[id].file_path;
    if from == fact.file_path {
        GraphFacts { entities: a.entities.insert(id, fact), ..a }
    } else {
        GraphFacts {
            entities: a.entities.insert(id, fact),
            owners: moved_ids(a.owners, id, from, fact.file_path),
            edges: a.edges,
        }
    }
}

/// The facts with a new entity, owned last by its file.
pub open spec fn new_entity_facts(a: GraphFacts, id: Seq<char>, fact: EntityFact) -> GraphFacts {
    GraphFacts {
        entities: a.entities.insert(id, fact),
        owners: a.owners.insert(fact.file_path, owned_ids(a.owners, fact.file_path).push(id)),
        edges: a.edges,
    }
}

/// The facts with one more edge with a fact.
pub open spec fn new_edge_facts(a: GraphFacts, fact: EdgeFact) -> GraphFacts {
    GraphFacts {
        edges: |f: EdgeFact|
            if f == fact {
                (a.edges)(f) + 1
            } else {
                (a.edges)(f)
            },
        ..a
    }
}

/// Some edge links `from` to `to` with relation `relation`.
pub open spec fn linked(a: GraphFacts, from: Seq<char>, to: Seq<char>, relation: RelationType) -> bool {
    exists|f: EdgeFact| f.from == from && f.to == to && f.relation == relation && #[trigger] (a.edges)(f) > 0
}

/// Exactly one edge links `from` to `to`, and its fact is `f0`.
pub open spec fn sole_link(a: GraphFacts, from: Seq<char>, to: Seq<char>, f0: EdgeFact) -> bool {
    &&& f0.from == from
    &&& f0.to == to
    &&& (a.edges)(f0) == 1
    &&& forall|f: EdgeFact| #[trigger] (a.edges)(f) > 0 && f.from == from && f.to == to ==> f == f0
}

/// An edge fact with one more piece of evidence, its confidence re-fused
/// with noisy-OR over all of its evidence.
pub open spec fn fact_with_evidence(f: EdgeFact, source: DiscoverySource, c: u32, description: Seq<char>) -> EdgeFact {
    EdgeFact {
        confidence: noisy_or_spec(
            f.evidence.map_values(|x: (DiscoverySource, u32, Seq<char>)| x.1).push(c),
        ) as u32,
        evidence: f.evidence.push((source, c, description)),
        ..f
    }
}

/// The facts with the edge of fact `f0` now of fact `g`.
pub open spec fn changed_edge_facts(a: GraphFacts, f0: EdgeFact, g: EdgeFact) -> GraphFacts {
    GraphFacts {
        edges: |f: EdgeFact|
            if f == f0 {
                0nat
            } else if f == g {
                (a.edges)(f) + 1
            } else {
                (a.edges)(f)
            },
        ..a
    }
}

/// What an event does to the facts of a graph.
pub open spec fn apply_facts(a: GraphFacts, p: PayloadView) -> GraphFacts {
    match p {
        PayloadView::EntityDiscovered {
            entity_id,
            kind,
            name,
            file_path,
            language,
            source,
            line_range,
        } => {
            let fact = EntityFact { kind, name, file_path, line_range, language, source };
            if a.entities.contains_key(entity_id) {
                replace_entity_facts(a, entity_id, fact)
            } else {
                new_entity_facts(a, entity_id, fact)
            }
        },
        PayloadView::EntityRemoved { entity_id, .. } => match id_file_path(entity_id) {
            Some(p) => invalidate_facts(a, p),
            None => a,
        },
        PayloadView::DependencyLinked {
            source_entity,
            target_entity,
            relation_type,
            confidence,
            source,
            description,
        } => if a.entities.contains_key(source_entity) && a.entities.contains_key(target_entity) && !linked(
            a,
            source_entity,
            target_entity,
            relation_type,
        ) {
            let fact = EdgeFact {
                from: source_entity,
                to: target_entity,
                relation: relation_type,
                confidence,
                evidence: seq![(source, confidence, description)],
                decay_rate: decay_rate_for(relation_type, source),
            };
            new_edge_facts(a, fact)
        } else {
            a
        },
        PayloadView::ChangeDetected { file_path, .. } => invalidate_facts(a, file_path),
        PayloadView::ConfidenceUpdated {
            source_entity,
            target_entity,
            new_evidence_confidence,
            source,
            description,
        } => if exists|f0: EdgeFact| sole_link(a, source_entity, target_entity, f0) {
            let f0 = choose|f0: EdgeFact| sole_link(a, source_entity, target_entity, f0);
            changed_edge_facts(a, f0, fact_with_evidence(f0, source, new_evidence_confidence, description))
        } else {
            a
        },
        _ => a,
    }
}

/// What a sequence of events does to the facts of a graph, in order.
pub open spec fn replay_facts(a: GraphFacts, ps: Seq<PayloadView>) -> GraphFacts
    decreases ps.len(),
{
    if ps.len() == 0 {
        a
    } else {
        apply_facts(replay_facts(a, ps.drop_last()), ps.last())
    }
}

// ─── How each graph operation moves the facts ──────────────────────

/// Two graphs with the same live edges, each with the same fact, have the
/// same edge multiplicities.
proof fn lemma_same_edges(g0: UcmGraph, g1: UcmGraph)
    requires
        g1.links() == g0.links(),
        forall|e: usize| #[trigger] g0.links().contains_key(e) ==> link_fact(g1, e) == link_fact(g0, e),
    ensures
        forall|f: EdgeFact| #[trigger] edge_multiplicity(g1, f) == edge_multiplicity(g0, f),
{
    assert forall|f: EdgeFact| #[trigger] edge_multiplicity(g1, f) == edge_multiplicity(g0, f) by {
        assert(g1.links().dom().filter(|e: usize| link_fact(g1, e) == f) =~= g0.links().dom().filter(
            |e: usize| link_fact(g0, e) == f,
        ));
    }
}

/// Replacing the entity at a node with one of the same identifier changes
/// only that identifier's entity fact.
proof fn lemma_facts_replace(g0: UcmGraph, g1: UcmGraph, n: usize, e: UcmEntity)
    requires
        g0.wf(),
        g1.wf(),
        g0.index().contains_key(e.id@),
        n == g0.index()[e.id@],
        g1.nodes() == g0.nodes().insert(n, e),
        g1.index() == g0.index(),
        g1.owners() == (if g0.nodes()[n].file_path@ == e.file_path@ {
            g0.owners()
        } else {
            moved_owner(g0.owners(), n, g0.nodes()[n].file_path@, e.file_path@)
        }),
        g1.links() == g0.links(),
        g1.records() == g0.records(),
    ensures
        facts(g1) =~= replace_entity_facts(facts(g0), e.id@, entity_fact(e)),
{
    let f0 = facts(g0);
    let f1 = facts(g1);
    assert forall|m: usize| #[trigger] g0.nodes().contains_key(m) implies g1.nodes()[m].id@ == g0.nodes()[m].id@ by {}
    assert(f0.entities[e.id@].file_path == g0.nodes()[n].file_path@);
    if g0.nodes()[n].file_path@ != e.file_path@ {
        lemma_facts_replace_moved(g0, g1, n, e);
        return;
    }
    assert(f1.entities =~= f0.entities.insert(e.id@, entity_fact(e))) by {
        assert forall|k: Seq<char>| #[trigger] f1.entities.contains_key(k) implies f1.entities[k]
            == f0.entities.insert(e.id@, entity_fact(e))[k] by {
            if k != e.id@ {
                assert(g0.index()[k] != n);
            }
        }
    }
    assert(f1.owners =~= f0.owners) by {
        assert forall|f: Seq<char>| #[trigger] f1.owners.contains_key(f) implies f1.owners[f] == f0.owners[f] by {
            assert(ids_of(g1.nodes(), g0.owners()[f]) =~= ids_of(g0.nodes(), g0.owners()[f]));
        }
    }
    assert forall|x: usize| #[trigger] g0.links().contains_key(x) implies link_fact(g1, x) == link_fact(g0, x) by {}
    lemma_same_edges(g0, g1);
    assert(f1.edges =~= f0.edges);
}

/// Replacing an entity by one in another file moves its identifier between
/// the files' lists.
proof fn lemma_facts_replace_moved(g0: UcmGraph, g1: UcmGraph, n: usize, e: UcmEntity)
    requires
        g0.wf(),
        g1.wf(),
        g0.index().contains_key(e.id@),
        n == g0.index()[e.id@],
        g1.nodes() == g0.nodes().insert(n, e),
        g1.index() == g0.index(),
        g0.nodes()[n].file_path@ != e.file_path@,
        g1.owners() == moved_owner(g0.owners(), n, g0.nodes()[n].file_path@, e.file_path@),
        g1.links() == g0.links(),
        g1.records() == g0.records(),
    ensures
        facts(g1) =~= replace_entity_facts(facts(g0), e.id@, entity_fact(e)),
{
    let f0 = facts(g0);
    let f1 = facts(g1);
    let from = g0.nodes()[n].file_path@;
    let to = e.file_path@;
    let n0 = g0.nodes();
    let n1 = g1.nodes();
    let own0 = g0.owners();
    assert forall|m: usize| #[trigger] n0.contains_key(m) implies n1[m].id@ == n0[m].id@ by {}
    assert(f0.entities[e.id@].file_path == from);
    assert(f1.entities =~= f0.entities.insert(e.id@, entity_fact(e))) by {
        assert forall|k: Seq<char>| #[trigger] f1.entities.contains_key(k) implies f1.entities[k]
            == f0.entities.insert(e.id@, entity_fact(e))[k] by {
            if k != e.id@ {
                assert(g0.index()[k] != n);
            }
        }
    }
    // Lists of live nodes have the same identifiers in both graphs.
    assert forall|s: Seq<usize>| (forall|j: int| 0 <= j < s.len() ==> n0.contains_key(#[trigger] s[j])) implies ids_of(
        n1,
        s,
    ) == ids_of(n0, s) by {
        assert(ids_of(n1, s) =~= ids_of(n0, s));
    }
    let rest = if own0.contains_key(from) {
        own0.insert(from, without(own0[from], n))
    } else {
        own0
    };
    let want = moved_ids(f0.owners, e.id@, from, to);
    assert(f1.owners =~= want) by {
        assert forall|f: Seq<char>| f1.owners.contains_key(f) <==> want.contains_key(f) by {}
        assert forall|f: Seq<char>| #[trigger] f1.owners.contains_key(f) implies f1.owners[f] == want[f] by {
            if f == to {
                let l = owned_by(rest, to);
                assert(l == owned_by(own0, to));
                assert forall|j: int| 0 <= j < l.len() implies n0.contains_key(#[trigger] l[j]) by {}
                assert(ids_of(n1, l.push(n)) =~= ids_of(n1, l).push(n1[n].id@));
                assert(ids_of(n1, l) == ids_of(n0, l));
                assert(owned_ids(f0.owners, to) == ids_of(n0, owned_by(own0, to)));
            } else if f == from {
                let l = own0[from];
                crate::graph::lemma_without(l, n);
                assert forall|j: int| 0 <= j < without(l, n).len() implies n0.contains_key(#[trigger] without(l, n)[j]) by {
                    assert(l.contains(without(l, n)[j]));
                }
                assert(ids_of(n1, without(l, n)) == ids_of(n0, without(l, n)));
                lemma_ids_without(n0, g0.index(), l, n);
                assert(n0[n].id@ == e.id@);
            } else {
                assert forall|j: int| 0 <= j < own0[f].len() implies n0.contains_key(#[trigger] own0[f][j]) by {}
                assert(ids_of(n1, own0[f]) == ids_of(n0, own0[f]));
            }
        }
    }
    assert forall|x: usize| #[trigger] g0.links().contains_key(x) implies link_fact(g1, x) == link_fact(g0, x) by {}
    lemma_same_edges(g0, g1);
    assert(f1.edges =~= f0.edges);
}

/// Whether a graph has an edge from `s` to `t` with a relation (the merge
/// key of linking): its facts say so.
fn has_link(graph: &UcmGraph, s: &EntityId, t: &EntityId, relation: RelationType) -> (r: bool)
    requires
        graph.wf(),
        graph.index().contains_key(s@),
    ensures
        r == linked(facts(*graph), s@, t@, relation),
{
    let ghost g = *graph;
    let deps = match graph.dependencies(s) {
        Ok(v) => v,
        Err(_) => {
            assert(false);
            return false;
        },
    };
    let ghost es = choose|es: Seq<usize>|
        #![trigger es.len()]
        es.no_duplicates() && es.len() == deps@.len() && (forall|i: int|
            0 <= i < es.len() ==> g.links().contains_key(#[trigger] es[i]) && g.links()[es[i]].0 == g.index()[s@]
                && *deps@[i].0 == g.nodes()[g.links()[es[i]].1] && *deps@[i].1 == g.edge_at(es[i])) && (forall|e: usize|
            #[trigger] g.links().contains_key(e) && g.links()[e].0 == g.index()[s@] ==> es.contains(e));
    let tid = t.as_str();
    let mut i: usize = 0;
    while i < deps.len()
        invariant
            i <= deps.len(),
            g == *graph,
            g.wf(),
            g.index().contains_key(s@),
            es.len() == deps@.len(),
            forall|k: int|
                0 <= k < es.len() ==> g.links().contains_key(#[trigger] es[k]) && g.links()[es[k]].0 == g.index()[s@]
                    && *deps@[k].0 == g.nodes()[g.links()[es[k]].1] && *deps@[k].1 == g.edge_at(es[k]),
            tid@ == t@,
            forall|k: int| 0 <= k < i ==> !((#[trigger] deps@[k]).0.id@ == t@ && deps@[k].1.relation_type == relation),
        decreases deps.len() - i,
    {
        let (dst, edge) = deps[i];
        if same_text(&dst.id.0, &t.0) && edge.relation_type == relation {
            proof {
                let e = es[i as int];
                let f = link_fact(g, e);
                assert(g.nodes()[g.links()[e].0].id@ == s@);
                let set = g.links().dom().filter(|x: usize| link_fact(g, x) == f);
                assert(set.contains(e));
                assert(g.links().dom().finite());
                assert(set.finite());
                if set.len() == 0 {
                    set.lemma_len0_is_empty();
                    assert(!Set::<usize>::empty().contains(e));
                }
                assert((facts(g).edges)(f) > 0);
                assert(linked(facts(g), s@, t@, relation));
            }
            return true;
        }
        i += 1;
    }
    proof {
        if linked(facts(g), s@, t@, relation) {
            let f = choose|f: EdgeFact| f.from == s@ && f.to == t@ && f.relation == relation && #[trigger] (facts(
                g,
            ).edges)(f) > 0;
            let set = g.links().dom().filter(|x: usize| link_fact(g, x) == f);
            if !exists|x: usize| set.contains(x) {
                assert(set =~= Set::<usize>::empty());
            }
            let e = choose|x: usize| set.contains(x);
            assert(g.links().contains_key(e));
            let a = g.links()[e].0;
            assert(g.nodes()[a].id@ == s@);
            assert(g.index()[g.nodes()[a].id@] == a);
            assert(es.contains(e));
            let k = choose|k: int| 0 <= k < es.len() && es[k] == e;
            assert(deps@[k].0.id@ == t@ && deps@[k].1.relation_type == relation);
            assert(false);
        }
    }
    false
}

/// An edge fact with a positive count runs between present entities.
proof fn lemma_linked_present(g: UcmGraph, s: Seq<char>, t: Seq<char>, relation: RelationType)
    requires
        g.wf(),
        linked(facts(g), s, t, relation),
    ensures
        g.index().contains_key(s),
        g.index().contains_key(t),
{
    let f = choose|f: EdgeFact| f.from == s && f.to == t && f.relation == relation && #[trigger] (facts(g).edges)(f) > 0;
    lemma_multiplicity(g, f);
    let x = choose|x: usize| g.links().contains_key(x) && #[trigger] link_fact(g, x) == f;
    assert(g.nodes().contains_key(g.links()[x].0));
    assert(g.nodes().contains_key(g.links()[x].1));
}

/// Linking twice with the same event has the effect of linking once (MERGE
/// semantics: an edge with the same endpoints and relation is not added
/// again, so the entities, the edges and each entity's dependencies stay).
pub proof fn linking_is_idempotent(a: GraphFacts, p: PayloadView)
    requires
        p is DependencyLinked,
    ensures
        apply_facts(apply_facts(a, p), p) == apply_facts(a, p),
{
    let b = apply_facts(a, p);
    match p {
        PayloadView::DependencyLinked { source_entity, target_entity, relation_type, confidence, source, description } => {
            if a.entities.contains_key(source_entity) && a.entities.contains_key(target_entity) && !linked(
                a,
                source_entity,
                target_entity,
                relation_type,
            ) {
                let fact = EdgeFact {
                    from: source_entity,
                    to: target_entity,
                    relation: relation_type,
                    confidence,
                    evidence: seq![(source, confidence, description)],
                    decay_rate: decay_rate_for(relation_type, source),
                };
                assert((b.edges)(fact) > 0);
                assert(linked(b, source_entity, target_entity, relation_type));
            }
            assert(apply_facts(b, p) =~= b);
        },
        _ => {},
    }
}

/// Live edge `e` is the only one from node `a` to node `b`.
spec fn only_link(g: UcmGraph, a: usize, b: usize, e: usize) -> bool {
    &&& g.links().contains_key(e)
    &&& g.links()[e].0 == a
    &&& g.links()[e].1 == b
    &&& forall|x: usize| #[trigger] g.links().contains_key(x) && g.links()[x].0 == a && g.links()[x].1 == b ==> x == e
}

/// The one live edge from `a` to `b`, if exactly one links them.
fn sole_edge(graph: &UcmGraph, a: usize, b: usize) -> (r: Option<usize>)
    requires
        graph.wf(),
    ensures
        r matches Some(e) ==> only_link(*graph, a, b, e),
        r is None ==> forall|e: usize| !only_link(*graph, a, b, e),
{
    let ghost g = *graph;
    let adj = graph_edges_directed(graph.inner(), a, true);
    let mut found: Option<usize> = None;
    let mut count: usize = 0;
    let mut k: usize = 0;
    while k < adj.len()
        invariant
            k <= adj.len(),
            g == *graph,
            forall|i: int|
                0 <= i < adj@.len() ==> {
                    let t = #[trigger] adj@[i];
                    &&& g.links().contains_key(t.0)
                    &&& g.links()[t.0] == (t.1, t.2, t.3)
                    &&& t.1 == a
                },
            forall|i: int, j: int| 0 <= i < j < adj@.len() ==> #[trigger] adj@[i].0 != #[trigger] adj@[j].0,
            count <= 2,
            count == 0 ==> forall|i: int| 0 <= i < k ==> (#[trigger] adj@[i]).2 != b,
            count == 1 ==> found is Some && exists|i: int| 0 <= i < k && adj@[i].0 == found->0 && adj@[i].2 == b,
            count == 1 ==> forall|i: int| 0 <= i < k && (#[trigger] adj@[i]).2 == b ==> found == Some(adj@[i].0),
            count == 2 ==> exists|i: int, j: int| 0 <= i < j < k && adj@[i].2 == b && adj@[j].2 == b,
        decreases adj.len() - k,
    {
        if adj[k].2 == b && count < 2 {
            if count == 0 {
                found = Some(adj[k].0);
            } else {
                proof {
                    let i = choose|i: int| 0 <= i < k && adj@[i].0 == found->0 && adj@[i].2 == b;
                    assert(0 <= i < k as int && adj@[i].2 == b && adj@[k as int].2 == b);
                }
            }
            count += 1;
        }
        k += 1;
    }
    if count == 1 {
        proof {
            let e = found->0;
            assert forall|x: usize| #[trigger] g.links().contains_key(x) && g.links()[x].0 == a && g.links()[x].1 == b implies x
                == e by {
                let i = choose|i: int| 0 <= i < adj@.len() && adj@[i].0 == x;
                assert(adj@[i].2 == b);
            }
        }
        found
    } else {
        proof {
            assert forall|e: usize| !only_link(g, a, b, e) by {
                if only_link(g, a, b, e) {
                    if count == 0 {
                        let i = choose|i: int| 0 <= i < adj@.len() && adj@[i].0 == e;
                        assert(adj@[i].2 == b);
                    } else {
                        let (i, j) = choose|i: int, j: int| 0 <= i < j < adj@.len() && adj@[i].2 == b && adj@[j].2 == b;
                        assert(adj@[i].0 == e && adj@[j].0 == e);
                    }
                }
            }
        }
        None
    }
}

/// A fact some live edge has: multiplicity above zero; and an edge fact with a
/// positive multiplicity is the fact of some live edge.
proof fn lemma_multiplicity(g: UcmGraph, f: EdgeFact)
    requires
        g.wf(),
    ensures
        (facts(g).edges)(f) > 0 <==> exists|x: usize| g.links().contains_key(x) && #[trigger] link_fact(g, x) == f,
{
    let set = g.links().dom().filter(|x: usize| link_fact(g, x) == f);
    g.links().dom().lemma_len_filter(|x: usize| link_fact(g, x) == f);
    if exists|x: usize| g.links().contains_key(x) && #[trigger] link_fact(g, x) == f {
        let x = choose|x: usize| g.links().contains_key(x) && #[trigger] link_fact(g, x) == f;
        assert(set.contains(x));
        if set.len() == 0 {
            set.lemma_len0_is_empty();
            assert(!Set::<usize>::empty().contains(x));
        }
    } else {
        assert(set =~= Set::<usize>::empty());
    }
}

/// Where exactly one live edge links two present entities, its fact is the
/// one sole link between their identifiers; where none or several do (or an
/// entity is absent), no sole link exists.
proof fn lemma_sole_link(g: UcmGraph, s: Seq<char>, t: Seq<char>, r: Option<usize>)
    requires
        g.wf(),
        r matches Some(e) ==> g.index().contains_key(s) && g.index().contains_key(t) && only_link(
            g,
            g.index()[s],
            g.index()[t],
            e,
        ),
        r is None ==> !(g.index().contains_key(s) && g.index().contains_key(t)) || forall|e: usize|
            !only_link(g, g.index()[s], g.index()[t], e),
    ensures
        r matches Some(e) ==> sole_link(facts(g), s, t, link_fact(g, e)) && forall|f0: EdgeFact|
            sole_link(facts(g), s, t, f0) ==> f0 == link_fact(g, e),
        r is None ==> !exists|f0: EdgeFact| sole_link(facts(g), s, t, f0),
{
    // An edge whose fact runs from s to t links their nodes.
    assert forall|x: usize| #[trigger] g.links().contains_key(x) && link_fact(g, x).from == s && link_fact(g, x).to == t
        implies g.index().contains_key(s) && g.index().contains_key(t) && g.links()[x].0 == g.index()[s]
        && g.links()[x].1 == g.index()[t] by {
        assert(g.index()[g.nodes()[g.links()[x].0].id@] == g.links()[x].0);
        assert(g.index()[g.nodes()[g.links()[x].1].id@] == g.links()[x].1);
    }
    match r {
        Some(e) => {
            let f0 = link_fact(g, e);
            let set = g.links().dom().filter(|x: usize| link_fact(g, x) == f0);
            g.links().dom().lemma_len_filter(|x: usize| link_fact(g, x) == f0);
            assert(set =~= set![e]) by {
                assert forall|x: usize| set.contains(x) implies x == e by {
                    assert(g.links().contains_key(x) && link_fact(g, x) == f0);
                }
            }
            assert(set![e].len() == 1) by {
                assert(set![e] =~= Set::<usize>::empty().insert(e));
            }
            assert forall|f: EdgeFact| #[trigger] (facts(g).edges)(f) > 0 && f.from == s && f.to == t implies f == f0 by {
                lemma_multiplicity(g, f);
                let x = choose|x: usize| g.links().contains_key(x) && #[trigger] link_fact(g, x) == f;
                assert(g.links()[x].0 == g.index()[s]);
            }
            assert(sole_link(facts(g), s, t, f0));
            assert forall|f1: EdgeFact| sole_link(facts(g), s, t, f1) implies f1 == f0 by {
                assert((facts(g).edges)(f0) > 0);
            }
        },
        None => {
            if exists|f0: EdgeFact| sole_link(facts(g), s, t, f0) {
                let f0 = choose|f0: EdgeFact| sole_link(facts(g), s, t, f0);
                lemma_multiplicity(g, f0);
                let x = choose|x: usize| g.links().contains_key(x) && #[trigger] link_fact(g, x) == f0;
                assert(g.index().contains_key(s) && g.index().contains_key(t));
                let a = g.index()[s];
                let b = g.index()[t];
                assert(!only_link(g, a, b, x));
                let y = choose|y: usize| #[trigger] g.links().contains_key(y) && g.links()[y].0 == a && g.links()[y].1 == b && y != x;
                assert(g.nodes()[a].id@ == s && g.nodes()[b].id@ == t);
                let fy = link_fact(g, y);
                lemma_multiplicity(g, fy);
                assert(fy == f0);
                let set = g.links().dom().filter(|z: usize| link_fact(g, z) == f0);
                g.links().dom().lemma_len_filter(|z: usize| link_fact(g, z) == f0);
                assert(set.contains(x) && set.contains(y));
                assert(set.remove(x).contains(y));
                if set.remove(x).len() == 0 {
                    set.remove(x).lemma_len0_is_empty();
                    assert(!Set::<usize>::empty().contains(y));
                }
                assert(false);
            }
        },
    }
}

/// Adding evidence to the one edge that links two identifiers moves that
/// edge from its old fact to the fact with the evidence.
proof fn lemma_facts_evidence(
    g0: UcmGraph,
    g1: UcmGraph,
    e: usize,
    source: DiscoverySource,
    c: u32,
    d: Seq<char>,
)
    requires
        g0.wf(),
        g1.wf(),
        only_link(g0, g0.links()[e].0, g0.links()[e].1, e),
        g1.nodes() == g0.nodes(),
        g1.links() == g0.links(),
        g1.index() == g0.index(),
        g1.owners() == g0.owners(),
        g1.records().len() == g0.records().len(),
        forall|k: int|
            0 <= k < g0.records().len() && k != g0.links()[e].2 ==> #[trigger] g1.records()[k] == g0.records()[k],
        evidence_added(g0.edge_at(e), g1.edge_at(e), source, c, d),
    ensures
        facts(g1) =~= changed_edge_facts(
            facts(g0),
            link_fact(g0, e),
            fact_with_evidence(link_fact(g0, e), source, c, d),
        ),
{
    let f0 = link_fact(g0, e);
    let g = fact_with_evidence(f0, source, c, d);
    let f1 = facts(g1);
    let fa = facts(g0);
    let before = g0.edge_at(e);
    let after = g1.edge_at(e);
    assert(after.evidence@.map_values(|v: crate::edge::EvidenceSource| (v.source, v.confidence, v.description@))
        =~= before.evidence@.map_values(|v: crate::edge::EvidenceSource| (v.source, v.confidence, v.description@)).push(
        (source, c, d),
    )) by {
        assert(after.evidence@ =~= before.evidence@.push(after.evidence@.last()));
    }
    assert(evidence_confidences(after.evidence@) =~= f0.evidence.map_values(
        |x: (DiscoverySource, u32, Seq<char>)| x.1,
    ).push(c)) by {
        assert(after.evidence@ =~= before.evidence@.push(after.evidence@.last()));
    }
    assert(link_fact(g1, e) == g);
    assert(f0 != g) by {
        assert(g.evidence.len() == f0.evidence.len() + 1);
    }
    assert forall|y: usize| #[trigger] g0.links().contains_key(y) && y != e implies link_fact(g1, y) == link_fact(g0, y) by {
        assert(g0.links()[y].2 != g0.links()[e].2);
        assert(g1.edge_at(y) == g0.edge_at(y));
    }
    assert(f1.entities =~= fa.entities);
    assert(f1.owners =~= fa.owners);
    assert forall|f: EdgeFact| #[trigger] (f1.edges)(f) == (changed_edge_facts(fa, f0, g).edges)(f) by {
        let s0 = g0.links().dom().filter(|x: usize| link_fact(g0, x) == f);
        let s1 = g1.links().dom().filter(|x: usize| link_fact(g1, x) == f);
        g0.links().dom().lemma_len_filter(|x: usize| link_fact(g0, x) == f);
        g1.links().dom().lemma_len_filter(|x: usize| link_fact(g1, x) == f);
        if f == f0 {
            assert(s0 =~= set![e]) by {
                assert forall|x: usize| s0.contains(x) implies x == e by {
                    assert(g0.nodes()[g0.links()[x].0].id@ == g0.nodes()[g0.links()[e].0].id@);
                    assert(g0.index()[g0.nodes()[g0.links()[x].0].id@] == g0.links()[x].0);
                    assert(g0.index()[g0.nodes()[g0.links()[e].0].id@] == g0.links()[e].0);
                    assert(g0.index()[g0.nodes()[g0.links()[x].1].id@] == g0.links()[x].1);
                    assert(g0.index()[g0.nodes()[g0.links()[e].1].id@] == g0.links()[e].1);
                }
            }
            assert(s1 =~= Set::<usize>::empty());
        } else if f == g {
            assert(s1 =~= s0.insert(e));
            assert(!s0.contains(e));
        } else {
            assert(s1 =~= s0);
        }
    }
    assert(f1.edges =~= changed_edge_facts(fa, f0, g).edges);
}

/// Adding an entity under a new identifier adds its fact, and its file owns it last.
proof fn lemma_facts_add(g0: UcmGraph, g1: UcmGraph, n: usize, e: UcmEntity)
    requires
        g0.wf(),
        g1.wf(),
        !g0.index().contains_key(e.id@),
        !g0.nodes().contains_key(n),
        g1.nodes() == g0.nodes().insert(n, e),
        g1.index() == g0.index().insert(e.id@, n),
        g1.owners() == g0.owners().insert(e.file_path@, owned_by(g0.owners(), e.file_path@).push(n)),
        g1.links() == g0.links(),
        g1.records() == g0.records(),
    ensures
        facts(g1) =~= new_entity_facts(facts(g0), e.id@, entity_fact(e)),
{
    let f0 = facts(g0);
    let f1 = facts(g1);
    let fp = e.file_path@;
    assert(f1.entities =~= f0.entities.insert(e.id@, entity_fact(e))) by {
        assert forall|k: Seq<char>| #[trigger] f1.entities.contains_key(k) implies f1.entities[k]
            == f0.entities.insert(e.id@, entity_fact(e))[k] by {
            if k != e.id@ {
                assert(g0.nodes().contains_key(g0.index()[k]));
            }
        }
    }
    assert(f1.owners =~= f0.owners.insert(fp, owned_ids(f0.owners, fp).push(e.id@))) by {
        assert forall|f: Seq<char>| #[trigger] f1.owners.contains_key(f) implies f1.owners[f]
            == f0.owners.insert(fp, owned_ids(f0.owners, fp).push(e.id@))[f] by {
            if f == fp {
                let s0 = owned_by(g0.owners(), fp);
                assert forall|j: int| 0 <= j < s0.len() implies g0.nodes().contains_key(#[trigger] s0[j]) by {
                    if g0.owners().contains_key(fp) {
                    }
                }
                assert(ids_of(g1.nodes(), s0.push(n)) =~= ids_of(g0.nodes(), s0).push(e.id@));
            } else {
                let s = g0.owners()[f];
                assert(ids_of(g1.nodes(), s) =~= ids_of(g0.nodes(), s));
            }
        }
    }
    assert forall|x: usize| #[trigger] g0.links().contains_key(x) implies link_fact(g1, x) == link_fact(g0, x) by {}
    lemma_same_edges(g0, g1);
    assert(f1.edges =~= f0.edges);
}

/// Adding an edge between two present entities adds one edge with its fact.
proof fn lemma_facts_link(g0: UcmGraph, g1: UcmGraph, x: usize, a: usize, b: usize, edge: UcmEdge)
    requires
        g0.wf(),
        g1.wf(),
        g0.nodes().contains_key(a),
        g0.nodes().contains_key(b),
        !g0.links().contains_key(x),
        g1.links() == g0.links().insert(x, (a, b, g0.records().len() as usize)),
        g1.records() == g0.records().push(edge),
        g1.nodes() == g0.nodes(),
        g1.index() == g0.index(),
        g1.owners() == g0.owners(),
    ensures
        facts(g1) =~= new_edge_facts(
            facts(g0),
            edge_fact(g0.nodes()[a].id@, g0.nodes()[b].id@, edge),
        ),
{
    let f0 = facts(g0);
    let f1 = facts(g1);
    let fact = edge_fact(g0.nodes()[a].id@, g0.nodes()[b].id@, edge);
    assert(link_fact(g1, x) == fact);
    assert forall|y: usize| #[trigger] g0.links().contains_key(y) implies link_fact(g1, y) == link_fact(g0, y) by {
        assert(g0.links()[y].2 < g0.records().len());
        assert(g1.edge_at(y) == g0.edge_at(y));
    }
    assert(f1.entities =~= f0.entities);
    assert(f1.owners =~= f0.owners);
    assert forall|f: EdgeFact| #[trigger] (f1.edges)(f) == (new_edge_facts(f0, fact).edges)(f) by {
        let s0 = g0.links().dom().filter(|e: usize| link_fact(g0, e) == f);
        let s1 = g1.links().dom().filter(|e: usize| link_fact(g1, e) == f);
        g0.links().dom().lemma_len_filter(|e: usize| link_fact(g0, e) == f);
        if f == fact {
            assert(s1 =~= s0.insert(x));
            assert(!s0.contains(x));
        } else {
            assert(s1 =~= s0);
        }
    }
    assert(f1.edges =~= new_edge_facts(f0, fact).edges);
}

/// Invalidating a file removes the facts of what it owns.
proof fn lemma_facts_invalidate(g0: UcmGraph, g1: UcmGraph, file: Seq<char>)
    requires
        g0.wf(),
        g1.wf(),
        g1.nodes() == g0.nodes().remove_keys(owned_by(g0.owners(), file).to_set()),
        g1.links() == links_avoiding(g0.links(), owned_by(g0.owners(), file).to_set()),
        g1.records() == g0.records(),
        g1.index() == g0.index().remove_keys(
            ids_of(g0.nodes(), owned_by(g0.owners(), file)).to_set(),
        ),
        g1.owners() == g0.owners().remove(file),
    ensures
        facts(g1) =~= invalidate_facts(facts(g0), file),
{
    let f0 = facts(g0);
    let f1 = facts(g1);
    let sq = owned_by(g0.owners(), file);
    let gone = sq.to_set();
    let ids = ids_of(g0.nodes(), sq);
    assert(owned_ids(f0.owners, file) == ids);
    let gone_ids = ids.to_set();
    assert forall|j: int| 0 <= j < sq.len() implies g0.nodes().contains_key(#[trigger] sq[j]) by {
        if g0.owners().contains_key(file) {
        }
    }
    // A node is gone exactly when its identifier is.
    assert forall|m: usize| #[trigger] g0.nodes().contains_key(m) implies (gone.contains(m)
        <==> gone_ids.contains(g0.nodes()[m].id@)) by {
        if gone_ids.contains(g0.nodes()[m].id@) {
            let i = choose|i: int| 0 <= i < ids.len() && ids[i] == g0.nodes()[m].id@;
            assert(g0.index()[g0.nodes()[sq[i]].id@] == sq[i]);
        }
        if gone.contains(m) {
            let i = choose|i: int| 0 <= i < sq.len() && sq[i] == m;
            assert(ids[i] == g0.nodes()[m].id@);
        }
    }
    assert(f1.entities =~= f0.entities.remove_keys(gone_ids)) by {
        assert forall|k: Seq<char>| #[trigger] f1.entities.contains_key(k) implies f1.entities[k]
            == f0.entities.remove_keys(gone_ids)[k] by {
            let m = g0.index()[k];
            assert(g0.nodes().contains_key(m));
        }
    }
    assert(f1.owners =~= f0.owners.remove(file)) by {
        assert forall|f: Seq<char>| #[trigger] f1.owners.contains_key(f) implies f1.owners[f]
            == f0.owners.remove(file)[f] by {
            let s = g0.owners()[f];
            assert forall|j: int| 0 <= j < s.len() implies g1.nodes().contains_key(#[trigger] s[j]) by {
                if gone.contains(s[j]) {
                    let i = choose|i: int| 0 <= i < sq.len() && sq[i] == s[j];
                }
            }
            assert(ids_of(g1.nodes(), s) =~= ids_of(g0.nodes(), s));
        }
    }
    assert forall|f: EdgeFact| #[trigger] (f1.edges)(f) == (invalidate_facts(f0, file).edges)(f) by {
        let s0 = g0.links().dom().filter(|e: usize| link_fact(g0, e) == f);
        let s1 = g1.links().dom().filter(|e: usize| link_fact(g1, e) == f);
        assert forall|e: usize| #[trigger] g1.links().contains_key(e) implies link_fact(g1, e) == link_fact(g0, e) by {
            assert(g1.links()[e] == g0.links()[e]);
        }
        if gone_ids.contains(f.from) || gone_ids.contains(f.to) {
            assert forall|e: usize| !(#[trigger] s1.contains(e)) by {
                if s1.contains(e) {
                    assert(g0.nodes().contains_key(g0.links()[e].0));
                    assert(g0.nodes().contains_key(g0.links()[e].1));
                }
            }
            assert(s1 =~= Set::<usize>::empty());
        } else {
            assert forall|e: usize| #[trigger] s0.contains(e) implies s1.contains(e) by {
                assert(g0.nodes().contains_key(g0.links()[e].0));
                assert(g0.nodes().contains_key(g0.links()[e].1));
            }
            assert(s1 =~= s0);
        }
    }
    assert(f1.edges =~= invalidate_facts(f0, file).edges);
}

/// An empty graph has no facts.
proof fn lemma_no_facts(g: UcmGraph)
    requires
        g.nodes() == Map::<usize, UcmEntity>::empty(),
        g.links() == Map::<usize, (usize, usize, usize)>::empty(),
        g.index() == Map::<Seq<char>, usize>::empty(),
        g.owners() == Map::<Seq<char>, Seq<usize>>::empty(),
    ensures
        facts(g) =~= no_facts(),
{
    assert forall|f: EdgeFact| #[trigger] (facts(g).edges)(f) == (no_facts().edges)(f) by {
        assert(g.links().dom().filter(|e: usize| link_fact(g, e) == f) =~= Set::<usize>::empty());
    }
}

/// Add an entity under an identifier the graph does not have yet.
pub(crate) fn add_fresh_entity(graph: &mut UcmGraph, entity: UcmEntity)
    requires
        old(graph).wf(),
        !old(graph).index().contains_key(entity.id@),
    ensures
        final(graph).wf(),
        facts(*final(graph)) == new_entity_facts(facts(*old(graph)), entity.id@, entity_fact(entity)),
        final(graph).index().dom() == old(graph).index().dom().insert(entity.id@),
{
    let ghost g0 = *graph;
    let ghost e = entity;
    match graph.add_entity(entity) {
        Ok(n) => {
            proof {
                lemma_facts_add(g0, *graph, n, e);
                assert(graph.index().dom() =~= g0.index().dom().insert(e.id@));
            }
        },
        Err(_) => {
            assert(false);
        },
    }
}

/// Link two entities the graph has.
pub(crate) fn link_present(graph: &mut UcmGraph, from: &crate::entity::EntityId, to: &crate::entity::EntityId, edge: UcmEdge)
    requires
        old(graph).wf(),
        old(graph).index().contains_key(from@),
        old(graph).index().contains_key(to@),
    ensures
        final(graph).wf(),
        facts(*final(graph)) == new_edge_facts(facts(*old(graph)), edge_fact(from@, to@, edge)),
        final(graph).index() == old(graph).index(),
{
    let ghost g0 = *graph;
    let ghost ed = edge;
    match graph.add_relationship(from, to, edge) {
        Ok(x) => {
            proof {
                let a = g0.index()[from@];
                let b = g0.index()[to@];
                lemma_facts_link(g0, *graph, x, a, b, ed);
            }
        },
        Err(_) => {
            assert(false);
        },
    }
}

// ─── The projection ────────────────────────────────────────────────

/// Projects events into a materialized context graph.
pub struct GraphProjection;

impl GraphProjection {
    /// Replay a sequence of events to build a fresh graph.
    pub fn replay_all(events: &[UcmEvent]) -> (r: UcmGraph)
        requires
        ensures
            r.wf(),
            facts(r) == replay_facts(no_facts(), crate::event::payloads(events@)),
    {
        let mut graph = UcmGraph::new();
        proof {
            lemma_no_facts(graph);
        }
        Self::apply_batch(&mut graph, events);
        graph
    }

    /// Apply one event to a graph (an incremental update): a discovered
    /// entity is upserted; a removed entity invalidates the file its
    /// identifier names; a dependency links two present entities, unless an
    /// edge with the same endpoints and relation is already there (and is
    /// ignored where an entity is absent); a confidence update adds its
    /// evidence to the edge between the two entities, where exactly one edge
    /// links them (the event names no relation to choose among several); a
    /// detected change invalidates its file; other events leave the graph as
    /// it is. After a link its edge is present, and a link already present
    /// leaves the graph exactly as it was: applying the same link twice
    /// leaves the statistics and every entity's dependencies as after once.
    pub fn apply_event(graph: &mut UcmGraph, event: &UcmEvent)
        requires
            old(graph).wf(),
        ensures
            final(graph).wf(),
            facts(*final(graph)) == apply_facts(facts(*old(graph)), event.payload@),
            event.payload@ matches PayloadView::DependencyLinked { source_entity, target_entity, relation_type, .. }
                ==> (linked(facts(*old(graph)), source_entity, target_entity, relation_type) ==> *final(graph)
                == *old(graph)),
            event.payload@ matches PayloadView::DependencyLinked { source_entity, target_entity, relation_type, .. }
                ==> (old(graph).index().contains_key(source_entity) && old(graph).index().contains_key(target_entity)
                ==> linked(facts(*final(graph)), source_entity, target_entity, relation_type)),
    {
        let ghost g0 = *graph;
        match &event.payload {
            EventPayload::EntityDiscovered {
                entity_id,
                kind,
                name,
                file_path,
                language,
                source,
                line_range,
            } => {
                let mut entity = UcmEntity::new(
                    entity_id.duplicate(),
                    kind.duplicate(),
                    name.clone(),
                    file_path.clone(),
                    language.clone(),
                    *source,
                );
                match line_range {
                    Some((start, end)) => {
                        entity = entity.with_line_range(*start, *end);
                    },
                    None => {},
                }
                let ghost ent = entity;
                let n = graph.upsert_entity(entity);
                proof {
                    if g0.index().contains_key(ent.id@) {
                        lemma_facts_replace(g0, *graph, n, ent);
                    } else {
                        lemma_facts_add(g0, *graph, n, ent);
                    }
                }
            },
            EventPayload::EntityRemoved { entity_id, .. } => {
                match entity_id.file_path() {
                    Some(p) => {
                        graph.invalidate_file(p);
                        proof {
                            lemma_facts_invalidate(g0, *graph, p@);
                        }
                    },
                    None => {
                        proof {
                            lemma_same_edges(g0, *graph);
                            assert(facts(*graph) =~= facts(g0));
                        }
                    },
                }
            },
            EventPayload::DependencyLinked {
                source_entity,
                target_entity,
                relation_type,
                confidence,
                source,
                description,
            } => {
                let both = graph.entity_node_index(source_entity).is_some() && graph.entity_node_index(
                    target_entity,
                ).is_some();
                if both && has_link(graph, source_entity, target_entity, *relation_type) {
                    proof {
                        lemma_same_edges(g0, *graph);
                        assert(facts(*graph) =~= facts(g0));
                    }
                    return;
                }
                proof {
                    if linked(facts(g0), source_entity@, target_entity@, *relation_type) {
                        lemma_linked_present(g0, source_entity@, target_entity@, *relation_type);
                    }
                }
                let edge = UcmEdge::new(*relation_type, *source, *confidence, description.clone());
                let ghost ed = edge;
                match graph.add_relationship(source_entity, target_entity, edge) {
                    Ok(x) => {
                        proof {
                            let a = g0.index()[source_entity@];
                            let b = g0.index()[target_entity@];
                            lemma_facts_link(g0, *graph, x, a, b, ed);
                            assert(ed.evidence@.map_values(
                                |v: crate::edge::EvidenceSource| (v.source, v.confidence, v.description@),
                            ) =~= seq![(*source, *confidence, description@)]);
                            let fact = EdgeFact {
                                from: source_entity@,
                                to: target_entity@,
                                relation: *relation_type,
                                confidence: *confidence,
                                evidence: seq![(*source, *confidence, description@)],
                                decay_rate: decay_rate_for(*relation_type, *source),
                            };
                            assert(edge_fact(g0.nodes()[a].id@, g0.nodes()[b].id@, ed) == fact);
                            assert(facts(*graph) =~= new_edge_facts(facts(g0), fact));
                            assert((facts(*graph).edges)(fact) > 0);
                            assert(linked(facts(*graph), source_entity@, target_entity@, *relation_type));
                        }
                    },
                    Err(_) => {
                        proof {
                            assert forall|y: usize| #[trigger] g0.links().contains_key(y) implies link_fact(
                                *graph,
                                y,
                            ) == link_fact(g0, y) by {}
                            lemma_same_edges(g0, *graph);
                            assert(facts(*graph) =~= facts(g0));
                        }
                    },
                }
            },
            EventPayload::ChangeDetected { file_path, .. } => {
                graph.invalidate_file(file_path.as_str());
                proof {
                    lemma_facts_invalidate(g0, *graph, file_path@);
                }
            },
            EventPayload::ConfidenceUpdated {
                source_entity,
                target_entity,
                new_evidence_confidence,
                source,
                description,
            } => {
                let found = match (graph.entity_node_index(source_entity), graph.entity_node_index(target_entity)) {
                    (Some(a), Some(b)) => sole_edge(graph, a, b),
                    _ => None,
                };
                proof {
                    lemma_sole_link(g0, source_entity@, target_entity@, found);
                }
                match found {
                    Some(e) => {
                        graph.add_evidence_to_edge(e, *source, *new_evidence_confidence, description.clone());
                        proof {
                            lemma_facts_evidence(g0, *graph, e, *source, *new_evidence_confidence, description@);
                        }
                    },
                    None => {
                        proof {
                            lemma_same_edges(g0, *graph);
                            assert(facts(*graph) =~= facts(g0));
                        }
                    },
                }
            },
            _ => {
                proof {
                    lemma_same_edges(g0, *graph);
                    assert(facts(*graph) =~= facts(g0));
                }
            },
        }
    }

    /// Apply a batch of events incrementally, in order.
    pub fn apply_batch(graph: &mut UcmGraph, events: &[UcmEvent])
        requires
            old(graph).wf(),
        ensures
            final(graph).wf(),
            facts(*final(graph)) == replay_facts(facts(*old(graph)), crate::event::payloads(events@)),
    {
        let ghost start = facts(*graph);
        let ghost ps = crate::event::payloads(events@);
        let mut i: usize = 0;
        while i < events.len()
            invariant
                i <= events.len(),
                graph.wf(),
                ps == crate::event::payloads(events@),
                facts(*graph) == replay_facts(start, ps.take(i as int)),
            decreases events.len() - i,
        {
            Self::apply_event(graph, &events[i]);
            assert(ps.take(i + 1).drop_last() =~= ps.take(i as int));
            i += 1;
        }
        assert(ps.take(events.len() as int) =~= ps);
    }
}

// ─── Laws ──────────────────────────────────────────────────────────

/// Replaying events with the same payloads builds graphs with the same facts,
/// whatever the events' identifiers and timestamps: the graph is always
/// rebuildable from the event log.
pub proof fn replay_is_deterministic(
    events1: Seq<UcmEvent>,
    events2: Seq<UcmEvent>,
    g1: UcmGraph,
    g2: UcmGraph,
)
    requires
        crate::event::payloads(events1) == crate::event::payloads(events2),
        facts(g1) == replay_facts(no_facts(), crate::event::payloads(events1)),
        facts(g2) == replay_facts(no_facts(), crate::event::payloads(events2)),
    ensures
        facts(g1) == facts(g2),
{
}

/// Discovering the same entity twice has the effect of discovering it once
/// (upsert semantics: replay is safe).
pub proof fn discovery_is_idempotent(a: GraphFacts, p: PayloadView)
    requires
        p is EntityDiscovered,
    ensures
        apply_facts(apply_facts(a, p), p) == apply_facts(a, p),
{
    let once = apply_facts(a, p);
    assert(apply_facts(once, p) =~= once);
}

/// Applying a log in two parts, the second from where the first stopped,
/// gives the facts of applying it whole: incremental projection from a
/// checkpoint agrees with a full replay.
pub proof fn replay_splits(a: GraphFacts, first: Seq<PayloadView>, rest: Seq<PayloadView>)
    ensures
        replay_facts(a, first + rest) == replay_facts(replay_facts(a, first), rest),
    decreases rest.len(),
{
    if rest.len() == 0 {
        assert(first + rest =~= first);
    } else {
        assert((first + rest).drop_last() =~= first + rest.drop_last());
        replay_splits(a, first, rest.drop_last());
    }
}

/// After a change is detected in a file, none of the entities the file owned
/// remains, no edge at them remains, and the file owns nothing.
pub proof fn change_hides_file(a: GraphFacts, p: PayloadView)
    requires
        p is ChangeDetected,
    ensures
        forall|id: Seq<char>|
            #[trigger] owned_ids(a.owners, p->ChangeDetected_file_path).contains(id)
                ==> !apply_facts(a, p).entities.contains_key(id),
        forall|f: EdgeFact|
            owned_ids(a.owners, p->ChangeDetected_file_path).contains(f.from) || owned_ids(
                a.owners,
                p->ChangeDetected_file_path,
            ).contains(f.to) ==> #[trigger] (apply_facts(a, p).edges)(f) == 0,
        !apply_facts(a, p).owners.contains_key(p->ChangeDetected_file_path),
{
}

} // verus!
