//! The impact report: the changes, what they impact directly and indirectly
//! (with explanations), what they do not impact (with explanations), any
//! ambiguities, and statistics of the traversal.
use vstd::prelude::*;

use crate::confidence::{all_valid, CONFIDENCE_ONE};
use crate::edge::{tier_emoji, tier_name, tier_of, ConfidenceTier};
use crate::entity::{id_views, EntityId};
use crate::explanation::{
    chain_ok, explain_impact, explain_not_impacted, impact_steps, step_views, ExplanationChain,
};
use crate::graph::{ImpactType, ImpactedEntity, NotImpactedEntity, UcmGraph};
use crate::impact::{
    bfs_result_ok, find_not_impacted, impact_bfs, impacted_ids, not_impacted_list, not_impacted_views,
};
use crate::text::{cat3, views};

verus! {

broadcast use vstd::string::group_string_axioms;

/// Full impact report for a change set: the primary output of the reasoning engine.
#[derive(Debug, Clone)]
pub struct ImpactReport {
    /// What entities were changed
    pub changes: Vec<ChangeDescription>,
    /// Entities directly impacted (one hop)
    pub direct_impacts: Vec<ImpactEntry>,
    /// Entities indirectly impacted (two hops or more, confidence-weighted)
    pub indirect_impacts: Vec<ImpactEntry>,
    /// Entities determined NOT to be impacted (with explanation)
    pub not_impacted: Vec<NotImpactedEntry>,
    /// Ambiguities and conflicts detected
    pub ambiguities: Vec<AmbiguityEntry>,
    /// Traversal statistics
    pub stats: ImpactStats,
}

/// A changed entity.
#[derive(Debug, Clone)]
pub struct ChangeDescription {
    pub entity_id: String,
    pub name: String,
    pub change_type: String,
    pub file_path: String,
}

/// An impacted entity, with its explanation. Confidence in millionths.
#[derive(Debug, Clone)]
pub struct ImpactEntry {
    pub entity_id: String,
    pub name: String,
    pub confidence: u32,
    pub tier: String,
    pub depth: usize,
    pub path: Vec<String>,
    pub reason: String,
    pub explanation_chain: ExplanationChain,
}

/// An entity not impacted, with its explanation. Confidence in millionths.
#[derive(Debug, Clone)]
pub struct NotImpactedEntry {
    pub entity_id: String,
    pub name: String,
    pub confidence: u32,
    pub reason: String,
    pub explanation_chain: ExplanationChain,
}

/// An ambiguity attached to a report.
#[derive(Debug, Clone)]
pub struct AmbiguityEntry {
    pub entity_id: Option<String>,
    pub ambiguity_type: String,
    pub description: String,
    pub sources: Vec<String>,
    pub recommendation: String,
}

/// Traversal statistics.
#[derive(Debug, Clone, Copy, PartialEq, Eq, Structural)]
pub struct ImpactStats {
    pub total_entities: usize,
    pub directly_impacted: usize,
    pub indirectly_impacted: usize,
    pub not_impacted: usize,
    pub max_depth_reached: usize,
}

/// The tier label of a confidence: the tier's marker and its name.
pub open spec fn tier_text(c: u32) -> Seq<char> {
    tier_emoji(tier_of(c)) + " "@ + tier_name(tier_of(c))
}

/// The impacts among the first `n` of one type, in order.
pub open spec fn of_type(v: Seq<ImpactedEntity>, t: ImpactType, n: int) -> Seq<ImpactedEntity>
    decreases n,
{
    if n <= 0 || n > v.len() {
        seq![]
    } else {
        of_type(v, t, n - 1) + if v[n - 1].impact_type == t {
            seq![v[n - 1]]
        } else {
            seq![]
        }
    }
}

/// The greatest depth among the first `n` impacts (0 for none).
pub open spec fn deepest(v: Seq<ImpactedEntity>, n: int) -> usize
    decreases n,
{
    if n <= 0 || n > v.len() {
        0
    } else {
        let d = deepest(v, n - 1);
        if v[n - 1].depth > d {
            v[n - 1].depth
        } else {
            d
        }
    }
}

/// A report entry says what an impact says, with its tier and explanation.
pub open spec fn entry_matches(e: ImpactEntry, i: ImpactedEntity) -> bool {
    &&& e.entity_id@ == i.entity_id@
    &&& e.name@ == i.name@
    &&& e.confidence == i.confidence
    &&& e.tier@ == tier_text(i.confidence)
    &&& e.depth == i.depth
    &&& views(e.path@) == views(i.path@)
    &&& e.reason@ == i.reason@
    &&& chain_ok(e.explanation_chain)
    &&& e.explanation_chain.summary@ == i.name@ + " is impacted by this change"@
    &&& step_views(e.explanation_chain.steps@) == impact_steps(i.name@, views(i.path@), i.confidence)
}

/// A report entry says what a not-impacted entity says, with its explanation.
pub open spec fn not_entry_matches(e: NotImpactedEntry, n: NotImpactedEntity) -> bool {
    &&& e.entity_id@ == n.entity_id@
    &&& e.name@ == n.name@
    &&& e.confidence == n.confidence
    &&& e.reason@ == n.reason@
    &&& chain_ok(e.explanation_chain)
    &&& e.explanation_chain.summary@ == n.name@ + " is NOT impacted by this change"@
    &&& step_views(e.explanation_chain.steps@) == seq![
        (1usize, "Analyzed graph connectivity for "@ + n.name@, n.reason@, n.confidence),
    ]
}

/// How a changed identifier is described: its entity's name and file, or
/// "Unknown" and no file when the graph lacks it.
pub open spec fn change_matches(g: UcmGraph, c: ChangeDescription, id: EntityId) -> bool {
    &&& c.entity_id@ == id@
    &&& c.change_type@ == "Modified"@
    &&& if g.index().contains_key(id@) {
        let e = g.nodes()[g.index()[id@]];
        c.name@ == e.name@ && c.file_path@ == e.file_path@
    } else {
        c.name@ == "Unknown"@ && c.file_path@ == Seq::<char>::empty()
    }
}

/// A report built from impacts `imp` and not-impacted entities `ni`.
pub open spec fn report_matches(
    g: UcmGraph,
    changed: Seq<EntityId>,
    imp: Seq<ImpactedEntity>,
    ni: Seq<NotImpactedEntity>,
    r: ImpactReport,
) -> bool {
    let direct = of_type(imp, ImpactType::Direct, imp.len() as int);
    let indirect = of_type(imp, ImpactType::Indirect, imp.len() as int);
    &&& r.direct_impacts@.len() == direct.len()
    &&& forall|k: int|
        0 <= k < direct.len() ==> entry_matches(#[trigger] r.direct_impacts@[k], direct[k])
    &&& r.indirect_impacts@.len() == indirect.len()
    &&& forall|k: int|
        0 <= k < indirect.len() ==> entry_matches(#[trigger] r.indirect_impacts@[k], indirect[k])
    &&& r.not_impacted@.len() == ni.len()
    &&& forall|k: int| 0 <= k < ni.len() ==> not_entry_matches(#[trigger] r.not_impacted@[k], ni[k])
    &&& r.changes@.len() == changed.len()
    &&& forall|k: int| 0 <= k < changed.len() ==> change_matches(g, #[trigger] r.changes@[k], changed[k])
    &&& r.ambiguities@.len() == 0
    &&& r.stats == ImpactStats {
        total_entities: g.nodes().len() as usize,
        directly_impacted: direct.len() as usize,
        indirectly_impacted: indirect.len() as usize,
        not_impacted: ni.len() as usize,
        max_depth_reached: deepest(imp, imp.len() as int),
    }
}

/// What finding the entities not impacted returns, for some impacts.
pub open spec fn not_impacted_ok(
    g: UcmGraph,
    changed: Seq<EntityId>,
    imp: Seq<ImpactedEntity>,
    ni: Seq<NotImpactedEntity>,
) -> bool {
    exists|q: Seq<usize>|
        #![trigger q.to_set()]
        crate::graph::ascending(q) && q.to_set() == g.nodes().dom() && not_impacted_views(ni)
            == not_impacted_list(g, changed, impacted_ids(imp), q, q.len() as int)
}

/// Every entity said not to be impacted is so with a confidence of at most 1.
proof fn lemma_not_impacted_bound(
    g: UcmGraph,
    changed: Seq<EntityId>,
    ids: Seq<Seq<char>>,
    q: Seq<usize>,
    n: int,
)
    ensures
        forall|k: int|
            0 <= k < not_impacted_list(g, changed, ids, q, n).len() ==> (#[trigger] not_impacted_list(
                g,
                changed,
                ids,
                q,
                n,
            )[k]).2 <= CONFIDENCE_ONE,
    decreases n,
{
    if n > 0 && n <= q.len() {
        lemma_not_impacted_bound(g, changed, ids, q, n - 1);
        let prev = not_impacted_list(g, changed, ids, q, n - 1);
        assert forall|k: int|
            0 <= k < not_impacted_list(g, changed, ids, q, n).len() implies (#[trigger] not_impacted_list(
                g,
                changed,
                ids,
                q,
                n,
            )[k]).2 <= CONFIDENCE_ONE by {
            if k < prev.len() {
                assert(not_impacted_list(g, changed, ids, q, n)[k] == prev[k]);
            }
        }
    }
}

/// An impact as a report entry, with its tier and explanation.
fn entry_of(i: &ImpactedEntity) -> (r: ImpactEntry)
    requires
        i.confidence <= CONFIDENCE_ONE,
    ensures
        entry_matches(r, *i),
{
    let tier = ConfidenceTier::from_score(i.confidence);
    ImpactEntry {
        entity_id: i.entity_id.to_text(),
        name: i.name.clone(),
        confidence: i.confidence,
        tier: cat3(tier.emoji(), " ", tier.name()),
        depth: i.depth,
        path: crate::entity::copy_strings(&i.path),
        reason: i.reason.clone(),
        explanation_chain: explain_impact(i.name.as_str(), i.path.as_slice(), i.confidence),
    }
}

/// Analyze the impact of a set of changes on the context graph: run the
/// reverse search, find what is not impacted, classify the impacts into
/// direct and indirect, and explain every conclusion.
pub fn analyze_impact(
    graph: &UcmGraph,
    changed_entities: &[EntityId],
    min_confidence: u32,
    max_depth: usize,
    edge_confidences: &[u32],
) -> (r: ImpactReport)
    requires
        graph.wf(),
        edge_confidences@.len() == graph.records().len(),
        all_valid(edge_confidences@),
    ensures
        exists|imp: Seq<ImpactedEntity>, ni: Seq<NotImpactedEntity>|
            #![trigger report_matches(*graph, changed_entities@, imp, ni, r)]
            bfs_result_ok(*graph, edge_confidences@, changed_entities@, min_confidence, max_depth, imp)
                && not_impacted_ok(*graph, changed_entities@, imp, ni) && report_matches(
                *graph,
                changed_entities@,
                imp,
                ni,
                r,
            ),
{
    let ghost g = *graph;
    let impacted = impact_bfs(graph, changed_entities, min_confidence, max_depth, edge_confidences);
    let not_impacted = find_not_impacted(graph, changed_entities, impacted.as_slice());
    let ghost imp = impacted@;
    let ghost ni = not_impacted@;

    // Classify into direct and indirect.
    let mut direct_impacts: Vec<ImpactEntry> = Vec::new();
    let mut indirect_impacts: Vec<ImpactEntry> = Vec::new();
    let mut max_depth_reached: usize = 0;
    let mut i: usize = 0;
    while i < impacted.len()
        invariant
            i <= impacted.len(),
            imp == impacted@,
            forall|k: int| 0 <= k < imp.len() ==> (#[trigger] imp[k]).confidence <= CONFIDENCE_ONE,
            direct_impacts@.len() == of_type(imp, ImpactType::Direct, i as int).len(),
            forall|k: int|
                0 <= k < direct_impacts@.len() ==> entry_matches(
                    #[trigger] direct_impacts@[k],
                    of_type(imp, ImpactType::Direct, i as int)[k],
                ),
            indirect_impacts@.len() == of_type(imp, ImpactType::Indirect, i as int).len(),
            forall|k: int|
                0 <= k < indirect_impacts@.len() ==> entry_matches(
                    #[trigger] indirect_impacts@[k],
                    of_type(imp, ImpactType::Indirect, i as int)[k],
                ),
            max_depth_reached == deepest(imp, i as int),
        decreases impacted.len() - i,
    {
        let item = &impacted[i];
        let entry = entry_of(item);
        if item.depth > max_depth_reached {
            max_depth_reached = item.depth;
        }
        let ghost d0 = of_type(imp, ImpactType::Direct, i as int);
        let ghost n0 = of_type(imp, ImpactType::Indirect, i as int);
        match item.impact_type {
            ImpactType::Direct => {
                let ghost before = direct_impacts@;
                direct_impacts.push(entry);
                assert forall|k: int|
                    0 <= k < direct_impacts@.len() implies entry_matches(
                        #[trigger] direct_impacts@[k],
                        of_type(imp, ImpactType::Direct, i + 1)[k],
                    ) by {
                    if k < before.len() {
                        assert(direct_impacts@[k] == before[k]);
                        assert(of_type(imp, ImpactType::Direct, i + 1)[k] == d0[k]);
                    }
                }
                assert(of_type(imp, ImpactType::Indirect, i + 1) =~= n0);
            },
            ImpactType::Indirect => {
                let ghost before = indirect_impacts@;
                indirect_impacts.push(entry);
                assert forall|k: int|
                    0 <= k < indirect_impacts@.len() implies entry_matches(
                        #[trigger] indirect_impacts@[k],
                        of_type(imp, ImpactType::Indirect, i + 1)[k],
                    ) by {
                    if k < before.len() {
                        assert(indirect_impacts@[k] == before[k]);
                        assert(of_type(imp, ImpactType::Indirect, i + 1)[k] == n0[k]);
                    }
                }
                assert(of_type(imp, ImpactType::Direct, i + 1) =~= d0);
            },
        }
        i += 1;
    }

    // Explain what is not impacted.
    let ghost q = choose|q: Seq<usize>|
        #![trigger q.to_set()]
        crate::graph::ascending(q) && q.to_set() == g.nodes().dom() && not_impacted_views(ni)
            == not_impacted_list(g, changed_entities@, impacted_ids(imp), q, q.len() as int);
    proof {
        lemma_not_impacted_bound(g, changed_entities@, impacted_ids(imp), q, q.len() as int);
        assert forall|k: int| 0 <= k < ni.len() implies (#[trigger] ni[k]).confidence <= CONFIDENCE_ONE by {
            assert(not_impacted_views(ni)[k].2 == ni[k].confidence);
        }
    }
    let mut not_entries: Vec<NotImpactedEntry> = Vec::new();
    let mut j: usize = 0;
    while j < not_impacted.len()
        invariant
            j <= not_impacted.len(),
            ni == not_impacted@,
            forall|k: int| 0 <= k < ni.len() ==> (#[trigger] ni[k]).confidence <= CONFIDENCE_ONE,
            not_entries@.len() == j,
            forall|k: int| 0 <= k < j ==> not_entry_matches(#[trigger] not_entries@[k], ni[k]),
        decreases not_impacted.len() - j,
    {
        let n = &not_impacted[j];
        let entry = NotImpactedEntry {
            entity_id: n.entity_id.to_text(),
            name: n.name.clone(),
            confidence: n.confidence,
            reason: n.reason.clone(),
            explanation_chain: explain_not_impacted(n.name.as_str(), n.reason.as_str(), n.confidence),
        };
        let ghost before = not_entries@;
        not_entries.push(entry);
        assert forall|k: int| 0 <= k < j + 1 implies not_entry_matches(#[trigger] not_entries@[k], ni[k]) by {
            if k < j {
                assert(not_entries@[k] == before[k]);
            }
        }
        j += 1;
    }

    // Describe the changes.
    let mut changes: Vec<ChangeDescription> = Vec::new();
    let mut c: usize = 0;
    while c < changed_entities.len()
        invariant
            c <= changed_entities.len(),
            g == *graph,
            g.wf(),
            changes@.len() == c,
            forall|k: int| 0 <= k < c ==> change_matches(g, #[trigger] changes@[k], changed_entities@[k]),
        decreases changed_entities.len() - c,
    {
        let id = &changed_entities[c];
        let entity = graph.get_entity(id);
        let desc = match entity {
            Some(e) => ChangeDescription {
                entity_id: id.to_text(),
                name: e.name.clone(),
                change_type: "Modified".to_string(),
                file_path: e.file_path.clone(),
            },
            None => ChangeDescription {
                entity_id: id.to_text(),
                name: "Unknown".to_string(),
                change_type: "Modified".to_string(),
                file_path: String::new(),
            },
        };
        let ghost before = changes@;
        changes.push(desc);
        assert forall|k: int| 0 <= k < c + 1 implies change_matches(g, #[trigger] changes@[k], changed_entities@[k]) by {
            if k < c {
                assert(changes@[k] == before[k]);
            }
        }
        c += 1;
    }

    let stats = ImpactStats {
        total_entities: graph.stats().entity_count,
        directly_impacted: direct_impacts.len(),
        indirectly_impacted: indirect_impacts.len(),
        not_impacted: not_entries.len(),
        max_depth_reached,
    };
    let report = ImpactReport {
        changes,
        direct_impacts,
        indirect_impacts,
        not_impacted: not_entries,
        ambiguities: Vec::new(),
        stats,
    };
    assert(report_matches(g, changed_entities@, imp, ni, report));
    report
}

} // verus!
