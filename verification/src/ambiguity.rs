//! Ambiguity detection: flags low-confidence and stale relationships of the
//! context graph, so that uncertainty is stated rather than hidden.
use vstd::prelude::*;

use crate::clock::{utc_debug, utc_debug_text, utc_display, utc_display_text};
use crate::edge::{tier_emoji, tier_of, ConfidenceTier, EvidenceSource, UcmEdge};
use crate::entity::UcmEntity;
use crate::explanation::{percent, percent_exec};
use crate::graph::UcmGraph;
use crate::report::{AmbiguityEntry, ImpactReport};
use crate::stable_graph::{graph_edge_count, graph_edges, graph_edges_directed, graph_node_indices, graph_nodes};
use crate::text::{
    chars_of, decimal, decimal_exec, extend, millionths_text, millionths_text_exec, push_str,
    signed_decimal, signed_decimal_exec, string_of, views,
};

verus! {

broadcast use vstd::string::group_string_axioms;

/// The flags found in the context graph, with the numbers of low-confidence
/// and stale relationships.
#[derive(Debug, Clone)]
pub struct AmbiguityReport {
    pub flags: Vec<AmbiguityFlag>,
    pub total_low_confidence_edges: usize,
    pub total_stale_edges: usize,
}

/// One flagged ambiguity.
#[derive(Debug, Clone)]
pub struct AmbiguityFlag {
    pub flag_type: AmbiguityType,
    pub entity_id: Option<String>,
    pub description: String,
    pub evidence: Vec<String>,
    pub recommendation: String,
    pub severity: String,
}

/// The kinds of ambiguity.
#[derive(Debug, Clone, Copy, PartialEq, Eq, Structural)]
pub enum AmbiguityType {
    /// Two sources disagree about a fact
    SourceConflict,
    /// Requirements don't match observed behavior
    RequirementDrift,
    /// Expected information is missing
    MissingData,
    /// Edge confidence below threshold
    LowConfidence,
    /// Data is stale (high temporal decay)
    StaleData,
}

/// The name of an ambiguity type, as `{:?}` prints it.
pub open spec fn ambiguity_type_name(t: AmbiguityType) -> Seq<char> {
    match t {
        AmbiguityType::SourceConflict => "SourceConflict"@,
        AmbiguityType::RequirementDrift => "RequirementDrift"@,
        AmbiguityType::MissingData => "MissingData"@,
        AmbiguityType::LowConfidence => "LowConfidence"@,
        AmbiguityType::StaleData => "StaleData"@,
    }
}

impl AmbiguityType {
    /// The name of the type.
    pub fn name(&self) -> (r: &'static str)
        ensures
            r@ == ambiguity_type_name(*self),
    {
        match self {
            AmbiguityType::SourceConflict => "SourceConflict",
            AmbiguityType::RequirementDrift => "RequirementDrift",
            AmbiguityType::MissingData => "MissingData",
            AmbiguityType::LowConfidence => "LowConfidence",
            AmbiguityType::StaleData => "StaleData",
        }
    }
}

/// A flag as plain values: type, entity, description, evidence,
/// recommendation, severity.
pub open spec fn flag_view(f: AmbiguityFlag) -> (
    AmbiguityType,
    Option<Seq<char>>,
    Seq<char>,
    Seq<Seq<char>>,
    Seq<char>,
    Seq<char>,
) {
    (
        f.flag_type,
        match f.entity_id {
            Some(s) => Some(s@),
            None => None,
        },
        f.description@,
        views(f.evidence@),
        f.recommendation@,
        f.severity@,
    )
}

/// The views of some flags.
pub open spec fn flag_views(v: Seq<AmbiguityFlag>) -> Seq<
    (AmbiguityType, Option<Seq<char>>, Seq<char>, Seq<Seq<char>>, Seq<char>, Seq<char>),
> {
    v.map_values(|f: AmbiguityFlag| flag_view(f))
}

/// An instant as printed, or its millisecond count where `chrono` cannot
/// represent it.
pub open spec fn instant_text(t: Option<Seq<char>>, millis: i64) -> Seq<char> {
    match t {
        Some(x) => x,
        None => signed_decimal(millis as int),
    }
}

/// The line that cites one piece of evidence.
pub open spec fn evidence_line(e: EvidenceSource) -> Seq<char> {
    e.description@ + ": "@ + decimal(percent(e.confidence)) + "% ("@ + instant_text(
        utc_display(e.observed_at),
        e.observed_at,
    ) + ")"@
}

/// When an edge was last verified, as `{:?}` prints the option.
pub open spec fn verified_text(v: Option<i64>) -> Seq<char> {
    match v {
        Some(ms) => "Some("@ + instant_text(utc_debug(ms), ms) + ")"@,
        None => "None"@,
    }
}

/// An edge is weaker than the threshold.
pub open spec fn is_low(edge: UcmEdge, threshold: u32) -> bool {
    edge.confidence < threshold
}

/// An edge's decayed confidence is below 0.8 of its confidence.
pub open spec fn is_stale(edge: UcmEdge, decayed: u32) -> bool {
    decayed * 5 < edge.confidence * 4
}

/// The low-confidence flag of an edge from `src` to `dst`, where it applies.
pub open spec fn low_flag_seq(src: UcmEntity, dst: UcmEntity, edge: UcmEdge, threshold: u32) -> Seq<
    (AmbiguityType, Option<Seq<char>>, Seq<char>, Seq<Seq<char>>, Seq<char>, Seq<char>),
> {
    if is_low(edge, threshold) {
        seq![
            (
                AmbiguityType::LowConfidence,
                Some(src.id@),
                "Low confidence ("@ + decimal(percent(edge.confidence)) + "%) on relationship: "@
                    + src.name@ + " → "@ + dst.name@,
                edge.evidence@.map_values(|e: EvidenceSource| evidence_line(e)),
                "Verify the relationship between "@ + src.name@ + " and "@ + dst.name@
                    + " — consider running tests or re-analyzing"@,
                tier_emoji(tier_of(edge.confidence)),
            ),
        ]
    } else {
        seq![]
    }
}

/// The staleness flag of an edge from `src` to `dst` whose decayed
/// confidence is `decayed`, where it applies.
pub open spec fn stale_flag_seq(src: UcmEntity, dst: UcmEntity, edge: UcmEdge, decayed: u32) -> Seq<
    (AmbiguityType, Option<Seq<char>>, Seq<char>, Seq<Seq<char>>, Seq<char>, Seq<char>),
> {
    if is_stale(edge, decayed) {
        seq![
            (
                AmbiguityType::StaleData,
                Some(src.id@),
                "Stale relationship: "@ + src.name@ + " → "@ + dst.name@ + " (base "@ + decimal(
                    percent(edge.confidence),
                ) + "%, decayed to "@ + decimal(percent(decayed)) + "%)"@,
                seq![
                    "Last verified: "@ + verified_text(edge.verified_at) + ", decay rate: "@
                        + millionths_text(edge.decay_rate as nat),
                ],
                "Re-verify this relationship with fresh analysis"@,
                tier_emoji(tier_of(decayed)),
            ),
        ]
    } else {
        seq![]
    }
}

/// The flags of one edge: a low-confidence flag, then a staleness flag,
/// each where it applies.
pub open spec fn edge_flag_seq(src: UcmEntity, dst: UcmEntity, edge: UcmEdge, threshold: u32, decayed: u32) -> Seq<
    (AmbiguityType, Option<Seq<char>>, Seq<char>, Seq<Seq<char>>, Seq<char>, Seq<char>),
> {
    low_flag_seq(src, dst, edge, threshold) + stale_flag_seq(src, dst, edge, decayed)
}

/// The flags of the live edge `e`; `decayed` holds the decayed confidence
/// of every stored edge.
pub open spec fn edge_flags(g: UcmGraph, e: usize, threshold: u32, decayed: Seq<u32>) -> Seq<
    (AmbiguityType, Option<Seq<char>>, Seq<char>, Seq<Seq<char>>, Seq<char>, Seq<char>),
> {
    let l = g.links()[e];
    edge_flag_seq(g.nodes()[l.0], g.nodes()[l.1], g.edge_at(e), threshold, decayed[l.2 as int])
}

/// The flags of the edges `es`, in order.
pub open spec fn flags_along(g: UcmGraph, es: Seq<usize>, threshold: u32, decayed: Seq<u32>) -> Seq<
    (AmbiguityType, Option<Seq<char>>, Seq<char>, Seq<Seq<char>>, Seq<char>, Seq<char>),
>
    decreases es.len(),
{
    if es.len() == 0 {
        seq![]
    } else {
        flags_along(g, es.drop_last(), threshold, decayed) + edge_flags(g, es.last(), threshold, decayed)
    }
}

/// How many of the edges `es` are weaker than the threshold.
pub open spec fn low_along(g: UcmGraph, es: Seq<usize>, threshold: u32) -> nat
    decreases es.len(),
{
    if es.len() == 0 {
        0
    } else {
        low_along(g, es.drop_last(), threshold) + if is_low(g.edge_at(es.last()), threshold) {
            1nat
        } else {
            0nat
        }
    }
}

/// How many of the edges `es` are stale.
pub open spec fn stale_along(g: UcmGraph, es: Seq<usize>, decayed: Seq<u32>) -> nat
    decreases es.len(),
{
    if es.len() == 0 {
        0
    } else {
        stale_along(g, es.drop_last(), decayed) + if is_stale(
            g.edge_at(es.last()),
            decayed[g.links()[es.last()].2 as int],
        ) {
            1nat
        } else {
            0nat
        }
    }
}

/// `es` lists every live edge once, grouped by source node in increasing
/// order of node (the order in which the entities and then their
/// dependencies are visited).
pub open spec fn edge_order_ok(g: UcmGraph, es: Seq<usize>) -> bool {
    &&& es.no_duplicates()
    &&& es.to_set() == g.links().dom()
    &&& forall|i: int, j: int| 0 <= i < j < es.len() ==> g.links()[es[i]].0 <= g.links()[es[j]].0
}

/// The flags of one edge, appended; and whether it was low and stale.
fn push_edge_flags(
    src: &UcmEntity,
    dst: &UcmEntity,
    edge: &UcmEdge,
    threshold: u32,
    decayed: u32,
    flags: &mut Vec<AmbiguityFlag>,
) -> (r: (bool, bool))
    ensures
        flag_views(final(flags)@) == flag_views(old(flags)@) + edge_flag_seq(
            *src,
            *dst,
            *edge,
            threshold,
            decayed,
        ),
        r.0 == is_low(*edge, threshold),
        r.1 == is_stale(*edge, decayed),
{
    let ghost before = flag_views(flags@);
    let low = edge.confidence < threshold;
    if low {
        let mut d = chars_of("Low confidence (");
        extend(&mut d, &decimal_exec(percent_exec(edge.confidence)));
        push_str(&mut d, "%) on relationship: ");
        push_str(&mut d, src.name.as_str());
        push_str(&mut d, " → ");
        push_str(&mut d, dst.name.as_str());
        let mut evidence: Vec<String> = Vec::new();
        let mut k: usize = 0;
        while k < edge.evidence.len()
            invariant
                k <= edge.evidence.len(),
                views(evidence@) == edge.evidence@.take(k as int).map_values(
                    |e: EvidenceSource| evidence_line(e),
                ),
            decreases edge.evidence.len() - k,
        {
            let ev = &edge.evidence[k];
            let mut line = chars_of(ev.description.as_str());
            push_str(&mut line, ": ");
            extend(&mut line, &decimal_exec(percent_exec(ev.confidence)));
            push_str(&mut line, "% (");
            match utc_display_text(ev.observed_at) {
                Some(t) => push_str(&mut line, t.as_str()),
                None => extend(&mut line, &signed_decimal_exec(ev.observed_at)),
            }
            push_str(&mut line, ")");
            let s = string_of(&line);
            let ghost prev = evidence@;
            evidence.push(s);
            assert(views(evidence@) =~= views(prev).push(s@));
            assert(edge.evidence@.take(k + 1).map_values(|e: EvidenceSource| evidence_line(e))
                =~= edge.evidence@.take(k as int).map_values(|e: EvidenceSource| evidence_line(e)).push(
                evidence_line(edge.evidence@[k as int]),
            ));
            k += 1;
        }
        assert(edge.evidence@.take(edge.evidence@.len() as int) =~= edge.evidence@);
        let mut rec = chars_of("Verify the relationship between ");
        push_str(&mut rec, src.name.as_str());
        push_str(&mut rec, " and ");
        push_str(&mut rec, dst.name.as_str());
        push_str(&mut rec, " — consider running tests or re-analyzing");
        let tier = ConfidenceTier::from_score(edge.confidence);
        let f = AmbiguityFlag {
            flag_type: AmbiguityType::LowConfidence,
            entity_id: Some(src.id.to_text()),
            description: string_of(&d),
            evidence,
            recommendation: string_of(&rec),
            severity: tier.emoji().to_string(),
        };
        let ghost prev = flags@;
        flags.push(f);
        assert(flag_views(flags@) =~= flag_views(prev).push(flag_view(f)));
        assert(flag_views(flags@) =~= before + low_flag_seq(*src, *dst, *edge, threshold));
    } else {
        assert(flag_views(flags@) =~= before + low_flag_seq(*src, *dst, *edge, threshold));
    }
    let ghost mid = flag_views(flags@);
    assert(mid == before + low_flag_seq(*src, *dst, *edge, threshold));
    let stale = (decayed as u64) * 5 < (edge.confidence as u64) * 4;
    if stale {
        let mut d = chars_of("Stale relationship: ");
        push_str(&mut d, src.name.as_str());
        push_str(&mut d, " → ");
        push_str(&mut d, dst.name.as_str());
        push_str(&mut d, " (base ");
        extend(&mut d, &decimal_exec(percent_exec(edge.confidence)));
        push_str(&mut d, "%, decayed to ");
        extend(&mut d, &decimal_exec(percent_exec(decayed)));
        push_str(&mut d, "%)");
        let mut line = chars_of("Last verified: ");
        match edge.verified_at {
            Some(ms) => {
                push_str(&mut line, "Some(");
                match utc_debug_text(ms) {
                    Some(t) => push_str(&mut line, t.as_str()),
                    None => extend(&mut line, &signed_decimal_exec(ms)),
                }
                push_str(&mut line, ")");
            },
            None => push_str(&mut line, "None"),
        }
        assert(line@ =~= "Last verified: "@ + verified_text(edge.verified_at));
        push_str(&mut line, ", decay rate: ");
        extend(&mut line, &millionths_text_exec(edge.decay_rate));
        assert(line@ =~= "Last verified: "@ + verified_text(edge.verified_at) + ", decay rate: "@
            + millionths_text(edge.decay_rate as nat));
        let mut evidence: Vec<String> = Vec::new();
        let l = string_of(&line);
        evidence.push(l);
        assert(views(evidence@) =~= seq![l@]);
        let tier = ConfidenceTier::from_score(decayed);
        let f = AmbiguityFlag {
            flag_type: AmbiguityType::StaleData,
            entity_id: Some(src.id.to_text()),
            description: string_of(&d),
            evidence,
            recommendation: "Re-verify this relationship with fresh analysis".to_string(),
            severity: tier.emoji().to_string(),
        };
        assert(f.description@ =~= "Stale relationship: "@ + src.name@ + " → "@ + dst.name@ + " (base "@ + decimal(
                    percent(edge.confidence),
                ) + "%, decayed to "@ + decimal(percent(decayed)) + "%)"@);
        assert(flag_view(f) == stale_flag_seq(*src, *dst, *edge, decayed)[0]);
        let ghost prev = flags@;
        flags.push(f);
        assert(flag_views(flags@) =~= flag_views(prev).push(flag_view(f)));
        assert(flag_views(flags@) =~= mid + stale_flag_seq(*src, *dst, *edge, decayed));
    } else {
        assert(flag_views(flags@) =~= mid + stale_flag_seq(*src, *dst, *edge, decayed));
    }
    assert(flag_views(flags@) =~= before + edge_flag_seq(*src, *dst, *edge, threshold, decayed));
    (low, stale)
}

/// Detect ambiguities in the context graph: for every relationship, in the
/// order of its source entity and then of that entity's dependencies, a
/// low-confidence flag where its confidence is below `confidence_threshold`,
/// and a staleness flag where its decayed confidence (`decayed`, one per
/// stored edge, in the order of `edge_records`) is below 0.8 of its confidence.
pub fn detect_ambiguities(graph: &UcmGraph, confidence_threshold: u32, decayed: &[u32]) -> (r:
    AmbiguityReport)
    requires
        graph.wf(),
        decayed@.len() == graph.records().len(),
    ensures
        exists|es: Seq<usize>|
            #![trigger edge_order_ok(*graph, es)]
            edge_order_ok(*graph, es) && flag_views(r.flags@) == flags_along(
                *graph,
                es,
                confidence_threshold,
                decayed@,
            ) && r.total_low_confidence_edges == low_along(*graph, es, confidence_threshold)
                && r.total_stale_edges == stale_along(*graph, es, decayed@),
{
    let inner = graph.inner();
    let records = graph.edge_records();
    let order = graph_node_indices(inner);
    let edge_total = graph_edge_count(inner);
    let ghost links = graph.links();
    let ghost nodes = graph.nodes();
    let ghost mut es: Seq<usize> = seq![];
    let mut flags: Vec<AmbiguityFlag> = Vec::new();
    let mut low: usize = 0;
    let mut stale: usize = 0;
    let mut i: usize = 0;
    while i < order.len()
        invariant
            i <= order.len(),
            graph.wf(),
            links == graph.links(),
            nodes == graph.nodes(),
            graph_edges(*inner) == links,
            graph_nodes(*inner).dom() == nodes.dom(),
            records@ == graph.records(),
            decayed@.len() == records@.len(),
            edge_total == links.len(),
            order@.to_set() == nodes.dom(),
            forall|a: int, b: int| 0 <= a < b < order@.len() ==> order@[a] < order@[b],
            es.no_duplicates(),
            forall|k: int|
                0 <= k < es.len() ==> links.contains_key(#[trigger] es[k]) && exists|m: int|
                    0 <= m < i && order@[m] == links[es[k]].0,
            forall|e: usize|
                #[trigger] links.contains_key(e) && (exists|m: int| 0 <= m < i && order@[m] == links[e].0)
                    ==> es.contains(e),
            forall|a: int, b: int| 0 <= a < b < es.len() ==> links[es[a]].0 <= links[es[b]].0,
            flag_views(flags@) == flags_along(*graph, es, confidence_threshold, decayed@),
            low == low_along(*graph, es, confidence_threshold),
            stale == stale_along(*graph, es, decayed@),
            low <= es.len(),
            stale <= es.len(),
        decreases order.len() - i,
    {
        let n = order[i];
        assert(order@.to_set().contains(n));
        let src = match graph.entity_at(n) {
            Some(s) => s,
            None => {
                assert(false);
                return AmbiguityReport { flags, total_low_confidence_edges: low, total_stale_edges: stale };
            },
        };
        let adj = graph_edges_directed(inner, n, true);
        let ghost es0 = es;
        proof {
            assert forall|k: int| 0 <= k < es0.len() implies links[#[trigger] es0[k]].0 < n by {
                let m = choose|m: int| 0 <= m < i && order@[m] == links[es0[k]].0;
                assert(order@[m] < order@[i as int]);
            }
        }
        let mut j: usize = 0;
        while j < adj.len()
            invariant
                j <= adj.len(),
                i < order.len(),
                n == order@[i as int],
                graph.wf(),
                links == graph.links(),
                nodes == graph.nodes(),
                nodes.contains_key(n),
                *src == nodes[n],
                graph_edges(*inner) == links,
                records@ == graph.records(),
                decayed@.len() == records@.len(),
                edge_total == links.len(),
                forall|k: int|
                    0 <= k < adj@.len() ==> {
                        let t = #[trigger] adj@[k];
                        &&& links.contains_key(t.0)
                        &&& links[t.0] == (t.1, t.2, t.3)
                        &&& t.1 == n
                    },
                forall|a: int, b: int| 0 <= a < b < adj@.len() ==> #[trigger] adj@[a].0 != #[trigger] adj@[b].0,
                es0.no_duplicates(),
                forall|k: int| 0 <= k < es0.len() ==> links[#[trigger] es0[k]].0 < n,
                forall|k: int| 0 <= k < es0.len() ==> links.contains_key(#[trigger] es0[k]),
                es == es0 + adj@.take(j as int).map_values(|t: (usize, usize, usize, usize)| t.0),
                forall|a: int, b: int| 0 <= a < b < es0.len() ==> links[es0[a]].0 <= links[es0[b]].0,
                flag_views(flags@) == flags_along(*graph, es, confidence_threshold, decayed@),
                low == low_along(*graph, es, confidence_threshold),
                stale == stale_along(*graph, es, decayed@),
                low <= es.len(),
                stale <= es.len(),
            decreases adj.len() - j,
        {
            let (e, _s, dst_node, w) = adj[j];
            assert(links.contains_key(e));
            let dst = match graph.entity_at(dst_node) {
                Some(d) => d,
                None => {
                    assert(false);
                    return AmbiguityReport { flags, total_low_confidence_edges: low, total_stale_edges: stale };
                },
            };
            let edge = &records[w];
            let d = decayed[w];
            let ghost es_prev = es;
            proof {
                let tail = adj@.take(j as int).map_values(|t: (usize, usize, usize, usize)| t.0);
                assert(!es_prev.contains(e)) by {
                    if es_prev.contains(e) {
                        let k = choose|k: int| 0 <= k < es_prev.len() && es_prev[k] == e;
                        if k < es0.len() {
                            assert(es0[k] == e);
                        } else {
                            assert(tail[k - es0.len()] == adj@[k - es0.len()].0);
                        }
                    }
                }
                es = es.push(e);
                assert(es.drop_last() =~= es_prev);
                // The new edge list is still without repeats and within the live edges.
                assert(es.to_set().subset_of(links.dom())) by {
                    assert forall|x: usize| es.to_set().contains(x) implies links.dom().contains(x) by {
                        let k = choose|k: int| 0 <= k < es.len() && es[k] == x;
                        if k < es0.len() {
                            assert(es0[k] == x);
                        } else if k < es_prev.len() {
                            assert(tail[k - es0.len()] == adj@[k - es0.len()].0);
                        }
                    }
                }
                assert(es.no_duplicates()) by {
                    assert forall|a: int, b: int| 0 <= a < b < es.len() implies es[a] != es[b] by {
                        if b == es.len() - 1 {
                            assert(es_prev[a] == es[a]);
                            assert(es_prev.contains(es[a]));
                        } else if b < es0.len() {
                        } else if a < es0.len() {
                            assert(tail[b - es0.len()] == adj@[b - es0.len()].0);
                            assert(links[es0[a]].0 < n);
                        } else {
                            assert(tail[b - es0.len()] == adj@[b - es0.len()].0);
                            assert(tail[a - es0.len()] == adj@[a - es0.len()].0);
                        }
                    }
                }
                es.unique_seq_to_set();
                vstd::set_lib::lemma_len_subset(es.to_set(), links.dom());
            }
            let (is_l, is_s) = push_edge_flags(src, dst, edge, confidence_threshold, d, &mut flags);
            if is_l {
                low = low + 1;
            }
            if is_s {
                stale = stale + 1;
            }
            proof {
                assert(es.last() == e);
                assert(graph.edge_at(e) == *edge);
                assert(nodes[links[e].1] == *dst);
            }
            j += 1;
            assert(adj@.take(j as int).map_values(|t: (usize, usize, usize, usize)| t.0) =~= adj@.take(
                (j - 1) as int,
            ).map_values(|t: (usize, usize, usize, usize)| t.0).push(e));
        }
        proof {
            let tail = adj@.map_values(|t: (usize, usize, usize, usize)| t.0);
            assert(adj@.take(adj@.len() as int) =~= adj@);
            assert forall|k: int|
                0 <= k < es.len() implies links.contains_key(#[trigger] es[k]) && exists|m: int|
                    0 <= m < i + 1 && order@[m] == links[es[k]].0 by {
                if k < es0.len() {
                    assert(es0[k] == es[k]);
                    let m = choose|m: int| 0 <= m < i && order@[m] == links[es0[k]].0;
                } else {
                    assert(tail[k - es0.len()] == adj@[k - es0.len()].0);
                    assert(order@[i as int] == links[es[k]].0);
                }
            }
            assert forall|e: usize|
                #[trigger] links.contains_key(e) && (exists|m: int| 0 <= m < i + 1 && order@[m] == links[e].0)
                    implies es.contains(e) by {
                let m = choose|m: int| 0 <= m < i + 1 && order@[m] == links[e].0;
                if m < i {
                    assert(es0.contains(e));
                    let k = choose|k: int| 0 <= k < es0.len() && es0[k] == e;
                    assert(es[k] == e);
                } else {
                    let k = choose|k: int| 0 <= k < adj@.len() && adj@[k].0 == e;
                    assert(tail[k] == e);
                    assert(es[es0.len() + k] == e);
                }
            }
            assert forall|a: int, b: int| 0 <= a < b < es.len() implies links[es[a]].0 <= links[es[b]].0 by {
                if b < es0.len() {
                    assert(es[a] == es0[a] && es[b] == es0[b]);
                } else if a < es0.len() {
                    assert(es[a] == es0[a]);
                    assert(tail[b - es0.len()] == adj@[b - es0.len()].0);
                } else {
                    assert(tail[b - es0.len()] == adj@[b - es0.len()].0);
                    assert(tail[a - es0.len()] == adj@[a - es0.len()].0);
                }
            }
        }
        i += 1;
    }
    proof {
        assert forall|x: usize| es.to_set().contains(x) <==> links.dom().contains(x) by {
            if links.dom().contains(x) {
                assert(order@.to_set().contains(links[x].0));
                let m = choose|m: int| 0 <= m < order@.len() && order@[m] == links[x].0;
                assert(es.contains(x));
            }
            if es.to_set().contains(x) {
                let k = choose|k: int| 0 <= k < es.len() && es[k] == x;
            }
        }
        assert(es.to_set() =~= links.dom());
        assert(edge_order_ok(*graph, es));
    }
    AmbiguityReport { flags, total_low_confidence_edges: low, total_stale_edges: stale }
}

/// An ambiguity entry of a report as plain values.
pub open spec fn entry_view(a: AmbiguityEntry) -> (
    Option<Seq<char>>,
    Seq<char>,
    Seq<char>,
    Seq<Seq<char>>,
    Seq<char>,
) {
    (
        match a.entity_id {
            Some(s) => Some(s@),
            None => None,
        },
        a.ambiguity_type@,
        a.description@,
        views(a.sources@),
        a.recommendation@,
    )
}

/// The report entry of a flag: its type by name, the rest as it stands.
pub open spec fn entry_of_flag(
    f: (AmbiguityType, Option<Seq<char>>, Seq<char>, Seq<Seq<char>>, Seq<char>, Seq<char>),
) -> (Option<Seq<char>>, Seq<char>, Seq<char>, Seq<Seq<char>>, Seq<char>) {
    (f.1, ambiguity_type_name(f.0), f.2, f.3, f.4)
}

/// Enrich an impact report with the ambiguities of the graph: each flag of
/// `detect_ambiguities` is appended to the report's ambiguities, in order;
/// nothing else in the report changes.
pub fn enrich_with_ambiguities(report: &mut ImpactReport, graph: &UcmGraph, confidence_threshold: u32, decayed: &[u32])
    requires
        graph.wf(),
        decayed@.len() == graph.records().len(),
    ensures
        exists|es: Seq<usize>|
            #![trigger edge_order_ok(*graph, es)]
            edge_order_ok(*graph, es) && final(report).ambiguities@.map_values(
                |a: AmbiguityEntry| entry_view(a),
            ) == old(report).ambiguities@.map_values(|a: AmbiguityEntry| entry_view(a)) + flags_along(
                *graph,
                es,
                confidence_threshold,
                decayed@,
            ).map_values(|f| entry_of_flag(f)),
        final(report).changes == old(report).changes,
        final(report).direct_impacts == old(report).direct_impacts,
        final(report).indirect_impacts == old(report).indirect_impacts,
        final(report).not_impacted == old(report).not_impacted,
        final(report).stats == old(report).stats,
{
    let found = detect_ambiguities(graph, confidence_threshold, decayed);
    let ghost fv = flag_views(found.flags@);
    let ghost base = old(report).ambiguities@.map_values(|a: AmbiguityEntry| entry_view(a));
    let mut k: usize = 0;
    while k < found.flags.len()
        invariant
            k <= found.flags.len(),
            fv == flag_views(found.flags@),
            report.ambiguities@.map_values(|a: AmbiguityEntry| entry_view(a)) == base + fv.take(
                k as int,
            ).map_values(|f| entry_of_flag(f)),
            report.changes == old(report).changes,
            report.direct_impacts == old(report).direct_impacts,
            report.indirect_impacts == old(report).indirect_impacts,
            report.not_impacted == old(report).not_impacted,
            report.stats == old(report).stats,
        decreases found.flags.len() - k,
    {
        let f = &found.flags[k];
        let entry = AmbiguityEntry {
            entity_id: match &f.entity_id {
                Some(s) => Some(s.clone()),
                None => None,
            },
            ambiguity_type: f.flag_type.name().to_string(),
            description: f.description.clone(),
            sources: crate::entity::copy_strings(&f.evidence),
            recommendation: f.recommendation.clone(),
        };
        let ghost prev = report.ambiguities@;
        report.ambiguities.push(entry);
        assert(report.ambiguities@.map_values(|a: AmbiguityEntry| entry_view(a)) =~= prev.map_values(
            |a: AmbiguityEntry| entry_view(a),
        ).push(entry_view(entry)));
        assert(fv.take(k + 1).map_values(|f| entry_of_flag(f)) =~= fv.take(k as int).map_values(
            |f| entry_of_flag(f),
        ).push(entry_of_flag(fv[k as int])));
        k += 1;
    }
    assert(fv.take(fv.len() as int) =~= fv);
}

} // verus!
