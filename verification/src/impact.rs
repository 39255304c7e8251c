//! Impact analysis: what a change set reaches through reverse dependencies.
//!
//! A reverse breadth-first search from the changed entities follows incoming
//! edges ("what depends on this?"); confidence decays multiplicatively along a
//! path, paths below a minimum confidence are cut, and the search stops at a
//! maximum depth (Google TAP's reverse traversal; Meta PTS's MinDist).
use vstd::prelude::*;

use std::collections::{HashMap, HashSet};

use crate::confidence::{all_valid, chain_spec, lemma_chain_bound, lemma_mul_conf_bound, lemma_mul_conf_monotone, mul_conf, mul_conf_exec, CONFIDENCE_ONE};
use crate::edge::{relation_text, relation_type_str, tier_emoji, tier_of, ConfidenceTier};
use crate::entity::{EntityId, UcmEntity};
use crate::graph::{ImpactType, ImpactedEntity, NotImpactedEntity, UcmGraph};
use crate::stable_graph::{graph_edges, graph_edges_directed};
use crate::text::{push_str, string_of, views};

verus! {

broadcast use vstd::string::group_string_axioms;

/// The confidence used for a live edge: its stored edge's entry in `ew`.
pub open spec fn edge_weight(g: UcmGraph, ew: Seq<u32>, e: usize) -> u32 {
    ew[g.links()[e].2 as int]
}

/// The confidences used along a sequence of edges.
pub open spec fn trail_weights(g: UcmGraph, ew: Seq<u32>, es: Seq<usize>) -> Seq<u32> {
    es.map_values(|e: usize| edge_weight(g, ew, e))
}

/// A node is the node of one of the changed identifiers.
pub open spec fn is_changed(g: UcmGraph, changed: Seq<EntityId>, n: usize) -> bool {
    exists|i: int|
        0 <= i < changed.len() && g.index().contains_key(#[trigger] changed[i]@) && g.index()[changed[i]@]
            == n
}

/// A reverse trail: nodes `ns[0] ← ns[1] ← …` where each edge `es[i]` goes
/// from `ns[i + 1]` to `ns[i]`, starting at a changed node.
pub open spec fn reverse_trail(g: UcmGraph, changed: Seq<EntityId>, ns: Seq<usize>, es: Seq<usize>) -> bool {
    &&& ns.len() == es.len() + 1
    &&& is_changed(g, changed, ns[0])
    &&& forall|i: int| 0 <= i < ns.len() ==> g.nodes().contains_key(#[trigger] ns[i])
    &&& forall|i: int|
        0 <= i < es.len() ==> g.links().contains_key(#[trigger] es[i]) && g.links()[es[i]].0 == ns[i
            + 1] && g.links()[es[i]].1 == ns[i]
}

/// The identifiers along a trail.
pub open spec fn trail_ids(g: UcmGraph, ns: Seq<usize>) -> Seq<Seq<char>> {
    ns.map_values(|n: usize| g.nodes()[n].id@)
}

/// Why an entity is impacted: the relation of the last edge, the entity it
/// leads from, and the confidence tier's marker.
pub open spec fn impact_reason(g: UcmGraph, e: usize, via: Seq<char>, conf: u32) -> Seq<char> {
    relation_text(g.edge_at(e).relation_type) + " via "@ + via + " ("@ + tier_emoji(tier_of(conf))
        + ")"@
}

/// What a reported impact says of the trail it was found along: the entity at
/// its end, its depth (at least 1, at most the maximum), its confidence (the
/// chained confidence of the trail, at least the minimum), its type (direct
/// at depth 1), the identifiers along the trail, and the reason.
pub open spec fn impact_of_trail(
    g: UcmGraph,
    ew: Seq<u32>,
    changed: Seq<EntityId>,
    min_confidence: u32,
    max_depth: usize,
    r: ImpactedEntity,
    ns: Seq<usize>,
    es: Seq<usize>,
) -> bool {
    let n = ns.last();
    let d = es.len();
    &&& reverse_trail(g, changed, ns, es)
    &&& 1 <= d <= max_depth
    &&& !is_changed(g, changed, n)
    &&& r.entity_id@ == g.nodes()[n].id@
    &&& r.name@ == g.nodes()[n].name@
    &&& r.depth == d
    &&& r.confidence == chain_spec(trail_weights(g, ew, es))
    &&& r.confidence >= min_confidence
    &&& r.impact_type == (if d == 1 {
        ImpactType::Direct
    } else {
        ImpactType::Indirect
    })
    &&& views(r.path@) == trail_ids(g, ns)
    &&& r.reason@ == impact_reason(g, es.last(), trail_ids(g, ns)[d - 1], r.confidence)
}

/// A reported impact is justified by some reverse trail from a changed entity.
pub open spec fn justified(
    g: UcmGraph,
    ew: Seq<u32>,
    changed: Seq<EntityId>,
    min_confidence: u32,
    max_depth: usize,
    r: ImpactedEntity,
) -> bool {
    exists|ns: Seq<usize>, es: Seq<usize>|
        #[trigger] impact_of_trail(g, ew, changed, min_confidence, max_depth, r, ns, es)
}

/// What a reverse search returns: justified impacts, one per entity, each at
/// most certain, and closed under one more step back (`bfs_closed`).
pub open spec fn bfs_result_ok(
    g: UcmGraph,
    ew: Seq<u32>,
    changed: Seq<EntityId>,
    min_confidence: u32,
    max_depth: usize,
    r: Seq<ImpactedEntity>,
) -> bool {
    &&& forall|i: int|
        0 <= i < r.len() ==> justified(g, ew, changed, min_confidence, max_depth, #[trigger] r[i])
    &&& forall|i: int| 0 <= i < r.len() ==> (#[trigger] r[i]).confidence <= CONFIDENCE_ONE
    &&& forall|i: int, j: int| 0 <= i < j < r.len() ==> #[trigger] r[i].entity_id@ != #[trigger] r[j].entity_id@
    &&& bfs_closed(g, ew, changed, min_confidence, max_depth, r)
    &&& bfs_complete(g, ew, changed, min_confidence, max_depth, r)
    &&& bfs_shallowest(g, ew, changed, max_depth, r)
}

/// Each reported depth is the least among the trails of at most `max_depth`
/// hops that reach the entity with its reported confidence: no shorter trail
/// reaches it as confidently.
pub open spec fn bfs_shallowest(
    g: UcmGraph,
    ew: Seq<u32>,
    changed: Seq<EntityId>,
    max_depth: usize,
    r: Seq<ImpactedEntity>,
) -> bool {
    forall|i: int, ns: Seq<usize>, es: Seq<usize>|
        0 <= i < r.len() && #[trigger] reverse_trail(g, changed, ns, es) && 1 <= es.len() <= max_depth && g.nodes()[ns.last()].id@
            == (#[trigger] r[i]).entity_id@ && chain_spec(trail_weights(g, ew, es)) == r[i].confidence ==> r[i].depth
            <= es.len()
}

/// Nothing within reach is missed: for every reverse trail of 1 to
/// `max_depth` hops from a changed entity to an unchanged one whose chained
/// confidence keeps the minimum, its end is reported with at least that
/// confidence. With `justified`, each reported confidence is the best over
/// such trails.
pub open spec fn bfs_complete(
    g: UcmGraph,
    ew: Seq<u32>,
    changed: Seq<EntityId>,
    min_confidence: u32,
    max_depth: usize,
    r: Seq<ImpactedEntity>,
) -> bool {
    forall|ns: Seq<usize>, es: Seq<usize>|
        #[trigger] reverse_trail(g, changed, ns, es) && 1 <= es.len() <= max_depth && !is_changed(g, changed, ns.last())
            && chain_spec(trail_weights(g, ew, es)) >= min_confidence ==> reported_with(
            g,
            r,
            ns.last(),
            chain_spec(trail_weights(g, ew, es)),
        )
}

/// Node `n`'s entity is reported with a confidence of at least `c`.
pub open spec fn reported_with(g: UcmGraph, r: Seq<ImpactedEntity>, n: usize, c: nat) -> bool {
    exists|j: int| 0 <= j < r.len() && (#[trigger] r[j]).entity_id@ == g.nodes()[n].id@ && r[j].confidence >= c
}

/// Nothing was left unfollowed: every changed entity (from a maximum depth of
/// 1) and every reported impact short of the maximum depth was followed one
/// step further back, so each edge into it from an unchanged entity, whose
/// propagated confidence reaches the minimum, leads to a reported impact of
/// at least that confidence.
pub open spec fn bfs_closed(
    g: UcmGraph,
    ew: Seq<u32>,
    changed: Seq<EntityId>,
    min_confidence: u32,
    max_depth: usize,
    r: Seq<ImpactedEntity>,
) -> bool {
    &&& max_depth >= 1 ==> forall|e: usize|
        #[trigger] g.links().contains_key(e) && is_changed(g, changed, g.links()[e].1) && !is_changed(
            g,
            changed,
            g.links()[e].0,
        ) && edge_weight(g, ew, e) >= min_confidence ==> reported_with(
            g,
            r,
            g.links()[e].0,
            edge_weight(g, ew, e) as nat,
        )
    &&& forall|i: int, e: usize|
        0 <= i < r.len() && (#[trigger] r[i]).depth < max_depth && #[trigger] g.links().contains_key(e)
            && g.nodes()[g.links()[e].1].id@ == r[i].entity_id@ && !is_changed(g, changed, g.links()[e].0)
            && mul_conf(r[i].confidence as nat, edge_weight(g, ew, e) as nat) >= min_confidence
            ==> reported_with(
            g,
            r,
            g.links()[e].0,
            mul_conf(r[i].confidence as nat, edge_weight(g, ew, e) as nat),
        )
}

/// A search entry: a node reached, with the confidence, depth and path it was
/// reached with, and the trail behind it.
struct Frontier {
    node: usize,
    conf: u32,
    depth: usize,
    path: Vec<String>,
    trail: Ghost<(Seq<usize>, Seq<usize>)>,
}

/// The common shape of a search entry and its trail.
spec fn trail_fits(
    g: UcmGraph,
    ew: Seq<u32>,
    changed: Seq<EntityId>,
    node: usize,
    conf: u32,
    depth: usize,
    path: Seq<Seq<char>>,
    ns: Seq<usize>,
    es: Seq<usize>,
) -> bool {
    &&& reverse_trail(g, changed, ns, es)
    &&& ns.last() == node
    &&& es.len() == depth
    &&& conf == chain_spec(trail_weights(g, ew, es))
    &&& path == trail_ids(g, ns)
}

/// One visited entry: its trail fits it, it names the node's entity, and it
/// is either a changed entity itself (no edges, full confidence) or a
/// reported impact of its trail.
spec fn entry_ok(
    g: UcmGraph,
    ew: Seq<u32>,
    changed: Seq<EntityId>,
    min_confidence: u32,
    max_depth: usize,
    r: ImpactedEntity,
    node: usize,
    trail: (Seq<usize>, Seq<usize>),
) -> bool {
    &&& trail_fits(g, ew, changed, node, r.confidence, r.depth, views(r.path@), trail.0, trail.1)
    &&& r.entity_id@ == g.nodes()[node].id@
    &&& r.name@ == g.nodes()[node].name@
    &&& if trail.1.len() == 0 {
        r.confidence == CONFIDENCE_ONE
    } else {
        impact_of_trail(g, ew, changed, min_confidence, max_depth, r, trail.0, trail.1)
    }
}

/// The visited entries: in order of first visit, one per node, indexed by node.
spec fn visited_ok(
    g: UcmGraph,
    ew: Seq<u32>,
    changed: Seq<EntityId>,
    min_confidence: u32,
    max_depth: usize,
    results: Seq<ImpactedEntity>,
    nodes_of: Seq<usize>,
    trails: Seq<(Seq<usize>, Seq<usize>)>,
    visited: Map<usize, usize>,
) -> bool {
    &&& nodes_of.len() == results.len()
    &&& trails.len() == results.len()
    &&& nodes_of.no_duplicates()
    &&& forall|n: usize| #[trigger] visited.contains_key(n) <==> nodes_of.contains(n)
    &&& forall|i: int| 0 <= i < nodes_of.len() ==> visited[#[trigger] nodes_of[i]] == i
    &&& forall|i: int|
        0 <= i < results.len() ==> entry_ok(
            g,
            ew,
            changed,
            min_confidence,
            max_depth,
            #[trigger] results[i],
            nodes_of[i],
            trails[i],
        )
}

/// A level of the search: entries at one depth, each fitting its trail.
spec fn level_ok(
    g: UcmGraph,
    ew: Seq<u32>,
    changed: Seq<EntityId>,
    level: Seq<Frontier>,
    d: usize,
) -> bool {
    forall|j: int|
        0 <= j < level.len() ==> {
            let f = #[trigger] level[j];
            &&& f.depth == d
            &&& trail_fits(g, ew, changed, f.node, f.conf, f.depth, views(f.path@), f.trail@.0, f.trail@.1)
        }
}

/// Node `n` was visited with a confidence of at least `c`.
spec fn reached_with(results: Seq<ImpactedEntity>, nodes_of: Seq<usize>, n: usize, c: nat) -> bool {
    exists|p: int| 0 <= p < nodes_of.len() && #[trigger] nodes_of[p] == n && results[p].confidence >= c
}

/// Every edge into `node` from an unchanged node, whose confidence propagated
/// from `conf` reaches the minimum, has its source visited with at least that.
spec fn node_closed(
    g: UcmGraph,
    ew: Seq<u32>,
    changed: Seq<EntityId>,
    min_confidence: u32,
    results: Seq<ImpactedEntity>,
    nodes_of: Seq<usize>,
    node: usize,
    conf: nat,
) -> bool {
    forall|e: usize|
        #[trigger] g.links().contains_key(e) && g.links()[e].1 == node && !is_changed(g, changed, g.links()[e].0)
            && mul_conf(conf, edge_weight(g, ew, e) as nat) >= min_confidence ==> reached_with(
            results,
            nodes_of,
            g.links()[e].0,
            mul_conf(conf, edge_weight(g, ew, e) as nat),
        )
}

/// The visited entries only grow: earlier nodes keep their place and their
/// confidences do not drop.
spec fn grows(ra: Seq<ImpactedEntity>, na: Seq<usize>, rb: Seq<ImpactedEntity>, nb: Seq<usize>) -> bool {
    &&& na.len() <= nb.len()
    &&& forall|p: int| 0 <= p < na.len() ==> nb[p] == #[trigger] na[p]
    &&& forall|p: int| 0 <= p < na.len() ==> #[trigger] rb[p].confidence >= ra[p].confidence
    &&& forall|p: int| 0 <= p < na.len() && #[trigger] rb[p].confidence == ra[p].confidence ==> rb[p].depth == ra[p].depth
}

/// Node `n` was visited with a confidence above `c`, or with `c` itself at a
/// depth of at most `k`.
spec fn reached_at(results: Seq<ImpactedEntity>, nodes_of: Seq<usize>, n: usize, c: nat, k: int) -> bool {
    exists|p: int|
        0 <= p < nodes_of.len() && #[trigger] nodes_of[p] == n && results[p].confidence >= c && (results[p].confidence
            == c ==> results[p].depth <= k)
}

/// A node reached at some depth stays so as the entries grow.
proof fn lemma_reached_at_grows(
    ra: Seq<ImpactedEntity>,
    na: Seq<usize>,
    rb: Seq<ImpactedEntity>,
    nb: Seq<usize>,
    n: usize,
    c: nat,
    k: int,
)
    requires
        grows(ra, na, rb, nb),
        reached_at(ra, na, n, c, k),
    ensures
        reached_at(rb, nb, n, c, k),
{
    let p = choose|p: int|
        0 <= p < na.len() && #[trigger] na[p] == n && ra[p].confidence >= c && (ra[p].confidence == c ==> ra[p].depth
            <= k);
    assert(nb[p] == na[p]);
    assert(rb[p].confidence >= ra[p].confidence);
}

/// Some entry of `q` from position `from` on is node `n` at confidence `c`
/// and depth `d`.
spec fn queued(q: Seq<Frontier>, from: int, n: usize, c: u32, d: usize) -> bool {
    exists|j: int| from <= j < q.len() && (#[trigger] q[j]).node == n && q[j].conf == c && q[j].depth == d
}

/// Visited entry `k` is either done with (at the maximum depth, or followed
/// back with its present confidence) or still waiting in the current level
/// (from `from` on) or in the next one.
spec fn settled(
    g: UcmGraph,
    ew: Seq<u32>,
    changed: Seq<EntityId>,
    min_confidence: u32,
    max_depth: usize,
    results: Seq<ImpactedEntity>,
    nodes_of: Seq<usize>,
    level: Seq<Frontier>,
    from: int,
    next: Seq<Frontier>,
    k: int,
) -> bool {
    let r = results[k];
    let n = nodes_of[k];
    ||| r.depth >= max_depth
    ||| node_closed(g, ew, changed, min_confidence, results, nodes_of, n, r.confidence as nat)
    ||| queued(level, from, n, r.confidence, r.depth)
    ||| queued(next, 0, n, r.confidence, r.depth)
}

/// A node reached with some confidence stays reached as the entries grow.
proof fn lemma_reached_grows(
    ra: Seq<ImpactedEntity>,
    na: Seq<usize>,
    rb: Seq<ImpactedEntity>,
    nb: Seq<usize>,
    n: usize,
    c: nat,
)
    requires
        grows(ra, na, rb, nb),
        reached_with(ra, na, n, c),
    ensures
        reached_with(rb, nb, n, c),
{
    let p = choose|p: int| 0 <= p < na.len() && #[trigger] na[p] == n && ra[p].confidence >= c;
    assert(nb[p] == na[p]);
    assert(rb[p].confidence >= ra[p].confidence);
}

/// A node followed back stays followed back as the entries grow.
proof fn lemma_closed_grows(
    g: UcmGraph,
    ew: Seq<u32>,
    changed: Seq<EntityId>,
    min_confidence: u32,
    ra: Seq<ImpactedEntity>,
    na: Seq<usize>,
    rb: Seq<ImpactedEntity>,
    nb: Seq<usize>,
    node: usize,
    conf: nat,
)
    requires
        grows(ra, na, rb, nb),
        node_closed(g, ew, changed, min_confidence, ra, na, node, conf),
    ensures
        node_closed(g, ew, changed, min_confidence, rb, nb, node, conf),
{
    assert forall|e: usize|
        #[trigger] g.links().contains_key(e) && g.links()[e].1 == node && !is_changed(g, changed, g.links()[e].0)
            && mul_conf(conf, edge_weight(g, ew, e) as nat) >= min_confidence implies reached_with(
            rb,
            nb,
            g.links()[e].0,
            mul_conf(conf, edge_weight(g, ew, e) as nat),
        ) by {
        lemma_reached_grows(ra, na, rb, nb, g.links()[e].0, mul_conf(conf, edge_weight(g, ew, e) as nat));
    }
}

/// Handling the entry at position `i` of a level keeps every visited entry
/// settled: an entry the step changed waits in the next level, an entry it
/// left alone keeps its reason, and the entry handled is either at the maximum
/// depth or now followed back.
proof fn lemma_settled_step(
    g: UcmGraph,
    ew: Seq<u32>,
    changed: Seq<EntityId>,
    min_confidence: u32,
    max_depth: usize,
    ra: Seq<ImpactedEntity>,
    na: Seq<usize>,
    qa: Seq<Frontier>,
    rb: Seq<ImpactedEntity>,
    nb: Seq<usize>,
    qb: Seq<Frontier>,
    level: Seq<Frontier>,
    i: int,
    k: int,
)
    requires
        0 <= i < level.len(),
        0 <= k < rb.len(),
        rb.len() == nb.len(),
        ra.len() == na.len(),
        grows(ra, na, rb, nb),
        qa.len() <= qb.len(),
        forall|j: int| 0 <= j < qa.len() ==> qb[j] == #[trigger] qa[j],
        forall|p: int|
            0 <= p < ra.len() ==> #[trigger] settled(g, ew, changed, min_confidence, max_depth, ra, na, level, i, qa, p),
        level[i].depth < max_depth ==> node_closed(g, ew, changed, min_confidence, rb, nb, level[i].node, level[i].conf as nat),
        forall|p: int|
            0 <= p < nb.len() ==> (p < na.len() && (#[trigger] rb[p]).confidence == ra[p].confidence && rb[p].depth
                == ra[p].depth) || queued(qb, 0, nb[p], rb[p].confidence, rb[p].depth),
    ensures
        settled(g, ew, changed, min_confidence, max_depth, rb, nb, level, i + 1, qb, k),
{
    if k < na.len() && rb[k].confidence == ra[k].confidence && rb[k].depth == ra[k].depth {
        let n = na[k];
        let c = ra[k].confidence;
        let dd = ra[k].depth;
        assert(nb[k] == na[k]);
        assert(settled(g, ew, changed, min_confidence, max_depth, ra, na, level, i, qa, k));
        if dd >= max_depth {
        } else if node_closed(g, ew, changed, min_confidence, ra, na, n, c as nat) {
            lemma_closed_grows(g, ew, changed, min_confidence, ra, na, rb, nb, n, c as nat);
        } else if queued(level, i, n, c, dd) {
            let j = choose|j: int|
                i <= j < level.len() && (#[trigger] level[j]).node == n && level[j].conf == c && level[j].depth == dd;
            if j > i {
                assert(queued(level, i + 1, n, c, dd));
            }
        } else {
            let j = choose|j: int| 0 <= j < qa.len() && (#[trigger] qa[j]).node == n && qa[j].conf == c && qa[j].depth == dd;
            assert(qb[j] == qa[j]);
            assert(queued(qb, 0, n, c, dd));
        }
    } else {
        assert(queued(qb, 0, nb[k], rb[k].confidence, rb[k].depth));
    }
}

/// A node visited with at least some confidence, and unchanged, is reported
/// with at least that confidence.
proof fn lemma_reported(
    g: UcmGraph,
    ew: Seq<u32>,
    changed: Seq<EntityId>,
    min_confidence: u32,
    max_depth: usize,
    all: Seq<ImpactedEntity>,
    all_nodes: Seq<usize>,
    all_trails: Seq<(Seq<usize>, Seq<usize>)>,
    out: Seq<ImpactedEntity>,
    out_nodes: Seq<usize>,
    k: usize,
    src: usize,
    c: nat,
)
    requires
        all_nodes.len() == all.len(),
        forall|i: int|
            0 <= i < all.len() ==> entry_ok(
                g,
                ew,
                changed,
                min_confidence,
                max_depth,
                #[trigger] all[i],
                all_nodes[i],
                all_trails[i],
            ),
        k == all.len(),
        out_nodes.len() == out.len(),
        forall|q: int| 0 <= q < k && !is_changed(g, changed, #[trigger] all_nodes[q]) ==> out_nodes.contains(q as usize),
        forall|j: int| 0 <= j < out.len() ==> (#[trigger] out[j]) == all[out_nodes[j] as int],
        forall|j: int| 0 <= j < out.len() ==> 0 <= #[trigger] out_nodes[j] < k,
        !is_changed(g, changed, src),
        reached_with(all, all_nodes, src, c),
    ensures
        reported_with(g, out, src, c),
{
    let p = choose|p: int| 0 <= p < all_nodes.len() && #[trigger] all_nodes[p] == src && all[p].confidence >= c;
    assert(out_nodes.contains(p as usize));
    let j = choose|j: int| 0 <= j < out_nodes.len() && out_nodes[j] == p as usize;
    assert(out[j] == all[p]);
    assert(entry_ok(g, ew, changed, min_confidence, max_depth, all[p], all_nodes[p], all_trails[p]));
}

/// A trail has been dealt with by the search at level `d`: its end is visited
/// with at least its chained confidence, and, short of the maximum depth, it
/// has been followed back from there, or (when it is `d` hops long) an entry
/// at least as confident waits in the level from position `from` on.
spec fn trail_done(
    g: UcmGraph,
    ew: Seq<u32>,
    changed: Seq<EntityId>,
    min_confidence: u32,
    max_depth: usize,
    results: Seq<ImpactedEntity>,
    nodes_of: Seq<usize>,
    level: Seq<Frontier>,
    from: int,
    d: int,
    ns: Seq<usize>,
    es: Seq<usize>,
) -> bool {
    let c = chain_spec(trail_weights(g, ew, es));
    &&& reached_at(results, nodes_of, ns.last(), c, es.len() as int)
    &&& es.len() < max_depth ==> (node_closed(g, ew, changed, min_confidence, results, nodes_of, ns.last(), c) || (
    es.len() == d && exists|j: int|
        from <= j < level.len() && (#[trigger] level[j]).node == ns.last() && level[j].conf >= c))
}

/// Every reverse trail of at most `d` hops (and at most the maximum depth)
/// that keeps the minimum confidence has been dealt with.
spec fn trails_done(
    g: UcmGraph,
    ew: Seq<u32>,
    changed: Seq<EntityId>,
    min_confidence: u32,
    max_depth: usize,
    results: Seq<ImpactedEntity>,
    nodes_of: Seq<usize>,
    level: Seq<Frontier>,
    from: int,
    d: int,
) -> bool {
    forall|ns: Seq<usize>, es: Seq<usize>|
        #[trigger] reverse_trail(g, changed, ns, es) && es.len() <= d && es.len() <= max_depth && chain_spec(
            trail_weights(g, ew, es),
        ) >= min_confidence ==> trail_done(
            g,
            ew,
            changed,
            min_confidence,
            max_depth,
            results,
            nodes_of,
            level,
            from,
            d,
            ns,
            es,
        )
}

/// Following back from a confidence covers every lower confidence too.
proof fn lemma_closed_lower(
    g: UcmGraph,
    ew: Seq<u32>,
    changed: Seq<EntityId>,
    min_confidence: u32,
    results: Seq<ImpactedEntity>,
    nodes_of: Seq<usize>,
    node: usize,
    hi: nat,
    lo: nat,
)
    requires
        lo <= hi,
        node_closed(g, ew, changed, min_confidence, results, nodes_of, node, hi),
    ensures
        node_closed(g, ew, changed, min_confidence, results, nodes_of, node, lo),
{
    assert forall|e: usize|
        #[trigger] g.links().contains_key(e) && g.links()[e].1 == node && !is_changed(g, changed, g.links()[e].0)
            && mul_conf(lo, edge_weight(g, ew, e) as nat) >= min_confidence implies reached_with(
            results,
            nodes_of,
            g.links()[e].0,
            mul_conf(lo, edge_weight(g, ew, e) as nat),
        ) by {
        let w = edge_weight(g, ew, e) as nat;
        lemma_mul_conf_monotone(lo, hi, w);
        let p = choose|p: int|
            0 <= p < nodes_of.len() && #[trigger] nodes_of[p] == g.links()[e].0 && results[p].confidence >= mul_conf(hi, w);
    }
}

/// Handling entry `i` of a level keeps every trail dealt with.
proof fn lemma_trails_step(
    g: UcmGraph,
    ew: Seq<u32>,
    changed: Seq<EntityId>,
    min_confidence: u32,
    max_depth: usize,
    ra: Seq<ImpactedEntity>,
    na: Seq<usize>,
    rb: Seq<ImpactedEntity>,
    nb: Seq<usize>,
    level: Seq<Frontier>,
    i: int,
    d: int,
)
    requires
        0 <= i < level.len(),
        level[i].depth == d,
        grows(ra, na, rb, nb),
        trails_done(g, ew, changed, min_confidence, max_depth, ra, na, level, i, d),
        d < max_depth ==> node_closed(g, ew, changed, min_confidence, rb, nb, level[i].node, level[i].conf as nat),
    ensures
        trails_done(g, ew, changed, min_confidence, max_depth, rb, nb, level, i + 1, d),
{
    assert forall|ns: Seq<usize>, es: Seq<usize>|
        #[trigger] reverse_trail(g, changed, ns, es) && es.len() <= d && es.len() <= max_depth && chain_spec(
            trail_weights(g, ew, es),
        ) >= min_confidence implies trail_done(
        g,
        ew,
        changed,
        min_confidence,
        max_depth,
        rb,
        nb,
        level,
        i + 1,
        d,
        ns,
        es,
    ) by {
        let c = chain_spec(trail_weights(g, ew, es));
        let n = ns.last();
        assert(trail_done(g, ew, changed, min_confidence, max_depth, ra, na, level, i, d, ns, es));
        lemma_reached_at_grows(ra, na, rb, nb, n, c, es.len() as int);
        if es.len() < max_depth {
            if node_closed(g, ew, changed, min_confidence, ra, na, n, c) {
                lemma_closed_grows(g, ew, changed, min_confidence, ra, na, rb, nb, n, c);
            } else {
                let j = choose|j: int| i <= j < level.len() && (#[trigger] level[j]).node == n && level[j].conf >= c;
                if j == i {
                    lemma_closed_lower(g, ew, changed, min_confidence, rb, nb, n, level[i].conf as nat, c);
                } else {
                    assert(i + 1 <= j < level.len() && level[j].node == n && level[j].conf >= c);
                }
            }
        }
    }
}

/// A trail without its last hop is a trail, with at least its confidence.
proof fn lemma_trail_prefix(g: UcmGraph, ew: Seq<u32>, changed: Seq<EntityId>, ns: Seq<usize>, es: Seq<usize>)
    requires
        g.wf(),
        all_valid(ew),
        ew.len() == g.records().len(),
        reverse_trail(g, changed, ns, es),
        es.len() >= 1,
    ensures
        reverse_trail(g, changed, ns.drop_last(), es.drop_last()),
        chain_spec(trail_weights(g, ew, es)) == mul_conf(
            chain_spec(trail_weights(g, ew, es.drop_last())),
            edge_weight(g, ew, es.last()) as nat,
        ),
        chain_spec(trail_weights(g, ew, es)) <= chain_spec(trail_weights(g, ew, es.drop_last())),
        g.links()[es.last()].0 == ns.last(),
        g.links()[es.last()].1 == ns.drop_last().last(),
        edge_weight(g, ew, es.last()) <= CONFIDENCE_ONE,
{
    let k = es.len() - 1;
    let ns2 = ns.drop_last();
    let es2 = es.drop_last();
    assert(trail_weights(g, ew, es).drop_last() =~= trail_weights(g, ew, es2));
    assert forall|i: int| 0 <= i < ns2.len() implies g.nodes().contains_key(#[trigger] ns2[i]) by {
        assert(ns2[i] == ns[i]);
    }
    assert forall|i: int| 0 <= i < es2.len() implies g.links().contains_key(#[trigger] es2[i])
        && g.links()[es2[i]].0 == ns2[i + 1] && g.links()[es2[i]].1 == ns2[i] by {
        assert(es2[i] == es[i]);
        assert(g.links().contains_key(es[i]));
    }
    assert(g.links().contains_key(es[k]));
    assert(g.links()[es[k]].2 < g.records().len());
    lemma_trail_bound(g, ew, es2);
    lemma_mul_conf_bound(chain_spec(trail_weights(g, ew, es2)), edge_weight(g, ew, es.last()) as nat);
}

/// Once a level is done, the trails one hop longer are dealt with by the
/// next level.
proof fn lemma_trails_next(
    g: UcmGraph,
    ew: Seq<u32>,
    changed: Seq<EntityId>,
    min_confidence: u32,
    max_depth: usize,
    results: Seq<ImpactedEntity>,
    nodes_of: Seq<usize>,
    level: Seq<Frontier>,
    next: Seq<Frontier>,
    d: int,
)
    requires
        g.wf(),
        all_valid(ew),
        ew.len() == g.records().len(),
        0 <= d < max_depth,
        nodes_of.len() == results.len(),
        trails_done(g, ew, changed, min_confidence, max_depth, results, nodes_of, level, level.len() as int, d),
        forall|p: int|
            0 <= p < results.len() ==> #[trigger] settled(
                g,
                ew,
                changed,
                min_confidence,
                max_depth,
                results,
                nodes_of,
                level,
                level.len() as int,
                next,
                p,
            ),
        forall|p: int| 0 <= p < results.len() ==> (#[trigger] results[p]).depth <= d + 1,
        forall|j: int| 0 <= j < next.len() ==> (#[trigger] next[j]).depth == d + 1,
        forall|m: usize|
            #[trigger] is_changed(g, changed, m) ==> exists|p: int|
                0 <= p < nodes_of.len() && nodes_of[p] == m && results[p].confidence == CONFIDENCE_ONE
                    && results[p].depth == 0,
    ensures
        trails_done(g, ew, changed, min_confidence, max_depth, results, nodes_of, next, 0, d + 1),
{
    assert forall|ns: Seq<usize>, es: Seq<usize>|
        #[trigger] reverse_trail(g, changed, ns, es) && es.len() <= d + 1 && es.len() <= max_depth && chain_spec(
            trail_weights(g, ew, es),
        ) >= min_confidence implies trail_done(
        g,
        ew,
        changed,
        min_confidence,
        max_depth,
        results,
        nodes_of,
        next,
        0,
        d + 1,
        ns,
        es,
    ) by {
        let c = chain_spec(trail_weights(g, ew, es));
        if es.len() <= d {
            assert(trail_done(g, ew, changed, min_confidence, max_depth, results, nodes_of, level, level.len() as int, d, ns, es));
        } else {
            lemma_trail_prefix(g, ew, changed, ns, es);
            let ns2 = ns.drop_last();
            let es2 = es.drop_last();
            let c2 = chain_spec(trail_weights(g, ew, es2));
            assert(reverse_trail(g, changed, ns2, es2));
            assert(trail_done(g, ew, changed, min_confidence, max_depth, results, nodes_of, level, level.len() as int, d, ns2, es2));
            assert(node_closed(g, ew, changed, min_confidence, results, nodes_of, ns2.last(), c2));
            let e = es.last();
            let src = ns.last();
            lemma_trail_bound(g, ew, es);
            // Find the entry of the source and what settles it.
            let p = if is_changed(g, changed, src) {
                choose|p: int|
                    0 <= p < nodes_of.len() && nodes_of[p] == src && results[p].confidence == CONFIDENCE_ONE
                        && results[p].depth == 0
            } else {
                assert(g.links().contains_key(e) && g.links()[e].1 == ns2.last());
                assert(reached_with(results, nodes_of, src, c));
                choose|p: int| 0 <= p < nodes_of.len() && #[trigger] nodes_of[p] == src && results[p].confidence >= c
            };
            assert(0 <= p < nodes_of.len() && nodes_of[p] == src && results[p].confidence >= c);
            assert(results[p].depth <= d + 1);
            assert(reached_at(results, nodes_of, src, c, es.len() as int));
            if es.len() < max_depth {
                assert(settled(g, ew, changed, min_confidence, max_depth, results, nodes_of, level, level.len() as int, next, p));
                let r = results[p];
                if node_closed(g, ew, changed, min_confidence, results, nodes_of, src, r.confidence as nat) {
                    lemma_closed_lower(g, ew, changed, min_confidence, results, nodes_of, src, r.confidence as nat, c);
                } else {
                    assert(!queued(level, level.len() as int, src, r.confidence, r.depth));
                    assert(queued(next, 0, src, r.confidence, r.depth));
                    let j = choose|j: int|
                        0 <= j < next.len() && (#[trigger] next[j]).node == src && next[j].conf == r.confidence
                            && next[j].depth == r.depth;
                    assert(0 <= j < next.len() && next[j].node == src && next[j].conf >= c);
                }
            }
        }
    }
}

/// A done level with nothing waiting can be traded for any other.
proof fn lemma_trails_relevel(
    g: UcmGraph,
    ew: Seq<u32>,
    changed: Seq<EntityId>,
    min_confidence: u32,
    max_depth: usize,
    results: Seq<ImpactedEntity>,
    nodes_of: Seq<usize>,
    level: Seq<Frontier>,
    other: Seq<Frontier>,
    d: int,
)
    requires
        trails_done(g, ew, changed, min_confidence, max_depth, results, nodes_of, level, level.len() as int, d),
    ensures
        trails_done(g, ew, changed, min_confidence, max_depth, results, nodes_of, other, 0, d),
{
    assert forall|ns: Seq<usize>, es: Seq<usize>|
        #[trigger] reverse_trail(g, changed, ns, es) && es.len() <= d && es.len() <= max_depth && chain_spec(
            trail_weights(g, ew, es),
        ) >= min_confidence implies trail_done(
        g,
        ew,
        changed,
        min_confidence,
        max_depth,
        results,
        nodes_of,
        other,
        0,
        d,
        ns,
        es,
    ) by {
        assert(trail_done(g, ew, changed, min_confidence, max_depth, results, nodes_of, level, level.len() as int, d, ns, es));
    }
}

/// With nothing left to expand, every trail up to the maximum depth is dealt with.
proof fn lemma_trails_extend(
    g: UcmGraph,
    ew: Seq<u32>,
    changed: Seq<EntityId>,
    min_confidence: u32,
    max_depth: usize,
    results: Seq<ImpactedEntity>,
    nodes_of: Seq<usize>,
    d: int,
)
    requires
        g.wf(),
        all_valid(ew),
        ew.len() == g.records().len(),
        0 <= d <= max_depth,
        nodes_of.len() == results.len(),
        trails_done(g, ew, changed, min_confidence, max_depth, results, nodes_of, Seq::<Frontier>::empty(), 0, d),
        forall|p: int|
            0 <= p < results.len() ==> #[trigger] settled(
                g,
                ew,
                changed,
                min_confidence,
                max_depth,
                results,
                nodes_of,
                Seq::<Frontier>::empty(),
                0,
                Seq::<Frontier>::empty(),
                p,
            ),
        forall|p: int| 0 <= p < results.len() ==> (#[trigger] results[p]).depth <= d,
        forall|m: usize|
            #[trigger] is_changed(g, changed, m) ==> exists|p: int|
                0 <= p < nodes_of.len() && nodes_of[p] == m && results[p].confidence == CONFIDENCE_ONE
                    && results[p].depth == 0,
    ensures
        trails_done(
            g,
            ew,
            changed,
            min_confidence,
            max_depth,
            results,
            nodes_of,
            Seq::<Frontier>::empty(),
            0,
            max_depth as int,
        ),
    decreases max_depth - d,
{
    if d < max_depth {
        lemma_trails_next(
            g,
            ew,
            changed,
            min_confidence,
            max_depth,
            results,
            nodes_of,
            Seq::<Frontier>::empty(),
            Seq::<Frontier>::empty(),
            d,
        );
        lemma_trails_extend(g, ew, changed, min_confidence, max_depth, results, nodes_of, d + 1);
    }
}

/// Every changed node present was visited as a seed: at full confidence, at
/// depth 0.
proof fn lemma_seed_entries(
    g: UcmGraph,
    ew: Seq<u32>,
    changed: Seq<EntityId>,
    min_confidence: u32,
    max_depth: usize,
    results: Seq<ImpactedEntity>,
    nodes_of: Seq<usize>,
    trails: Seq<(Seq<usize>, Seq<usize>)>,
    visited: Map<usize, usize>,
)
    requires
        visited_ok(g, ew, changed, min_confidence, max_depth, results, nodes_of, trails, visited),
        seeds_ok(g, changed, nodes_of, trails),
    ensures
        forall|m: usize|
            #[trigger] is_changed(g, changed, m) ==> exists|p: int|
                0 <= p < nodes_of.len() && nodes_of[p] == m && results[p].confidence == CONFIDENCE_ONE
                    && results[p].depth == 0,
{
    assert forall|m: usize| #[trigger] is_changed(g, changed, m) implies exists|p: int|
        0 <= p < nodes_of.len() && nodes_of[p] == m && results[p].confidence == CONFIDENCE_ONE && results[p].depth
            == 0 by {
        let p = choose|p: int| 0 <= p < nodes_of.len() && nodes_of[p] == m;
        assert(is_changed(g, changed, nodes_of[p]));
        assert(trails[p].1.len() == 0);
        assert(entry_ok(g, ew, changed, min_confidence, max_depth, results[p], nodes_of[p], trails[p]));
        assert(trail_weights(g, ew, trails[p].1) =~= seq![]);
    }
}

/// The chained confidence of a trail stays in `[0, 1]`.
proof fn lemma_trail_bound(g: UcmGraph, ew: Seq<u32>, es: Seq<usize>)
    requires
        g.wf(),
        all_valid(ew),
        ew.len() == g.records().len(),
        forall|i: int| 0 <= i < es.len() ==> g.links().contains_key(#[trigger] es[i]),
    ensures
        chain_spec(trail_weights(g, ew, es)) <= CONFIDENCE_ONE,
{
    let ws = trail_weights(g, ew, es);
    assert forall|i: int| 0 <= i < ws.len() implies ws[i] <= CONFIDENCE_ONE by {
        assert(g.links()[es[i]].2 < g.records().len());
    }
    lemma_chain_bound(ws);
}

/// All changed nodes present were visited first, and their entries are seeds.
spec fn seeds_ok(
    g: UcmGraph,
    changed: Seq<EntityId>,
    nodes_of: Seq<usize>,
    trails: Seq<(Seq<usize>, Seq<usize>)>,
) -> bool {
    &&& forall|n: usize| #[trigger] is_changed(g, changed, n) ==> nodes_of.contains(n)
    &&& forall|i: int|
        0 <= i < nodes_of.len() && is_changed(g, changed, #[trigger] nodes_of[i]) ==> trails[i].1.len()
            == 0
}

/// `mul_conf` with the full confidence on the left is the right factor.
proof fn lemma_mul_one(w: nat)
    ensures
        mul_conf(CONFIDENCE_ONE as nat, w) == w,
{
    assert((CONFIDENCE_ONE as nat * w) / (CONFIDENCE_ONE as nat) == w) by (nonlinear_arith);
}

/// Expands one search entry: follows every incoming edge of its node whose
/// propagated confidence reaches the minimum, visiting (or improving) the
/// edge's source and queueing it for the next level.
fn expand(
    graph: &UcmGraph,
    ew: &[u32],
    changed: &[EntityId],
    min_confidence: u32,
    max_depth: usize,
    f: &Frontier,
    results: &mut Vec<ImpactedEntity>,
    visited: &mut HashMap<usize, usize>,
    next: &mut Vec<Frontier>,
    Ghost(nodes_of): Ghost<Seq<usize>>,
    Ghost(trails): Ghost<Seq<(Seq<usize>, Seq<usize>)>>,
) -> (out: (Ghost<Seq<usize>>, Ghost<Seq<(Seq<usize>, Seq<usize>)>>))
    requires
        graph.wf(),
        ew@.len() == graph.records().len(),
        all_valid(ew@),
        f.depth < max_depth,
        trail_fits(*graph, ew@, changed@, f.node, f.conf, f.depth, views(f.path@), f.trail@.0, f.trail@.1),
        visited_ok(*graph, ew@, changed@, min_confidence, max_depth, old(results)@, nodes_of, trails, old(visited)@),
        seeds_ok(*graph, changed@, nodes_of, trails),
        level_ok(*graph, ew@, changed@, old(next)@, (f.depth + 1) as usize),
    ensures
        visited_ok(
            *graph,
            ew@,
            changed@,
            min_confidence,
            max_depth,
            final(results)@,
            out.0@,
            out.1@,
            final(visited)@,
        ),
        seeds_ok(*graph, changed@, out.0@, out.1@),
        out.0@.take(nodes_of.len() as int) == nodes_of,
        out.0@.len() >= nodes_of.len(),
        level_ok(*graph, ew@, changed@, final(next)@, (f.depth + 1) as usize),
        grows(old(results)@, nodes_of, final(results)@, out.0@),
        node_closed(*graph, ew@, changed@, min_confidence, final(results)@, out.0@, f.node, f.conf as nat),
        old(next)@.len() <= final(next)@.len(),
        forall|j: int| 0 <= j < old(next)@.len() ==> final(next)@[j] == #[trigger] old(next)@[j],
        forall|p: int|
            0 <= p < out.0@.len() ==> (p < nodes_of.len() && (#[trigger] final(results)@[p]).confidence
                == old(results)@[p].confidence && final(results)@[p].depth == old(results)@[p].depth)
                || queued(final(next)@, 0, out.0@[p], final(results)@[p].confidence, final(results)@[p].depth),
{
    broadcast use vstd::std_specs::hash::group_hash_axioms;

    let ghost g = *graph;
    let ghost mut nodes_cur = nodes_of;
    let ghost mut trails_cur = trails;
    let adj = graph_edges_directed(graph.inner(), f.node, false);
    let records = graph.edge_records();
    let ghost ns0 = f.trail@.0;
    let ghost es0 = f.trail@.1;
    let ghost results0 = results@;
    let ghost next0 = next@;
    proof {
        lemma_trail_bound(g, ew@, es0);
    }
    let mut k: usize = 0;
    while k < adj.len()
        invariant
            k <= adj.len(),
            g == *graph,
            g.wf(),
            records@ == g.records(),
            ew@.len() == g.records().len(),
            all_valid(ew@),
            f.depth < max_depth,
            f.conf <= CONFIDENCE_ONE,
            trail_fits(g, ew@, changed@, f.node, f.conf, f.depth, views(f.path@), ns0, es0),
            forall|i: int|
                0 <= i < adj@.len() ==> {
                    let t = #[trigger] adj@[i];
                    &&& g.links().contains_key(t.0)
                    &&& g.links()[t.0] == (t.1, t.2, t.3)
                    &&& t.2 == f.node
                },
            forall|e: usize|
                #[trigger] g.links().contains_key(e) && g.links()[e].1 == f.node ==> exists|i: int|
                    0 <= i < adj@.len() && adj@[i].0 == e,
            visited_ok(g, ew@, changed@, min_confidence, max_depth, results@, nodes_cur, trails_cur, visited@),
            seeds_ok(g, changed@, nodes_cur, trails_cur),
            nodes_cur.take(nodes_of.len() as int) == nodes_of,
            nodes_cur.len() >= nodes_of.len(),
            level_ok(g, ew@, changed@, next@, (f.depth + 1) as usize),
            results0 == old(results)@,
            next0 == old(next)@,
            grows(results0, nodes_of, results@, nodes_cur),
            next0.len() <= next@.len(),
            forall|j: int| 0 <= j < next0.len() ==> next@[j] == #[trigger] next0[j],
            forall|p: int|
                0 <= p < nodes_cur.len() ==> (p < nodes_of.len() && (#[trigger] results@[p]).confidence
                    == results0[p].confidence && results@[p].depth == results0[p].depth) || queued(
                    next@,
                    0,
                    nodes_cur[p],
                    results@[p].confidence,
                    results@[p].depth,
                ),
            forall|i: int|
                0 <= i < k ==> {
                    let t = #[trigger] adj@[i];
                    !is_changed(g, changed@, t.1) && mul_conf(f.conf as nat, ew@[t.3 as int] as nat)
                        >= min_confidence ==> reached_with(
                        results@,
                        nodes_cur,
                        t.1,
                        mul_conf(f.conf as nat, ew@[t.3 as int] as nat),
                    )
                },
        decreases adj.len() - k,
    {
        let (e, src, _dst, slot) = adj[k];
        let ghost nodes_at_start = nodes_cur;
        let ghost results_at_start = results@;
        assert(g.links().contains_key(e));
        assert(slot < g.records().len());
        let w = ew[slot];
        let propagated = mul_conf_exec(f.conf, w);
        if propagated >= min_confidence {
            let neighbor = match graph.entity_at(src) {
                Some(n) => n,
                None => {
                    assert(false);
                    return (Ghost(nodes_cur), Ghost(trails_cur));
                },
            };
            let ghost ns1 = ns0.push(src);
            let ghost es1 = es0.push(e);
            proof {
                assert(trail_weights(g, ew@, es1) =~= trail_weights(g, ew@, es0).push(w));
                assert(trail_weights(g, ew@, es1).drop_last() =~= trail_weights(g, ew@, es0));
                assert(reverse_trail(g, changed@, ns1, es1)) by {
                    assert forall|i: int| 0 <= i < ns1.len() implies g.nodes().contains_key(#[trigger] ns1[i]) by {}
                    assert forall|i: int| 0 <= i < es1.len() implies g.links().contains_key(#[trigger] es1[i])
                        && g.links()[es1[i]].0 == ns1[i + 1] && g.links()[es1[i]].1 == ns1[i] by {
                        if i < es0.len() {
                            assert(ns1[i + 1] == ns0[i + 1]);
                        }
                    }
                }
                assert(trail_ids(g, ns1) =~= trail_ids(g, ns0).push(neighbor.id@));
            }
            let mut new_path: Vec<String> = Vec::new();
            let mut q: usize = 0;
            while q < f.path.len()
                invariant
                    q <= f.path.len(),
                    views(new_path@) == views(f.path@).take(q as int),
                decreases f.path.len() - q,
            {
                let ghost prev = new_path@;
                let c = f.path[q].clone();
                new_path.push(c);
                assert(new_path@ =~= prev.push(c));
                assert(views(new_path@) =~= views(prev).push(c@));
                assert(views(f.path@).take(q + 1) =~= views(f.path@).take(q as int).push(f.path@[q as int]@));
                q += 1;
            }
            assert(views(f.path@).take(f.path.len() as int) =~= views(f.path@));
            let ghost before_push = new_path@;
            let nid = neighbor.id.to_text();
            new_path.push(nid);
            assert(views(new_path@) =~= views(before_push).push(neighbor.id@));
            let via: &str = if f.path.len() > 0 {
                f.path[f.path.len() - 1].as_str()
            } else {
                "?"
            };
            assert(f.path@.len() == ns0.len());
            assert(via@ == trail_ids(g, ns0)[f.depth as int]);
            let rel = relation_type_str(records[slot].relation_type);
            let tier = ConfidenceTier::from_score(propagated);
            let mut reason: Vec<char> = Vec::new();
            push_str(&mut reason, rel);
            push_str(&mut reason, " via ");
            push_str(&mut reason, via);
            push_str(&mut reason, " (");
            push_str(&mut reason, tier.emoji());
            push_str(&mut reason, ")");
            let impact = ImpactedEntity {
                entity_id: neighbor.id.duplicate(),
                name: neighbor.name.clone(),
                confidence: propagated,
                depth: f.depth + 1,
                impact_type: if f.depth == 0 {
                    ImpactType::Direct
                } else {
                    ImpactType::Indirect
                },
                path: new_path,
                reason: string_of(&reason),
            };
            proof {
                assert(trail_ids(g, ns1)[es1.len() - 1] == trail_ids(g, ns0)[f.depth as int]);
                assert(impact.reason@ == impact_reason(g, es1.last(), trail_ids(g, ns1)[es1.len() - 1], propagated));
            }
            let should_update = match visited.get(&src) {
                Some(pos) => {
                    assert(nodes_cur.contains(src));
                    propagated > results[*pos].confidence
                },
                None => true,
            };
            let ghost results_pre = results@;
            let ghost nodes_pre = nodes_cur;
            let ghost next_pre = next@;
            if should_update {
                proof {
                    if is_changed(g, changed@, src) {
                        let p = visited@[src];
                        let i = choose|i: int| 0 <= i < nodes_cur.len() && nodes_cur[i] == src;
                        assert(nodes_cur[i] == src);
                        assert(trails_cur[i].1.len() == 0);
                        assert(false);
                    }
                    assert(impact_of_trail(g, ew@, changed@, min_confidence, max_depth, impact, ns1, es1));
                }
                let next_path = crate::entity::copy_strings(&impact.path);
                match visited.get(&src) {
                    Some(pos) => {
                        let p = *pos;
                        let ghost i = choose|i: int| 0 <= i < nodes_cur.len() && nodes_cur[i] == src;
                        assert(nodes_cur[i] == src);
                        assert(p == i);
                        let ghost results_before = results@;
                        let ghost trails_before = trails_cur;
                        results.set(p, impact);
                        proof {
                            trails_cur = trails_cur.update(p as int, (ns1, es1));
                            assert forall|j: int| 0 <= j < results@.len() implies entry_ok(
                                g,
                                ew@,
                                changed@,
                                min_confidence,
                                max_depth,
                                #[trigger] results@[j],
                                nodes_cur[j],
                                trails_cur[j],
                            ) by {
                                if j != p {
                                    assert(results@[j] == results_before[j]);
                                    assert(trails_cur[j] == trails_before[j]);
                                }
                            }
                            assert forall|j: int|
                                0 <= j < nodes_cur.len() && is_changed(g, changed@, #[trigger] nodes_cur[j])
                                    implies trails_cur[j].1.len() == 0 by {
                                if j != p {
                                    assert(trails_cur[j] == trails_before[j]);
                                }
                            }
                        }
                    },
                    None => {
                        let p = results.len();
                        let ghost results_before = results@;
                        let ghost trails_before = trails_cur;
                        let ghost nodes_before = nodes_cur;
                        let ghost visited_before = visited@;
                        assert(!nodes_cur.contains(src));
                        results.push(impact);
                        visited.insert(src, p);
                        proof {
                            nodes_cur = nodes_cur.push(src);
                            trails_cur = trails_cur.push((ns1, es1));
                            assert(nodes_cur.no_duplicates()) by {
                                assert forall|a: int, b: int| 0 <= a < b < nodes_cur.len() implies nodes_cur[a]
                                    != nodes_cur[b] by {
                                    if b == nodes_before.len() {
                                        assert(nodes_before.contains(nodes_cur[a]));
                                    } else {
                                        assert(nodes_before[a] != nodes_before[b]);
                                    }
                                }
                            }
                            assert forall|n: usize| #[trigger] visited@.contains_key(n) <==> nodes_cur.contains(n) by {
                                if nodes_cur.contains(n) && n != src {
                                    let j = choose|j: int| 0 <= j < nodes_cur.len() && nodes_cur[j] == n;
                                    assert(nodes_before[j] == n);
                                }
                                if visited_before.contains_key(n) {
                                    let j = choose|j: int| 0 <= j < nodes_before.len() && nodes_before[j] == n;
                                    assert(nodes_cur[j] == n);
                                }
                                if n == src {
                                    assert(nodes_cur[nodes_before.len() as int] == src);
                                }
                            }
                            assert forall|j: int| 0 <= j < nodes_cur.len() implies visited@[#[trigger] nodes_cur[j]] == j by {
                                if j < nodes_before.len() {
                                    assert(nodes_cur[j] == nodes_before[j]);
                                    assert(nodes_before[j] != src);
                                }
                            }
                            assert forall|j: int| 0 <= j < results@.len() implies entry_ok(
                                g,
                                ew@,
                                changed@,
                                min_confidence,
                                max_depth,
                                #[trigger] results@[j],
                                nodes_cur[j],
                                trails_cur[j],
                            ) by {
                                if j < results_before.len() {
                                    assert(results@[j] == results_before[j]);
                                    assert(trails_cur[j] == trails_before[j]);
                                    assert(nodes_cur[j] == nodes_before[j]);
                                }
                            }
                            assert forall|j: int|
                                0 <= j < nodes_cur.len() && is_changed(g, changed@, #[trigger] nodes_cur[j])
                                    implies trails_cur[j].1.len() == 0 by {
                                if j < nodes_before.len() {
                                    assert(trails_cur[j] == trails_before[j]);
                                    assert(nodes_cur[j] == nodes_before[j]);
                                }
                            }
                            assert forall|n: usize| #[trigger] is_changed(g, changed@, n) implies nodes_cur.contains(n) by {
                                let j = choose|j: int| 0 <= j < nodes_before.len() && nodes_before[j] == n;
                                assert(nodes_cur[j] == n);
                            }
                            assert(nodes_cur.take(nodes_of.len() as int) =~= nodes_before.take(nodes_of.len() as int));
                        }
                    },
                }
                let ghost next_before = next@;
                next.push(Frontier {
                    node: src,
                    conf: propagated,
                    depth: f.depth + 1,
                    path: next_path,
                    trail: Ghost((ns1, es1)),
                });
                proof {
                    assert(nodes_cur.contains(src)) by {
                        if nodes_cur.len() > nodes_at_start.len() {
                            assert(nodes_cur[nodes_cur.len() - 1] == src);
                        } else {
                            let j = choose|j: int| 0 <= j < nodes_cur.len() && nodes_cur[j] == src;
                            assert(nodes_cur[j] == src);
                        }
                    }
                    assert forall|j: int| 0 <= j < next@.len() implies {
                        let fr = #[trigger] next@[j];
                        &&& fr.depth == (f.depth + 1) as usize
                        &&& trail_fits(g, ew@, changed@, fr.node, fr.conf, fr.depth, views(fr.path@), fr.trail@.0, fr.trail@.1)
                    } by {
                        if j < next_before.len() {
                            assert(next@[j] == next_before[j]);
                        }
                    }
                    let ps = visited@[src] as int;
                    assert(nodes_cur[ps] == src);
                    assert(results@[ps] == impact);
                    assert(nodes_pre.len() <= nodes_cur.len() <= nodes_pre.len() + 1);
                    assert(nodes_cur.len() == nodes_pre.len() + 1 ==> ps == nodes_pre.len());
                    assert forall|p: int| 0 <= p < nodes_pre.len() implies nodes_cur[p] == #[trigger] nodes_pre[p] by {
                        if nodes_cur.len() > nodes_pre.len() {
                            assert(nodes_cur.take(nodes_pre.len() as int) =~= nodes_pre);
                            assert(nodes_cur.take(nodes_pre.len() as int)[p] == nodes_cur[p]);
                        }
                    }
                    assert forall|p: int| 0 <= p < nodes_pre.len() implies #[trigger] results@[p].confidence
                        >= results_pre[p].confidence && (results@[p].confidence == results_pre[p].confidence
                        ==> results@[p].depth == results_pre[p].depth) by {
                        if p != ps {
                            assert(results@[p] == results_pre[p]);
                        } else {
                            assert(propagated > results_pre[p].confidence);
                        }
                    }
                    assert(grows(results_pre, nodes_pre, results@, nodes_cur));
                    assert(next@[next@.len() - 1].node == src);
                    assert forall|p: int|
                        0 <= p < nodes_cur.len() implies (p < nodes_of.len() && (#[trigger] results@[p]).confidence
                            == results0[p].confidence && results@[p].depth == results0[p].depth) || queued(
                            next@,
                            0,
                            nodes_cur[p],
                            results@[p].confidence,
                            results@[p].depth,
                        ) by {
                        if p == ps {
                            assert(queued(next@, 0, nodes_cur[p], results@[p].confidence, results@[p].depth)) by {
                                assert(next@[next@.len() - 1].node == nodes_cur[p]);
                            }
                        } else {
                            assert(p < nodes_pre.len());
                            assert(results@[p] == results_pre[p]);
                            assert(nodes_cur[p] == nodes_pre[p]);
                            if !(p < nodes_of.len() && results_pre[p].confidence == results0[p].confidence
                                && results_pre[p].depth == results0[p].depth) {
                                let j = choose|j: int|
                                    0 <= j < next_pre.len() && (#[trigger] next_pre[j]).node == nodes_pre[p]
                                        && next_pre[j].conf == results_pre[p].confidence && next_pre[j].depth
                                        == results_pre[p].depth;
                                assert(next@[j] == next_pre[j]);
                            }
                        }
                    }
                    assert(results@[ps].confidence >= propagated);
                }
            } else {
                proof {
                    assert(visited@.contains_key(src));
                    assert(results@[visited@[src] as int].confidence >= propagated);
                    assert(grows(results_pre, nodes_pre, results@, nodes_cur));
                }
            }
            proof {
                let ps = visited@[src] as int;
                assert(0 <= ps < nodes_cur.len() && nodes_cur[ps] == src);
                assert(reached_with(results@, nodes_cur, src, propagated as nat));
            }
        }
        proof {
            assert(grows(results_at_start, nodes_at_start, results@, nodes_cur));
            assert forall|i: int|
                0 <= i < k + 1 implies {
                    let t = #[trigger] adj@[i];
                    !is_changed(g, changed@, t.1) && mul_conf(f.conf as nat, ew@[t.3 as int] as nat)
                        >= min_confidence ==> reached_with(
                        results@,
                        nodes_cur,
                        t.1,
                        mul_conf(f.conf as nat, ew@[t.3 as int] as nat),
                    )
                } by {
                let t = adj@[i];
                if i < k && !is_changed(g, changed@, t.1) && mul_conf(f.conf as nat, ew@[t.3 as int] as nat)
                    >= min_confidence {
                    lemma_reached_grows(
                        results_at_start,
                        nodes_at_start,
                        results@,
                        nodes_cur,
                        t.1,
                        mul_conf(f.conf as nat, ew@[t.3 as int] as nat),
                    );
                }
            }
        }
        k += 1;
    }
    proof {
        assert forall|e: usize|
            #[trigger] g.links().contains_key(e) && g.links()[e].1 == f.node && !is_changed(
                g,
                changed@,
                g.links()[e].0,
            ) && mul_conf(f.conf as nat, edge_weight(g, ew@, e) as nat) >= min_confidence
                implies reached_with(
                results@,
                nodes_cur,
                g.links()[e].0,
                mul_conf(f.conf as nat, edge_weight(g, ew@, e) as nat),
            ) by {
            let i = choose|i: int| 0 <= i < adj@.len() && adj@[i].0 == e;
            let t = adj@[i];
            assert(t.0 == e);
            assert(g.links()[e] == (t.1, t.2, t.3));
            assert(edge_weight(g, ew@, e) == ew@[t.3 as int]);
            assert(i < k);
        }
    }
    (Ghost(nodes_cur), Ghost(trails_cur))
}

/// A copy of the identifier text as a one-element path.
fn path_of(id: &EntityId) -> (r: Vec<String>)
    ensures
        views(r@) == seq![id@],
{
    let mut v: Vec<String> = Vec::new();
    v.push(id.to_text());
    assert(views(v@) =~= seq![id@]);
    v
}

/// Reverse breadth-first search from the changed entities, returning every
/// transitively affected entity (the changed ones left out), each once, in
/// the order first reached.
///
/// `edge_confidences` holds the confidence to use for each stored edge (in
/// the order of `UcmGraph::edge_records`, typically decayed to the present).
/// Following an edge multiplies the confidence reached so far by the edge's
/// (in millionths, rounded down); an edge that would bring it below
/// `min_confidence` is not followed; entries at `max_depth` are not expanded;
/// an entity is visited again only with a strictly higher confidence.
///
/// Each reported impact is backed by a reverse trail from a changed entity,
/// and nothing is left unfollowed: from every changed entity and every
/// impact short of `max_depth`, each edge that keeps the minimum confidence
/// leads to a reported impact at least that confident (`bfs_closed`); and
/// every unchanged entity at the end of a reverse trail of 1 to `max_depth`
/// hops whose chained confidence keeps the minimum is reported with at least
/// that confidence (`bfs_complete`), so a reported confidence is the best
/// over such trails, and its depth the least among the trails that reach it
/// with that confidence (`bfs_shallowest`).
pub fn impact_bfs(
    graph: &UcmGraph,
    changed: &[EntityId],
    min_confidence: u32,
    max_depth: usize,
    edge_confidences: &[u32],
) -> (r: Vec<ImpactedEntity>)
    requires
        graph.wf(),
        edge_confidences@.len() == graph.records().len(),
        all_valid(edge_confidences@),
    ensures
        bfs_result_ok(*graph, edge_confidences@, changed@, min_confidence, max_depth, r@),
{
    broadcast use vstd::std_specs::hash::group_hash_axioms;

    let ghost g = *graph;
    let ghost ew = edge_confidences@;
    let mut results: Vec<ImpactedEntity> = Vec::new();
    let mut visited: HashMap<usize, usize> = HashMap::new();
    let mut level: Vec<Frontier> = Vec::new();
    let ghost mut nodes_of: Seq<usize> = seq![];
    let ghost mut trails: Seq<(Seq<usize>, Seq<usize>)> = seq![];

    // Seed with the changed entities.
    let mut i: usize = 0;
    while i < changed.len()
        invariant
            i <= changed.len(),
            g == *graph,
            g.wf(),
            ew == edge_confidences@,
            visited_ok(g, ew, changed@, min_confidence, max_depth, results@, nodes_of, trails, visited@),
            forall|j: int| 0 <= j < nodes_of.len() ==> is_changed(g, changed@, #[trigger] nodes_of[j]),
            forall|j: int| 0 <= j < trails.len() ==> (#[trigger] trails[j]).1.len() == 0,
            forall|j: int|
                0 <= j < i && g.index().contains_key(#[trigger] changed@[j]@) ==> nodes_of.contains(
                    g.index()[changed@[j]@],
                ) && exists|m: int| 0 <= m < level@.len() && level@[m].node == g.index()[changed@[j]@],
            level_ok(g, ew, changed@, level@, 0),
            forall|k: int|
                0 <= k < results@.len() ==> queued(
                    level@,
                    0,
                    nodes_of[k],
                    (#[trigger] results@[k]).confidence,
                    results@[k].depth,
                ),
        decreases changed.len() - i,
    {
        let id = &changed[i];
        match graph.entity_node_index(id) {
            Some(n) => {
                let entity = match graph.entity_at(n) {
                    Some(e) => e,
                    None => {
                        assert(false);
                        return Vec::new();
                    },
                };
                let ghost ns: Seq<usize> = seq![n];
                let ghost es: Seq<usize> = seq![];
                proof {
                    assert(is_changed(g, changed@, n)) by {
                        assert(g.index().contains_key(changed@[i as int]@));
                    }
                    assert(trail_weights(g, ew, es) =~= seq![]);
                    assert(trail_ids(g, ns) =~= seq![id@]);
                    assert(reverse_trail(g, changed@, ns, es));
                }
                let seed = ImpactedEntity {
                    entity_id: id.duplicate(),
                    name: entity.name.clone(),
                    confidence: CONFIDENCE_ONE,
                    depth: 0,
                    impact_type: ImpactType::Direct,
                    path: path_of(id),
                    reason: "Directly changed".to_string(),
                };
                let ghost results_before = results@;
                let ghost nodes_before = nodes_of;
                let ghost trails_before = trails;
                let ghost visited_before = visited@;
                let ghost mut seed_pos: int = 0;
                match visited.get(&n) {
                    Some(pos) => {
                        let p = *pos;
                        let ghost j = choose|j: int| 0 <= j < nodes_of.len() && nodes_of[j] == n;
                        assert(nodes_of[j] == n);
                        results.set(p, seed);
                        proof {
                            seed_pos = p as int;
                            trails = trails.update(p as int, (ns, es));
                            assert forall|k: int| 0 <= k < results@.len() implies entry_ok(
                                g,
                                ew,
                                changed@,
                                min_confidence,
                                max_depth,
                                #[trigger] results@[k],
                                nodes_of[k],
                                trails[k],
                            ) by {
                                if k != p {
                                    assert(results@[k] == results_before[k]);
                                }
                            }
                        }
                    },
                    None => {
                        let p = results.len();
                        results.push(seed);
                        visited.insert(n, p);
                        proof {
                            seed_pos = p as int;
                            nodes_of = nodes_of.push(n);
                            trails = trails.push((ns, es));
                            assert(nodes_of.no_duplicates()) by {
                                assert forall|a: int, b: int| 0 <= a < b < nodes_of.len() implies nodes_of[a]
                                    != nodes_of[b] by {
                                    if b == nodes_before.len() {
                                        assert(nodes_before.contains(nodes_of[a]));
                                    } else {
                                        assert(nodes_before[a] != nodes_before[b]);
                                    }
                                }
                            }
                            assert forall|m: usize| #[trigger] visited@.contains_key(m) <==> nodes_of.contains(m) by {
                                if nodes_of.contains(m) && m != n {
                                    let j = choose|j: int| 0 <= j < nodes_of.len() && nodes_of[j] == m;
                                    assert(nodes_before[j] == m);
                                }
                                if visited_before.contains_key(m) {
                                    let j = choose|j: int| 0 <= j < nodes_before.len() && nodes_before[j] == m;
                                    assert(nodes_of[j] == m);
                                }
                                if m == n {
                                    assert(nodes_of[nodes_before.len() as int] == n);
                                }
                            }
                            assert forall|j: int| 0 <= j < nodes_of.len() implies visited@[#[trigger] nodes_of[j]] == j by {
                                if j < nodes_before.len() {
                                    assert(nodes_before[j] != n);
                                }
                            }
                            assert forall|k: int| 0 <= k < results@.len() implies entry_ok(
                                g,
                                ew,
                                changed@,
                                min_confidence,
                                max_depth,
                                #[trigger] results@[k],
                                nodes_of[k],
                                trails[k],
                            ) by {
                                if k < results_before.len() {
                                    assert(results@[k] == results_before[k]);
                                    assert(nodes_of[k] == nodes_before[k]);
                                    assert(trails[k] == trails_before[k]);
                                }
                            }
                            assert forall|j: int| 0 <= j < nodes_of.len() implies is_changed(g, changed@, #[trigger] nodes_of[j]) by {
                                if j < nodes_before.len() {
                                    assert(nodes_of[j] == nodes_before[j]);
                                }
                            }
                            assert forall|j: int| 0 <= j < trails.len() implies (#[trigger] trails[j]).1.len() == 0 by {
                                if j < trails_before.len() {
                                    assert(trails[j] == trails_before[j]);
                                }
                            }
                        }
                    },
                }
                let ghost level_before = level@;
                level.push(Frontier { node: n, conf: CONFIDENCE_ONE, depth: 0, path: path_of(id), trail: Ghost((ns, es)) });
                proof {
                    assert(results@[seed_pos].confidence == CONFIDENCE_ONE && results@[seed_pos].depth == 0);
                    assert(nodes_of[seed_pos] == n);
                    assert forall|k: int|
                        0 <= k < results@.len() implies queued(
                            level@,
                            0,
                            nodes_of[k],
                            (#[trigger] results@[k]).confidence,
                            results@[k].depth,
                        ) by {
                        if k == seed_pos {
                            assert(level@[level@.len() - 1].node == n);
                        } else {
                            assert(k < results_before.len());
                            assert(results@[k] == results_before[k]);
                            assert(nodes_of[k] == nodes_before[k]);
                            let j = choose|j: int|
                                0 <= j < level_before.len() && (#[trigger] level_before[j]).node == nodes_before[k]
                                    && level_before[j].conf == results_before[k].confidence && level_before[j].depth
                                    == results_before[k].depth;
                            assert(level@[j] == level_before[j]);
                        }
                    }
                    assert forall|j: int| 0 <= j < level@.len() implies {
                        let f = #[trigger] level@[j];
                        &&& f.depth == 0
                        &&& trail_fits(g, ew, changed@, f.node, f.conf, f.depth, views(f.path@), f.trail@.0, f.trail@.1)
                    } by {
                        if j < level_before.len() {
                            assert(level@[j] == level_before[j]);
                        }
                    }
                    assert(visited@.contains_key(n));
                    assert(nodes_of.contains(n));
                    assert forall|j: int|
                        0 <= j < i + 1 && g.index().contains_key(#[trigger] changed@[j]@) implies nodes_of.contains(
                            g.index()[changed@[j]@],
                        ) && exists|m: int| 0 <= m < level@.len() && level@[m].node == g.index()[changed@[j]@] by {
                        if j < i {
                            let m = choose|m: int| 0 <= m < level_before.len() && level_before[m].node == g.index()[changed@[j]@];
                            assert(level@[m] == level_before[m]);
                            let q = choose|q: int| 0 <= q < nodes_before.len() && nodes_before[q] == g.index()[changed@[j]@];
                            assert(nodes_of.take(nodes_before.len() as int) =~= nodes_before) by {
                                if nodes_of.len() > nodes_before.len() {
                                } else {
                                }
                            }
                            assert(nodes_of[q] == nodes_before[q]);
                        } else {
                            assert(level@[level@.len() - 1].node == n);
                        }
                    }
                }
            },
            None => {},
        }
        i += 1;
    }
    proof {
        assert forall|m: usize| #[trigger] is_changed(g, changed@, m) implies nodes_of.contains(m) by {
            let j = choose|j: int|
                0 <= j < changed@.len() && g.index().contains_key(#[trigger] changed@[j]@) && g.index()[changed@[j]@] == m;
        }
    }

    // Expand level by level (the order a FIFO queue would take).
    let mut d: usize = 0;
    while level.len() > 0
        invariant
            g == *graph,
            g.wf(),
            ew == edge_confidences@,
            ew.len() == g.records().len(),
            all_valid(ew),
            visited_ok(g, ew, changed@, min_confidence, max_depth, results@, nodes_of, trails, visited@),
            seeds_ok(g, changed@, nodes_of, trails),
            level_ok(g, ew, changed@, level@, d),
            level@.len() > 0 ==> d <= max_depth,
            d <= max_depth,
            forall|k: int|
                0 <= k < results@.len() ==> #[trigger] settled(
                    g,
                    ew,
                    changed@,
                    min_confidence,
                    max_depth,
                    results@,
                    nodes_of,
                    level@,
                    0,
                    Seq::<Frontier>::empty(),
                    k,
                ),
            trails_done(g, ew, changed@, min_confidence, max_depth, results@, nodes_of, level@, 0, d as int),
            forall|p: int| 0 <= p < results@.len() ==> (#[trigger] results@[p]).depth <= d,
        decreases max_depth - d, level@.len(),
    {
        let mut next: Vec<Frontier> = Vec::new();
        let mut i: usize = 0;
        while i < level.len()
            invariant
                i <= level.len(),
                g == *graph,
                g.wf(),
                ew == edge_confidences@,
                ew.len() == g.records().len(),
                all_valid(ew),
                d <= max_depth,
                visited_ok(g, ew, changed@, min_confidence, max_depth, results@, nodes_of, trails, visited@),
                seeds_ok(g, changed@, nodes_of, trails),
                level_ok(g, ew, changed@, level@, d),
                level_ok(g, ew, changed@, next@, (d + 1) as usize),
                next@.len() > 0 ==> d < max_depth,
                forall|k: int|
                    0 <= k < results@.len() ==> #[trigger] settled(
                        g,
                        ew,
                        changed@,
                        min_confidence,
                        max_depth,
                        results@,
                        nodes_of,
                        level@,
                        i as int,
                        next@,
                        k,
                    ),
                trails_done(g, ew, changed@, min_confidence, max_depth, results@, nodes_of, level@, i as int, d as int),
                forall|p: int|
                    0 <= p < results@.len() ==> (#[trigger] results@[p]).depth <= d + 1 && (results@[p].depth == d + 1
                        ==> d < max_depth),
            decreases level.len() - i,
        {
            let f = &level[i];
            let ghost results_pre = results@;
            let ghost nodes_pre = nodes_of;
            let ghost next_pre = next@;
            if f.depth < max_depth {
                let (a, b) = expand(
                    graph,
                    edge_confidences,
                    changed,
                    min_confidence,
                    max_depth,
                    f,
                    &mut results,
                    &mut visited,
                    &mut next,
                    Ghost(nodes_of),
                    Ghost(trails),
                );
                proof {
                    nodes_of = a@;
                    trails = b@;
                }
            }
            proof {
                assert(grows(results_pre, nodes_pre, results@, nodes_of));
                lemma_trails_step(
                    g,
                    ew,
                    changed@,
                    min_confidence,
                    max_depth,
                    results_pre,
                    nodes_pre,
                    results@,
                    nodes_of,
                    level@,
                    i as int,
                    d as int,
                );
                assert forall|p: int| 0 <= p < results@.len() implies (#[trigger] results@[p]).depth <= d + 1 && (
                results@[p].depth == d + 1 ==> d < max_depth) by {
                    if !(p < nodes_pre.len() && results@[p].confidence == results_pre[p].confidence
                        && results@[p].depth == results_pre[p].depth) {
                        let j = choose|j: int|
                            0 <= j < next@.len() && (#[trigger] next@[j]).node == nodes_of[p] && next@[j].conf
                                == results@[p].confidence && next@[j].depth == results@[p].depth;
                        assert(next@[j].depth == d + 1);
                    }
                }
                assert forall|k: int| 0 <= k < results@.len() implies #[trigger] settled(
                    g,
                    ew,
                    changed@,
                    min_confidence,
                    max_depth,
                    results@,
                    nodes_of,
                    level@,
                    i + 1,
                    next@,
                    k,
                ) by {
                    lemma_settled_step(
                        g,
                        ew,
                        changed@,
                        min_confidence,
                        max_depth,
                        results_pre,
                        nodes_pre,
                        next_pre,
                        results@,
                        nodes_of,
                        next@,
                        level@,
                        i as int,
                        k,
                    );
                }
            }
            i += 1;
        }
        let ghost level_done = level@;
        let ghost next_seq = next@;
        proof {
            lemma_seed_entries(g, ew, changed@, min_confidence, max_depth, results@, nodes_of, trails, visited@);
            if d < max_depth {
                lemma_trails_next(
                    g,
                    ew,
                    changed@,
                    min_confidence,
                    max_depth,
                    results@,
                    nodes_of,
                    level_done,
                    next_seq,
                    d as int,
                );
            } else {
                lemma_trails_relevel(g, ew, changed@, min_confidence, max_depth, results@, nodes_of, level_done, next_seq, d as int);
            }
        }
        level = next;
        proof {
            assert forall|k: int| 0 <= k < results@.len() implies #[trigger] settled(
                g,
                ew,
                changed@,
                min_confidence,
                max_depth,
                results@,
                nodes_of,
                level@,
                0,
                Seq::<Frontier>::empty(),
                k,
            ) by {
                assert(settled(
                    g,
                    ew,
                    changed@,
                    min_confidence,
                    max_depth,
                    results@,
                    nodes_of,
                    level_done,
                    level_done.len() as int,
                    next_seq,
                    k,
                ));
            }
        }
        if d < max_depth {
            d = d + 1;
        }
    }

    // Report everything visited except the changed entities themselves.
    let mut changed_nodes: Vec<usize> = Vec::new();
    let mut c: usize = 0;
    while c < changed.len()
        invariant
            c <= changed.len(),
            g == *graph,
            g.wf(),
            forall|j: int| 0 <= j < changed_nodes@.len() ==> is_changed(g, changed@, #[trigger] changed_nodes@[j]),
            forall|j: int|
                0 <= j < c && g.index().contains_key(#[trigger] changed@[j]@) ==> changed_nodes@.contains(
                    g.index()[changed@[j]@],
                ),
        decreases changed.len() - c,
    {
        match graph.entity_node_index(&changed[c]) {
            Some(n) => {
                let ghost before = changed_nodes@;
                changed_nodes.push(n);
                proof {
                    assert(is_changed(g, changed@, n)) by {
                        assert(g.index().contains_key(changed@[c as int]@));
                    }
                    assert forall|j: int|
                        0 <= j < c + 1 && g.index().contains_key(#[trigger] changed@[j]@) implies changed_nodes@.contains(
                            g.index()[changed@[j]@],
                        ) by {
                        if j < c {
                            let q = choose|q: int| 0 <= q < before.len() && before[q] == g.index()[changed@[j]@];
                            assert(changed_nodes@[q] == before[q]);
                        } else {
                            assert(changed_nodes@[before.len() as int] == n);
                        }
                    }
                }
            },
            None => {},
        }
        c += 1;
    }
    proof {
        assert(level@ =~= Seq::<Frontier>::empty());
        lemma_seed_entries(g, ew, changed@, min_confidence, max_depth, results@, nodes_of, trails, visited@);
        lemma_trails_extend(g, ew, changed@, min_confidence, max_depth, results@, nodes_of, d as int);
        assert forall|q: int| 0 <= q < results@.len() implies (#[trigger] results@[q]).depth >= max_depth
            || node_closed(g, ew, changed@, min_confidence, results@, nodes_of, nodes_of[q], results@[q].confidence as nat) by {
            assert(settled(
                g,
                ew,
                changed@,
                min_confidence,
                max_depth,
                results@,
                nodes_of,
                level@,
                0,
                Seq::<Frontier>::empty(),
                q,
            ));
        }
    }
    let ghost all = results@;
    assert(results.len() == all.len());
    let ghost all_nodes = nodes_of;
    let ghost all_trails = trails;
    let mut out: Vec<ImpactedEntity> = Vec::new();
    let ghost mut out_nodes: Seq<usize> = seq![];
    let mut k: usize = 0;
    while results.len() > 0
        invariant
            g == *graph,
            g.wf(),
            ew == edge_confidences@,
            k + results@.len() == all.len(),
            all.len() <= usize::MAX,
            results@ == all.subrange(k as int, all.len() as int),
            visited_ok(g, ew, changed@, min_confidence, max_depth, all, all_nodes, all_trails, visited@),
            seeds_ok(g, changed@, all_nodes, all_trails),
            forall|j: int| 0 <= j < changed_nodes@.len() ==> is_changed(g, changed@, #[trigger] changed_nodes@[j]),
            forall|m: usize| #[trigger] is_changed(g, changed@, m) ==> changed_nodes@.contains(m),
            out_nodes.len() == out@.len(),
            forall|j: int|
                0 <= j < out@.len() ==> impact_of_trail(
                    g,
                    ew,
                    changed@,
                    min_confidence,
                    max_depth,
                    #[trigger] out@[j],
                    all_trails[out_nodes[j] as int].0,
                    all_trails[out_nodes[j] as int].1,
                ),
            forall|j: int| 0 <= j < out@.len() ==> 0 <= #[trigger] out_nodes[j] < k,
            forall|a: int, b: int| 0 <= a < b < out@.len() ==> #[trigger] out_nodes[a] < #[trigger] out_nodes[b],
            forall|q: int|
                0 <= q < k && !is_changed(g, changed@, #[trigger] all_nodes[q]) ==> out_nodes.contains(q as usize),
            forall|j: int| 0 <= j < out@.len() ==> (#[trigger] out@[j]) == all[out_nodes[j] as int],
            forall|q: int|
                0 <= q < all.len() ==> (#[trigger] all[q]).depth >= max_depth || node_closed(
                    g,
                    ew,
                    changed@,
                    min_confidence,
                    all,
                    all_nodes,
                    all_nodes[q],
                    all[q].confidence as nat,
                ),
            trails_done(
                g,
                ew,
                changed@,
                min_confidence,
                max_depth,
                all,
                all_nodes,
                Seq::<Frontier>::empty(),
                0,
                max_depth as int,
            ),
        decreases results@.len(),
    {
        let r = results.remove(0);
        assert(r == all[k as int]);
        let n = match graph.entity_node_index(&r.entity_id) {
            Some(n) => n,
            None => {
                assert(false);
                return Vec::new();
            },
        };
        assert(n == all_nodes[k as int]);
        let mut is_seed = false;
        let mut q: usize = 0;
        while q < changed_nodes.len()
            invariant
                q <= changed_nodes.len(),
                is_seed == exists|j: int| 0 <= j < q && changed_nodes@[j] == n,
            decreases changed_nodes.len() - q,
        {
            if changed_nodes[q] == n {
                is_seed = true;
            }
            q += 1;
        }
        assert(is_seed == changed_nodes@.contains(n));
        assert(is_seed == is_changed(g, changed@, n)) by {
            if changed_nodes@.contains(n) {
                let j = choose|j: int| 0 <= j < changed_nodes@.len() && changed_nodes@[j] == n;
                assert(is_changed(g, changed@, changed_nodes@[j]));
            }
        }
        let ghost out_before = out_nodes;
        if !is_seed {
            proof {
                out_nodes = out_nodes.push(k as usize);
                assert(out_nodes[out_nodes.len() - 1] == k as usize);
                let t = all_trails[k as int];
                assert(entry_ok(g, ew, changed@, min_confidence, max_depth, all[k as int], all_nodes[k as int], t));
                if t.1.len() == 0 {
                    assert(t.0.len() == 1);
                    assert(t.0[0] == n);
                }
            }
            out.push(r);
        }
        proof {
            assert forall|x: usize| out_before.contains(x) implies #[trigger] out_nodes.contains(x) by {
                let j = choose|j: int| 0 <= j < out_before.len() && out_before[j] == x;
                assert(out_nodes[j] == x);
            }
        }
        assert(results@ =~= all.subrange(k + 1, all.len() as int));
        k += 1;
    }
    proof {
        assert forall|j: int| 0 <= j < out@.len() implies justified(
            g,
            ew,
            changed@,
            min_confidence,
            max_depth,
            #[trigger] out@[j],
        ) by {
            let t = all_trails[out_nodes[j] as int];
            assert(impact_of_trail(g, ew, changed@, min_confidence, max_depth, out@[j], t.0, t.1));
        }
        assert forall|a: int, b: int| 0 <= a < b < out@.len() implies #[trigger] out@[a].entity_id@
            != #[trigger] out@[b].entity_id@ by {
            let pa = out_nodes[a] as int;
            let pb = out_nodes[b] as int;
            assert(out_nodes[a] < out_nodes[b]);
            assert(all_nodes[pa] != all_nodes[pb]);
            assert(entry_ok(g, ew, changed@, min_confidence, max_depth, all[pa], all_nodes[pa], all_trails[pa]));
            assert(entry_ok(g, ew, changed@, min_confidence, max_depth, all[pb], all_nodes[pb], all_trails[pb]));
            let na = all_nodes[pa];
            let nb = all_nodes[pb];
            assert(g.nodes().contains_key(na)) by {
                assert(all_trails[pa].0.last() == na);
                assert(g.nodes().contains_key(all_trails[pa].0[all_trails[pa].0.len() - 1]));
            }
            assert(g.nodes().contains_key(nb)) by {
                assert(all_trails[pb].0.last() == nb);
                assert(g.nodes().contains_key(all_trails[pb].0[all_trails[pb].0.len() - 1]));
            }
            assert(g.index()[g.nodes()[na].id@] == na);
            assert(g.index()[g.nodes()[nb].id@] == nb);
        }
        assert forall|j: int| 0 <= j < out@.len() implies (#[trigger] out@[j]).confidence <= CONFIDENCE_ONE by {
            let t = all_trails[out_nodes[j] as int];
            lemma_trail_bound(g, ew, t.1);
        }
        assert forall|ns: Seq<usize>, es: Seq<usize>|
            #[trigger] reverse_trail(g, changed@, ns, es) && 1 <= es.len() <= max_depth && !is_changed(
                g,
                changed@,
                ns.last(),
            ) && chain_spec(trail_weights(g, ew, es)) >= min_confidence implies reported_with(
            g,
            out@,
            ns.last(),
            chain_spec(trail_weights(g, ew, es)),
        ) by {
            assert(trail_done(
                g,
                ew,
                changed@,
                min_confidence,
                max_depth,
                all,
                all_nodes,
                Seq::<Frontier>::empty(),
                0,
                max_depth as int,
                ns,
                es,
            ));
            let c = chain_spec(trail_weights(g, ew, es));
            let p = choose|p: int|
                0 <= p < all_nodes.len() && #[trigger] all_nodes[p] == ns.last() && all[p].confidence >= c && (
                all[p].confidence == c ==> all[p].depth <= es.len() as int);
            assert(reached_with(all, all_nodes, ns.last(), c));
            lemma_reported(
                g,
                ew,
                changed@,
                min_confidence,
                max_depth,
                all,
                all_nodes,
                all_trails,
                out@,
                out_nodes,
                k,
                ns.last(),
                c,
            );
        }
        assert forall|i: int, ns: Seq<usize>, es: Seq<usize>|
            0 <= i < out@.len() && #[trigger] reverse_trail(g, changed@, ns, es) && 1 <= es.len() <= max_depth
                && g.nodes()[ns.last()].id@ == (#[trigger] out@[i]).entity_id@ && chain_spec(trail_weights(g, ew, es))
                == out@[i].confidence implies out@[i].depth <= es.len() by {
            let q = out_nodes[i] as int;
            assert(out@[i] == all[q]);
            assert(entry_ok(g, ew, changed@, min_confidence, max_depth, all[q], all_nodes[q], all_trails[q]));
            let nq = all_nodes[q];
            assert(g.nodes().contains_key(nq)) by {
                assert(all_trails[q].0.last() == nq);
                assert(g.nodes().contains_key(all_trails[q].0[all_trails[q].0.len() - 1]));
            }
            let v = ns.last();
            assert(g.nodes().contains_key(v)) by {
                assert(g.nodes().contains_key(ns[ns.len() - 1]));
            }
            assert(g.index()[g.nodes()[v].id@] == v);
            assert(g.index()[g.nodes()[nq].id@] == nq);
            assert(v == nq);
            assert(trail_done(
                g,
                ew,
                changed@,
                min_confidence,
                max_depth,
                all,
                all_nodes,
                Seq::<Frontier>::empty(),
                0,
                max_depth as int,
                ns,
                es,
            ));
            let p = choose|p: int|
                0 <= p < all_nodes.len() && #[trigger] all_nodes[p] == v && all[p].confidence >= out@[i].confidence as nat
                    && (all[p].confidence == out@[i].confidence as nat ==> all[p].depth <= es.len() as int);
            assert(p == q);
        }
        assert forall|i: int, e: usize|
            0 <= i < out@.len() && (#[trigger] out@[i]).depth < max_depth && #[trigger] g.links().contains_key(e)
                && g.nodes()[g.links()[e].1].id@ == out@[i].entity_id@ && !is_changed(g, changed@, g.links()[e].0)
                && mul_conf(out@[i].confidence as nat, edge_weight(g, ew, e) as nat) >= min_confidence
                implies reported_with(
            g,
            out@,
            g.links()[e].0,
            mul_conf(out@[i].confidence as nat, edge_weight(g, ew, e) as nat),
        ) by {
            let q = out_nodes[i] as int;
            assert(out@[i] == all[q]);
            assert(entry_ok(g, ew, changed@, min_confidence, max_depth, all[q], all_nodes[q], all_trails[q]));
            let nq = all_nodes[q];
            assert(g.nodes().contains_key(nq)) by {
                assert(all_trails[q].0.last() == nq);
                assert(g.nodes().contains_key(all_trails[q].0[all_trails[q].0.len() - 1]));
            }
            let m = g.links()[e].1;
            assert(g.index()[g.nodes()[m].id@] == m);
            assert(g.index()[g.nodes()[nq].id@] == nq);
            assert(node_closed(g, ew, changed@, min_confidence, all, all_nodes, nq, all[q].confidence as nat));
            lemma_reported(g, ew, changed@, min_confidence, max_depth, all, all_nodes, all_trails, out@, out_nodes, k, g.links()[e].0, mul_conf(out@[i].confidence as nat, edge_weight(g, ew, e) as nat));
        }
        if max_depth >= 1 {
            assert forall|e: usize|
                #[trigger] g.links().contains_key(e) && is_changed(g, changed@, g.links()[e].1) && !is_changed(
                    g,
                    changed@,
                    g.links()[e].0,
                ) && edge_weight(g, ew, e) >= min_confidence implies reported_with(
                g,
                out@,
                g.links()[e].0,
                edge_weight(g, ew, e) as nat,
            ) by {
                let m = g.links()[e].1;
                let q = choose|q: int| 0 <= q < all_nodes.len() && all_nodes[q] == m;
                assert(all_trails[q].1.len() == 0);
                assert(entry_ok(g, ew, changed@, min_confidence, max_depth, all[q], all_nodes[q], all_trails[q]));
                assert(trail_weights(g, ew, all_trails[q].1) =~= seq![]);
                assert(all[q].confidence == CONFIDENCE_ONE);
                assert(all[q].depth == 0);
                assert(node_closed(g, ew, changed@, min_confidence, all, all_nodes, m, all[q].confidence as nat));
                lemma_mul_one(edge_weight(g, ew, e) as nat);
                lemma_reported(g, ew, changed@, min_confidence, max_depth, all, all_nodes, all_trails, out@, out_nodes, k, g.links()[e].0, edge_weight(g, ew, e) as nat);
            }
        }
    }
    out
}

// ─── Reachability ──────────────────────────────────────────────────

/// Some live edge goes from `a` to `b`.
pub open spec fn edge_between(g: UcmGraph, a: usize, b: usize) -> bool {
    exists|e: usize| #[trigger] g.links().contains_key(e) && g.links()[e].0 == a && g.links()[e].1 == b
}

/// Step `i` of a node sequence follows an edge.
pub open spec fn step_ok(g: UcmGraph, ns: Seq<usize>, i: int) -> bool {
    edge_between(g, ns[i], ns[i + 1])
}

/// A forward path: live nodes, each linked to the next by an edge.
pub open spec fn forward_path(g: UcmGraph, ns: Seq<usize>) -> bool {
    &&& ns.len() >= 1
    &&& forall|i: int| 0 <= i < ns.len() ==> g.nodes().contains_key(#[trigger] ns[i])
    &&& forall|i: int| 0 <= i < ns.len() - 1 ==> #[trigger] step_ok(g, ns, i)
}

/// Node `b` is reachable from node `a` along outgoing edges (or is `a`).
pub open spec fn reaches(g: UcmGraph, a: usize, b: usize) -> bool {
    exists|ns: Seq<usize>| #[trigger] forward_path(g, ns) && ns[0] == a && ns.last() == b
}

/// The entity `from` reaches one of the entities `targets` along outgoing edges.
pub open spec fn path_to_any(g: UcmGraph, from: Seq<char>, targets: Seq<EntityId>) -> bool {
    g.index().contains_key(from) && exists|n: usize|
        #[trigger] is_changed(g, targets, n) && reaches(g, g.index()[from], n)
}

/// A path extended by one edge is a path.
proof fn lemma_path_push(g: UcmGraph, ns: Seq<usize>, e: usize)
    requires
        forward_path(g, ns),
        g.links().contains_key(e),
        g.links()[e].0 == ns.last(),
        g.nodes().contains_key(g.links()[e].1),
    ensures
        forward_path(g, ns.push(g.links()[e].1)),
{
    let ms = ns.push(g.links()[e].1);
    assert forall|i: int| 0 <= i < ms.len() - 1 implies #[trigger] step_ok(g, ms, i) by {
        if i < ns.len() - 1 {
            assert(step_ok(g, ns, i));
            let x = choose|x: usize|
                #[trigger] g.links().contains_key(x) && g.links()[x].0 == ns[i] && g.links()[x].1 == ns[i + 1];
            assert(g.links().contains_key(x) && g.links()[x].0 == ms[i] && g.links()[x].1 == ms[i + 1]);
        } else {
            assert(g.links().contains_key(e) && g.links()[e].0 == ms[i] && g.links()[e].1 == ms[i + 1]);
        }
    }
}

/// A path that starts in a set closed under edges stays in it.
proof fn lemma_closed_path(g: UcmGraph, closed: Set<usize>, ns: Seq<usize>)
    requires
        forward_path(g, ns),
        closed.contains(ns[0]),
        forall|e: usize| #[trigger] g.links().contains_key(e) && closed.contains(g.links()[e].0) ==> closed.contains(g.links()[e].1),
    ensures
        closed.contains(ns.last()),
    decreases ns.len(),
{
    if ns.len() > 1 {
        let ms = ns.drop_last();
        assert(forward_path(g, ms)) by {
            assert forall|i: int| 0 <= i < ms.len() - 1 implies #[trigger] step_ok(g, ms, i) by {
                assert(step_ok(g, ns, i));
            }
        }
        lemma_closed_path(g, closed, ms);
        let i = ns.len() - 2;
        assert(step_ok(g, ns, i));
        let e = choose|e: usize|
            #[trigger] g.links().contains_key(e) && g.links()[e].0 == ns[i] && g.links()[e].1 == ns[i + 1];
    }
}

/// Whether the entity `from` reaches any of the entities `targets` along
/// outgoing edges (itself included): a search over the graph from `from`.
pub fn has_path_to_any(graph: &UcmGraph, from: &EntityId, targets: &[EntityId]) -> (r: bool)
    requires
        graph.wf(),
    ensures
        r == path_to_any(*graph, from@, targets@),
{
    broadcast use vstd::std_specs::hash::group_hash_axioms;

    let ghost g = *graph;
    let start = match graph.entity_node_index(from) {
        Some(n) => n,
        None => return false,
    };
    let mut target_indices: HashSet<usize> = HashSet::new();
    let mut t: usize = 0;
    while t < targets.len()
        invariant
            t <= targets.len(),
            g == *graph,
            g.wf(),
            forall|n: usize| #[trigger] target_indices@.contains(n) ==> is_changed(g, targets@, n),
            forall|j: int|
                0 <= j < t && g.index().contains_key(#[trigger] targets@[j]@) ==> target_indices@.contains(
                    g.index()[targets@[j]@],
                ),
        decreases targets.len() - t,
    {
        match graph.entity_node_index(&targets[t]) {
            Some(n) => {
                target_indices.insert(n);
                assert(is_changed(g, targets@, n)) by {
                    assert(g.index().contains_key(targets@[t as int]@));
                }
            },
            None => {},
        }
        t += 1;
    }
    proof {
        assert forall|n: usize| #[trigger] is_changed(g, targets@, n) implies target_indices@.contains(n) by {
            let j = choose|j: int|
                0 <= j < targets@.len() && g.index().contains_key(#[trigger] targets@[j]@) && g.index()[targets@[j]@] == n;
        }
    }
    let ghost nodes = g.nodes().dom();
    let mut visited: HashSet<usize> = HashSet::new();
    let mut stack: Vec<usize> = Vec::new();
    stack.push(start);
    proof {
        assert(forward_path(g, seq![start]));
        assert(reaches(g, start, start)) by {
            assert(seq![start][0] == start && seq![start].last() == start);
        }
    }
    while stack.len() > 0
        invariant
            g == *graph,
            g.wf(),
            nodes == g.nodes().dom(),
            g.nodes().contains_key(start),
            start == g.index()[from@],
            g.index().contains_key(from@),
            forall|n: usize| #[trigger] target_indices@.contains(n) <==> is_changed(g, targets@, n),
            visited@.subset_of(nodes),
            visited@.finite(),
            forall|j: int| 0 <= j < stack@.len() ==> nodes.contains(#[trigger] stack@[j]),
            forall|j: int| 0 <= j < stack@.len() ==> reaches(g, start, #[trigger] stack@[j]),
            forall|n: usize| #[trigger] visited@.contains(n) ==> reaches(g, start, n),
            forall|n: usize| #[trigger] visited@.contains(n) ==> !target_indices@.contains(n),
            visited@.contains(start) || stack@.contains(start),
            forall|e: usize|
                #[trigger] g.links().contains_key(e) && visited@.contains(g.links()[e].0) ==> visited@.contains(
                    g.links()[e].1,
                ) || stack@.contains(g.links()[e].1),
        decreases nodes.len() - visited@.len(), stack@.len(),
    {
        let ghost stack0 = stack@;
        let ghost visited0 = visited@;
        let cur = match stack.pop() {
            Some(c) => c,
            None => {
                assert(false);
                return false;
            },
        };
        let ghost popped_stack = stack@;
        assert(stack0 =~= popped_stack.push(cur));
        assert(reaches(g, start, cur));
        if target_indices.contains(&cur) {
            proof {
                assert(is_changed(g, targets@, cur));
            }
            return true;
        }
        proof {
            vstd::set_lib::lemma_len_subset(visited@, nodes);
        }
        if visited.insert(cur) {
            let adj = graph_edges_directed(graph.inner(), cur, true);
            let mut k: usize = 0;
            while k < adj.len()
                invariant
                    k <= adj.len(),
                    g == *graph,
                    g.wf(),
                    nodes == g.nodes().dom(),
                    reaches(g, start, cur),
                    forall|i: int|
                        0 <= i < adj@.len() ==> {
                            let t = #[trigger] adj@[i];
                            &&& g.links().contains_key(t.0)
                            &&& g.links()[t.0] == (t.1, t.2, t.3)
                            &&& t.1 == cur
                        },
                    forall|j: int| 0 <= j < stack@.len() ==> nodes.contains(#[trigger] stack@[j]),
                    forall|j: int| 0 <= j < stack@.len() ==> reaches(g, start, #[trigger] stack@[j]),
                    stack@.take(popped_stack.len() as int) == popped_stack,
                    stack@.len() >= popped_stack.len(),
                    forall|i: int| 0 <= i < k ==> stack@.contains(#[trigger] adj@[i].2),
                decreases adj.len() - k,
            {
                let (e, _src, dst, _w) = adj[k];
                let ghost before = stack@;
                proof {
                    assert(g.links().contains_key(e));
                    let ns = choose|ns: Seq<usize>| #[trigger] forward_path(g, ns) && ns[0] == start && ns.last() == cur;
                    lemma_path_push(g, ns, e);
                    let ms = ns.push(dst);
                    assert(ms[0] == start && ms.last() == dst);
                }
                stack.push(dst);
                proof {
                    assert forall|i: int| 0 <= i < k + 1 implies stack@.contains(#[trigger] adj@[i].2) by {
                        if i < k {
                            let j = choose|j: int| 0 <= j < before.len() && before[j] == adj@[i].2;
                            assert(stack@[j] == before[j]);
                        } else {
                            assert(stack@[before.len() as int] == dst);
                        }
                    }
                    assert(stack@.take(popped_stack.len() as int) =~= before.take(popped_stack.len() as int));
                }
                k += 1;
            }
            proof {
                assert forall|e: usize|
                    #[trigger] g.links().contains_key(e) && visited@.contains(g.links()[e].0) implies visited@.contains(
                        g.links()[e].1,
                    ) || stack@.contains(g.links()[e].1) by {
                    if g.links()[e].0 == cur {
                        let i = choose|i: int| 0 <= i < adj@.len() && adj@[i].0 == e;
                        assert(adj@[i].2 == g.links()[e].1);
                    } else {
                        assert(visited0.contains(g.links()[e].0));
                        if popped_stack.contains(g.links()[e].1) {
                            let j = choose|j: int| 0 <= j < popped_stack.len() && popped_stack[j] == g.links()[e].1;
                            assert(stack@[j] == popped_stack[j]);
                        } else if stack0.contains(g.links()[e].1) {
                            let j = choose|j: int| 0 <= j < stack0.len() && stack0[j] == g.links()[e].1;
                            if j < popped_stack.len() {
                                assert(popped_stack[j] == stack0[j]);
                            }
                        }
                    }
                }
                assert forall|x: usize| popped_stack.contains(x) implies #[trigger] stack@.contains(x) by {
                    let j = choose|j: int| 0 <= j < popped_stack.len() && popped_stack[j] == x;
                    assert(stack@[j] == popped_stack[j]);
                }
                assert(visited@.subset_of(nodes));
                vstd::set_lib::lemma_len_subset(visited@, nodes);
            }
        } else {
            proof {
                assert forall|e: usize|
                    #[trigger] g.links().contains_key(e) && visited@.contains(g.links()[e].0) implies visited@.contains(
                        g.links()[e].1,
                    ) || stack@.contains(g.links()[e].1) by {
                    if stack0.contains(g.links()[e].1) && g.links()[e].1 != cur {
                        let j = choose|j: int| 0 <= j < stack0.len() && stack0[j] == g.links()[e].1;
                        assert(j < popped_stack.len());
                        assert(popped_stack[j] == stack0[j]);
                    }
                }
                if !visited@.contains(start) {
                    let j = choose|j: int| 0 <= j < stack0.len() && stack0[j] == start;
                    assert(j < popped_stack.len());
                    assert(popped_stack[j] == stack0[j]);
                }
            }
        }
    }
    proof {
        assert forall|n: usize| #[trigger] is_changed(g, targets@, n) implies !reaches(g, start, n) by {
            if reaches(g, start, n) {
                let ns = choose|ns: Seq<usize>| #[trigger] forward_path(g, ns) && ns[0] == start && ns.last() == n;
                assert forall|e: usize|
                    #[trigger] g.links().contains_key(e) && visited@.contains(g.links()[e].0) implies visited@.contains(
                        g.links()[e].1,
                    ) by {}
                lemma_closed_path(g, visited@, ns);
            }
        }
    }
    false
}

// ─── Entities not impacted ─────────────────────────────────────────

/// The identifiers of some impacted entities.
pub open spec fn impacted_ids(v: Seq<ImpactedEntity>) -> Seq<Seq<char>> {
    v.map_values(|i: ImpactedEntity| i.entity_id@)
}

/// A not-impacted entity as plain values: identifier, name, confidence, reason.
pub open spec fn not_impacted_view(n: NotImpactedEntity) -> (Seq<char>, Seq<char>, u32, Seq<char>) {
    (n.entity_id@, n.name@, n.confidence, n.reason@)
}

/// The views of some not-impacted entities.
pub open spec fn not_impacted_views(v: Seq<NotImpactedEntity>) -> Seq<(Seq<char>, Seq<char>, u32, Seq<char>)> {
    v.map_values(|n: NotImpactedEntity| not_impacted_view(n))
}

/// What is said of an entity left out of the impacts: with a path to a
/// changed entity, it fell below the threshold (0.60 sure it is safe);
/// without one, nothing connects it (0.90 sure).
pub open spec fn not_impacted_of(g: UcmGraph, changed: Seq<EntityId>, e: UcmEntity) -> (
    Seq<char>,
    Seq<char>,
    u32,
    Seq<char>,
) {
    if path_to_any(g, e.id@, changed) {
        (e.id@, e.name@, 600_000u32, "Path exists but confidence below threshold"@)
    } else {
        (e.id@, e.name@, 900_000u32, "No graph path exists to changed entities"@)
    }
}

/// The not-impacted entities among the nodes `q[..n]`: those whose identifier
/// is neither changed nor impacted, in order.
pub open spec fn not_impacted_list(
    g: UcmGraph,
    changed: Seq<EntityId>,
    impacted: Seq<Seq<char>>,
    q: Seq<usize>,
    n: int,
) -> Seq<(Seq<char>, Seq<char>, u32, Seq<char>)>
    decreases n,
{
    if n <= 0 || n > q.len() {
        seq![]
    } else {
        let e = g.nodes()[q[n - 1]];
        not_impacted_list(g, changed, impacted, q, n - 1) + if crate::entity::id_views(changed).contains(e.id@)
            || impacted.contains(e.id@) {
            seq![]
        } else {
            seq![not_impacted_of(g, changed, e)]
        }
    }
}

/// The identifiers listed among the not-impacted entities of `q[..n]`.
proof fn lemma_not_impacted_ids(
    g: UcmGraph,
    changed: Seq<EntityId>,
    impacted: Seq<Seq<char>>,
    q: Seq<usize>,
    n: int,
    id: Seq<char>,
)
    requires
        g.wf(),
        0 <= n <= q.len(),
        q.no_duplicates(),
        forall|j: int| 0 <= j < q.len() ==> g.nodes().contains_key(#[trigger] q[j]),
    ensures
        (exists|j: int|
            0 <= j < not_impacted_list(g, changed, impacted, q, n).len() && #[trigger] not_impacted_list(
                g,
                changed,
                impacted,
                q,
                n,
            )[j].0 == id) <==> (exists|k: int| 0 <= k < n && #[trigger] g.nodes()[q[k]].id@ == id) && !(
        crate::entity::id_views(changed).contains(id) || impacted.contains(id)),
    decreases n,
{
    if n > 0 {
        lemma_not_impacted_ids(g, changed, impacted, q, n - 1, id);
        let prev = not_impacted_list(g, changed, impacted, q, n - 1);
        let cur = not_impacted_list(g, changed, impacted, q, n);
        let e = g.nodes()[q[n - 1]];
        assert forall|j: int| 0 <= j < prev.len() implies cur[j] == prev[j] by {}
        if crate::entity::id_views(changed).contains(e.id@) || impacted.contains(e.id@) {
            assert(cur =~= prev);
        } else {
            assert(cur.len() == prev.len() + 1);
            assert(cur[prev.len() as int].0 == e.id@);
            if (exists|j: int| 0 <= j < cur.len() && #[trigger] cur[j].0 == id) {
                let j = choose|j: int| 0 <= j < cur.len() && #[trigger] cur[j].0 == id;
                if j < prev.len() {
                    assert(prev[j].0 == id);
                } else {
                    assert(g.nodes()[q[n - 1]].id@ == id);
                }
            }
            if (exists|k: int| 0 <= k < n && #[trigger] g.nodes()[q[k]].id@ == id) && !(
            crate::entity::id_views(changed).contains(id) || impacted.contains(id)) {
                let k = choose|k: int| 0 <= k < n && #[trigger] g.nodes()[q[k]].id@ == id;
                if k < n - 1 {
                    let j = choose|j: int| 0 <= j < prev.len() && #[trigger] prev[j].0 == id;
                    assert(cur[j].0 == id);
                } else {
                    assert(cur[prev.len() as int].0 == id);
                }
            }
        }
    }
}

/// Nothing is lost and nothing counted twice: an entity of the graph is
/// listed among the not-impacted exactly when it is neither changed nor
/// impacted, and then once, with the reason its reachability gives.
pub proof fn not_impacted_is_the_rest(
    g: UcmGraph,
    changed: Seq<EntityId>,
    impacted: Seq<ImpactedEntity>,
    q: Seq<usize>,
    k: int,
)
    requires
        g.wf(),
        crate::graph::ascending(q),
        q.to_set() == g.nodes().dom(),
        0 <= k < q.len(),
    ensures
        (exists|j: int|
            0 <= j < not_impacted_list(g, changed, impacted_ids(impacted), q, q.len() as int).len()
                && #[trigger] not_impacted_list(g, changed, impacted_ids(impacted), q, q.len() as int)[j]
                == not_impacted_of(g, changed, g.nodes()[q[k]])) <==> !(crate::entity::id_views(
            changed,
        ).contains(g.nodes()[q[k]].id@) || impacted_ids(impacted).contains(g.nodes()[q[k]].id@)),
{
    let ids = impacted_ids(impacted);
    let l = not_impacted_list(g, changed, ids, q, q.len() as int);
    let e = g.nodes()[q[k]];
    assert(q.no_duplicates()) by {
        assert forall|a: int, b: int| 0 <= a < b < q.len() implies q[a] != q[b] by {}
    }
    assert forall|j: int| 0 <= j < q.len() implies g.nodes().contains_key(#[trigger] q[j]) by {
        assert(q.to_set().contains(q[j]));
    }
    lemma_not_impacted_ids(g, changed, ids, q, q.len() as int, e.id@);
    assert(g.nodes()[q[k]].id@ == e.id@);
    if (exists|j: int| 0 <= j < l.len() && #[trigger] l[j] == not_impacted_of(g, changed, e)) {
        let j = choose|j: int| 0 <= j < l.len() && #[trigger] l[j] == not_impacted_of(g, changed, e);
        assert(l[j].0 == e.id@);
    }
    if !(crate::entity::id_views(changed).contains(e.id@) || ids.contains(e.id@)) {
        let j = choose|j: int| 0 <= j < l.len() && #[trigger] l[j].0 == e.id@;
        lemma_not_impacted_entry(g, changed, ids, q, q.len() as int, j);
        let m = choose|m: int| 0 <= m < q.len() && l[j] == not_impacted_of(g, changed, g.nodes()[q[m]]);
        // Distinct nodes carry distinct identifiers.
        assert(g.index()[g.nodes()[q[m]].id@] == q[m]);
        assert(g.index()[e.id@] == q[k]);
        assert(q[m] == q[k]);
    }
}

/// Each listed not-impacted entry is that of one of the nodes.
proof fn lemma_not_impacted_entry(
    g: UcmGraph,
    changed: Seq<EntityId>,
    impacted: Seq<Seq<char>>,
    q: Seq<usize>,
    n: int,
    j: int,
)
    requires
        0 <= n <= q.len(),
        0 <= j < not_impacted_list(g, changed, impacted, q, n).len(),
    ensures
        exists|m: int|
            0 <= m < n && not_impacted_list(g, changed, impacted, q, n)[j] == not_impacted_of(
                g,
                changed,
                g.nodes()[q[m]],
            ),
    decreases n,
{
    if n > 0 {
        let prev = not_impacted_list(g, changed, impacted, q, n - 1);
        if j < prev.len() {
            lemma_not_impacted_entry(g, changed, impacted, q, n - 1, j);
            let m = choose|m: int| 0 <= m < n - 1 && prev[j] == not_impacted_of(g, changed, g.nodes()[q[m]]);
            assert(not_impacted_list(g, changed, impacted, q, n)[j] == prev[j]);
        } else {
            assert(not_impacted_list(g, changed, impacted, q, n)[j] == not_impacted_of(
                g,
                changed,
                g.nodes()[q[n - 1]],
            ));
        }
    }
}

/// Whether an identifier is one of a list.
fn id_listed(ids: &[EntityId], id: &EntityId) -> (r: bool)
    ensures
        r == crate::entity::id_views(ids@).contains(id@),
{
    let target = crate::text::chars_of(id.as_str());
    let mut i: usize = 0;
    while i < ids.len()
        invariant
            i <= ids.len(),
            target@ == id@,
            forall|j: int| 0 <= j < i ==> ids@[j]@ != id@,
        decreases ids.len() - i,
    {
        let c = crate::text::chars_of(ids[i].as_str());
        if crate::text::eq(&c, &target) {
            assert(crate::entity::id_views(ids@)[i as int] == id@);
            return true;
        }
        i += 1;
    }
    assert forall|j: int| 0 <= j < ids@.len() implies crate::entity::id_views(ids@)[j] != id@ by {}
    false
}

/// Whether an identifier is that of one of some impacted entities.
fn impacted_listed(v: &[ImpactedEntity], id: &EntityId) -> (r: bool)
    ensures
        r == impacted_ids(v@).contains(id@),
{
    let target = crate::text::chars_of(id.as_str());
    let mut i: usize = 0;
    while i < v.len()
        invariant
            i <= v.len(),
            target@ == id@,
            forall|j: int| 0 <= j < i ==> v@[j].entity_id@ != id@,
        decreases v.len() - i,
    {
        let c = crate::text::chars_of(v[i].entity_id.as_str());
        if crate::text::eq(&c, &target) {
            assert(impacted_ids(v@)[i as int] == id@);
            return true;
        }
        i += 1;
    }
    assert forall|j: int| 0 <= j < v@.len() implies impacted_ids(v@)[j] != id@ by {}
    false
}

/// Find the entities NOT impacted by a change set: every entity, in node
/// order, that is neither changed nor among `impacted`, with the reason.
pub fn find_not_impacted(
    graph: &UcmGraph,
    changed: &[EntityId],
    impacted: &[ImpactedEntity],
) -> (r: Vec<NotImpactedEntity>)
    requires
        graph.wf(),
    ensures
        exists|q: Seq<usize>|
            #![trigger q.to_set()]
            crate::graph::ascending(q) && q.to_set() == graph.nodes().dom() && not_impacted_views(r@)
                == not_impacted_list(*graph, changed@, impacted_ids(impacted@), q, q.len() as int),
{
    let ghost g = *graph;
    let entities = graph.all_entities();
    let ghost q = choose|q: Seq<usize>|
        #![trigger q.to_set()]
        crate::graph::ascending(q) && q.to_set() == g.nodes().dom() && entities@.len() == q.len() && forall|i: int|
            0 <= i < q.len() ==> *entities@[i] == g.nodes()[#[trigger] q[i]];
    let mut out: Vec<NotImpactedEntity> = Vec::new();
    let mut i: usize = 0;
    while i < entities.len()
        invariant
            i <= entities.len(),
            g == *graph,
            g.wf(),
            entities@.len() == q.len(),
            forall|j: int| 0 <= j < q.len() ==> *entities@[j] == g.nodes()[#[trigger] q[j]],
            not_impacted_views(out@) == not_impacted_list(g, changed@, impacted_ids(impacted@), q, i as int),
        decreases entities.len() - i,
    {
        let e = entities[i];
        assert(*e == g.nodes()[q[i as int]]);
        let ghost prev = not_impacted_views(out@);
        if !id_listed(changed, &e.id) && !impacted_listed(impacted, &e.id) {
            let has_path = has_path_to_any(graph, &e.id, changed);
            let (confidence, reason) = if has_path {
                (600_000u32, "Path exists but confidence below threshold")
            } else {
                (900_000u32, "No graph path exists to changed entities")
            };
            let entry = NotImpactedEntity {
                entity_id: e.id.duplicate(),
                name: e.name.clone(),
                confidence,
                reason: reason.to_string(),
            };
            out.push(entry);
            assert(not_impacted_views(out@) =~= prev.push(not_impacted_of(g, changed@, *e)));
        } else {
            assert(not_impacted_views(out@) =~= prev);
        }
        assert(not_impacted_views(out@) =~= not_impacted_list(g, changed@, impacted_ids(impacted@), q, i + 1));
        i += 1;
    }
    out
}

impl UcmGraph {
    /// Reverse breadth-first impact traversal from the changed entities (see
    /// the free function `impact_bfs`).
    pub fn impact_bfs(
        &self,
        changed: &[EntityId],
        min_confidence: u32,
        max_depth: usize,
        edge_confidences: &[u32],
    ) -> (r: Vec<ImpactedEntity>)
        requires
            self.wf(),
            edge_confidences@.len() == self.records().len(),
            all_valid(edge_confidences@),
        ensures
            bfs_result_ok(*self, edge_confidences@, changed@, min_confidence, max_depth, r@),
    {
        impact_bfs(self, changed, min_confidence, max_depth, edge_confidences)
    }

    /// The entities neither changed nor impacted, each with the reason and
    /// the confidence of its separation (see `find_not_impacted`).
    pub fn not_impacted(&self, changed: &[EntityId], impacted: &[ImpactedEntity]) -> (r: Vec<NotImpactedEntity>)
        requires
            self.wf(),
        ensures
            exists|q: Seq<usize>|
                #![trigger q.to_set()]
                crate::graph::ascending(q) && q.to_set() == self.nodes().dom() && not_impacted_views(r@)
                    == not_impacted_list(*self, changed@, impacted_ids(impacted@), q, q.len() as int),
    {
        find_not_impacted(self, changed, impacted)
    }
}

} // verus!
