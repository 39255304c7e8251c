//! The materialized context graph.
//!
//! A petgraph `StableGraph` (indices stay valid across removals) holds the
//! shape; the entities and edges it links live in the graph's own tables, and
//! the graph's node and edge weights are positions in them. Entities are found
//! by their SCIP identifier, and each source file owns the entities it
//! declared: when a file changes, everything it owns is removed at once and
//! only that file is indexed again.
use vstd::prelude::*;

use std::collections::HashMap;

use crate::edge::UcmEdge;
use crate::entity::{id_views, EntityId, UcmEntity};
use crate::error::UcmError;
use crate::text::same_text;
use crate::keyed::{
    index_get, index_insert, index_remove, lemma_deep_view_finite, lists_len, lists_remove,
    lists_insert,
};
use crate::stable_graph::{graph_edge_endpoints, 
    edges_without, graph_add_edge, graph_add_node, graph_edge_count, graph_edge_indices,
    graph_edge_weight, graph_edges, graph_edges_directed, graph_new, graph_node_count, graph_node_indices,
    graph_node_weight, graph_nodes, graph_remove_node, IndexGraph,
};

verus! {

broadcast use vstd::string::group_string_axioms;

/// Pushing an item adds it to the set of items.
proof fn lemma_push_to_set<A>(s: Seq<A>, x: A)
    ensures
        s.push(x).to_set() == s.to_set().insert(x),
{
    assert(s.push(x) =~= s + seq![x]);
    Seq::lemma_to_set_insert_commutes(s, x);
}

// ─── The graph ─────────────────────────────────────────────────────

/// The materialized context graph: the primary queryable structure.
pub struct UcmGraph {
    /// The shape: node weights index `entities`, edge weights index `edge_list`
    graph: IndexGraph,
    /// Every entity ever stored; live nodes point at theirs
    entities: Vec<UcmEntity>,
    /// Every edge ever stored; live edges point at theirs
    edge_list: Vec<UcmEdge>,
    /// SCIP identifier → node
    entity_index: HashMap<String, usize>,
    /// Source file → the nodes it owns
    ownership: HashMap<String, Vec<usize>>,
}

/// The nodes a file owns (none where the table has no entry).
pub open spec fn owned_by(owners: Map<Seq<char>, Seq<usize>>, f: Seq<char>) -> Seq<usize> {
    if owners.contains_key(f) {
        owners[f]
    } else {
        seq![]
    }
}

/// A list without the items equal to `n`, in order.
pub open spec fn without<A>(s: Seq<A>, n: A) -> Seq<A>
    decreases s.len(),
{
    if s.len() == 0 {
        seq![]
    } else {
        without(s.drop_last(), n) + if s.last() == n {
            seq![]
        } else {
            seq![s.last()]
        }
    }
}

/// What is left after taking a node out comes from the list, is not that
/// node, and repeats nothing the list did not.
pub proof fn lemma_without<A>(s: Seq<A>, n: A)
    ensures
        forall|j: int| 0 <= j < without(s, n).len() ==> s.contains(#[trigger] without(s, n)[j]) && without(s, n)[j]
            != n,
        forall|m: A| s.contains(m) && m != n ==> #[trigger] without(s, n).contains(m),
        s.no_duplicates() ==> without(s, n).no_duplicates(),
    decreases s.len(),
{
    if s.len() > 0 {
        let t = s.drop_last();
        lemma_without(t, n);
        let w = without(t, n);
        assert forall|j: int| 0 <= j < without(s, n).len() implies s.contains(#[trigger] without(s, n)[j])
            && without(s, n)[j] != n by {
            if j < w.len() {
                let k = choose|k: int| 0 <= k < t.len() && t[k] == w[j];
                assert(s[k] == t[k]);
            } else {
                assert(s[s.len() - 1] == s.last());
            }
        }
        assert forall|m: A| s.contains(m) && m != n implies #[trigger] without(s, n).contains(m) by {
            let k = choose|k: int| 0 <= k < s.len() && s[k] == m;
            if k < s.len() - 1 {
                assert(t[k] == m);
                assert(t.contains(m));
                assert(w.contains(m));
                let j = choose|j: int| 0 <= j < w.len() && w[j] == m;
                assert(without(s, n)[j] == w[j]);
                assert(without(s, n)[j] == m);
            } else {
                assert(without(s, n)[w.len() as int] == m);
            }
        }
        if s.no_duplicates() {
            assert(t.no_duplicates()) by {
                assert forall|a: int, b: int| 0 <= a < b < t.len() implies t[a] != t[b] by {
                    assert(s[a] == t[a] && s[b] == t[b]);
                }
            }
            if s.last() != n {
                assert(!w.contains(s.last())) by {
                    if w.contains(s.last()) {
                        let j = choose|j: int| 0 <= j < w.len() && w[j] == s.last();
                        let k = choose|k: int| 0 <= k < t.len() && t[k] == w[j];
                        assert(s[k] == s[s.len() - 1]);
                    }
                }
                assert forall|a: int, b: int| 0 <= a < b < without(s, n).len() implies without(s, n)[a]
                    != without(s, n)[b] by {
                    if b == w.len() {
                        assert(w[a] == without(s, n)[a]);
                    } else {
                        assert(w[a] == without(s, n)[a] && w[b] == without(s, n)[b]);
                    }
                }
            } else {
                assert(without(s, n) =~= w);
            }
        }
    }
}

/// The nodes of a list other than `n`.
fn without_exec(v: &Vec<usize>, n: usize) -> (r: Vec<usize>)
    ensures
        r@ == without(v@, n),
{
    let mut out: Vec<usize> = Vec::new();
    let mut i: usize = 0;
    while i < v.len()
        invariant
            i <= v.len(),
            out@ == without(v@.take(i as int), n),
        decreases v.len() - i,
    {
        assert(v@.take(i + 1).drop_last() =~= v@.take(i as int));
        if v[i] != n {
            out.push(v[i]);
        }
        proof {
            let t = v@.take(i + 1);
            assert(t.last() == v@[i as int]);
            if v@[i as int] != n {
                assert(without(t, n) =~= without(v@.take(i as int), n).push(v@[i as int]));
            } else {
                assert(without(t, n) =~= without(v@.take(i as int), n));
            }
        }
        i += 1;
    }
    assert(v@.take(v.len() as int) =~= v@);
    out
}

/// The ownership table with node `n` moved from file `from` to file `to`.
pub open spec fn moved_owner(
    owners: Map<Seq<char>, Seq<usize>>,
    n: usize,
    from: Seq<char>,
    to: Seq<char>,
) -> Map<Seq<char>, Seq<usize>> {
    let rest = if owners.contains_key(from) {
        owners.insert(from, without(owners[from], n))
    } else {
        owners
    };
    rest.insert(to, owned_by(rest, to).push(n))
}

/// Replacing node `n`'s entity by one with the same identifier in another
/// file, and moving its ownership there, keeps the shape.
proof fn lemma_move_keeps_shape(
    nodes: Map<usize, UcmEntity>,
    links: Map<usize, (usize, usize, usize)>,
    record_count: nat,
    index: Map<Seq<char>, usize>,
    owners: Map<Seq<char>, Seq<usize>>,
    n: usize,
    ent: UcmEntity,
)
    requires
        graph_shape(nodes, links, record_count, index, owners),
        nodes.contains_key(n),
        ent.id@ == nodes[n].id@,
        nodes[n].file_path@ != ent.file_path@,
    ensures
        graph_shape(
            nodes.insert(n, ent),
            links,
            record_count,
            index,
            moved_owner(owners, n, nodes[n].file_path@, ent.file_path@),
        ),
{
    let from = nodes[n].file_path@;
    let to = ent.file_path@;
    let nodes2 = nodes.insert(n, ent);
    let rest = if owners.contains_key(from) {
        owners.insert(from, without(owners[from], n))
    } else {
        owners
    };
    let own2 = moved_owner(owners, n, from, to);
    if owners.contains_key(from) {
        lemma_without(owners[from], n);
    }
    // n was owned by no file but `from`, and by nothing in `to`.
    assert(!owned_by(rest, to).contains(n)) by {
        if owned_by(rest, to).contains(n) {
            let j = choose|j: int| 0 <= j < owned_by(rest, to).len() && owned_by(rest, to)[j] == n;
            assert(rest.contains_key(to));
            assert(owners[to][j] == n);
        }
    }
    assert forall|f: Seq<char>| #[trigger] rest.contains_key(f) implies rest[f].no_duplicates() && forall|j: int|
        0 <= j < rest[f].len() ==> nodes.contains_key(#[trigger] rest[f][j]) && nodes[rest[f][j]].file_path@ == f
            && rest[f][j] != n by {
        if f == from {
            assert forall|j: int| 0 <= j < rest[f].len() implies nodes.contains_key(#[trigger] rest[f][j])
                && nodes[rest[f][j]].file_path@ == f && rest[f][j] != n by {
                let k = choose|k: int| 0 <= k < owners[from].len() && owners[from][k] == rest[f][j];
            }
        } else {
            assert forall|j: int| 0 <= j < rest[f].len() implies nodes.contains_key(#[trigger] rest[f][j])
                && nodes[rest[f][j]].file_path@ == f && rest[f][j] != n by {}
        }
    }
    assert forall|f: Seq<char>| #[trigger] own2.contains_key(f) implies own2[f].no_duplicates() && forall|j: int|
        0 <= j < own2[f].len() ==> nodes2.contains_key(#[trigger] own2[f][j]) && nodes2[own2[f][j]].file_path@ == f by {
        if f == to {
            let l = owned_by(rest, to);
            assert(own2[f] == l.push(n));
            assert forall|a: int, b: int| 0 <= a < b < own2[f].len() implies own2[f][a] != own2[f][b] by {
                if b == l.len() {
                    assert(l[a] != n) by {
                        if l[a] == n {
                            assert(l.contains(n));
                        }
                    }
                } else {
                    assert(l[a] == own2[f][a] && l[b] == own2[f][b]);
                }
            }
            assert forall|j: int| 0 <= j < own2[f].len() implies nodes2.contains_key(#[trigger] own2[f][j])
                && nodes2[own2[f][j]].file_path@ == f by {
                if j < l.len() {
                    assert(own2[f][j] == l[j]);
                    assert(rest.contains_key(to));
                }
            }
        } else {
            assert(own2[f] == rest[f]);
        }
    }
    assert forall|f1: Seq<char>, f2: Seq<char>, j1: int, j2: int|
        own2.contains_key(f1) && own2.contains_key(f2) && 0 <= j1 < own2[f1].len() && 0 <= j2 < own2[f2].len()
            && #[trigger] own2[f1][j1] == #[trigger] own2[f2][j2] implies f1 == f2 by {
        assert(nodes2[own2[f1][j1]].file_path@ == f1);
        assert(nodes2[own2[f2][j2]].file_path@ == f2);
    }
    assert forall|m: usize| #[trigger] nodes2.contains_key(m) implies own2.contains_key(nodes2[m].file_path@)
        && own2[nodes2[m].file_path@].contains(m) by {
        let fm = nodes2[m].file_path@;
        if m == n {
            let l = owned_by(rest, to);
            assert(own2[to] == l.push(n));
            assert(own2[to][l.len() as int] == n);
        } else {
            assert(nodes2[m] == nodes[m]);
            assert(owners.contains_key(fm) && owners[fm].contains(m));
            let j = choose|j: int| 0 <= j < owners[fm].len() && owners[fm][j] == m;
            if fm == from {
                assert(without(owners[from], n).contains(m));
                assert(rest[from] == without(owners[from], n));
                assert(own2[from] == rest[from]);
            } else if fm == to {
                let l = owned_by(rest, to);
                assert(l == owners[to]);
                assert(own2[to] == l.push(n));
                assert(own2[to][j] == m);
            } else {
                assert(own2[fm] == owners[fm]);
            }
        }
    }
    assert(own2.dom().finite());
}

/// The shape every graph keeps: edges link live nodes and point at stored
/// edges; the identifier table and the live nodes correspond one to one; each
/// file owns distinct live nodes, and no node is owned by two files.
pub open spec fn graph_shape(
    nodes: Map<usize, UcmEntity>,
    links: Map<usize, (usize, usize, usize)>,
    record_count: nat,
    index: Map<Seq<char>, usize>,
    owners: Map<Seq<char>, Seq<usize>>,
) -> bool {
    &&& nodes.dom().finite()
    &&& links.dom().finite()
    &&& index.dom().finite()
    &&& owners.dom().finite()
    &&& record_count <= usize::MAX
    &&& forall|e: usize| #[trigger]
        links.contains_key(e) ==> nodes.contains_key(links[e].0) && nodes.contains_key(links[e].1)
            && links[e].2 < record_count
    &&& forall|e1: usize, e2: usize|
        #[trigger] links.contains_key(e1) && #[trigger] links.contains_key(e2) && e1 != e2 ==> links[e1].2
            != links[e2].2
    &&& forall|k: Seq<char>| #[trigger]
        index.contains_key(k) ==> nodes.contains_key(index[k]) && nodes[index[k]].id@ == k
    &&& forall|n: usize| #[trigger]
        nodes.contains_key(n) ==> index.contains_key(nodes[n].id@) && index[nodes[n].id@] == n
    &&& forall|f: Seq<char>| #[trigger]
        owners.contains_key(f) ==> owners[f].no_duplicates() && forall|j: int|
            0 <= j < owners[f].len() ==> nodes.contains_key(#[trigger] owners[f][j])
                && nodes[owners[f][j]].file_path@ == f
    &&& forall|n: usize| #[trigger]
        nodes.contains_key(n) ==> owners.contains_key(nodes[n].file_path@) && owners[nodes[n].file_path@].contains(n)
    &&& forall|f1: Seq<char>, f2: Seq<char>, j1: int, j2: int|
        owners.contains_key(f1) && owners.contains_key(f2) && 0 <= j1 < owners[f1].len() && 0 <= j2
            < owners[f2].len() && #[trigger] owners[f1][j1] == #[trigger] owners[f2][j2] ==> f1 == f2
}

/// Every entity is owned by the file it names and by no other, so a change
/// to that file, and only to that file, invalidates it; after an upsert
/// moves an entity to another file, the new file owns it and the old one no
/// longer does.
pub proof fn entities_are_owned_by_their_file(g: UcmGraph, n: usize)
    requires
        g.wf(),
        g.nodes().contains_key(n),
    ensures
        owned_by(g.owners(), g.nodes()[n].file_path@).contains(n),
        forall|f: Seq<char>| #[trigger] owned_by(g.owners(), f).contains(n) ==> f == g.nodes()[n].file_path@,
{
    assert forall|f: Seq<char>| #[trigger] owned_by(g.owners(), f).contains(n) implies f == g.nodes()[n].file_path@ by {
        let j = choose|j: int| 0 <= j < owned_by(g.owners(), f).len() && owned_by(g.owners(), f)[j] == n;
        assert(g.owners().contains_key(f));
        assert(g.owners()[f][j] == n);
    }
}

/// The identifiers of some nodes, in order.
pub open spec fn ids_of(nodes: Map<usize, UcmEntity>, s: Seq<usize>) -> Seq<Seq<char>> {
    s.map_values(|n: usize| nodes[n].id@)
}

/// Taking a node out of a list takes its identifier out of the list's
/// identifiers, where live nodes have distinct identifiers.
pub proof fn lemma_ids_without(nodes: Map<usize, UcmEntity>, index: Map<Seq<char>, usize>, s: Seq<usize>, n: usize)
    requires
        nodes.contains_key(n),
        forall|j: int| 0 <= j < s.len() ==> nodes.contains_key(#[trigger] s[j]),
        forall|m: usize| #[trigger] nodes.contains_key(m) ==> index.contains_key(nodes[m].id@) && index[nodes[m].id@] == m,
    ensures
        ids_of(nodes, without(s, n)) == without(ids_of(nodes, s), nodes[n].id@),
    decreases s.len(),
{
    if s.len() > 0 {
        let t = s.drop_last();
        lemma_ids_without(nodes, index, t, n);
        assert(ids_of(nodes, s).drop_last() =~= ids_of(nodes, t));
        assert(ids_of(nodes, s).last() == nodes[s.last()].id@);
        if s.last() == n {
            assert(ids_of(nodes, without(s, n)) =~= without(ids_of(nodes, s), nodes[n].id@));
        } else {
            assert(nodes[s.last()].id@ != nodes[n].id@) by {
                assert(nodes.contains_key(s[s.len() - 1]));
            }
            assert(ids_of(nodes, without(s, n)) =~= ids_of(nodes, without(t, n)).push(nodes[s.last()].id@));
            assert(ids_of(nodes, without(s, n)) =~= without(ids_of(nodes, s), nodes[n].id@));
        }
    } else {
        assert(ids_of(nodes, without(s, n)) =~= without(ids_of(nodes, s), nodes[n].id@));
    }
}

/// The links that neither start nor end at a node of `gone`.
pub open spec fn links_avoiding(links: Map<usize, (usize, usize, usize)>, gone: Set<usize>) -> Map<
    usize,
    (usize, usize, usize),
> {
    links.restrict(links.dom().filter(|e: usize| !gone.contains(links[e].0) && !gone.contains(links[e].1)))
}

/// Graph statistics. The average confidence is in millionths, rounded down.
#[derive(Debug, Clone, Copy, PartialEq, Eq, Structural)]
pub struct GraphStats {
    pub entity_count: usize,
    pub edge_count: usize,
    pub avg_confidence: u32,
    pub files_tracked: usize,
}

/// Whether an impacted entity references the change directly or transitively.
#[derive(Debug, Clone, Copy, PartialEq, Eq, Structural)]
pub enum ImpactType {
    /// Directly references the changed entity
    Direct,
    /// Transitively depends on the changed entity
    Indirect,
}

/// An entity found to be impacted by a change. Confidence in millionths.
#[derive(Debug, Clone)]
pub struct ImpactedEntity {
    pub entity_id: EntityId,
    pub name: String,
    pub confidence: u32,
    pub depth: usize,
    pub impact_type: ImpactType,
    pub path: Vec<String>,
    pub reason: String,
}

/// An entity found NOT to be impacted by a change. Confidence in millionths.
#[derive(Debug, Clone)]
pub struct NotImpactedEntity {
    pub entity_id: EntityId,
    pub name: String,
    pub confidence: u32,
    pub reason: String,
}

/// The total confidence of some edges, in millionths.
pub open spec fn confidence_total(g: UcmGraph, q: Seq<usize>) -> nat
    decreases q.len(),
{
    if q.len() == 0 {
        0
    } else {
        confidence_total(g, q.drop_last()) + g.edge_at(q.last()).confidence as nat
    }
}

/// The floor of the mean edge confidence, and 0 without edges.
pub open spec fn mean_confidence(g: UcmGraph, q: Seq<usize>) -> nat {
    if q.len() == 0 {
        0
    } else {
        confidence_total(g, q) / q.len()
    }
}

/// Increasing, hence without repeats.
pub open spec fn ascending(q: Seq<usize>) -> bool {
    forall|i: int, j: int| 0 <= i < j < q.len() ==> q[i] < q[j]
}

impl UcmGraph {
    /// The live nodes and their entities.
    pub closed spec fn nodes(&self) -> Map<usize, UcmEntity> {
        Map::new(
            |n: usize| graph_nodes(self.graph).contains_key(n),
            |n: usize| self.entities@[graph_nodes(self.graph)[n] as int],
        )
    }

    /// The live edges: source node, target node, and position in `records`.
    pub closed spec fn links(&self) -> Map<usize, (usize, usize, usize)> {
        graph_edges(self.graph)
    }

    /// The stored edges that `links` points into.
    pub closed spec fn records(&self) -> Seq<UcmEdge> {
        self.edge_list@
    }

    /// The identifier table: SCIP identifier → node.
    pub closed spec fn index(&self) -> Map<Seq<char>, usize> {
        self.entity_index.deep_view()
    }

    /// The ownership table: source file → the nodes it owns.
    pub closed spec fn owners(&self) -> Map<Seq<char>, Seq<usize>> {
        self.ownership.deep_view()
    }

    /// The edge a live edge index stands for.
    pub open spec fn edge_at(&self, e: usize) -> UcmEdge {
        self.records()[self.links()[e].2 as int]
    }

    /// Node weights are distinct positions in the entity table.
    pub closed spec fn storage_ok(&self) -> bool {
        &&& self.edge_list.len() == self.edge_list@.len()
        &&& forall|n: usize| #[trigger]
            graph_nodes(self.graph).contains_key(n) ==> graph_nodes(self.graph)[n]
                < self.entities@.len()
        &&& forall|n1: usize, n2: usize|
            #[trigger] graph_nodes(self.graph).contains_key(n1) && #[trigger] graph_nodes(
                self.graph,
            ).contains_key(n2) && n1 != n2 ==> graph_nodes(self.graph)[n1] != graph_nodes(
                self.graph,
            )[n2]
    }

    /// The graph is well formed.
    pub open spec fn wf(&self) -> bool {
        &&& graph_shape(
            self.nodes(),
            self.links(),
            self.records().len(),
            self.index(),
            self.owners(),
        )
        &&& self.storage_ok()
    }

    /// The domain of `nodes` is that of the stable graph.
    proof fn lemma_nodes_dom(&self)
        ensures
            self.nodes().dom() == graph_nodes(self.graph).dom(),
    {
        assert(self.nodes().dom() =~= graph_nodes(self.graph).dom());
    }

    /// An empty graph.
    pub fn new() -> (r: Self)
        ensures
            r.wf(),
            r.nodes() == Map::<usize, UcmEntity>::empty(),
            r.links() == Map::<usize, (usize, usize, usize)>::empty(),
            r.records() == Seq::<UcmEdge>::empty(),
            r.index() == Map::<Seq<char>, usize>::empty(),
            r.owners() == Map::<Seq<char>, Seq<usize>>::empty(),
    {
        let g = UcmGraph {
            graph: graph_new(),
            entities: Vec::new(),
            edge_list: Vec::new(),
            entity_index: HashMap::new(),
            ownership: HashMap::new(),
        };
        proof {
            vstd::std_specs::hash::lemma_hashmap_deepview_dom(g.entity_index);
            vstd::std_specs::hash::lemma_hashmap_deepview_dom(g.ownership);
            assert(g.index() =~= Map::<Seq<char>, usize>::empty());
            assert(g.owners() =~= Map::<Seq<char>, Seq<usize>>::empty());
            assert(g.nodes() =~= Map::<usize, UcmEntity>::empty());
        }
        g
    }

    /// Add an entity. An entity whose SCIP identifier is already present is
    /// refused with `DuplicateEntity`, and nothing changes. Otherwise the
    /// entity gets a node index that no live node has, its identifier points
    /// to it, and its file owns it.
    pub fn add_entity(&mut self, entity: UcmEntity) -> (r: Result<usize, UcmError>)
        requires
            old(self).wf(),
        ensures
            final(self).wf(),
            old(self).index().contains_key(entity.id@) ==> (r matches Err(UcmError::DuplicateEntity(s))
                && s@ == entity.id@),
            old(self).index().contains_key(entity.id@) ==> final(self).nodes() == old(self).nodes()
                && final(self).links() == old(self).links()
                && final(self).records() == old(self).records()
                && final(self).index() == old(self).index()
                && final(self).owners() == old(self).owners(),
            !old(self).index().contains_key(entity.id@) ==> (r matches Ok(n)
                && !old(self).nodes().contains_key(n)
                && final(self).nodes() == old(self).nodes().insert(n, entity)
                && final(self).index() == old(self).index().insert(entity.id@, n)
                && final(self).owners() == old(self).owners().insert(
                entity.file_path@,
                owned_by(old(self).owners(), entity.file_path@).push(n),
            )),
            !old(self).index().contains_key(entity.id@) ==> final(self).links() == old(self).links()
                && final(self).records() == old(self).records(),
    {
        let id_str = entity.id.to_text();
        if index_get(&self.entity_index, id_str.as_str()).is_some() {
            return Err(UcmError::DuplicateEntity(id_str));
        }
        let ghost old_nodes = self.nodes();
        let ghost old_owners = self.owners();
        let ghost old_index = self.index();
        let ghost gn0 = graph_nodes(self.graph);
        proof {
            self.lemma_nodes_dom();
        }
        let file = entity.file_path.clone();
        let ghost ent = entity;
        let slot = self.entities.len();
        self.entities.push(entity);
        let n = graph_add_node(&mut self.graph, slot);
        index_insert(&mut self.entity_index, id_str, n);
        let mut owned = match lists_remove(&mut self.ownership, file.as_str()) {
            Some(v) => v,
            None => Vec::new(),
        };
        assert(owned@ == owned_by(old_owners, file@));
        owned.push(n);
        lists_insert(&mut self.ownership, file, owned);
        proof {
            self.lemma_nodes_dom();
            lemma_deep_view_finite(self.entity_index);
            lemma_deep_view_finite(self.ownership);
            let gn = graph_nodes(self.graph);
            assert forall|m: usize| #[trigger] gn.contains_key(m) && m != n implies self.nodes()[m]
                == old_nodes[m] by {
                assert(gn[m] == gn0[m]);
                assert(gn0[m] < slot);
            }
            assert(self.nodes()[n] == ent);
            assert(self.nodes() =~= old_nodes.insert(n, ent));
            assert(self.owners() =~= old_owners.insert(file@, owned_by(old_owners, file@).push(n)));
            assert(self.index() =~= old_index.insert(ent.id@, n));
            assert(!old_nodes.contains_key(n));
            let owners = self.owners();
            assert forall|m: usize| #[trigger] self.nodes().contains_key(m) implies owners.contains_key(
                self.nodes()[m].file_path@,
            ) && owners[self.nodes()[m].file_path@].contains(m) by {
                let fm = self.nodes()[m].file_path@;
                let l = owned_by(old_owners, file@);
                if m == n {
                    assert(owners[file@] == l.push(n));
                    assert(owners[file@][l.len() as int] == n);
                } else {
                    assert(old_nodes.contains_key(m) && self.nodes()[m] == old_nodes[m]);
                    assert(old_owners.contains_key(fm) && old_owners[fm].contains(m));
                    if fm == file@ {
                        let j = choose|j: int| 0 <= j < old_owners[fm].len() && old_owners[fm][j] == m;
                        assert(owners[fm] == old_owners[fm].push(n));
                        assert(owners[fm][j] == m);
                    } else {
                        assert(owners[fm] == old_owners[fm]);
                    }
                }
            }
            assert forall|f: Seq<char>| #[trigger] owners.contains_key(f) implies owners[f].no_duplicates()
                && forall|j: int| 0 <= j < owners[f].len() ==> self.nodes().contains_key(
                #[trigger] owners[f][j],
            ) by {
                if f != file@ {
                    assert(owners[f] == old_owners[f]);
                }
            }
            assert forall|f1: Seq<char>, f2: Seq<char>, j1: int, j2: int|
                owners.contains_key(f1) && owners.contains_key(f2) && 0 <= j1 < owners[f1].len()
                    && 0 <= j2 < owners[f2].len() && #[trigger] owners[f1][j1]
                    == #[trigger] owners[f2][j2] implies f1 == f2 by {
                if f1 != f2 {
                    if f1 == file@ {
                        assert(owners[f2] == old_owners[f2]);
                        if j1 < owners[f1].len() - 1 {
                            assert(owners[f1][j1] == owned_by(old_owners, file@)[j1]);
                        }
                    } else if f2 == file@ {
                        assert(owners[f1] == old_owners[f1]);
                        if j2 < owners[f2].len() - 1 {
                            assert(owners[f2][j2] == owned_by(old_owners, file@)[j2]);
                        }
                    } else {
                        assert(owners[f1] == old_owners[f1]);
                        assert(owners[f2] == old_owners[f2]);
                    }
                }
            }
        }
        Ok(n)
    }

    /// The node of an identifier, if present.
    pub fn entity_node_index(&self, id: &EntityId) -> (r: Option<usize>)
        ensures
            r == (if self.index().contains_key(id@) {
                Some(self.index()[id@])
            } else {
                None
            }),
    {
        index_get(&self.entity_index, id.as_str())
    }

    /// The node of an identifier, or `EntityNotFound` naming it.
    fn resolve_entity(&self, id: &EntityId) -> (r: Result<usize, UcmError>)
        ensures
            self.index().contains_key(id@) ==> r == Ok::<usize, UcmError>(self.index()[id@]),
            !self.index().contains_key(id@) ==> (r matches Err(UcmError::EntityNotFound(s)) && s@ == id@),
    {
        match index_get(&self.entity_index, id.as_str()) {
            Some(n) => Ok(n),
            None => Err(UcmError::EntityNotFound(id.to_text())),
        }
    }

    /// The entity with a SCIP identifier, if present.
    pub fn get_entity(&self, id: &EntityId) -> (r: Option<&UcmEntity>)
        requires
            self.wf(),
        ensures
            r matches Some(e) ==> self.index().contains_key(id@) && *e == self.nodes()[self.index()[id@]],
            r is None ==> !self.index().contains_key(id@),
    {
        let n = match index_get(&self.entity_index, id.as_str()) {
            Some(n) => n,
            None => return None,
        };
        assert(self.nodes().contains_key(n));
        match graph_node_weight(&self.graph, n) {
            Some(slot) => Some(&self.entities[slot]),
            None => None,
        }
    }

    /// Add or replace an entity (upsert, for replay safety): an entity whose
    /// identifier is present replaces the stored one at the same node, and
    /// where its file changes, the new file owns it in place of the old one;
    /// any other is added as by `add_entity`.
    pub fn upsert_entity(&mut self, entity: UcmEntity) -> (r: usize)
        requires
            old(self).wf(),
        ensures
            final(self).wf(),
            final(self).links() == old(self).links(),
            final(self).records() == old(self).records(),
            old(self).index().contains_key(entity.id@) ==> r == old(self).index()[entity.id@]
                && final(self).nodes() == old(self).nodes().insert(r, entity)
                && final(self).index() == old(self).index()
                && final(self).owners() == (if old(self).nodes()[r].file_path@ == entity.file_path@ {
                old(self).owners()
            } else {
                moved_owner(old(self).owners(), r, old(self).nodes()[r].file_path@, entity.file_path@)
            }),
            !old(self).index().contains_key(entity.id@) ==> !old(self).nodes().contains_key(r)
                && final(self).nodes() == old(self).nodes().insert(r, entity)
                && final(self).index() == old(self).index().insert(entity.id@, r)
                && final(self).owners() == old(self).owners().insert(
                entity.file_path@,
                owned_by(old(self).owners(), entity.file_path@).push(r),
            ),
    {
        match index_get(&self.entity_index, entity.id.as_str()) {
            Some(n) => {
                let ghost old_nodes = self.nodes();
                let ghost ent = entity;
                let ghost gn = graph_nodes(self.graph);
                proof {
                    self.lemma_nodes_dom();
                }
                assert(gn.contains_key(n));
                let slot = match graph_node_weight(&self.graph, n) {
                    Some(slot) => slot,
                    None => {
                        assert(false);
                        return n;
                    },
                };
                let old_fp = self.entities[slot].file_path.clone();
                let new_fp = entity.file_path.clone();
                let ghost own0 = self.owners();
                self.entities.set(slot, entity);
                proof {
                    self.lemma_nodes_dom();
                    assert forall|m: usize| #[trigger] gn.contains_key(m) && m != n implies self.nodes()[m]
                        == old_nodes[m] by {
                        assert(gn[m] != gn[n]);
                    }
                    assert(self.nodes() =~= old_nodes.insert(n, ent));
                }
                if !same_text(&old_fp, &new_fp) {
                    let ghost rest = if own0.contains_key(old_fp@) {
                        own0.insert(old_fp@, without(own0[old_fp@], n))
                    } else {
                        own0
                    };
                    match lists_remove(&mut self.ownership, old_fp.as_str()) {
                        Some(v) => {
                            let kept = without_exec(&v, n);
                            lists_insert(&mut self.ownership, old_fp, kept);
                            proof {
                                assert(self.owners() =~= rest);
                            }
                        },
                        None => {
                            proof {
                                assert(self.owners() =~= rest);
                            }
                        },
                    }
                    let mut owned = match lists_remove(&mut self.ownership, new_fp.as_str()) {
                        Some(v) => v,
                        None => Vec::new(),
                    };
                    assert(owned@ == owned_by(rest, new_fp@));
                    owned.push(n);
                    lists_insert(&mut self.ownership, new_fp, owned);
                    proof {
                        lemma_deep_view_finite(self.ownership);
                        assert(self.owners() =~= moved_owner(own0, n, old_fp@, new_fp@));
                        lemma_move_keeps_shape(old_nodes, self.links(), self.records().len(), self.index(), own0, n, ent);
                    }
                }
                n
            },
            None => {
                match self.add_entity(entity) {
                    Ok(n) => n,
                    Err(_) => {
                        assert(false);
                        0
                    },
                }
            },
        }
    }

    /// Add a relationship from one entity to another. An endpoint that is not
    /// present is refused with `EntityNotFound` (the source is checked first),
    /// and nothing changes. Otherwise the edge is stored and linked under an
    /// edge index that no live edge has.
    pub fn add_relationship(&mut self, from: &EntityId, to: &EntityId, edge: UcmEdge) -> (r: Result<
        usize,
        UcmError,
    >)
        requires
            old(self).wf(),
        ensures
            final(self).wf(),
            final(self).nodes() == old(self).nodes(),
            final(self).index() == old(self).index(),
            final(self).owners() == old(self).owners(),
            !old(self).index().contains_key(from@) ==> (r matches Err(UcmError::EntityNotFound(s))
                && s@ == from@),
            old(self).index().contains_key(from@) && !old(self).index().contains_key(to@) ==> (r matches Err(
                UcmError::EntityNotFound(s),
            ) && s@ == to@),
            r is Err ==> final(self).links() == old(self).links() && final(self).records() == old(
                self,
            ).records(),
            old(self).index().contains_key(from@) && old(self).index().contains_key(to@) ==> (r matches Ok(e)
                && !old(self).links().contains_key(e)
                && final(self).records() == old(self).records().push(edge)
                && final(self).links() == old(self).links().insert(
                e,
                (old(self).index()[from@], old(self).index()[to@], old(self).records().len() as usize),
            )),
    {
        let a = match self.resolve_entity(from) {
            Ok(a) => a,
            Err(e) => return Err(e),
        };
        let b = match self.resolve_entity(to) {
            Ok(b) => b,
            Err(e) => return Err(e),
        };
        let ghost old_nodes = self.nodes();
        proof {
            self.lemma_nodes_dom();
        }
        let slot = self.edge_list.len();
        self.edge_list.push(edge);
        let e = graph_add_edge(&mut self.graph, a, b, slot);
        proof {
            self.lemma_nodes_dom();
            assert(self.nodes() =~= old_nodes);
            assert(self.edge_list@.len() == self.edge_list.len());
        }
        Ok(e)
    }

    /// Remove every entity a file owns, with every edge at them, and forget
    /// the file: the Glean-style "hide facts" step of an incremental update.
    /// Returns the removed identifiers, in the order the file came to own them.
    pub fn invalidate_file(&mut self, file_path: &str) -> (r: Vec<EntityId>)
        requires
            old(self).wf(),
        ensures
            final(self).wf(),
            id_views(r@) == ids_of(old(self).nodes(), owned_by(old(self).owners(), file_path@)),
            final(self).nodes() == old(self).nodes().remove_keys(
                owned_by(old(self).owners(), file_path@).to_set(),
            ),
            final(self).links() == links_avoiding(
                old(self).links(),
                owned_by(old(self).owners(), file_path@).to_set(),
            ),
            final(self).records() == old(self).records(),
            final(self).index() == old(self).index().remove_keys(
                ids_of(old(self).nodes(), owned_by(old(self).owners(), file_path@)).to_set(),
            ),
            final(self).owners() == old(self).owners().remove(file_path@),
    {
        let ghost nodes0 = self.nodes();
        let ghost gn0 = graph_nodes(self.graph);
        let ghost ge0 = graph_edges(self.graph);
        let ghost idx0 = self.index();
        let ghost own0 = self.owners();
        let ghost el0 = self.edge_list@;
        let ghost sq = owned_by(own0, file_path@);
        proof {
            self.lemma_nodes_dom();
        }
        let mut removed: Vec<EntityId> = Vec::new();
        let nodes = match lists_remove(&mut self.ownership, file_path) {
            Some(v) => v,
            None => Vec::new(),
        };
        assert(nodes@ == sq);
        let mut j: usize = 0;
        while j < nodes.len()
            invariant
                j <= nodes.len(),
                nodes@ == sq,
                sq.no_duplicates(),
                forall|i: int| 0 <= i < sq.len() ==> gn0.contains_key(#[trigger] sq[i]),
                forall|n: usize| #[trigger] gn0.contains_key(n) ==> gn0[n] < self.entities@.len(),
                nodes0 == Map::new(
                    |n: usize| gn0.contains_key(n),
                    |n: usize| self.entities@[gn0[n] as int],
                ),
                graph_nodes(self.graph) == gn0.remove_keys(sq.take(j as int).to_set()),
                graph_edges(self.graph) == links_avoiding(ge0, sq.take(j as int).to_set()),
                self.entity_index.deep_view() == idx0.remove_keys(
                    ids_of(nodes0, sq.take(j as int)).to_set(),
                ),
                id_views(removed@) == ids_of(nodes0, sq.take(j as int)),
                self.ownership.deep_view() == own0.remove(file_path@),
                self.edge_list@ == el0,
            decreases nodes.len() - j,
        {
            let a = nodes[j];
            let ghost t = sq.take(j as int).to_set();
            assert(!t.contains(a)) by {
                if t.contains(a) {
                    let i = choose|i: int| 0 <= i < j && sq.take(j as int)[i] == a;
                    assert(sq[i] == sq[j as int]);
                }
            }
            assert(sq.take(j + 1).to_set() =~= t.insert(a)) by {
                assert(sq.take(j + 1) =~= sq.take(j as int).push(a));
                lemma_push_to_set(sq.take(j as int), a);
            }
            match graph_remove_node(&mut self.graph, a) {
                Some(slot) => {
                    assert(slot == gn0[a]);
                    let id = self.entities[slot].id.duplicate();
                    assert(id@ == nodes0[a].id@);
                    index_remove(&mut self.entity_index, id.as_str());
                    let ghost prev = id_views(removed@);
                    removed.push(id);
                    assert(id_views(removed@) =~= prev.push(nodes0[a].id@));
                    assert(ids_of(nodes0, sq.take(j + 1)) =~= ids_of(nodes0, sq.take(j as int)).push(
                        nodes0[a].id@,
                    ));
                    proof {
                        lemma_push_to_set(ids_of(nodes0, sq.take(j as int)), nodes0[a].id@);
                    }
                    assert(self.entity_index.deep_view() =~= idx0.remove_keys(
                        ids_of(nodes0, sq.take(j + 1)).to_set(),
                    ));
                    assert(graph_nodes(self.graph) =~= gn0.remove_keys(sq.take(j + 1).to_set()));
                    assert(graph_edges(self.graph) =~= links_avoiding(ge0, sq.take(j + 1).to_set()));
                },
                None => {
                    assert(false);
                },
            }
            j += 1;
        }
        proof {
            assert(sq.take(sq.len() as int) =~= sq);
            self.lemma_nodes_dom();
            lemma_deep_view_finite(self.entity_index);
            lemma_deep_view_finite(self.ownership);
            let gone = sq.to_set();
            let ids = ids_of(nodes0, sq);
            assert(self.nodes() =~= nodes0.remove_keys(gone));
            let nodes1 = self.nodes();
            let idx1 = self.index();
            assert forall|n: usize| #[trigger] nodes1.contains_key(n) implies idx1.contains_key(
                nodes1[n].id@,
            ) && idx1[nodes1[n].id@] == n by {
                assert(nodes1[n] == nodes0[n]);
                if ids.to_set().contains(nodes0[n].id@) {
                    let i = choose|i: int| 0 <= i < ids.len() && ids[i] == nodes0[n].id@;
                    assert(idx0[nodes0[sq[i]].id@] == sq[i]);
                }
            }
            assert forall|k: Seq<char>| #[trigger] idx1.contains_key(k) implies nodes1.contains_key(
                idx1[k],
            ) && nodes1[idx1[k]].id@ == k by {
                let n = idx0[k];
                if gone.contains(n) {
                    let i = choose|i: int| 0 <= i < sq.len() && sq[i] == n;
                    assert(ids[i] == k);
                    assert(ids.to_set().contains(k));
                }
            }
            let owners1 = self.owners();
            assert forall|f: Seq<char>| #[trigger] owners1.contains_key(f) implies owners1[f].no_duplicates()
                && forall|j: int| 0 <= j < owners1[f].len() ==> nodes1.contains_key(
                #[trigger] owners1[f][j],
            ) by {
                assert(owners1[f] == own0[f]);
                assert forall|j: int| 0 <= j < owners1[f].len() implies nodes1.contains_key(
                    #[trigger] owners1[f][j],
                ) by {
                    let n = own0[f][j];
                    if gone.contains(n) {
                        let i = choose|i: int| 0 <= i < sq.len() && sq[i] == n;
                        assert(own0[file_path@][i] == own0[f][j]);
                    }
                }
            }
            let links1 = self.links();
            assert forall|e: usize| #[trigger] links1.contains_key(e) implies nodes1.contains_key(
                links1[e].0,
            ) && nodes1.contains_key(links1[e].1) && links1[e].2 < self.records().len() by {
                assert(ge0.contains_key(e));
                assert(links1[e] == ge0[e]);
                assert(!gone.contains(ge0[e].0) && !gone.contains(ge0[e].1));
                assert(nodes0.contains_key(ge0[e].0));
                assert(nodes0.contains_key(ge0[e].1));
            }
            assert(self.storage_ok());
            assert(nodes1.dom() =~= nodes0.dom().difference(gone));
            vstd::set::axiom_set_difference_finite(nodes0.dom(), gone);
            let keep = ge0.dom().filter(|e: usize| !gone.contains(ge0[e].0) && !gone.contains(ge0[e].1));
            assert(links1.dom() =~= ge0.dom().intersect(keep));
            vstd::set::axiom_set_intersect_finite(ge0.dom(), keep);
        }
        removed
    }

    /// Every live entity, in increasing order of node index.
    pub fn all_entities(&self) -> (r: Vec<&UcmEntity>)
        requires
            self.wf(),
        ensures
            exists|q: Seq<usize>|
                #![trigger q.to_set()]
                ascending(q) && q.to_set() == self.nodes().dom() && r@.len() == q.len() && forall|i: int|
                    0 <= i < q.len() ==> *r@[i] == self.nodes()[#[trigger] q[i]],
    {
        let order = graph_node_indices(&self.graph);
        proof {
            self.lemma_nodes_dom();
        }
        let mut out: Vec<&UcmEntity> = Vec::new();
        let mut i: usize = 0;
        while i < order.len()
            invariant
                i <= order.len(),
                order@.to_set() == graph_nodes(self.graph).dom(),
                self.nodes().dom() == graph_nodes(self.graph).dom(),
                self.wf(),
                out@.len() == i,
                forall|k: int| 0 <= k < i ==> *out@[k] == self.nodes()[#[trigger] order@[k]],
            decreases order.len() - i,
        {
            let n = order[i];
            assert(order@.to_set().contains(n));
            match graph_node_weight(&self.graph, n) {
                Some(slot) => {
                    out.push(&self.entities[slot]);
                },
                None => {
                    assert(false);
                },
            }
            i += 1;
        }
        assert(ascending(order@));
        out
    }

    /// The edges of a node in one direction, each with the entity at its
    /// other end: every such edge once, in the graph's adjacency order.
    fn neighbours(&self, n: usize, outgoing: bool) -> (r: Vec<(&UcmEntity, &UcmEdge)>)
        requires
            self.wf(),
            self.nodes().contains_key(n),
        ensures
            exists|es: Seq<usize>|
                #![trigger es.len()]
                es.no_duplicates() && es.len() == r@.len() && (forall|i: int|
                    0 <= i < es.len() ==> self.links().contains_key(#[trigger] es[i]) && (if outgoing {
                        self.links()[es[i]].0 == n
                    } else {
                        self.links()[es[i]].1 == n
                    }) && *r@[i].0 == self.nodes()[if outgoing {
                        self.links()[es[i]].1
                    } else {
                        self.links()[es[i]].0
                    }] && *r@[i].1 == self.edge_at(es[i])) && (forall|e: usize|
                    #[trigger] self.links().contains_key(e) && (if outgoing {
                        self.links()[e].0 == n
                    } else {
                        self.links()[e].1 == n
                    }) ==> es.contains(e)),
    {
        let adj = graph_edges_directed(&self.graph, n, outgoing);
        proof {
            self.lemma_nodes_dom();
        }
        let ghost es = adj@.map_values(|t: (usize, usize, usize, usize)| t.0);
        let mut out: Vec<(&UcmEntity, &UcmEdge)> = Vec::new();
        let mut i: usize = 0;
        while i < adj.len()
            invariant
                i <= adj.len(),
                self.wf(),
                self.nodes().dom() == graph_nodes(self.graph).dom(),
                es == adj@.map_values(|t: (usize, usize, usize, usize)| t.0),
                forall|k: int|
                    0 <= k < adj@.len() ==> {
                        let t = #[trigger] adj@[k];
                        &&& graph_edges(self.graph).contains_key(t.0)
                        &&& graph_edges(self.graph)[t.0] == (t.1, t.2, t.3)
                        &&& if outgoing {
                            t.1 == n
                        } else {
                            t.2 == n
                        }
                    },
                out@.len() == i,
                forall|k: int|
                    0 <= k < i ==> *out@[k].0 == self.nodes()[if outgoing {
                        self.links()[#[trigger] es[k]].1
                    } else {
                        self.links()[es[k]].0
                    }] && *out@[k].1 == self.edge_at(es[k]),
            decreases adj.len() - i,
        {
            let (_e, src, dst, w) = adj[i];
            let other = if outgoing {
                dst
            } else {
                src
            };
            assert(self.links().contains_key(es[i as int]));
            match graph_node_weight(&self.graph, other) {
                Some(slot) => {
                    out.push((&self.entities[slot], &self.edge_list[w]));
                },
                None => {
                    assert(false);
                },
            }
            i += 1;
        }
        proof {
            assert forall|a: int, b: int| 0 <= a < b < es.len() implies es[a] != es[b] by {
                assert(adj@[a].0 != adj@[b].0);
            }
            assert forall|e: usize|
                #[trigger] self.links().contains_key(e) && (if outgoing {
                    self.links()[e].0 == n
                } else {
                    self.links()[e].1 == n
                }) implies es.contains(e) by {
                let k = choose|k: int| 0 <= k < adj@.len() && adj@[k].0 == e;
                assert(es[k] == e);
            }
        }
        out
    }

    /// Graph statistics: the numbers of entities, edges and files tracked,
    /// and the mean edge confidence (rounded down; 0 without edges).
    pub fn stats(&self) -> (r: GraphStats)
        requires
            self.wf(),
        ensures
            r.entity_count == self.nodes().len(),
            r.edge_count == self.links().len(),
            r.files_tracked == self.owners().len(),
            exists|q: Seq<usize>|
                #![trigger q.to_set()]
                ascending(q) && q.to_set() == self.links().dom() && r.avg_confidence == mean_confidence(
                    *self,
                    q,
                ),
    {
        proof {
            self.lemma_nodes_dom();
        }
        let edge_count = graph_edge_count(&self.graph);
        let order = graph_edge_indices(&self.graph);
        let mut total: u128 = 0;
        let mut i: usize = 0;
        while i < order.len()
            invariant
                i <= order.len(),
                self.wf(),
                order@.to_set() == self.links().dom(),
                total == confidence_total(*self, order@.take(i as int)),
                total <= i * 0xFFFF_FFFFu64,
            decreases order.len() - i,
        {
            let e = order[i];
            assert(order@.to_set().contains(e));
            let slot = self.links_slot(e);
            let c = self.edge_list[slot].confidence;
            assert(order@.take(i + 1).drop_last() =~= order@.take(i as int));
            total = total + c as u128;
            i += 1;
        }
        assert(order@.take(order.len() as int) =~= order@);
        proof {
            let q = order@;
            assert(q.no_duplicates()) by {
                assert forall|a: int, b: int| 0 <= a < b < q.len() implies q[a] != q[b] by {}
            }
            q.unique_seq_to_set();
        }
        let avg: u32 = if edge_count > 0 {
            assert(total / (edge_count as u128) <= 0xFFFF_FFFFu128) by (nonlinear_arith)
                requires
                    total <= edge_count * 0xFFFF_FFFFu64,
                    edge_count > 0,
            {
                assert(total / (edge_count as u128) <= (edge_count * 0xFFFF_FFFFu64) / (edge_count as int));
            }
            (total / edge_count as u128) as u32
        } else {
            0
        };
        GraphStats {
            entity_count: graph_node_count(&self.graph),
            edge_count,
            avg_confidence: avg,
            files_tracked: lists_len(&self.ownership),
        }
    }

    /// The position in the edge table of a live edge.
    fn links_slot(&self, e: usize) -> (r: usize)
        requires
            self.wf(),
            self.links().contains_key(e),
        ensures
            r == self.links()[e].2,
            r < self.edge_list@.len(),
    {
        match graph_edge_weight(&self.graph, e) {
            Some(w) => w,
            None => {
                assert(false);
                0
            },
        }
    }

    /// Direct dependencies of an entity: its outgoing edges, each with the
    /// entity it reaches. An absent entity is refused with `EntityNotFound`.
    pub fn dependencies(&self, id: &EntityId) -> (r: Result<Vec<(&UcmEntity, &UcmEdge)>, UcmError>)
        requires
            self.wf(),
        ensures
            !self.index().contains_key(id@) ==> (r matches Err(UcmError::EntityNotFound(s)) && s@
                == id@),
            self.index().contains_key(id@) ==> (r matches Ok(v) && exists|es: Seq<usize>|
                #![trigger es.len()]
                es.no_duplicates() && es.len() == v@.len() && (forall|i: int|
                    0 <= i < es.len() ==> self.links().contains_key(#[trigger] es[i])
                        && self.links()[es[i]].0 == self.index()[id@]
                        && *v@[i].0 == self.nodes()[self.links()[es[i]].1]
                        && *v@[i].1 == self.edge_at(es[i])) && (forall|e: usize|
                    #[trigger] self.links().contains_key(e) && self.links()[e].0 == self.index()[id@]
                        ==> es.contains(e))),
    {
        match self.resolve_entity(id) {
            Ok(n) => Ok(self.neighbours(n, true)),
            Err(e) => Err(e),
        }
    }

    /// Reverse dependencies of an entity: its incoming edges, each with the
    /// entity they come from ("what depends on this entity?", the core query
    /// of impact analysis). An absent entity is refused with `EntityNotFound`.
    pub fn reverse_deps(&self, id: &EntityId) -> (r: Result<Vec<(&UcmEntity, &UcmEdge)>, UcmError>)
        requires
            self.wf(),
        ensures
            !self.index().contains_key(id@) ==> (r matches Err(UcmError::EntityNotFound(s)) && s@
                == id@),
            self.index().contains_key(id@) ==> (r matches Ok(v) && exists|es: Seq<usize>|
                #![trigger es.len()]
                es.no_duplicates() && es.len() == v@.len() && (forall|i: int|
                    0 <= i < es.len() ==> self.links().contains_key(#[trigger] es[i])
                        && self.links()[es[i]].1 == self.index()[id@]
                        && *v@[i].0 == self.nodes()[self.links()[es[i]].0]
                        && *v@[i].1 == self.edge_at(es[i])) && (forall|e: usize|
                    #[trigger] self.links().contains_key(e) && self.links()[e].1 == self.index()[id@]
                        ==> es.contains(e))),
    {
        match self.resolve_entity(id) {
            Ok(n) => Ok(self.neighbours(n, false)),
            Err(e) => Err(e),
        }
    }
    /// Add a piece of evidence to the stored edge of a live edge: its
    /// evidence gains the piece and its confidence is re-fused over all of
    /// it (`UcmEdge::add_evidence`); nothing else changes.
    pub fn add_evidence_to_edge(
        &mut self,
        e: usize,
        source: crate::entity::DiscoverySource,
        confidence: u32,
        description: String,
    )
        requires
            old(self).wf(),
            old(self).links().contains_key(e),
        ensures
            final(self).wf(),
            final(self).nodes() == old(self).nodes(),
            final(self).links() == old(self).links(),
            final(self).index() == old(self).index(),
            final(self).owners() == old(self).owners(),
            final(self).records().len() == old(self).records().len(),
            forall|k: int|
                0 <= k < old(self).records().len() && k != old(self).links()[e].2 ==> #[trigger] final(self).records()[k]
                    == old(self).records()[k],
            crate::edge::evidence_added(
                old(self).edge_at(e),
                final(self).edge_at(e),
                source,
                confidence,
                description@,
            ),
    {
        let slot = match graph_edge_weight(&self.graph, e) {
            Some(w) => w,
            None => {
                assert(false);
                return;
            },
        };
        let ghost before = self.edge_list@;
        self.edge_list[slot].add_evidence(source, confidence, description);
        proof {
            assert(self.edge_list@.len() == before.len());
        }
    }

    /// The entity at a node, if the node is live.
    pub fn entity_at(&self, n: usize) -> (r: Option<&UcmEntity>)
        requires
            self.wf(),
        ensures
            r matches Some(e) ==> self.nodes().contains_key(n) && *e == self.nodes()[n],
            r is None ==> !self.nodes().contains_key(n),
    {
        proof {
            self.lemma_nodes_dom();
        }
        match graph_node_weight(&self.graph, n) {
            Some(slot) => Some(&self.entities[slot]),
            None => None,
        }
    }

    /// The confidence of every stored edge, in the order of `edge_records`
    /// (the confidences at discovery, before any decay).
    pub fn edge_confidences(&self) -> (r: Vec<u32>)
        ensures
            r@ == self.records().map_values(|e: UcmEdge| e.confidence),
    {
        let mut out: Vec<u32> = Vec::new();
        let mut i: usize = 0;
        while i < self.edge_list.len()
            invariant
                i <= self.edge_list.len(),
                out@ == self.edge_list@.map_values(|e: UcmEdge| e.confidence).take(i as int),
            decreases self.edge_list.len() - i,
        {
            out.push(self.edge_list[i].confidence);
            assert(out@ =~= self.edge_list@.map_values(|e: UcmEdge| e.confidence).take(i + 1));
            i += 1;
        }
        assert(out@ =~= self.edge_list@.map_values(|e: UcmEdge| e.confidence));
        out
    }

    /// Every live edge, in increasing order of edge index, as its source
    /// entity, its target entity and the stored edge.
    pub fn edge_snapshot(&self) -> (r: Vec<(&UcmEntity, &UcmEntity, &UcmEdge)>)
        requires
            self.wf(),
        ensures
            exists|q: Seq<usize>|
                #![trigger q.to_set()]
                ascending(q) && q.to_set() == self.links().dom() && r@.len() == q.len() && forall|i: int|
                    0 <= i < q.len() ==> *r@[i].0 == self.nodes()[self.links()[#[trigger] q[i]].0]
                        && *r@[i].1 == self.nodes()[self.links()[q[i]].1] && *r@[i].2 == self.edge_at(q[i]),
    {
        let order = graph_edge_indices(&self.graph);
        let mut out: Vec<(&UcmEntity, &UcmEntity, &UcmEdge)> = Vec::new();
        let mut i: usize = 0;
        while i < order.len()
            invariant
                i <= order.len(),
                self.wf(),
                order@.to_set() == self.links().dom(),
                out@.len() == i,
                forall|k: int|
                    0 <= k < i ==> *out@[k].0 == self.nodes()[self.links()[#[trigger] order@[k]].0]
                        && *out@[k].1 == self.nodes()[self.links()[order@[k]].1] && *out@[k].2
                        == self.edge_at(order@[k]),
            decreases order.len() - i,
        {
            let e = order[i];
            assert(order@.to_set().contains(e));
            let slot = self.links_slot(e);
            match graph_edge_endpoints(&self.graph, e) {
                Some((a, b)) => {
                    let sa = self.entity_at(a);
                    let sb = self.entity_at(b);
                    match (sa, sb) {
                        (Some(x), Some(y)) => {
                            out.push((x, y, &self.edge_list[slot]));
                        },
                        _ => {
                            assert(false);
                        },
                    }
                },
                None => {
                    assert(false);
                },
            }
            i += 1;
        }
        assert(ascending(order@));
        out
    }

    /// The underlying stable graph (node weights are positions of entities,
    /// edge weights positions in `edge_records`).
    pub fn inner(&self) -> (r: &IndexGraph)
        ensures
            graph_edges(*r) == self.links(),
            graph_nodes(*r).dom() == self.nodes().dom(),
    {
        proof {
            self.lemma_nodes_dom();
        }
        &self.graph
    }

    /// The identifier table: SCIP identifier → node.
    pub fn entity_index_map(&self) -> (r: &HashMap<String, usize>)
        ensures
            r.deep_view() == self.index(),
    {
        &self.entity_index
    }

    /// Every edge ever stored, in order; live edges point into this table.
    pub fn edge_records(&self) -> (r: &Vec<UcmEdge>)
        ensures
            r@ == self.records(),
    {
        &self.edge_list
    }
}

/// The context graph under its ContextQA name.
pub type ContextGraph = UcmGraph;

impl Default for UcmGraph {
    /// An empty graph.
    fn default() -> (r: Self)
        ensures
            r.wf(),
            r.nodes() == Map::<usize, UcmEntity>::empty(),
            r.links() == Map::<usize, (usize, usize, usize)>::empty(),
            r.records() == Seq::<UcmEdge>::empty(),
            r.index() == Map::<Seq<char>, usize>::empty(),
            r.owners() == Map::<Seq<char>, Seq<usize>>::empty(),
    {
        UcmGraph::new()
    }
}

} // verus!
