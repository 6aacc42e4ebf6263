//! The link graph's storage: a `petgraph` stable graph whose vertices carry
//! notes and whose edges carry links. Nothing in this file is proved: each
//! function states what the `petgraph` method that it calls does to the
//! graph's vertices and edges.

use vstd::prelude::*;
use petgraph::stable_graph::{EdgeIndex, NodeIndex, StableGraph};
use petgraph::visit::EdgeRef;
use petgraph::Directed;
use crate::link::Link;
use crate::zettel::Zettel;

verus! {

#[verifier::external_type_specification]
#[verifier::external_body]
#[verifier::reject_recursive_types(N)]
#[verifier::reject_recursive_types(E)]
#[verifier::reject_recursive_types(Ty)]
#[verifier::reject_recursive_types(Ix)]
pub struct ExStableGraph<N, E, Ty, Ix>(StableGraph<N, E, Ty, Ix>);

#[verifier::external_type_specification]
#[verifier::external_body]
pub struct ExDirected(Directed);

/// An edge of the graph: the handles of the two vertices that it joins and
/// the link that it carries.
pub struct Edge {
    pub source: usize,
    pub target: usize,
    pub link: Link,
}

/// The vertices of a graph: the note at each vertex handle in use.
pub uninterp spec fn graph_nodes(g: StableGraph<Zettel, Link, Directed, usize>) -> Map<usize, Zettel>;

/// The edges of a graph: the edge at each edge handle in use.
pub uninterp spec fn graph_edges(g: StableGraph<Zettel, Link, Directed, usize>) -> Map<usize, Edge>;

/// The edges that do not touch the vertex `h`.
pub open spec fn edges_without_node(edges: Map<usize, Edge>, h: usize) -> Map<usize, Edge> {
    Map::new(
        |e: usize| edges.contains_key(e) && edges[e].source != h && edges[e].target != h,
        |e: usize| edges[e],
    )
}

/// `StableGraph::default`: a graph without vertices and edges.
#[verifier::external_body]
pub(crate) fn graph_empty() -> (g: StableGraph<Zettel, Link, Directed, usize>)
    ensures
        (graph_nodes(g) == Map::<usize, Zettel>::empty()),
        (graph_edges(g) == Map::<usize, Edge>::empty()),
{
    StableGraph::default()
}

/// `StableGraph::edge_count`: the number of edges.
#[verifier::external_body]
pub(crate) fn graph_edge_count(g: &StableGraph<Zettel, Link, Directed, usize>) -> (n: usize)
    ensures
        n == graph_edges(*g).dom().len(),
{
    g.edge_count()
}

/// `StableGraph::add_node`: adds a vertex that carries `note`, under a handle
/// that was not in use, and leaves the other vertices and the edges alone.
/// With `usize` handles the graph has no limit of its own.
#[verifier::external_body]
pub(crate) fn graph_add_node(
    g: &mut StableGraph<Zettel, Link, Directed, usize>,
    note: Zettel,
) -> (h: usize)
    ensures
        !graph_nodes(*old(g)).contains_key(h),
        graph_nodes(*final(g)) == graph_nodes(*old(g)).insert(h, note),
        graph_edges(*final(g)) == graph_edges(*old(g)),
{
    g.add_node(note).index()
}

/// `StableGraph::remove_node`: removes the vertex `h` together with every
/// edge that starts or ends at it, and hands back the note that it carried.
/// Where `h` is not in use nothing changes.
#[verifier::external_body]
pub(crate) fn graph_remove_node(
    g: &mut StableGraph<Zettel, Link, Directed, usize>,
    h: usize,
) -> (r: Option<Zettel>)
    ensures
        graph_nodes(*final(g)) == graph_nodes(*old(g)).remove(h),
        graph_nodes(*old(g)).contains_key(h) ==> r == Some(graph_nodes(*old(g))[h])
            && graph_edges(*final(g)) == edges_without_node(graph_edges(*old(g)), h),
        !graph_nodes(*old(g)).contains_key(h) ==> r is None && graph_edges(*final(g))
            == graph_edges(*old(g)),
{
    g.remove_node(NodeIndex::new(h))
}

/// `StableGraph::node_weight`: the note at the vertex `h`, if `h` is in use.
#[verifier::external_body]
pub(crate) fn graph_node(
    g: &StableGraph<Zettel, Link, Directed, usize>,
    h: usize,
) -> (r: Option<&Zettel>)
    ensures
        r is Some <==> graph_nodes(*g).contains_key(h),
        r is Some ==> *r->0 == graph_nodes(*g)[h],
{
    g.node_weight(NodeIndex::new(h))
}

/// `StableGraph::index_mut` by vertex handle, assigned to: the vertex `h`
/// carries `note` from now on. Indexing fails on a handle that is not in use.
#[verifier::external_body]
pub(crate) fn graph_set_node(
    g: &mut StableGraph<Zettel, Link, Directed, usize>,
    h: usize,
    note: Zettel,
)
    requires
        graph_nodes(*old(g)).contains_key(h),
    ensures
        graph_nodes(*final(g)) == graph_nodes(*old(g)).insert(h, note),
        graph_edges(*final(g)) == graph_edges(*old(g)),
{
    g[NodeIndex::new(h)] = note;
}

/// `StableGraph::add_edge`: adds an edge from the vertex `a` to the vertex
/// `b` that carries `link`, under a handle that was not in use. Parallel
/// edges are kept. The call fails where `a` or `b` is not in use.
#[verifier::external_body]
pub(crate) fn graph_add_edge(
    g: &mut StableGraph<Zettel, Link, Directed, usize>,
    a: usize,
    b: usize,
    link: Link,
) -> (e: usize)
    requires
        graph_nodes(*old(g)).contains_key(a),
        graph_nodes(*old(g)).contains_key(b),
    ensures
        !graph_edges(*old(g)).contains_key(e),
        graph_edges(*final(g)) == graph_edges(*old(g)).insert(e, (Edge { source: a, target: b, link })),
        graph_nodes(*final(g)) == graph_nodes(*old(g)),
{
    g.add_edge(NodeIndex::new(a), NodeIndex::new(b), link).index()
}

/// `StableGraph::remove_edge`: removes the edge `e` and hands back the link
/// that it carried. Where `e` is not in use nothing changes.
#[verifier::external_body]
pub(crate) fn graph_remove_edge(
    g: &mut StableGraph<Zettel, Link, Directed, usize>,
    e: usize,
) -> (r: Option<Link>)
    ensures
        graph_edges(*final(g)) == graph_edges(*old(g)).remove(e),
        graph_nodes(*final(g)) == graph_nodes(*old(g)),
        r is Some <==> graph_edges(*old(g)).contains_key(e),
        r is Some ==> r->0 == graph_edges(*old(g))[e].link,
{
    g.remove_edge(EdgeIndex::new(e))
}

/// `StableGraph::edges`: the handles of the edges that start at the vertex
/// `h`, each once. Their order is left open.
#[verifier::external_body]
pub(crate) fn graph_outgoing(
    g: &StableGraph<Zettel, Link, Directed, usize>,
    h: usize,
) -> (r: Vec<usize>)
    ensures
        r@.no_duplicates(),
        forall|e: usize|
            r@.contains(e) <==> (graph_edges(*g).contains_key(e) && graph_edges(*g)[e].source
                == h),
{
    g.edges(NodeIndex::new(h)).map(|edge| edge.id().index()).collect()
}

/// `StableGraph::edge_weight`: the link that the edge `e` carries, if `e` is
/// in use.
#[verifier::external_body]
pub(crate) fn graph_edge_link(
    g: &StableGraph<Zettel, Link, Directed, usize>,
    e: usize,
) -> (r: Option<&Link>)
    ensures
        r is Some <==> graph_edges(*g).contains_key(e),
        r is Some ==> *r->0 == graph_edges(*g)[e].link,
{
    g.edge_weight(EdgeIndex::new(e))
}

} // verus!
