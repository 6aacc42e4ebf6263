//! The link graph of a collection: the notes as vertices, the links as edges,
//! and the index from identifiers to vertex handles that moves in step.

use vstd::prelude::*;
use vstd::hash_map::StringHashMap;
use vstd::multiset::Multiset;
use petgraph::stable_graph::StableGraph;
use petgraph::Directed;
use crate::graph::{
    edges_without_node, graph_add_edge, graph_add_node, graph_edge_count, graph_edge_link,
    graph_edges, graph_empty, graph_node, graph_nodes, graph_outgoing, graph_remove_edge,
    graph_remove_node, graph_set_node, Edge,
};
use crate::error::ZkError;
use crate::id::{
    file_name, file_name_of, has_file_name, id_of_path, is_file_name, is_generated_id, ZettelId,
};
use crate::link::{Link, LinkView};
use crate::model::{
    edge_links, edges_kept, lemma_edge_links_insert, lemma_edge_links_kept,
    lemma_edge_links_len, lemma_edge_links_listed, links_added, listed_links, GraphView,
};
use crate::text::{chars_of, string_of};
use crate::zettel::{clone_links, link_views, zettel_views, Zettel, ZettelView};

verus! {

/// The link graph: the notes at the vertices of a `petgraph` stable graph,
/// the links on its edges, and the index from identifiers to vertex handles.
pub struct ZkGraph {
    graph: StableGraph<Zettel, Link, Directed, usize>,
    zid_to_gid: StringHashMap<usize>,
}

/// A collection of notes: its identifier, its name and its link graph.
pub struct Kasten {
    pub id: ZettelId,
    pub name: String,
    pub graph: ZkGraph,
}

/// The name of a collection whose directory has no name of its own.
pub open spec fn default_name() -> Seq<char> {
    seq!['Z', 'e', 't', 't', 'l', 'e', 'K', 'a', 's', 't', 'e', 'n']
}

/// The name of the collection in the directory `path`: the last component of
/// the path, or the default name where the path has no file name.
pub open spec fn kasten_name(path: Seq<char>) -> Seq<char> {
    if has_file_name(path) {
        file_name(path)
    } else {
        default_name()
    }
}

/// The index once the file at `path` is gone: without the identifier that
/// the path names, if it names one.
pub open spec fn handles_without_path(handles: Map<Seq<char>, usize>, path: Seq<char>) -> Map<
    Seq<char>,
    usize,
> {
    match id_of_path(path) {
        Ok(id) => handles.remove(id),
        Err(_) => handles,
    }
}

/// Whether `path` names a note that the index holds.
pub open spec fn names_indexed(handles: Map<Seq<char>, usize>, path: Seq<char>) -> bool {
    id_of_path(path) is Ok && handles.contains_key(id_of_path(path)->Ok_0)
}

/// The index once the files at `paths` are gone.
pub open spec fn handles_without_paths(
    handles: Map<Seq<char>, usize>,
    paths: Seq<Seq<char>>,
) -> Map<Seq<char>, usize>
    decreases paths.len(),
{
    if paths.len() == 0 {
        handles
    } else {
        handles_without_path(handles_without_paths(handles, paths.drop_last()), paths.last())
    }
}

impl View for ZkGraph {
    type V = GraphView;

    open spec fn view(&self) -> GraphView {
        GraphView {
            notes: Map::new(
                |id: Seq<char>| self.handles().contains_key(id),
                |id: Seq<char>| self.nodes()[self.handles()[id]]@,
            ),
            links: edge_links(self.edges()),
        }
    }
}

impl ZkGraph {
    /// The index: the vertex handle of each note, by identifier.
    pub closed spec fn handles(&self) -> Map<Seq<char>, usize> {
        self.zid_to_gid@
    }

    /// The note at each vertex handle in use.
    pub closed spec fn nodes(&self) -> Map<usize, Zettel> {
        graph_nodes(self.graph)
    }

    /// The edge at each edge handle in use.
    pub closed spec fn edges(&self) -> Map<usize, Edge> {
        graph_edges(self.graph)
    }

    /// The invariant of the graph and its index: the index holds exactly the
    /// identifiers of the notes at the vertices, each with the handle of its
    /// vertex; every edge joins two vertices and carries the link from the
    /// one note to the other.
    pub closed spec fn wf(&self) -> bool {
        let handles = self.zid_to_gid@;
        let nodes = graph_nodes(self.graph);
        let edges = graph_edges(self.graph);
        &&& handles.dom().finite()
        &&& nodes.dom().finite()
        &&& edges.dom().finite()
        &&& forall|id: Seq<char>| #[trigger]
            handles.contains_key(id) ==> nodes.contains_key(handles[id]) && nodes[handles[id]]@.id
                == id
        &&& forall|h: usize| #[trigger]
            nodes.contains_key(h) ==> handles.contains_key(nodes[h]@.id) && handles[nodes[h]@.id]
                == h
        &&& forall|e: usize| #[trigger]
            edges.contains_key(e) ==> nodes.contains_key(edges[e].source) && nodes.contains_key(
                edges[e].target,
            ) && edges[e].link@.source == nodes[edges[e].source]@.id && edges[e].link@.dest
                == nodes[edges[e].target]@.id
    }

    /// In a well-formed graph the handles of the index are in use, and the
    /// note at the handle of an identifier has that identifier; the notes and
    /// links, taken as mathematics, are well formed too.
    pub proof fn lemma_wf(&self)
        requires
            self.wf(),
        ensures
            self@.wf(),
            self@.notes.dom() == self.handles().dom(),
            self@.notes.dom().finite(),
            forall|id: Seq<char>| #[trigger]
                self.handles().contains_key(id) ==> self.nodes().contains_key(self.handles()[id])
                    && self.nodes()[self.handles()[id]]@.id == id,
            forall|h: usize| #[trigger]
                self.nodes().contains_key(h) ==> self.handles().contains_key(self.nodes()[h]@.id)
                    && self.handles()[self.nodes()[h]@.id] == h,
    {
        assert(self@.notes.dom() =~= self.handles().dom());
        let edges = self.edges();
        let nodes = self.nodes();
        let handles = self.handles();
        let known = |l: LinkView| handles.contains_key(l.source) && handles.contains_key(l.dest);
        lemma_edge_links_kept(edges, |e: Edge| true, known);
        assert(edges_kept(edges, |e: Edge| true) =~= edges);
        assert forall|l: LinkView| #[trigger] self@.links.count(l) > 0 implies known(l) by {
            assert(edge_links(edges).filter(known).count(l) > 0);
        }
    }

    /// The graph without notes.
    pub fn new() -> (r: ZkGraph)
        ensures
            r.wf(),
            r@ == GraphView::empty(),
    {
        let r = ZkGraph { graph: graph_empty(), zid_to_gid: StringHashMap::new() };
        assert(r@.notes =~= Map::<Seq<char>, ZettelView>::empty());
        r
    }

    /// The handle of the vertex of the note `id`, if the graph holds it.
    pub fn lookup(&self, id: &ZettelId) -> (r: Option<usize>)
        ensures
            r is Some <==> self.handles().contains_key(id@),
            r is Some ==> r->0 == self.handles()[id@],
    {
        match self.zid_to_gid.get(id.as_str()) {
            Some(h) => Some(*h),
            None => None,
        }
    }

    /// The note at the vertex `handle`, if the handle is in use.
    pub fn note(&self, handle: usize) -> (r: Option<&Zettel>)
        ensures
            r is Some <==> self.nodes().contains_key(handle),
            r is Some ==> *r->0 == self.nodes()[handle],
    {
        graph_node(&self.graph, handle)
    }

    /// The number of notes.
    pub fn node_count(&self) -> (n: usize)
        requires
            self.wf(),
        ensures
            n == self@.notes.dom().len(),
    {
        assert(self@.notes.dom() =~= self.handles().dom());
        broadcast use vstd::hash_map::group_hash_map_axioms;

        self.zid_to_gid.len()
    }

    /// The number of links, each counted as often as an edge carries it.
    pub fn edge_count(&self) -> (n: usize)
        requires
            self.wf(),
        ensures
            n == self@.links.len(),
    {
        proof {
            lemma_edge_links_len(self.edges());
        }
        graph_edge_count(&self.graph)
    }

    /// The links that start at the note `id`, each as often as an edge
    /// carries it, in no particular order.
    pub fn links_from(&self, id: &ZettelId) -> (r: Vec<Link>)
        requires
            self.wf(),
        ensures
            link_views(r@).to_multiset() == self@.links.filter(|l: LinkView| l.source == id@),
    {
        let ghost edges = self.edges();
        let ghost wanted = |l: LinkView| l.source == id@;
        let mut out: Vec<Link> = Vec::new();
        let h = match self.lookup(id) {
            Some(h) => h,
            None => {
                proof {
                    self.lemma_wf();
                    broadcast use vstd::seq_lib::group_to_multiset_ensures;

                    assert(link_views(out@) =~= Seq::<LinkView>::empty());
                    assert forall|l: LinkView| self@.links.filter(wanted).count(l) == 0 by {
                        if wanted(l) && self@.links.count(l) > 0 {
                            assert(self@.notes.contains_key(l.source));
                        }
                    }
                    assert(self@.links.filter(wanted) =~= Multiset::<LinkView>::empty());
                }
                return out;
            },
        };
        let ids = graph_outgoing(&self.graph, h);
        let ghost from = edges_kept(edges, |e: Edge| e.source == h);
        let mut i: usize = 0;
        while i < ids.len()
            invariant
                i <= ids.len(),
                edges == graph_edges(self.graph),
                forall|e: usize|
                    ids@.contains(e) <==> (edges.contains_key(e) && edges[e].source == h),
                out.len() == i,
                forall|k: int| 0 <= k < i ==> (#[trigger] out@[k])@ == edges[ids@[k]].link@,
            decreases ids.len() - i,
        {
            assert(ids@.contains(ids@[i as int]));
            match graph_edge_link(&self.graph, ids[i]) {
                Some(link) => {
                    out.push(link.clone());
                },
                None => {},
            }
            i += 1;
        }
        proof {
            self.lemma_wf();
            let nodes = self.nodes();
            assert forall|e: usize| #[trigger] edges.contains_key(e) implies (edges[e].source
                == h) == wanted(edges[e].link@) by {
                assert(nodes.contains_key(edges[e].source));
            }
            lemma_edge_links_kept(edges, |e: Edge| e.source == h, wanted);
            lemma_edge_links_listed(from, ids@);
            assert(link_views(out@) =~= listed_links(from, ids@));
        }
        out
    }

    /// Puts a note into the graph and hands back the handle of its vertex. A
    /// note whose identifier the graph already holds takes the place of the
    /// note that stood there, on the same vertex: the last one wins. No
    /// other handle changes, and the edges stay.
    pub fn insert_note(&mut self, z: Zettel) -> (h: usize)
        requires
            old(self).wf(),
        ensures
            final(self).wf(),
            final(self)@ == old(self)@.insert_note(z@),
            final(self).handles() == old(self).handles().insert(z@.id, h),
            old(self).handles().contains_key(z@.id) ==> h == old(self).handles()[z@.id],
            !old(self).handles().contains_key(z@.id) ==> !old(self).nodes().contains_key(h),
            final(self).nodes() == old(self).nodes().insert(h, z),
            final(self).edges() == old(self).edges(),
    {
        let ghost handles = self.zid_to_gid@;
        let ghost nodes = graph_nodes(self.graph);
        let found = match self.zid_to_gid.get(z.id.as_str()) {
            Some(h) => Some(*h),
            None => None,
        };
        let h = match found {
            Some(h) => {
                graph_set_node(&mut self.graph, h, z);
                assert(self.zid_to_gid@ =~= handles.insert(z@.id, h));
                h
            },
            None => {
                let key = z.id.as_str().to_owned();
                let h = graph_add_node(&mut self.graph, z);
                self.zid_to_gid.insert(key, h);
                h
            },
        };
        proof {
            assert forall|id: Seq<char>| handles.contains_key(id) && id != z@.id implies handles[id]
                != h by {
                assert(nodes.contains_key(handles[id]));
            }
            assert(self@.notes =~= old(self)@.notes.insert(z@.id, z@));
        }
        h
    }

    /// Takes the note `id` out of the graph, with the edges that start or end
    /// at its vertex, and hands it back. Where the graph holds no such note
    /// nothing changes. No other handle changes.
    pub fn remove_note(&mut self, id: &ZettelId) -> (r: Option<Zettel>)
        requires
            old(self).wf(),
        ensures
            final(self).wf(),
            final(self)@ == old(self)@.remove_note(id@),
            final(self).handles() == old(self).handles().remove(id@),
            r is Some <==> old(self)@.notes.contains_key(id@),
            r is Some ==> r->0@ == old(self)@.notes[id@],
    {
        let ghost handles = self.zid_to_gid@;
        let ghost nodes = graph_nodes(self.graph);
        let ghost edges = graph_edges(self.graph);
        let h = match self.zid_to_gid.get(id.as_str()) {
            Some(h) => *h,
            None => {
                assert(self.zid_to_gid@ =~= handles.remove(id@));
                return None;
            },
        };
        let removed = graph_remove_node(&mut self.graph, h);
        self.zid_to_gid.remove(id.as_str());
        proof {
            let keep = |e: Edge| e.source != h && e.target != h;
            let keep_link = |l: LinkView| l.source != id@ && l.dest != id@;
            assert forall|e: usize| #[trigger] edges.contains_key(e) implies keep(edges[e])
                == keep_link(edges[e].link@) by {
                assert(nodes.contains_key(edges[e].source));
                assert(nodes.contains_key(edges[e].target));
            }
            lemma_edge_links_kept(edges, keep, keep_link);
            assert(edges_without_node(edges, h) =~= edges_kept(edges, keep));
            assert forall|id2: Seq<char>| handles.contains_key(id2) && id2 != id@ implies handles[id2]
                != h by {
                assert(nodes.contains_key(handles[id2]));
            }
            assert(self@.notes =~= old(self)@.notes.remove(id@));
            assert(self@.links =~= old(self)@.links.filter(keep_link));
        }
        removed
    }

    /// Puts `z` on the vertex `handle` in place of the note that stands
    /// there. The vertex must hold a note with the identifier of `z`, so that
    /// the index stays true.
    pub fn replace_payload(&mut self, handle: usize, z: Zettel)
        requires
            old(self).wf(),
            old(self).nodes().contains_key(handle),
            old(self).nodes()[handle]@.id == z@.id,
        ensures
            final(self).wf(),
            final(self)@ == old(self)@.insert_note(z@),
            final(self).handles() == old(self).handles(),
            final(self).nodes() == old(self).nodes().insert(handle, z),
            final(self).edges() == old(self).edges(),
    {
        let ghost handles = self.zid_to_gid@;
        let ghost nodes = graph_nodes(self.graph);
        graph_set_node(&mut self.graph, handle, z);
        proof {
            assert forall|id: Seq<char>| handles.contains_key(id) && id != z@.id implies handles[id]
                != handle by {
                assert(nodes.contains_key(handles[id]));
            }
            assert(self@.notes =~= old(self)@.notes.insert(z@.id, z@));
        }
    }

    /// Removes every edge that starts at the vertex `handle`. Where the
    /// handle is not in use nothing changes.
    pub fn clear_outgoing_edges(&mut self, handle: usize)
        requires
            old(self).wf(),
        ensures
            final(self).wf(),
            old(self).nodes().contains_key(handle) ==> final(self)@ == old(self)@.clear_outgoing(
                old(self).nodes()[handle]@.id,
            ),
            !old(self).nodes().contains_key(handle) ==> final(self)@ == old(self)@,
            final(self).handles() == old(self).handles(),
            final(self).nodes() == old(self).nodes(),
    {
        let ghost nodes = graph_nodes(self.graph);
        let ghost edges = graph_edges(self.graph);
        let ids = graph_outgoing(&self.graph, handle);
        let mut i: usize = 0;
        assert(edges.remove_keys(ids@.take(0).to_set()) =~= edges);
        while i < ids.len()
            invariant
                i <= ids.len(),
                edges.dom().finite(),
                graph_nodes(self.graph) == nodes,
                graph_edges(self.graph) == edges.remove_keys(ids@.take(i as int).to_set()),
                self.zid_to_gid == old(self).zid_to_gid,
            decreases ids.len() - i,
        {
            let ghost done = ids@.take(i as int).to_set();
            graph_remove_edge(&mut self.graph, ids[i]);
            i += 1;
            proof {
                let cur = ids@.take(i as int);
                let prev = ids@.take(i as int - 1);
                let last = ids@[i as int - 1];
                assert forall|x: usize| cur.contains(x) <==> (prev.contains(x) || x == last) by {
                    if cur.contains(x) {
                        let k = choose|k: int| 0 <= k < cur.len() && cur[k] == x;
                        if k < i - 1 {
                            assert(prev[k] == x);
                        }
                    }
                    if prev.contains(x) {
                        let k = choose|k: int| 0 <= k < prev.len() && prev[k] == x;
                        assert(cur[k] == x);
                    }
                    assert(cur[i as int - 1] == last);
                }
            }
            assert(ids@.take(i as int).to_set() =~= done.insert(ids@[i as int - 1]));
            assert(edges.remove_keys(done).remove(ids@[i as int - 1]) =~= edges.remove_keys(
                done.insert(ids@[i as int - 1]),
            ));
        }
        proof {
            assert(ids@.take(ids.len() as int) =~= ids@);
            let keep = |e: Edge| e.source != handle;
            assert(edges.remove_keys(ids@.to_set()) =~= edges_kept(edges, keep));
            if nodes.contains_key(handle) {
                let id = nodes[handle]@.id;
                let keep_link = |l: LinkView| l.source != id;
                assert forall|e: usize| #[trigger] edges.contains_key(e) implies keep(edges[e])
                    == keep_link(edges[e].link@) by {
                    assert(nodes.contains_key(edges[e].source));
                }
                lemma_edge_links_kept(edges, keep, keep_link);
                assert(self@.links =~= old(self)@.links.filter(keep_link));
            } else {
                assert forall|e: usize| #[trigger] edges.contains_key(e) implies keep(edges[e]) by {
                    assert(nodes.contains_key(edges[e].source));
                }
                assert(edges_kept(edges, keep) =~= edges);
            }
            assert(self@.notes =~= old(self)@.notes);
        }
    }

    /// Adds an edge from the vertex `src` to the vertex `dst` that carries
    /// `link`. Both handles must be in use, and the link must be the one from
    /// the note at `src` to the note at `dst`.
    pub fn add_edge(&mut self, src: usize, dst: usize, link: Link)
        requires
            old(self).wf(),
            old(self).nodes().contains_key(src),
            old(self).nodes().contains_key(dst),
            link@.source == old(self).nodes()[src]@.id,
            link@.dest == old(self).nodes()[dst]@.id,
        ensures
            final(self).wf(),
            final(self)@.notes == old(self)@.notes,
            final(self)@.links == old(self)@.links.insert(link@),
            final(self).handles() == old(self).handles(),
            final(self).nodes() == old(self).nodes(),
    {
        let ghost edges = graph_edges(self.graph);
        let ghost carried = link@;
        let e = graph_add_edge(&mut self.graph, src, dst, link);
        proof {
            lemma_edge_links_insert(edges, e, graph_edges(self.graph)[e]);
            assert(self@.notes =~= old(self)@.notes);
        }
    }

    /// Adds an edge from the vertex `src` for each of `links` whose
    /// destination the graph holds, in order. The links must start at the
    /// note at `src`.
    pub fn add_links(&mut self, src: usize, links: &Vec<Link>)
        requires
            old(self).wf(),
            old(self).nodes().contains_key(src),
            forall|i: int|
                0 <= i < links.len() ==> (#[trigger] links@[i])@.source == old(self).nodes()[src]@.id,
        ensures
            final(self).wf(),
            final(self)@ == old(self)@.add_links(link_views(links@)),
            final(self).handles() == old(self).handles(),
            final(self).nodes() == old(self).nodes(),
    {
        let ghost start = self@;
        let ghost handles = self.handles();
        let ghost nodes = self.nodes();
        let ghost wanted = link_views(links@);
        let mut i: usize = 0;
        assert(wanted.take(0) =~= Seq::<LinkView>::empty());
        while i < links.len()
            invariant
                i <= links.len(),
                self.wf(),
                wanted == link_views(links@),
                nodes.contains_key(src),
                forall|j: int|
                    0 <= j < links.len() ==> (#[trigger] links@[j])@.source == nodes[src]@.id,
                self.handles() == handles,
                self.nodes() == nodes,
                self@.notes == start.notes,
                self@.links == links_added(start.links, wanted.take(i as int), start.notes),
            decreases links.len() - i,
        {
            let link = links[i].clone();
            proof {
                self.lemma_wf();
                assert(wanted.take(i as int + 1).drop_last() =~= wanted.take(i as int));
                assert(wanted.take(i as int + 1).last() == links@[i as int]@);
            }
            match self.lookup(&link.dest) {
                Some(dst) => {
                    self.add_edge(src, dst, link);
                },
                None => {},
            }
            i += 1;
        }
        assert(wanted.take(links.len() as int) =~= wanted);
    }

    /// Brings the graph up to date with a note that has been loaded anew.
    /// The note takes its place in the graph, on the vertex that held it or
    /// on a new one; then the edges that start at it are replaced by one
    /// edge for each of its links whose destination the graph holds.
    pub fn apply_modified(&mut self, z: Zettel)
        requires
            old(self).wf(),
            z@.links_from_self(),
        ensures
            final(self).wf(),
            final(self)@ == old(self)@.upsert(z@),
            final(self).handles().dom() == old(self).handles().dom().insert(z@.id),
            forall|id: Seq<char>| #[trigger]
                old(self).handles().contains_key(id) ==> final(self).handles()[id] == old(
                    self,
                ).handles()[id],
            !old(self).handles().contains_key(z@.id) ==> !old(self).nodes().contains_key(
                final(self).handles()[z@.id],
            ),
            old(self).handles().contains_key(z@.id) ==> final(self).handles() == old(
                self,
            ).handles(),
            final(self).nodes() == old(self).nodes().insert(final(self).handles()[z@.id], z),
    {
        let links = clone_links(&z.links);
        let ghost note = z@;
        let h = self.insert_note(z);
        assert(old(self).handles().contains_key(note.id) ==> self.handles() =~= old(
            self,
        ).handles());
        self.clear_outgoing_edges(h);
        assert forall|i: int| 0 <= i < links.len() implies (#[trigger] links@[i])@.source
            == note.id by {
            assert(link_views(links@)[i] == note.links[i]);
        }
        self.add_links(h, &links);
    }

    /// Brings the graph up to date with a file that is gone: the note that
    /// the path names leaves the graph. Where the path names no note, or
    /// none that the graph holds, nothing changes.
    pub fn apply_removed(&mut self, path: &str)
        requires
            old(self).wf(),
        ensures
            final(self).wf(),
            final(self)@ == old(self)@.remove_path(path@),
            final(self).handles() == handles_without_path(old(self).handles(), path@),
            !names_indexed(old(self).handles(), path@) ==> {
                &&& final(self)@ == old(self)@
                &&& final(self).handles() == old(self).handles()
            },
            forall|id: Seq<char>| #[trigger]
                final(self).handles().contains_key(id) ==> old(self).handles().contains_key(id)
                    && final(self).handles()[id] == old(self).handles()[id],
    {
        proof {
            self.lemma_wf();
        }
        match ZettelId::from_path(path) {
            Ok(id) => {
                let _ = self.remove_note(&id);
            },
            Err(_) => {},
        }
        proof {
            if !names_indexed(old(self).handles(), path@) {
                assert(self.handles() =~= old(self).handles());
            }
        }
    }

    /// The graph of a collection that has just been read: every note is put
    /// into the graph, then every link is added whose destination is among
    /// them. A link to a note that is not part of the collection gives no
    /// edge.
    pub fn ingest(zettels: &Vec<Zettel>) -> (r: ZkGraph)
        requires
            forall|i: int| 0 <= i < zettels.len() ==> (#[trigger] zettels@[i])@.links_from_self(),
        ensures
            r.wf(),
            r@ == GraphView::ingest(zettel_views(zettels@)),
    {
        let mut graph = ZkGraph::new();
        let ghost notes = zettel_views(zettels@);
        let mut i: usize = 0;
        assert(notes.take(0) =~= Seq::<ZettelView>::empty());
        while i < zettels.len()
            invariant
                i <= zettels.len(),
                graph.wf(),
                notes == zettel_views(zettels@),
                graph@ == GraphView::empty().insert_all(notes.take(i as int)),
                forall|j: int| 0 <= j < i ==> graph.handles().contains_key(#[trigger] notes[j].id),
            decreases zettels.len() - i,
        {
            proof {
                assert(notes.take(i as int + 1).drop_last() =~= notes.take(i as int));
                assert(notes.take(i as int + 1).last() == zettels@[i as int]@);
            }
            let _ = graph.insert_note(zettels[i].clone());
            i += 1;
        }
        assert(notes.take(zettels.len() as int) =~= notes);
        let ghost filled = graph@;
        let ghost handles = graph.handles();
        let mut i: usize = 0;
        assert(notes.take(0) =~= Seq::<ZettelView>::empty());
        while i < zettels.len()
            invariant
                i <= zettels.len(),
                graph.wf(),
                notes == zettel_views(zettels@),
                forall|j: int|
                    0 <= j < zettels.len() ==> (#[trigger] zettels@[j])@.links_from_self(),
                graph.handles() == handles,
                forall|j: int|
                    0 <= j < zettels.len() ==> handles.contains_key(#[trigger] notes[j].id),
                graph@ == filled.link_all(notes.take(i as int)),
            decreases zettels.len() - i,
        {
            proof {
                graph.lemma_wf();
                assert(notes.take(i as int + 1).drop_last() =~= notes.take(i as int));
                assert(notes.take(i as int + 1).last() == zettels@[i as int]@);
                assert(handles.contains_key(notes[i as int].id));
                assert(zettels@[i as int]@.links_from_self());
            }
            let z = &zettels[i];
            match graph.lookup(&z.id) {
                Some(src) => {
                    assert forall|j: int| 0 <= j < z.links.len() implies (
                    #[trigger] z.links@[j])@.source == z@.id by {
                        assert(z@.links[j] == z.links@[j]@);
                    }
                    graph.add_links(src, &z.links);
                },
                None => {},
            }
            i += 1;
        }
        assert(notes.take(zettels.len() as int) =~= notes);
        graph
    }
}

/// The notes among the results of loading the files of a collection.
pub open spec fn loaded_of(results: Seq<Result<Zettel, ZkError>>) -> Seq<ZettelView>
    decreases results.len(),
{
    if results.len() == 0 {
        seq![]
    } else {
        match results.last() {
            Ok(z) => loaded_of(results.drop_last()).push(z@),
            Err(_) => loaded_of(results.drop_last()),
        }
    }
}

impl Kasten {
    /// The notes that loaded, in order. A file that failed to load is
    /// passed over: one bad file does not keep the others out.
    pub fn successes(results: &Vec<Result<Zettel, ZkError>>) -> (r: Vec<Zettel>)
        ensures
            zettel_views(r@) == loaded_of(results@),
    {
        let mut out: Vec<Zettel> = Vec::new();
        let mut i: usize = 0;
        assert(zettel_views(out@) =~= Seq::<ZettelView>::empty());
        assert(results@.take(0) =~= Seq::<Result<Zettel, ZkError>>::empty());
        while i < results.len()
            invariant
                i <= results.len(),
                zettel_views(out@) == loaded_of(results@.take(i as int)),
            decreases results.len() - i,
        {
            let ghost before = zettel_views(out@);
            proof {
                assert(results@.take(i as int + 1).drop_last() =~= results@.take(i as int));
                assert(results@.take(i as int + 1).last() == results@[i as int]);
            }
            match &results[i] {
                Ok(z) => {
                    out.push(z.clone());
                    assert(zettel_views(out@) =~= before.push(z@));
                },
                Err(_) => {},
            }
            i += 1;
        }
        assert(results@.take(results.len() as int) =~= results@);
        out
    }

    /// The name of the collection in the directory `path`.
    pub fn name_from_path(path: &str) -> (name: String)
        ensures
            name@ == kasten_name(path@),
    {
        let last = file_name_of(&chars_of(path));
        if is_file_name(&last) {
            string_of(&last)
        } else {
            proof {
                reveal_strlit("ZettleKasten");
                assert("ZettleKasten"@ =~= default_name());
            }
            "ZettleKasten".to_owned()
        }
    }

    /// The collection in the directory `dest`, without notes. Its identifier
    /// is generated; its name is the last component of `dest`.
    pub fn new(dest: &str) -> (r: Kasten)
        ensures
            r.graph.wf(),
            r.graph@ == GraphView::empty(),
            r.name@ == kasten_name(dest@),
            is_generated_id(r.id@),
    {
        Kasten { id: ZettelId::generate(), name: Kasten::name_from_path(dest), graph: ZkGraph::new() }
    }

    /// The collection that has just been read from the directory `root`,
    /// with the graph of its notes: see [`ZkGraph::ingest`].
    pub fn parse(root: &str, zettels: &Vec<Zettel>) -> (r: Kasten)
        requires
            forall|i: int| 0 <= i < zettels.len() ==> (#[trigger] zettels@[i])@.links_from_self(),
        ensures
            r.graph.wf(),
            r.graph@ == GraphView::ingest(zettel_views(zettels@)),
            r.name@ == kasten_name(root@),
            is_generated_id(r.id@),
    {
        Kasten {
            id: ZettelId::generate(),
            name: Kasten::name_from_path(root),
            graph: ZkGraph::ingest(zettels),
        }
    }
}

} // verus!
