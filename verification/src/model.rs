//! The link graph as mathematics: the notes by identifier and the links as a
//! multiset, the operations on them, and what holds of those operations.

use vstd::prelude::*;
use vstd::multiset::Multiset;
use crate::graph::Edge;
use crate::id::id_of_path;
use crate::link::LinkView;
use crate::zettel::ZettelView;

verus! {

/// The state of a link graph: each note under its identifier, and the links
/// between notes, each as often as an edge carries it.
pub struct GraphView {
    pub notes: Map<Seq<char>, ZettelView>,
    pub links: Multiset<LinkView>,
}

/// `base` with those of `links` added whose destination is among `notes`.
pub open spec fn links_added(
    base: Multiset<LinkView>,
    links: Seq<LinkView>,
    notes: Map<Seq<char>, ZettelView>,
) -> Multiset<LinkView>
    decreases links.len(),
{
    if links.len() == 0 {
        base
    } else if notes.contains_key(links.last().dest) {
        links_added(base, links.drop_last(), notes).insert(links.last())
    } else {
        links_added(base, links.drop_last(), notes)
    }
}

impl GraphView {
    /// The graph without notes.
    pub open spec fn empty() -> GraphView {
        GraphView { notes: Map::empty(), links: Multiset::empty() }
    }

    /// Whether every note stands under its own identifier and every link
    /// joins two notes of the graph.
    pub open spec fn wf(self) -> bool {
        &&& forall|id: Seq<char>| #[trigger]
            self.notes.contains_key(id) ==> self.notes[id].id == id
        &&& forall|l: LinkView| #[trigger]
            self.links.count(l) > 0 ==> self.notes.contains_key(l.source)
                && self.notes.contains_key(l.dest)
    }

    /// The graph with `z` under its identifier, in place of the note that
    /// stood there, if one did. The links stay.
    pub open spec fn insert_note(self, z: ZettelView) -> GraphView {
        GraphView { notes: self.notes.insert(z.id, z), links: self.links }
    }

    /// The graph without the note `id` and without the links that start or
    /// end at it. Where no such note stands the graph is unchanged.
    pub open spec fn remove_note(self, id: Seq<char>) -> GraphView {
        if self.notes.contains_key(id) {
            GraphView {
                notes: self.notes.remove(id),
                links: self.links.filter(|l: LinkView| l.source != id && l.dest != id),
            }
        } else {
            self
        }
    }

    /// The graph without the links that start at `id`.
    pub open spec fn clear_outgoing(self, id: Seq<char>) -> GraphView {
        GraphView { notes: self.notes, links: self.links.filter(|l: LinkView| l.source != id) }
    }

    /// The graph with one more edge for each of `links` whose destination is
    /// a note of the graph.
    pub open spec fn add_links(self, links: Seq<LinkView>) -> GraphView {
        GraphView { notes: self.notes, links: links_added(self.links, links, self.notes) }
    }

    /// The graph after a note has been loaded anew: the note stands under its
    /// identifier, and the links that start at it are those of its own links
    /// whose destination is a note of the graph.
    pub open spec fn upsert(self, z: ZettelView) -> GraphView {
        self.insert_note(z).clear_outgoing(z.id).add_links(z.links)
    }

    /// The graph with each of `notes` inserted, in order.
    pub open spec fn insert_all(self, notes: Seq<ZettelView>) -> GraphView
        decreases notes.len(),
    {
        if notes.len() == 0 {
            self
        } else {
            self.insert_all(notes.drop_last()).insert_note(notes.last())
        }
    }

    /// The graph with the links of each of `notes` added, in order.
    pub open spec fn link_all(self, notes: Seq<ZettelView>) -> GraphView
        decreases notes.len(),
    {
        if notes.len() == 0 {
            self
        } else {
            self.link_all(notes.drop_last()).add_links(notes.last().links)
        }
    }

    /// The graph of a collection that has just been read: first every note is
    /// inserted, then every link is added whose destination is one of them.
    pub open spec fn ingest(notes: Seq<ZettelView>) -> GraphView {
        GraphView::empty().insert_all(notes).link_all(notes)
    }

    /// The graph after the file at `path` is gone: without the note that the
    /// path names, if it names one.
    pub open spec fn remove_path(self, path: Seq<char>) -> GraphView {
        match id_of_path(path) {
            Ok(id) => self.remove_note(id),
            Err(_) => self,
        }
    }

    /// The graph after the files at `paths` are gone.
    pub open spec fn remove_paths(self, paths: Seq<Seq<char>>) -> GraphView
        decreases paths.len(),
    {
        if paths.len() == 0 {
            self
        } else {
            self.remove_paths(paths.drop_last()).remove_path(paths.last())
        }
    }
}

/// The links that the edges of a graph carry, each as often as an edge
/// carries it.
pub open spec fn edge_links(edges: Map<usize, Edge>) -> Multiset<LinkView>
    decreases edges.dom().len(),
    when edges.dom().finite()
{
    if edges.dom().len() == 0 {
        Multiset::empty()
    } else {
        let e = edges.dom().choose();
        edge_links(edges.remove(e)).insert(edges[e].link@)
    }
}

/// The edges that satisfy `keep`.
pub open spec fn edges_kept(edges: Map<usize, Edge>, keep: spec_fn(Edge) -> bool) -> Map<
    usize,
    Edge,
> {
    Map::new(|e: usize| edges.contains_key(e) && keep(edges[e]), |e: usize| edges[e])
}

/// The links of a graph can be counted from any edge: those of the other
/// edges, and the link of that edge once more.
pub proof fn lemma_edge_links_remove(edges: Map<usize, Edge>, e: usize)
    requires
        edges.dom().finite(),
        edges.contains_key(e),
    ensures
        edge_links(edges) == edge_links(edges.remove(e)).insert(edges[e].link@),
    decreases edges.dom().len(),
{
    let c = edges.dom().choose();
    if c != e {
        let rest = edges.remove(c).remove(e);
        lemma_edge_links_remove(edges.remove(c), e);
        lemma_edge_links_remove(edges.remove(e), c);
        assert(edges.remove(e).remove(c) =~= rest);
        assert(edge_links(rest).insert(edges[e].link@).insert(edges[c].link@) =~= edge_links(
            rest,
        ).insert(edges[c].link@).insert(edges[e].link@));
    }
}

/// A new edge adds its link once.
pub proof fn lemma_edge_links_insert(edges: Map<usize, Edge>, e: usize, edge: Edge)
    requires
        edges.dom().finite(),
        !edges.contains_key(e),
    ensures
        edge_links(edges.insert(e, edge)) == edge_links(edges).insert(edge.link@),
{
    lemma_edge_links_remove(edges.insert(e, edge), e);
    assert(edges.insert(e, edge).remove(e) =~= edges);
}

/// Keeping the edges that satisfy `keep` keeps the links that satisfy
/// `keep_link`, where the two agree on every edge.
pub proof fn lemma_edge_links_kept(
    edges: Map<usize, Edge>,
    keep: spec_fn(Edge) -> bool,
    keep_link: spec_fn(LinkView) -> bool,
)
    requires
        edges.dom().finite(),
        forall|e: usize| #[trigger] edges.contains_key(e) ==> keep(edges[e]) == keep_link(edges[e].link@),
    ensures
        edges_kept(edges, keep).dom().finite(),
        edge_links(edges_kept(edges, keep)) == edge_links(edges).filter(keep_link),
    decreases edges.dom().len(),
{
    if edges.dom().len() == 0 {
        assert(edges_kept(edges, keep) =~= edges);
        assert(edge_links(edges).filter(keep_link) =~= edge_links(edges));
    } else {
        let c = edges.dom().choose();
        let rest = edges.remove(c);
        lemma_edge_links_kept(rest, keep, keep_link);
        lemma_edge_links_remove(edges, c);
        let link = edges[c].link@;
        assert(edges.contains_key(c));
        if keep(edges[c]) {
            assert(edges_kept(edges, keep) =~= edges_kept(rest, keep).insert(c, edges[c]));
            lemma_edge_links_insert(edges_kept(rest, keep), c, edges[c]);
            assert(edge_links(rest).insert(link).filter(keep_link) =~= edge_links(rest).filter(
                keep_link,
            ).insert(link));
        } else {
            assert(edges_kept(edges, keep) =~= edges_kept(rest, keep));
            assert(edge_links(rest).insert(link).filter(keep_link) =~= edge_links(rest).filter(
                keep_link,
            ));
        }
    }
}

/// A graph has as many links as edges.
pub proof fn lemma_edge_links_len(edges: Map<usize, Edge>)
    requires
        edges.dom().finite(),
    ensures
        edge_links(edges).len() == edges.dom().len(),
    decreases edges.dom().len(),
{
    if edges.dom().len() > 0 {
        let c = edges.dom().choose();
        lemma_edge_links_len(edges.remove(c));
    }
}

/// The links of the edges in a list that names every edge once.
pub open spec fn listed_links(edges: Map<usize, Edge>, ids: Seq<usize>) -> Seq<LinkView> {
    Seq::new(ids.len(), |k: int| edges[ids[k]].link@)
}

/// Where a list names every edge of a graph once, the links of the graph
/// are the links of the listed edges.
pub proof fn lemma_edge_links_listed(edges: Map<usize, Edge>, ids: Seq<usize>)
    requires
        edges.dom().finite(),
        ids.no_duplicates(),
        forall|e: usize| ids.contains(e) <==> edges.contains_key(e),
    ensures
        edge_links(edges) == listed_links(edges, ids).to_multiset(),
    decreases ids.len(),
{
    broadcast use vstd::seq_lib::group_to_multiset_ensures;

    if ids.len() == 0 {
        if edges.dom().len() > 0 {
            let c = edges.dom().choose();
            assert(edges.contains_key(c));
            assert(ids.contains(c));
        }
        assert(listed_links(edges, ids) =~= Seq::<LinkView>::empty());
    } else {
        let last = ids.last();
        let front = ids.drop_last();
        let rest = edges.remove(last);
        assert(ids.contains(last));
        assert forall|e: usize| front.contains(e) <==> rest.contains_key(e) by {
            if front.contains(e) {
                let k = choose|k: int| 0 <= k < front.len() && front[k] == e;
                assert(ids[k] == e);
                assert(ids.contains(e));
            }
            if rest.contains_key(e) {
                assert(ids.contains(e));
                let k = choose|k: int| 0 <= k < ids.len() && ids[k] == e;
                assert(front[k] == e);
            }
        }
        lemma_edge_links_listed(rest, front);
        lemma_edge_links_remove(edges, last);
        assert(listed_links(rest, front) =~= listed_links(edges, ids).drop_last());
        assert(listed_links(edges, ids) =~= listed_links(edges, ids).drop_last().push(
            edges[last].link@,
        ));
    }
}

/// Adding links to a multiset is adding them to the empty multiset and
/// joining the two.
pub proof fn lemma_links_added_split(
    base: Multiset<LinkView>,
    links: Seq<LinkView>,
    notes: Map<Seq<char>, ZettelView>,
)
    ensures
        links_added(base, links, notes) == base.add(links_added(Multiset::empty(), links, notes)),
    decreases links.len(),
{
    if links.len() == 0 {
        assert(base.add(Multiset::empty()) =~= base);
    } else {
        lemma_links_added_split(base, links.drop_last(), notes);
        let part = links_added(Multiset::empty(), links.drop_last(), notes);
        assert(base.add(part).insert(links.last()) =~= base.add(part.insert(links.last())));
    }
}

/// Which links an addition holds: those of the base, and those of `links`
/// whose destination is among the notes.
pub proof fn lemma_links_added_count(
    base: Multiset<LinkView>,
    links: Seq<LinkView>,
    notes: Map<Seq<char>, ZettelView>,
    l: LinkView,
)
    ensures
        links_added(base, links, notes).count(l) >= base.count(l),
        links_added(base, links, notes).count(l) > base.count(l) <==> (notes.contains_key(l.dest)
            && links.contains(l)),
    decreases links.len(),
{
    if links.len() > 0 {
        let front = links.drop_last();
        lemma_links_added_count(base, front, notes, l);
        if links.contains(l) {
            let i = choose|i: int| 0 <= i < links.len() && links[i] == l;
            if i < links.len() - 1 {
                assert(front[i] == l);
            }
        }
        if front.contains(l) {
            let i = choose|i: int| 0 <= i < front.len() && front[i] == l;
            assert(links[i] == l);
        }
        assert(links[links.len() - 1] == links.last());
    }
}

/// Inserting notes leaves the links alone, and the notes of the result are
/// those that stood before and those inserted.
pub proof fn lemma_insert_all(m: GraphView, notes: Seq<ZettelView>)
    ensures
        m.insert_all(notes).links == m.links,
        forall|id: Seq<char>|
            m.insert_all(notes).notes.contains_key(id) <==> (m.notes.contains_key(id) || exists|
                i: int,
            |
                0 <= i < notes.len() && (#[trigger] notes[i]).id == id),
    decreases notes.len(),
{
    if notes.len() > 0 {
        let front = notes.drop_last();
        lemma_insert_all(m, front);
        assert forall|id: Seq<char>|
            m.insert_all(notes).notes.contains_key(id) <==> (m.notes.contains_key(id) || exists|
                i: int,
            |
                0 <= i < notes.len() && (#[trigger] notes[i]).id == id) by {
            let before = m.insert_all(front).notes;
            assert(m.insert_all(notes).notes == before.insert(notes.last().id, notes.last()));
            assert(before.contains_key(id) <==> (m.notes.contains_key(id) || exists|i: int|
                0 <= i < front.len() && (#[trigger] front[i]).id == id));
            if m.insert_all(notes).notes.contains_key(id) {
                if id == notes.last().id {
                    assert(notes[notes.len() - 1].id == id);
                } else if !m.notes.contains_key(id) {
                    assert(before.contains_key(id));
                    let i = choose|i: int| 0 <= i < front.len() && (#[trigger] front[i]).id == id;
                    assert(notes[i].id == id);
                }
            }
            if exists|i: int| 0 <= i < notes.len() && (#[trigger] notes[i]).id == id {
                let i = choose|i: int| 0 <= i < notes.len() && (#[trigger] notes[i]).id == id;
                if i < notes.len() - 1 {
                    assert(front[i].id == id);
                    assert(before.contains_key(id));
                } else {
                    assert(id == notes.last().id);
                }
            }
        }
    }
}

/// Adding the links of notes leaves the notes alone, and the links of the
/// result are those that stood before and those links of the notes whose
/// destination is a note of the graph.
pub proof fn lemma_link_all(m: GraphView, notes: Seq<ZettelView>, l: LinkView)
    ensures
        m.link_all(notes).notes == m.notes,
        m.link_all(notes).links.count(l) >= m.links.count(l),
        m.link_all(notes).links.count(l) > m.links.count(l) <==> (m.notes.contains_key(l.dest)
            && exists|i: int| 0 <= i < notes.len() && (#[trigger] notes[i]).links.contains(l)),
    decreases notes.len(),
{
    if notes.len() > 0 {
        let front = notes.drop_last();
        lemma_link_all(m, front, l);
        let before = m.link_all(front);
        lemma_links_added_count(before.links, notes.last().links, before.notes, l);
        if exists|i: int| 0 <= i < notes.len() && (#[trigger] notes[i]).links.contains(l) {
            let i = choose|i: int| 0 <= i < notes.len() && (#[trigger] notes[i]).links.contains(l);
            if i < notes.len() - 1 {
                assert(front[i].links.contains(l));
            }
        }
        if exists|i: int| 0 <= i < front.len() && (#[trigger] front[i]).links.contains(l) {
            let i = choose|i: int| 0 <= i < front.len() && (#[trigger] front[i]).links.contains(l);
            assert(notes[i].links.contains(l));
        }
        assert(notes[notes.len() - 1] == notes.last());
    }
}

/// After a collection has been read, the notes of the graph are the notes
/// read, by identifier; every link of a note whose destination is one of
/// them is in the graph; and the graph holds no other link: a link to an
/// identifier outside the collection gives no edge.
pub proof fn lemma_ingest_links(notes: Seq<ZettelView>)
    ensures
        forall|id: Seq<char>|
            GraphView::ingest(notes).notes.contains_key(id) <==> exists|i: int|
                0 <= i < notes.len() && (#[trigger] notes[i]).id == id,
        forall|i: int, j: int|
            0 <= i < notes.len() && 0 <= j < notes[i].links.len() && GraphView::ingest(
                notes,
            ).notes.contains_key(notes[i].links[j].dest) ==> GraphView::ingest(notes).links.count(
                #[trigger] notes[i].links[j],
            ) > 0,
        forall|l: LinkView| #[trigger]
            GraphView::ingest(notes).links.count(l) > 0 ==> GraphView::ingest(
                notes,
            ).notes.contains_key(l.dest) && exists|i: int|
                0 <= i < notes.len() && (#[trigger] notes[i]).links.contains(l),
{
    let filled = GraphView::empty().insert_all(notes);
    lemma_insert_all(GraphView::empty(), notes);
    assert forall|i: int, j: int|
        0 <= i < notes.len() && 0 <= j < notes[i].links.len() && GraphView::ingest(
            notes,
        ).notes.contains_key(notes[i].links[j].dest) implies GraphView::ingest(notes).links.count(
        #[trigger] notes[i].links[j],
    ) > 0 by {
        let l = notes[i].links[j];
        lemma_link_all(filled, notes, l);
        assert(notes[i].links.contains(l));
    }
    assert forall|l: LinkView| #[trigger]
        GraphView::ingest(notes).links.count(l) > 0 implies GraphView::ingest(
        notes,
    ).notes.contains_key(l.dest) && exists|i: int|
        0 <= i < notes.len() && (#[trigger] notes[i]).links.contains(l) by {
        lemma_link_all(filled, notes, l);
    }
    assert forall|id: Seq<char>|
        GraphView::ingest(notes).notes.contains_key(id) <==> exists|i: int|
            0 <= i < notes.len() && (#[trigger] notes[i]).id == id by {
        lemma_link_all(filled, notes, LinkView { source: id, dest: id });
        assert(filled.notes.contains_key(id) <==> (GraphView::empty().notes.contains_key(id)
            || exists|i: int| 0 <= i < notes.len() && (#[trigger] notes[i]).id == id));
    }
}

/// Loading a note that the graph has not seen adds exactly one note, under
/// its identifier. The links that start at it are then those of its own links
/// whose destination is a note of the graph, and no others; the links that
/// start elsewhere are as before.
pub proof fn lemma_upsert_unseen(m: GraphView, z: ZettelView, l: LinkView)
    requires
        m.wf(),
        z.links_from_self(),
        !m.notes.contains_key(z.id),
    ensures
        m.upsert(z).notes == m.notes.insert(z.id, z),
        m.upsert(z).notes.dom() == m.notes.dom().insert(z.id),
        l.source == z.id ==> (m.upsert(z).links.count(l) > 0 <==> (z.links.contains(l)
            && m.upsert(z).notes.contains_key(l.dest))),
        l.source != z.id ==> m.upsert(z).links.count(l) == m.links.count(l),
{
    let cleared = m.insert_note(z).clear_outgoing(z.id);
    lemma_links_added_count(cleared.links, z.links, cleared.notes, l);
    assert(m.upsert(z).notes.dom() =~= m.notes.dom().insert(z.id));
    if z.links.contains(l) {
        let j = choose|j: int| 0 <= j < z.links.len() && z.links[j] == l;
        assert(z.links[j].source == z.id);
    }
}

/// Loading the same note twice in a row leaves the graph as loading it once
/// does.
pub proof fn lemma_upsert_idempotent(m: GraphView, z: ZettelView)
    requires
        z.links_from_self(),
    ensures
        m.upsert(z).upsert(z) == m.upsert(z),
{
    let once = m.upsert(z);
    let twice = once.upsert(z);
    let notes = m.notes.insert(z.id, z);
    let cleared = m.links.filter(|l: LinkView| l.source != z.id);
    let added = links_added(Multiset::empty(), z.links, notes);
    assert(once.notes == notes);
    assert(once.notes.insert(z.id, z) =~= notes);
    lemma_links_added_split(cleared, z.links, notes);
    assert(once.links == cleared.add(added));
    let cleared_again = once.links.filter(|l: LinkView| l.source != z.id);
    lemma_links_added_split(cleared_again, z.links, notes);
    assert forall|l: LinkView| cleared_again.count(l) == cleared.count(l) by {
        lemma_links_added_count(Multiset::empty(), z.links, notes, l);
        if z.links.contains(l) {
            let j = choose|j: int| 0 <= j < z.links.len() && z.links[j] == l;
            assert(z.links[j].source == z.id);
        }
    }
    assert(cleared_again =~= cleared);
    assert(twice.notes == once.notes);
    assert(twice.links == once.links);
}

/// Removing a note that the graph does not hold changes nothing.
pub proof fn lemma_remove_absent(m: GraphView, id: Seq<char>)
    requires
        !m.notes.contains_key(id),
    ensures
        m.remove_note(id) == m,
{
}

/// A file that goes away changes nothing where its path names no note of the
/// graph: because the path names no note at all, or one that the graph does
/// not hold.
pub proof fn lemma_remove_path_absent(m: GraphView, path: Seq<char>)
    requires
        id_of_path(path) is Ok ==> !m.notes.contains_key(id_of_path(path)->Ok_0),
    ensures
        m.remove_path(path) == m,
{
}

} // verus!
