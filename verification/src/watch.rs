//! Keeping the graph in step with the files: what a change in the file
//! system means for the graph of a collection, and which collection is
//! watched.

use vstd::prelude::*;
use crate::id::ZettelId;
use crate::kasten::{handles_without_paths, names_indexed, Kasten};
use crate::text::string_views;
use crate::zettel::{same_text, Zettel};

verus! {

/// The kinds of change that the file system reports.
#[derive(Clone, Copy, Debug, PartialEq, Eq, Hash)]
pub enum ChangeKind {
    /// A file has appeared.
    Created,
    /// The contents of a file have changed.
    ModifiedData,
    /// A file has another name now.
    ModifiedName,
    /// A file is gone.
    Removed,
    /// Anything else.
    Other,
}

/// A change that the file system reports, with the paths that it touches.
pub struct ChangeEvent {
    pub kind: ChangeKind,
    pub paths: Vec<String>,
}

/// What a change means for the graph.
#[derive(Clone, Copy, Debug, PartialEq, Eq, Hash)]
pub enum EventClass {
    /// The files at the paths are gone: their notes leave the graph.
    Removal,
    /// The files at the paths have new contents: their notes are loaded anew.
    Modification,
    /// Nothing.
    Ignored,
}

/// What is left to do outside once the graph has taken note of a change.
pub enum WatchAction {
    /// Load the notes of the files at these paths, and hand each one that
    /// loads to [`Kasten::loaded`]. A file that does not load is passed over:
    /// what the graph holds of it stays.
    Reload(Vec<String>),
    /// Nothing.
    Nothing,
}

/// What a kind of change means for the graph. A file that is gone or has
/// been renamed away is a removal; new contents are a modification; the rest
/// is ignored.
pub open spec fn class_of(kind: ChangeKind) -> EventClass {
    match kind {
        ChangeKind::Removed => EventClass::Removal,
        ChangeKind::ModifiedName => EventClass::Removal,
        ChangeKind::ModifiedData => EventClass::Modification,
        ChangeKind::Created => EventClass::Ignored,
        ChangeKind::Other => EventClass::Ignored,
    }
}

impl ChangeKind {
    /// What this kind of change means for the graph.
    pub fn classify(self) -> (r: EventClass)
        ensures
            r == class_of(self),
    {
        match self {
            ChangeKind::Removed => EventClass::Removal,
            ChangeKind::ModifiedName => EventClass::Removal,
            ChangeKind::ModifiedData => EventClass::Modification,
            ChangeKind::Created => EventClass::Ignored,
            ChangeKind::Other => EventClass::Ignored,
        }
    }
}

impl Kasten {
    /// Takes note of one change in the file system. A removal is carried out
    /// at once, path by path. A modification changes nothing yet: the notes
    /// have to be loaded first. Any other change is ignored.
    pub fn watch(&mut self, event: &ChangeEvent) -> (action: WatchAction)
        requires
            old(self).graph.wf(),
        ensures
            final(self).graph.wf(),
            final(self).id == old(self).id,
            final(self).name == old(self).name,
            class_of(event.kind) == EventClass::Removal ==> {
                &&& final(self).graph@ == old(self).graph@.remove_paths(string_views(event.paths@))
                &&& final(self).graph.handles() == handles_without_paths(
                    old(self).graph.handles(),
                    string_views(event.paths@),
                )
                &&& action is Nothing
            },
            class_of(event.kind) != EventClass::Removal ==> {
                &&& final(self).graph@ == old(self).graph@
                &&& final(self).graph.handles() == old(self).graph.handles()
                &&& final(self).graph.nodes() == old(self).graph.nodes()
            },
            (forall|i: int|
                0 <= i < event.paths.len() ==> !names_indexed(
                    old(self).graph.handles(),
                    #[trigger] event.paths@[i]@,
                )) ==> final(self).graph@ == old(self).graph@ && final(self).graph.handles()
                == old(self).graph.handles(),
            class_of(event.kind) == EventClass::Modification ==> (
            action matches WatchAction::Reload(paths) && string_views(paths@) == string_views(
                event.paths@,
            )),
            class_of(event.kind) == EventClass::Ignored ==> action is Nothing,
            forall|id: Seq<char>| #[trigger]
                final(self).graph.handles().contains_key(id) ==> old(self).graph.handles().contains_key(
                    id,
                ) && final(self).graph.handles()[id] == old(self).graph.handles()[id],
    {
        match event.kind.classify() {
            EventClass::Removal => {
                let ghost gone = string_views(event.paths@);
                let ghost start = self.graph@;
                let ghost index = self.graph.handles();
                let mut i: usize = 0;
                assert(gone.take(0) =~= Seq::<Seq<char>>::empty());
                while i < event.paths.len()
                    invariant
                        i <= event.paths.len(),
                        gone == string_views(event.paths@),
                        self.graph.wf(),
                        self.graph@ == start.remove_paths(gone.take(i as int)),
                        self.graph.handles() == handles_without_paths(index, gone.take(i as int)),
                        (forall|k: int|
                            0 <= k < i ==> !names_indexed(index, #[trigger] event.paths@[k]@))
                            ==> self.graph@ == start && self.graph.handles() == index,
                        forall|id: Seq<char>| #[trigger]
                            self.graph.handles().contains_key(id) ==> index.contains_key(id)
                                && self.graph.handles()[id] == index[id],
                        self.id == old(self).id,
                        self.name == old(self).name,
                    decreases event.paths.len() - i,
                {
                    proof {
                        assert(gone.take(i as int + 1).drop_last() =~= gone.take(i as int));
                        assert(gone.take(i as int + 1).last() == event.paths@[i as int]@);
                    }
                    let ghost index_now = self.graph.handles();
                    proof {
                        self.graph.lemma_wf();
                    }
                    self.graph.apply_removed(event.paths[i].as_str());
                    proof {
                        if !names_indexed(index_now, event.paths@[i as int]@) {
                            assert(self.graph.handles() =~= index_now);
                        }
                    }
                    i += 1;
                }
                assert(gone.take(event.paths.len() as int) =~= gone);
                WatchAction::Nothing
            },
            EventClass::Modification => {
                let mut paths: Vec<String> = Vec::new();
                let mut i: usize = 0;
                while i < event.paths.len()
                    invariant
                        i <= event.paths.len(),
                        paths.len() == i,
                        forall|k: int| 0 <= k < i ==> (#[trigger] paths@[k])@ == event.paths@[k]@,
                    decreases event.paths.len() - i,
                {
                    paths.push(event.paths[i].clone());
                    i += 1;
                }
                assert(string_views(paths@) =~= string_views(event.paths@));
                WatchAction::Reload(paths)
            },
            EventClass::Ignored => WatchAction::Nothing,
        }
    }

    /// Takes note of a note that has been loaded anew after a modification:
    /// the note takes its place in the graph, and the edges that start at it
    /// are made anew from its links.
    pub fn loaded(&mut self, z: Zettel)
        requires
            old(self).graph.wf(),
            z@.links_from_self(),
        ensures
            final(self).graph.wf(),
            final(self).graph@ == old(self).graph@.upsert(z@),
            final(self).graph.handles().dom() == old(self).graph.handles().dom().insert(z@.id),
            forall|id: Seq<char>| #[trigger]
                old(self).graph.handles().contains_key(id) ==> final(self).graph.handles()[id]
                    == old(self).graph.handles()[id],
            !old(self).graph.handles().contains_key(z@.id) ==> !old(
                self,
            ).graph.nodes().contains_key(final(self).graph.handles()[z@.id]),
            old(self).graph.handles().contains_key(z@.id) ==> final(self).graph.handles() == old(
                self,
            ).graph.handles(),
            final(self).graph.nodes() == old(self).graph.nodes().insert(
                final(self).graph.handles()[z@.id],
                z,
            ),
            final(self).id == old(self).id,
            final(self).name == old(self).name,
    {
        self.graph.apply_modified(z);
    }
}

/// What to do about the watches when a collection has been chosen.
#[derive(Clone, Copy, Debug, PartialEq, Eq, Hash)]
pub enum WatchDecision {
    /// The collection is watched already.
    Keep,
    /// Nothing is watched: start a watch on the collection.
    Start,
    /// Another collection is watched: end that watch, then start one on
    /// the collection.
    Replace,
}

/// Which collection is watched. At most one is at any time.
pub struct WatchSupervisor {
    current: Option<ZettelId>,
}

impl View for WatchSupervisor {
    type V = Option<Seq<char>>;

    closed spec fn view(&self) -> Option<Seq<char>> {
        match self.current {
            Some(id) => Some(id@),
            None => None,
        }
    }
}

impl WatchSupervisor {
    /// A supervisor that watches nothing.
    pub fn new() -> (r: WatchSupervisor)
        ensures
            r@ is None,
    {
        WatchSupervisor { current: None }
    }

    /// Makes the collection `id` the watched one, and says what that takes.
    pub fn select(&mut self, id: &ZettelId) -> (r: WatchDecision)
        ensures
            final(self)@ == Some(id@),
            r == (match old(self)@ {
                None => WatchDecision::Start,
                Some(watched) => if watched == id@ {
                    WatchDecision::Keep
                } else {
                    WatchDecision::Replace
                },
            }),
    {
        let decision = match &self.current {
            None => WatchDecision::Start,
            Some(watched) => {
                if same_text(watched.as_str(), id.as_str()) {
                    WatchDecision::Keep
                } else {
                    WatchDecision::Replace
                }
            },
        };
        self.current = Some(id.clone());
        decision
    }
}

} // verus!
