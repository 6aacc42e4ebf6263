//! The note loader: from the path of a file to the note that it holds. The
//! loader reads nothing itself. It is driven from outside, one event at a
//! time, and answers each event with the next thing to do: read the file,
//! fetch the record of the note, look up the tags of the declared names that
//! need an association, change the store, look up the link candidates. A
//! failure of any stage ends the load, and no note is made.

use vstd::prelude::*;
use crate::error::ZkError;
use crate::frontmatter::{parse_header, FrontMatter, FrontMatterView};
use crate::id::{id_of_path, is_generated_id, ZettelId};
use crate::reconcile::{
    created_color, is_sorted, names_of, reconcile, stored_views, ReconcilePlan,
};
use crate::tag::StoredTagView;
use crate::resolver::{
    candidates, join_path, joined, lemma_resolved_from_source, link_candidates,
    link_destinations, option_views, resolve_links, resolved,
};
use crate::tag::{StoredTag, Tag, TagView};
use crate::text::{chars_of, string_views};
use crate::zettel::{same_text, tag_views, Zettel, ZettelView};

verus! {

/// The record that the metadata store holds of a note, with the tags that it
/// associates with the note.
pub struct StoredZettel {
    /// The key that the store gave the record.
    pub id: i32,
    /// The identifier of the note.
    pub nanoid: String,
    pub title: String,
    pub tags: Vec<StoredTag>,
}

/// A note whose file has been read, before its tags and links are known.
pub struct Draft {
    pub path: String,
    /// The directory of the collection.
    pub root: String,
    pub id: ZettelId,
    pub front_matter: FrontMatter,
    pub content: String,
}

/// What a draft holds, as mathematical values.
pub struct DraftView {
    pub path: Seq<char>,
    pub root: Seq<char>,
    pub id: Seq<char>,
    pub front_matter: FrontMatterView,
    pub content: Seq<char>,
}

impl View for Draft {
    type V = DraftView;

    open spec fn view(&self) -> DraftView {
        DraftView {
            path: self.path@,
            root: self.root@,
            id: self.id@,
            front_matter: self.front_matter@,
            content: self.content@,
        }
    }
}

/// The changes that the store has to make for one note.
pub struct StorePlan {
    /// The key of the note's record.
    pub record: i32,
    /// The identifier of the note.
    pub zettel: String,
    /// The tags whose association with the note is to be deleted. The tags
    /// themselves stay.
    pub removed: Vec<StoredTag>,
    /// The tags that the store holds already and that are to be associated
    /// with the note.
    pub associated: Vec<StoredTag>,
    /// The tags to insert, each with an association between it and the note.
    pub created: Vec<StoredTag>,
    /// The title to record, where it differs from the recorded one.
    pub retitle: Option<String>,
}

/// Where a load stands.
pub enum LoadState {
    /// The file is being read.
    Reading { path: String, root: String, id: ZettelId },
    /// The record of the note is being fetched. `inserted` says that the
    /// record was missing and has been inserted.
    Fetching { draft: Draft, inserted: bool },
    /// The tags of the declared names that need an association are being
    /// looked up by name.
    Matching { draft: Draft, record: StoredZettel, decided: ReconcilePlan },
    /// The store is making its changes.
    Storing { draft: Draft, tags: Vec<Tag> },
    /// The link candidates are being looked up.
    Resolving { draft: Draft, tags: Vec<Tag> },
    /// The note is loaded.
    Done(Zettel),
    /// The load has failed.
    Failed(ZkError),
}

/// What has happened outside.
pub enum LoadEvent {
    /// The file has been read; these are its contents.
    FileRead(String),
    /// The file could not be read; this is the report.
    FileFailed(String),
    /// The store has answered the request for the record of the note.
    Record(Option<StoredZettel>),
    /// The store has looked the names up: for each name asked for, in order,
    /// the tag of that name, or `None` where it holds none.
    TagsFound(Vec<Option<StoredTag>>),
    /// The store has made the changes asked for.
    Stored,
    /// The store has failed; this is the report.
    StoreFailed(String),
    /// The candidates have been looked up: for each the canonical path of
    /// the file, or `None` where there is no such file.
    Canonical(Vec<Option<String>>),
}

/// What to do next.
pub enum LoadAction {
    /// Read the file at this path.
    ReadFile(String),
    /// Fetch the record of the note with this identifier, with its tags.
    FetchRecord(String),
    /// Insert a record for the note with this identifier and title, then
    /// fetch it.
    InsertRecord { nanoid: String, title: String },
    /// Look up the tag of each of these names in the store.
    FindTags(Vec<String>),
    /// Make these changes in the store.
    Store(StorePlan),
    /// Look up the canonical path of each of these files.
    Canonicalize(Vec<String>),
    /// Nothing: the note is loaded.
    Finish,
    /// Nothing: the load has failed.
    Fail,
    /// Nothing: the event does not belong to the state of the load.
    Ignore,
}

/// The report of a load whose record is missing from the store although it
/// has just been inserted.
pub open spec fn missing_record_report() -> Seq<char> {
    seq!['r', 'e', 'c', 'o', 'r', 'd', ' ', 'm', 'i', 's', 's', 'i', 'n', 'g']
}

/// The report of a load for which the store looked up another number of
/// names than it was asked for.
pub open spec fn missing_tags_report() -> Seq<char> {
    seq!['t', 'a', 'g', 's', ' ', 'm', 'i', 's', 's', 'i', 'n', 'g']
}

/// What a vector of looked-up tags holds, as mathematical values.
pub open spec fn found_views(v: Seq<Option<StoredTag>>) -> Seq<Option<StoredTagView>> {
    Seq::new(
        v.len(),
        |i: int|
            match v[i] {
                Some(tag) => Some(tag@),
                None => None,
            },
    )
}

/// The tags that the look-up found, in order.
pub open spec fn reused(found: Seq<Option<StoredTagView>>) -> Seq<StoredTagView>
    decreases found.len(),
{
    if found.len() == 0 {
        seq![]
    } else {
        match found.last() {
            Some(tag) => reused(found.drop_last()).push(tag),
            None => reused(found.drop_last()),
        }
    }
}

/// The names for which the look-up found no tag, in order.
pub open spec fn missing(names: Seq<Seq<char>>, found: Seq<Option<StoredTagView>>) -> Seq<
    Seq<char>,
>
    decreases names.len(),
{
    if names.len() == 0 || found.len() == 0 {
        seq![]
    } else if found.last() is None {
        missing(names.drop_last(), found.drop_last()).push(names.last())
    } else {
        missing(names.drop_last(), found.drop_last())
    }
}

/// The tag that the note gets for a declared name: the tag that the store
/// holds under that name, or a new one in the colour of created tags.
pub open spec fn tag_for(name: Seq<char>, found: Option<StoredTagView>) -> TagView {
    match found {
        Some(tag) => TagView { name: tag.name, color: tag.color },
        None => TagView { name, color: created_color() },
    }
}

/// Whether what was decided is what reconciliation decides for a draft and
/// the record of its note: see [`reconcile`]. The names that need an
/// association stand each once, in the order of the dictionary.
pub open spec fn decided_matches(draft: DraftView, record: StoredZettel, decided: ReconcilePlan) -> bool {
    let plan = reconcile(draft.front_matter.tag_strings.to_set(), stored_views(record.tags@));
    &&& stored_views(decided.kept@) == plan.kept
    &&& stored_views(decided.removed@) == plan.removed
    &&& string_views(decided.wanted@).to_set() == plan.left
    &&& string_views(decided.wanted@).no_duplicates()
    &&& is_sorted(string_views(decided.wanted@))
}

/// Whether a plan and the tags of the note follow from what was decided and
/// what the look-up found. The associations decided to go are removed. A name
/// whose tag the store holds is associated with that tag: no second tag of
/// the name is made. A name without a tag gets a new one under a fresh
/// identifier. The title is recorded anew where the recorded one differs.
/// The tags of the note are the tags kept, then the tag of each name.
pub open spec fn plan_matches(
    draft: DraftView,
    record: StoredZettel,
    decided: ReconcilePlan,
    found: Seq<Option<StoredTagView>>,
    plan: StorePlan,
    tags: Seq<TagView>,
) -> bool {
    let kept = stored_views(decided.kept@);
    let wanted = string_views(decided.wanted@);
    let created = stored_views(plan.created@);
    &&& plan.record == record.id
    &&& plan.zettel@ == draft.id
    &&& stored_views(plan.removed@) == stored_views(decided.removed@)
    &&& stored_views(plan.associated@) == reused(found)
    &&& names_of(created) == missing(wanted, found)
    &&& forall|i: int|
        0 <= i < created.len() ==> (#[trigger] created[i]).color == created_color()
            && is_generated_id(created[i].nanoid)
    &&& match plan.retitle {
        Some(title) => title@ == draft.front_matter.title && record.title@ != title@,
        None => record.title@ == draft.front_matter.title,
    }
    &&& tags.len() == kept.len() + wanted.len()
    &&& forall|i: int|
        0 <= i < kept.len() ==> (#[trigger] tags[i]) == (TagView {
            name: kept[i].name,
            color: kept[i].color,
        })
    &&& forall|i: int|
        0 <= i < wanted.len() ==> (#[trigger] tags[kept.len() + i]) == tag_for(wanted[i], found[i])
}

/// Whether `after` and `action` are the answer of a load in the state
/// `before` to `event`.
pub open spec fn answers(
    before: LoadState,
    event: LoadEvent,
    after: LoadState,
    action: LoadAction,
) -> bool {
    match before {
        LoadState::Reading { path, root, id } => match event {
            LoadEvent::FileRead(text) => match parse_header(text@) {
                Ok(parsed) => {
                    &&& after matches LoadState::Fetching { draft, inserted }
                    &&& !inserted
                    &&& draft@ == (DraftView {
                        path: path@,
                        root: root@,
                        id: id@,
                        front_matter: parsed.0,
                        content: parsed.1,
                    })
                    &&& action matches LoadAction::FetchRecord(wanted)
                    &&& wanted@ == id@
                },
                Err(fault) => {
                    &&& after matches LoadState::Failed(ZkError::MalformedNote(at, why))
                    &&& at@ == path@
                    &&& why == fault
                    &&& action is Fail
                },
            },
            LoadEvent::FileFailed(report) => {
                &&& after matches LoadState::Failed(ZkError::FileError(text))
                &&& text@ == report@
                &&& action is Fail
            },
            _ => after == before && action is Ignore,
        },
        LoadState::Fetching { draft, inserted } => match event {
            LoadEvent::Record(Some(record)) => {
                &&& after matches LoadState::Matching { draft: kept, record: held, decided }
                &&& kept == draft
                &&& held == record
                &&& decided_matches(draft@, record, decided)
                &&& action matches LoadAction::FindTags(names)
                &&& string_views(names@) == string_views(decided.wanted@)
            },
            LoadEvent::Record(None) => if inserted {
                &&& after matches LoadState::Failed(ZkError::DbError(report))
                &&& report@ == missing_record_report()
                &&& action is Fail
            } else {
                &&& after matches LoadState::Fetching { draft: kept, inserted: now }
                &&& kept == draft
                &&& now
                &&& action matches LoadAction::InsertRecord { nanoid, title }
                &&& nanoid@ == draft@.id
                &&& title@ == draft@.front_matter.title
            },
            LoadEvent::StoreFailed(report) => {
                &&& after matches LoadState::Failed(ZkError::DbError(text))
                &&& text@ == report@
                &&& action is Fail
            },
            _ => after == before && action is Ignore,
        },
        LoadState::Matching { draft, record, decided } => match event {
            LoadEvent::TagsFound(found) => if found.len() == decided.wanted.len() {
                &&& after matches LoadState::Storing { draft: kept, tags }
                &&& kept == draft
                &&& action matches LoadAction::Store(plan)
                &&& plan_matches(draft@, record, decided, found_views(found@), plan, tag_views(tags@))
            } else {
                &&& after matches LoadState::Failed(ZkError::DbError(report))
                &&& report@ == missing_tags_report()
                &&& action is Fail
            },
            LoadEvent::StoreFailed(report) => {
                &&& after matches LoadState::Failed(ZkError::DbError(text))
                &&& text@ == report@
                &&& action is Fail
            },
            _ => after == before && action is Ignore,
        },
        LoadState::Storing { draft, tags } => match event {
            LoadEvent::Stored => {
                &&& after matches LoadState::Resolving { draft: kept, tags: same }
                &&& kept == draft
                &&& same == tags
                &&& action matches LoadAction::Canonicalize(paths)
                &&& string_views(paths@) == candidates(draft@.root, link_destinations(draft@.content))
            },
            LoadEvent::StoreFailed(report) => {
                &&& after matches LoadState::Failed(ZkError::DbError(text))
                &&& text@ == report@
                &&& action is Fail
            },
            _ => after == before && action is Ignore,
        },
        LoadState::Resolving { draft, tags } => match event {
            LoadEvent::Canonical(found) => match resolved(draft@.id, option_views(found@)) {
                Ok(links) => {
                    &&& after matches LoadState::Done(note)
                    &&& note@ == (ZettelView {
                        path: draft@.path,
                        id: draft@.id,
                        front_matter: draft@.front_matter,
                        tags: tag_views(tags@),
                        links,
                        content: draft@.content,
                    })
                    &&& note@.links_from_self()
                    &&& action is Finish
                },
                Err(fault) => {
                    &&& after == LoadState::Failed(ZkError::InvalidIdentifier(fault))
                    &&& action is Fail
                },
            },
            _ => after == before && action is Ignore,
        },
        LoadState::Done(_) => after == before && action is Ignore,
        LoadState::Failed(_) => after == before && action is Ignore,
    }
}

impl Draft {
    /// What reconciliation decides for this draft, given the record that the
    /// store holds of the note.
    pub fn decide(&self, record: &StoredZettel) -> (decided: ReconcilePlan)
        ensures
            decided_matches(self@, *record, decided),
    {
        ReconcilePlan::new(&self.front_matter.tag_strings, &record.tags)
    }

    /// What the store has to change for this draft, and the tags that the
    /// note then has, given the record of the note, what was decided, and
    /// what the store holds under each name that needs an association.
    pub fn store_plan(
        &self,
        record: &StoredZettel,
        decided: ReconcilePlan,
        found: &Vec<Option<StoredTag>>,
    ) -> (r: (StorePlan, Vec<Tag>))
        requires
            found.len() == decided.wanted.len(),
        ensures
            plan_matches(self@, *record, decided, found_views(found@), r.0, tag_views(r.1@)),
    {
        let ghost kept = stored_views(decided.kept@);
        let ghost wanted = string_views(decided.wanted@);
        let ghost looked = found_views(found@);
        let mut tags: Vec<Tag> = Vec::new();
        let mut i: usize = 0;
        while i < decided.kept.len()
            invariant
                i <= decided.kept.len(),
                tags.len() == i,
                forall|k: int|
                    0 <= k < i ==> (#[trigger] tags@[k])@ == (TagView {
                        name: decided.kept@[k]@.name,
                        color: decided.kept@[k]@.color,
                    }),
            decreases decided.kept.len() - i,
        {
            tags.push(Tag::from_record(&decided.kept[i]));
            i += 1;
        }
        let n = decided.kept.len();
        let mut associated: Vec<StoredTag> = Vec::new();
        let mut created: Vec<StoredTag> = Vec::new();
        let mut j: usize = 0;
        proof {
            reveal_strlit("random");
            assert("random"@ =~= created_color());
            assert(looked.take(0) =~= Seq::<Option<StoredTagView>>::empty());
            assert(wanted.take(0) =~= Seq::<Seq<char>>::empty());
            assert(stored_views(associated@) =~= Seq::<StoredTagView>::empty());
            assert(names_of(stored_views(created@)) =~= Seq::<Seq<char>>::empty());
        }
        while j < found.len()
            invariant
                j <= found.len(),
                found.len() == decided.wanted.len(),
                n == decided.kept.len(),
                wanted == string_views(decided.wanted@),
                looked == found_views(found@),
                "random"@ == created_color(),
                tags.len() == n + j,
                forall|k: int|
                    0 <= k < n ==> (#[trigger] tags@[k])@ == (TagView {
                        name: decided.kept@[k]@.name,
                        color: decided.kept@[k]@.color,
                    }),
                forall|k: int|
                    0 <= k < j ==> (#[trigger] tags@[n + k])@ == tag_for(wanted[k], looked[k]),
                stored_views(associated@) == reused(looked.take(j as int)),
                names_of(stored_views(created@)) == missing(
                    wanted.take(j as int),
                    looked.take(j as int),
                ),
                forall|k: int|
                    0 <= k < created.len() ==> (#[trigger] stored_views(created@)[k]).color
                        == created_color() && is_generated_id(stored_views(created@)[k].nanoid),
            decreases found.len() - j,
        {
            let ghost before_associated = stored_views(associated@);
            let ghost before_created = stored_views(created@);
            proof {
                assert(looked.take(j as int + 1).drop_last() =~= looked.take(j as int));
                assert(wanted.take(j as int + 1).drop_last() =~= wanted.take(j as int));
                assert(looked.take(j as int + 1).last() == looked[j as int]);
                assert(wanted.take(j as int + 1).last() == wanted[j as int]);
            }
            match &found[j] {
                Some(tag) => {
                    tags.push(Tag::from_record(tag));
                    associated.push(tag.clone());
                    assert(stored_views(associated@) =~= before_associated.push(tag@));
                },
                None => {
                    tags.push(Tag { name: decided.wanted[j].clone(), color: "random".to_owned() });
                    let fresh = ZettelId::generate();
                    created.push(
                        StoredTag {
                            nanoid: fresh.as_str().to_owned(),
                            name: decided.wanted[j].clone(),
                            color: "random".to_owned(),
                        },
                    );
                    assert(stored_views(created@) =~= before_created.push(created@.last()@));
                    assert(names_of(stored_views(created@)) =~= names_of(before_created).push(
                        wanted[j as int],
                    ));
                },
            }
            j += 1;
        }
        proof {
            assert(looked.take(found.len() as int) =~= looked);
            assert(wanted.take(found.len() as int) =~= wanted);
        }
        let retitle = if same_text(self.front_matter.title.as_str(), record.title.as_str()) {
            None
        } else {
            Some(self.front_matter.title.clone())
        };
        let plan = StorePlan {
            record: record.id,
            zettel: self.id.as_str().to_owned(),
            removed: decided.removed,
            associated,
            created,
            retitle,
        };
        (plan, tags)
    }
}

impl Zettel {
    /// Begins the load of the note in the file at `path`, in the collection
    /// at `root`: see [`LoadState::start`].
    pub fn from_path(path: &str, root: &str) -> (r: (LoadState, LoadAction))
        ensures
            match id_of_path(path@) {
                Ok(id) => {
                    &&& r.0 matches LoadState::Reading { path: at, root: under, id: found }
                    &&& at@ == path@
                    &&& under@ == root@
                    &&& found@ == id
                    &&& r.1 matches LoadAction::ReadFile(wanted)
                    &&& wanted@ == path@
                },
                Err(fault) => {
                    &&& r.0 == LoadState::Failed(ZkError::InvalidIdentifier(fault))
                    &&& r.1 is Fail
                },
            },
    {
        LoadState::start(path, root)
    }

    /// Begins the load of the note whose file under `root` is named by the
    /// identifier itself.
    pub fn from_id(id: &ZettelId, root: &str) -> (r: (LoadState, LoadAction))
        ensures
            match id_of_path(joined(root@, id@)) {
                Ok(found) => {
                    &&& r.0 matches LoadState::Reading { path: at, root: under, id: named }
                    &&& at@ == joined(root@, id@)
                    &&& under@ == root@
                    &&& named@ == found
                    &&& r.1 matches LoadAction::ReadFile(wanted)
                    &&& wanted@ == joined(root@, id@)
                },
                Err(fault) => {
                    &&& r.0 == LoadState::Failed(ZkError::InvalidIdentifier(fault))
                    &&& r.1 is Fail
                },
            },
    {
        let path = join_path(root, &chars_of(id.as_str()));
        LoadState::start(path.as_str(), root)
    }
}

impl LoadState {
    /// Begins the load of the file at `path` in the collection at `root`.
    /// A path that names no note fails at once; else the file is to be read.
    pub fn start(path: &str, root: &str) -> (r: (LoadState, LoadAction))
        ensures
            match id_of_path(path@) {
                Ok(id) => {
                    &&& r.0 matches LoadState::Reading { path: at, root: under, id: found }
                    &&& at@ == path@
                    &&& under@ == root@
                    &&& found@ == id
                    &&& r.1 matches LoadAction::ReadFile(wanted)
                    &&& wanted@ == path@
                },
                Err(fault) => {
                    &&& r.0 == LoadState::Failed(ZkError::InvalidIdentifier(fault))
                    &&& r.1 is Fail
                },
            },
    {
        match ZettelId::from_path(path) {
            Ok(id) => (
                LoadState::Reading { path: path.to_owned(), root: root.to_owned(), id },
                LoadAction::ReadFile(path.to_owned()),
            ),
            Err(e) => (LoadState::Failed(e), LoadAction::Fail),
        }
    }

    /// Takes the load one step on: the state after `event` and what to do
    /// next. An event that does not belong to the state changes nothing.
    pub fn step(self, event: LoadEvent) -> (r: (LoadState, LoadAction))
        ensures
            answers(self, event, r.0, r.1),
    {
        match self {
            LoadState::Reading { path, root, id } => match event {
                LoadEvent::FileRead(text) => {
                    match FrontMatter::extract_from_file(path.as_str(), text.as_str()) {
                        Ok((front_matter, content)) => {
                            let wanted = id.as_str().to_owned();
                            let draft = Draft { path, root, id, front_matter, content };
                            (
                                LoadState::Fetching { draft, inserted: false },
                                LoadAction::FetchRecord(wanted),
                            )
                        },
                        Err(e) => (LoadState::Failed(e), LoadAction::Fail),
                    }
                },
                LoadEvent::FileFailed(report) => (
                    LoadState::Failed(ZkError::FileError(report)),
                    LoadAction::Fail,
                ),
                other => (LoadState::Reading { path, root, id }, LoadAction::Ignore),
            },
            LoadState::Fetching { draft, inserted } => match event {
                LoadEvent::Record(Some(record)) => {
                    let decided = draft.decide(&record);
                    let mut names: Vec<String> = Vec::new();
                    let mut i: usize = 0;
                    while i < decided.wanted.len()
                        invariant
                            i <= decided.wanted.len(),
                            names.len() == i,
                            forall|k: int|
                                0 <= k < i ==> (#[trigger] names@[k])@ == decided.wanted@[k]@,
                        decreases decided.wanted.len() - i,
                    {
                        names.push(decided.wanted[i].clone());
                        i += 1;
                    }
                    assert(string_views(names@) =~= string_views(decided.wanted@));
                    (LoadState::Matching { draft, record, decided }, LoadAction::FindTags(names))
                },
                LoadEvent::Record(None) => {
                    if inserted {
                        proof {
                            reveal_strlit("record missing");
                            assert("record missing"@ =~= missing_record_report());
                        }
                        (
                            LoadState::Failed(ZkError::DbError("record missing".to_owned())),
                            LoadAction::Fail,
                        )
                    } else {
                        let nanoid = draft.id.as_str().to_owned();
                        let title = draft.front_matter.title.clone();
                        (
                            LoadState::Fetching { draft, inserted: true },
                            LoadAction::InsertRecord { nanoid, title },
                        )
                    }
                },
                LoadEvent::StoreFailed(report) => (
                    LoadState::Failed(ZkError::DbError(report)),
                    LoadAction::Fail,
                ),
                other => (LoadState::Fetching { draft, inserted }, LoadAction::Ignore),
            },
            LoadState::Matching { draft, record, decided } => match event {
                LoadEvent::TagsFound(found) => {
                    if found.len() == decided.wanted.len() {
                        let (plan, tags) = draft.store_plan(&record, decided, &found);
                        (LoadState::Storing { draft, tags }, LoadAction::Store(plan))
                    } else {
                        proof {
                            reveal_strlit("tags missing");
                            assert("tags missing"@ =~= missing_tags_report());
                        }
                        (
                            LoadState::Failed(ZkError::DbError("tags missing".to_owned())),
                            LoadAction::Fail,
                        )
                    }
                },
                LoadEvent::StoreFailed(report) => (
                    LoadState::Failed(ZkError::DbError(report)),
                    LoadAction::Fail,
                ),
                other => (LoadState::Matching { draft, record, decided }, LoadAction::Ignore),
            },
            LoadState::Storing { draft, tags } => match event {
                LoadEvent::Stored => {
                    let paths = link_candidates(draft.root.as_str(), draft.content.as_str());
                    (LoadState::Resolving { draft, tags }, LoadAction::Canonicalize(paths))
                },
                LoadEvent::StoreFailed(report) => (
                    LoadState::Failed(ZkError::DbError(report)),
                    LoadAction::Fail,
                ),
                other => (LoadState::Storing { draft, tags }, LoadAction::Ignore),
            },
            LoadState::Resolving { draft, tags } => match event {
                LoadEvent::Canonical(found) => {
                    proof {
                        lemma_resolved_from_source(draft@.id, option_views(found@));
                    }
                    match resolve_links(&draft.id, &found) {
                        Ok(links) => {
                            let note = Zettel {
                                path: draft.path,
                                id: draft.id,
                                front_matter: draft.front_matter,
                                tags,
                                links,
                                content: draft.content,
                            };
                            (LoadState::Done(note), LoadAction::Finish)
                        },
                        Err(e) => (LoadState::Failed(e), LoadAction::Fail),
                    }
                },
                other => (LoadState::Resolving { draft, tags }, LoadAction::Ignore),
            },
            LoadState::Done(note) => (LoadState::Done(note), LoadAction::Ignore),
            LoadState::Failed(e) => (LoadState::Failed(e), LoadAction::Ignore),
        }
    }
}

} // verus!
