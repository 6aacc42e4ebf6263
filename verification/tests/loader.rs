use emergence_zk::{
    ChangeEvent, ChangeKind, HeaderFault, IdFault, Kasten, Link, LoadAction, LoadEvent, LoadState,
    StorePlan, StoredTag, StoredZettel, Tag, WatchAction, Zettel, ZettelId, ZkError,
};

/// A store in memory: the records of notes, the tags, and the associations
/// between the two as pairs of identifiers.
struct Store {
    notes: Vec<(i32, String, String)>,
    tags: Vec<StoredTag>,
    pairs: Vec<(String, String)>,
    failing: bool,
}

impl Store {
    fn new() -> Store {
        Store { notes: Vec::new(), tags: Vec::new(), pairs: Vec::new(), failing: false }
    }

    fn fetch(&self, nanoid: &str) -> Option<StoredZettel> {
        let (id, _, title) = self.notes.iter().find(|n| n.1 == nanoid)?.clone();
        let tags = self
            .pairs
            .iter()
            .filter(|p| p.0 == nanoid)
            .map(|p| self.tags.iter().find(|t| t.nanoid == p.1).unwrap().clone())
            .collect();
        Some(StoredZettel { id, nanoid: nanoid.to_string(), title, tags })
    }

    fn insert(&mut self, nanoid: &str, title: &str) {
        let id = self.notes.len() as i32 + 1;
        self.notes.push((id, nanoid.to_string(), title.to_string()));
    }

    fn find_tag(&self, name: &str) -> Option<StoredTag> {
        self.tags.iter().find(|t| t.name == name).cloned()
    }

    fn apply(&mut self, plan: &StorePlan) {
        for gone in &plan.removed {
            let at = self.pairs.iter().position(|p| p.0 == plan.zettel && p.1 == gone.nanoid).unwrap();
            self.pairs.remove(at);
        }
        for known in &plan.associated {
            self.pairs.push((plan.zettel.clone(), known.nanoid.clone()));
        }
        for made in &plan.created {
            self.tags.push(made.clone());
            self.pairs.push((plan.zettel.clone(), made.nanoid.clone()));
        }
        if let Some(title) = &plan.retitle {
            let note = self.notes.iter_mut().find(|n| n.0 == plan.record).unwrap();
            note.2 = title.clone();
        }
    }

    fn names_of(&self, nanoid: &str) -> Vec<String> {
        let mut names: Vec<String> = self.fetch(nanoid).unwrap().tags.iter().map(|t| t.name.clone()).collect();
        names.sort();
        names
    }
}

fn load(path: &str, root: &str, files: &[(&str, &str)], store: &mut Store) -> Result<Zettel, ZkError> {
    let (mut state, mut action) = Zettel::from_path(path, root);
    loop {
        let event = match action {
            LoadAction::ReadFile(at) => match files.iter().find(|f| f.0 == at) {
                Some(file) => LoadEvent::FileRead(file.1.to_string()),
                None => LoadEvent::FileFailed(format!("no such file: {}", at)),
            },
            LoadAction::FetchRecord(nanoid) => LoadEvent::Record(store.fetch(&nanoid)),
            LoadAction::InsertRecord { nanoid, title } => {
                store.insert(&nanoid, &title);
                LoadEvent::Record(store.fetch(&nanoid))
            }
            LoadAction::FindTags(names) => {
                LoadEvent::TagsFound(names.iter().map(|n| store.find_tag(n)).collect())
            }
            LoadAction::Store(plan) => {
                if store.failing {
                    LoadEvent::StoreFailed("the store is down".to_string())
                } else {
                    store.apply(&plan);
                    LoadEvent::Stored
                }
            }
            LoadAction::Canonicalize(paths) => LoadEvent::Canonical(
                paths.iter().map(|p| files.iter().find(|f| f.0 == p).map(|f| f.0.to_string())).collect(),
            ),
            LoadAction::Finish => match state {
                LoadState::Done(note) => return Ok(note),
                _ => panic!("finished without a note"),
            },
            LoadAction::Fail => match state {
                LoadState::Failed(e) => return Err(e),
                _ => panic!("failed without an error"),
            },
            LoadAction::Ignore => panic!("an event was out of turn"),
        };
        let next = state.step(event);
        state = next.0;
        action = next.1;
    }
}

fn header(title: &str, tags: &str) -> String {
    format!("---\nTitle: {}\nDate: 2025-01-01 12:50:19 AM\nTags: {}\n---\n", title, tags)
}

#[test]
fn note_is_loaded_with_tags_and_links() {
    let a = format!("{}see [b](./b.md), [gone](./gone.md) and [b again](b#top)\n", header("A", "x y"));
    let b = header("B", "");
    let files = vec![("/notes/a.md", a.as_str()), ("/notes/b.md", b.as_str())];
    let mut store = Store::new();
    let note = load("/notes/a.md", "/notes", &files, &mut store).unwrap();
    assert_eq!(note.id, ZettelId::new("a"));
    assert_eq!(note.path, "/notes/a.md");
    assert_eq!(note.front_matter.title, "A");
    assert_eq!(note.content, "see [b](./b.md), [gone](./gone.md) and [b again](b#top)");
    assert_eq!(
        note.tags,
        vec![
            Tag { name: "x".to_string(), color: "random".to_string() },
            Tag { name: "y".to_string(), color: "random".to_string() },
        ]
    );
    let to_b = Link::new(ZettelId::new("a"), ZettelId::new("b"));
    assert_eq!(note.links, vec![to_b.clone(), to_b]);
    assert!(note.is_well_formed());
    assert_eq!(store.notes, vec![(1, "a".to_string(), "A".to_string())]);
    assert_eq!(store.names_of("a"), vec!["x", "y"]);
}

#[test]
fn tags_change_from_x_y_to_y_z_between_two_loads() {
    let first = header("A", "x y");
    let second = header("A", "y z");
    let mut store = Store::new();
    load("/notes/a.md", "/notes", &[("/notes/a.md", first.as_str())], &mut store).unwrap();
    assert_eq!(store.names_of("a"), vec!["x", "y"]);
    let x = store.tags.iter().find(|t| t.name == "x").unwrap().nanoid.clone();
    let y = store.tags.iter().find(|t| t.name == "y").unwrap().nanoid.clone();

    let note = load("/notes/a.md", "/notes", &[("/notes/a.md", second.as_str())], &mut store).unwrap();
    assert_eq!(store.names_of("a"), vec!["y", "z"]);
    assert!(!store.pairs.contains(&("a".to_string(), x.clone())));
    assert!(store.pairs.contains(&("a".to_string(), y)));
    assert!(store.tags.iter().any(|t| t.nanoid == x));
    assert_eq!(store.tags.iter().filter(|t| t.name == "z").count(), 1);
    assert_eq!(store.notes.len(), 1);
    let tag_names: Vec<String> = note.tags.iter().map(|t| t.name.clone()).collect();
    assert_eq!(tag_names, vec!["y", "z"]);
}

#[test]
fn changed_title_is_recorded() {
    let mut store = Store::new();
    let old = header("Old", "");
    let new = header("New", "");
    load("/notes/a.md", "/notes", &[("/notes/a.md", old.as_str())], &mut store).unwrap();
    assert_eq!(store.notes[0].2, "Old");
    load("/notes/a.md", "/notes", &[("/notes/a.md", new.as_str())], &mut store).unwrap();
    assert_eq!(store.notes, vec![(1, "a".to_string(), "New".to_string())]);
}

#[test]
fn every_stage_can_fail() {
    let good = header("A", "x");
    let mut store = Store::new();
    assert_eq!(
        load("/notes/a.txt", "/notes", &[], &mut store).unwrap_err(),
        ZkError::InvalidIdentifier(IdFault::WrongExtension)
    );
    assert_eq!(
        load("/notes/a.md", "/notes", &[], &mut store).unwrap_err(),
        ZkError::FileError("no such file: /notes/a.md".to_string())
    );
    assert_eq!(
        load("/notes/a.md", "/notes", &[("/notes/a.md", "---\nwhat")], &mut store).unwrap_err(),
        ZkError::MalformedNote("/notes/a.md".to_string(), HeaderFault::CorruptTitle)
    );
    assert!(store.notes.is_empty());
    store.failing = true;
    assert_eq!(
        load("/notes/a.md", "/notes", &[("/notes/a.md", good.as_str())], &mut store).unwrap_err(),
        ZkError::DbError("the store is down".to_string())
    );
}

#[test]
fn record_that_stays_missing_fails_the_load() {
    let good = header("A", "");
    let (state, _) = LoadState::start("/notes/a.md", "/notes");
    let (state, action) = state.step(LoadEvent::FileRead(good));
    assert!(matches!(action, LoadAction::FetchRecord(ref id) if id == "a"));
    let (state, action) = state.step(LoadEvent::Record(None));
    assert!(matches!(action, LoadAction::InsertRecord { ref nanoid, ref title } if nanoid == "a" && title == "A"));
    let (state, action) = state.step(LoadEvent::Record(None));
    assert!(matches!(action, LoadAction::Fail));
    assert!(matches!(state, LoadState::Failed(ZkError::DbError(ref report)) if report == "record missing"));
}

#[test]
fn events_out_of_turn_change_nothing() {
    let (state, action) = LoadState::start("/notes/a.md", "/notes");
    assert!(matches!(action, LoadAction::ReadFile(ref p) if p == "/notes/a.md"));
    let (state, action) = state.step(LoadEvent::Stored);
    assert!(matches!(action, LoadAction::Ignore));
    let (state, action) = state.step(LoadEvent::Canonical(Vec::new()));
    assert!(matches!(action, LoadAction::Ignore));
    assert!(matches!(state, LoadState::Reading { ref path, .. } if path == "/notes/a.md"));
    let (state, action) = state.step(LoadEvent::FileFailed("denied".to_string()));
    assert!(matches!(action, LoadAction::Fail));
    let (state, action) = state.step(LoadEvent::FileRead(String::new()));
    assert!(matches!(action, LoadAction::Ignore));
    assert!(matches!(state, LoadState::Failed(ZkError::FileError(ref m)) if m == "denied"));
}

#[test]
fn load_by_identifier_takes_the_identifier_as_file_name() {
    let (state, action) = Zettel::from_id(&ZettelId::new("a.md"), "/notes");
    assert!(matches!(action, LoadAction::ReadFile(ref p) if p == "/notes/a.md"));
    assert!(matches!(state, LoadState::Reading { ref id, .. } if id.as_str() == "a"));
    let (state, action) = Zettel::from_id(&ZettelId::new("a"), "/notes");
    assert!(matches!(action, LoadAction::Fail));
    assert!(matches!(state, LoadState::Failed(ZkError::InvalidIdentifier(IdFault::NoExtension))));
}

#[test]
fn canonical_path_of_another_kind_fails_the_load() {
    let body = format!("{}[b](b)\n", header("A", ""));
    let (state, _) = LoadState::start("/notes/a.md", "/notes");
    let (state, _) = state.step(LoadEvent::FileRead(body));
    let record = StoredZettel { id: 7, nanoid: "a".to_string(), title: "A".to_string(), tags: Vec::new() };
    let (state, action) = state.step(LoadEvent::Record(Some(record)));
    assert!(matches!(action, LoadAction::FindTags(ref names) if names.is_empty()));
    let (state, action) = state.step(LoadEvent::TagsFound(Vec::new()));
    match action {
        LoadAction::Store(plan) => {
            assert_eq!(plan.record, 7);
            assert_eq!(plan.zettel, "a");
            assert!(plan.removed.is_empty() && plan.created.is_empty() && plan.retitle.is_none());
            assert!(plan.associated.is_empty());
        }
        _ => panic!("the store is to be changed"),
    }
    let (state, action) = state.step(LoadEvent::Stored);
    assert!(matches!(action, LoadAction::Canonicalize(ref paths) if paths == &vec!["/notes/b.md".to_string()]));
    let (state, action) = state.step(LoadEvent::Canonical(vec![Some("/real/target.txt".to_string())]));
    assert!(matches!(action, LoadAction::Fail));
    assert!(matches!(state, LoadState::Failed(ZkError::InvalidIdentifier(IdFault::WrongExtension))));
}

#[test]
fn two_files_one_link_then_one_file_gone() {
    let a = format!("{}This one points at [the other](./b.md).\n", header("A", ""));
    let b = header("B", "");
    let files = vec![("/notes/a.md", a.as_str()), ("/notes/b.md", b.as_str())];
    let mut store = Store::new();
    let results: Vec<Result<Zettel, ZkError>> = ["/notes/a.md", "/notes/b.md", "/notes/c.md"]
        .iter()
        .map(|path| load(path, "/notes", &files, &mut store))
        .collect();
    assert!(results[2].is_err());
    let notes = Kasten::successes(&results);
    assert!(notes.iter().all(|z| z.is_well_formed()));
    let mut kasten = Kasten::parse("/notes", &notes);
    assert_eq!(kasten.graph.node_count(), 2);
    assert_eq!(kasten.graph.edge_count(), 1);
    assert_eq!(
        kasten.graph.links_from(&ZettelId::new("a")),
        vec![Link::new(ZettelId::new("a"), ZettelId::new("b"))]
    );
    assert!(kasten.graph.links_from(&ZettelId::new("b")).is_empty());

    let gone = ChangeEvent { kind: ChangeKind::Removed, paths: vec!["/notes/b.md".to_string()] };
    assert!(matches!(kasten.watch(&gone), WatchAction::Nothing));
    assert_eq!(kasten.graph.node_count(), 1);
    assert_eq!(kasten.graph.edge_count(), 0);
    assert!(kasten.graph.lookup(&ZettelId::new("a")).is_some());
    assert!(kasten.graph.lookup(&ZettelId::new("b")).is_none());
}

#[test]
fn a_tag_that_the_store_holds_is_used_again() {
    let mut store = Store::new();
    let other = header("B", "z");
    load("/notes/b.md", "/notes", &[("/notes/b.md", other.as_str())], &mut store).unwrap();
    let z = store.find_tag("z").unwrap();
    store.tags[0].color = "green".to_string();

    let first = header("A", "x y");
    let second = header("A", "y z");
    load("/notes/a.md", "/notes", &[("/notes/a.md", first.as_str())], &mut store).unwrap();
    let note = load("/notes/a.md", "/notes", &[("/notes/a.md", second.as_str())], &mut store).unwrap();
    assert_eq!(store.names_of("a"), vec!["y", "z"]);
    assert_eq!(store.tags.iter().filter(|t| t.name == "z").count(), 1);
    assert!(store.pairs.contains(&("a".to_string(), z.nanoid.clone())));
    assert!(store.pairs.contains(&("b".to_string(), z.nanoid)));
    assert_eq!(
        note.tags,
        vec![
            Tag { name: "y".to_string(), color: "random".to_string() },
            Tag { name: "z".to_string(), color: "green".to_string() },
        ]
    );
}

#[test]
fn a_name_declared_twice_gives_one_tag_and_one_association() {
    let mut store = Store::new();
    let text = header("A", "x x");
    let note = load("/notes/a.md", "/notes", &[("/notes/a.md", text.as_str())], &mut store).unwrap();
    assert_eq!(store.tags.iter().filter(|t| t.name == "x").count(), 1);
    assert_eq!(store.pairs.len(), 1);
    assert_eq!(store.names_of("a"), vec!["x"]);
    assert_eq!(note.tags, vec![Tag { name: "x".to_string(), color: "random".to_string() }]);
    assert_eq!(note.front_matter.tag_strings, vec!["x".to_string(), "x".to_string()]);
}

#[test]
fn look_up_of_another_length_fails_the_load() {
    let text = header("A", "x y");
    let (state, _) = LoadState::start("/notes/a.md", "/notes");
    let (state, _) = state.step(LoadEvent::FileRead(text));
    let record = StoredZettel { id: 1, nanoid: "a".to_string(), title: "A".to_string(), tags: Vec::new() };
    let (state, action) = state.step(LoadEvent::Record(Some(record)));
    assert!(matches!(action, LoadAction::FindTags(ref names) if names == &vec!["x".to_string(), "y".to_string()]));
    let (state, action) = state.step(LoadEvent::TagsFound(vec![None]));
    assert!(matches!(action, LoadAction::Fail));
    assert!(matches!(state, LoadState::Failed(ZkError::DbError(ref report)) if report == "tags missing"));
}
