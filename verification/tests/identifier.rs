use emergence_zk::{IdFault, Link, ZettelId, ZkError};

fn fault_of(path: &str) -> IdFault {
    match ZettelId::from_path(path) {
        Err(ZkError::InvalidIdentifier(fault)) => fault,
        other => panic!("expected an invalid identifier, got {:?}", other),
    }
}

#[test]
fn identifier_is_the_stem() {
    assert_eq!(ZettelId::from_path("/notes/abc12.md").unwrap().as_str(), "abc12");
    assert_eq!(ZettelId::from_path("a.md").unwrap().as_str(), "a");
    assert_eq!(ZettelId::from_path("dir.d/my.note.md").unwrap().as_str(), "my.note");
    assert_eq!(ZettelId::from_path("..md").unwrap().as_str(), ".");
}

#[test]
fn trailing_separators_are_passed_over() {
    assert_eq!(ZettelId::from_path("notes/a.md/").unwrap().as_str(), "a");
    assert_eq!(ZettelId::from_path("notes/a.md//").unwrap().as_str(), "a");
    assert_eq!(ZettelId::from_path("notes/a.md/.").unwrap().as_str(), "a");
    assert_eq!(ZettelId::from_path("notes/a.md/./").unwrap().as_str(), "a");
    assert_eq!(ZettelId::from_path("/x/a.md"), ZettelId::from_path("/y/z/a.md/"));
}

#[test]
fn path_without_file_name() {
    assert_eq!(fault_of(""), IdFault::NoFileName);
    assert_eq!(fault_of("/"), IdFault::NoFileName);
    assert_eq!(fault_of("//"), IdFault::NoFileName);
    assert_eq!(fault_of("/."), IdFault::NoFileName);
    assert_eq!(fault_of("/notes/.."), IdFault::NoFileName);
    assert_eq!(fault_of("/notes/../"), IdFault::NoFileName);
    assert_eq!(fault_of("."), IdFault::NoFileName);
    assert_eq!(fault_of("./"), IdFault::NoFileName);
    assert_eq!(fault_of(".."), IdFault::NoFileName);
}

#[test]
fn file_name_without_extension() {
    assert_eq!(fault_of("/notes/readme"), IdFault::NoExtension);
    assert_eq!(fault_of("/notes/"), IdFault::NoExtension);
    assert_eq!(fault_of("/notes/.md"), IdFault::NoExtension);
    assert_eq!(fault_of("/notes.md/readme"), IdFault::NoExtension);
}

#[test]
fn paths_are_read_as_the_standard_library_reads_them() {
    for path in ["", "/", ".", "..", "a.md", "a.md/", "a.md/.", "x/./a.md", "x/a.md//./", "/x/..", "x/.md", "x/..md", "x/a.b.md", "x/a.txt/", "./", "/.", "x/.hidden.md/"] {
        let std_path = std::path::Path::new(path);
        let expected = match (std_path.extension().and_then(|e| e.to_str()), std_path.file_name().and_then(|n| n.to_str())) {
            (Some("md"), Some(name)) => name.strip_suffix(".md").map(|stem| stem.to_string()),
            _ => None,
        };
        let found = ZettelId::from_path(path).ok().map(|id| id.as_str().to_string());
        assert_eq!(found, expected, "for the path {:?}", path);
    }
}

#[test]
fn file_name_with_another_extension() {
    assert_eq!(fault_of("/notes/a.txt"), IdFault::WrongExtension);
    assert_eq!(fault_of("/notes/a.md.bak"), IdFault::WrongExtension);
    assert_eq!(fault_of("/notes/a."), IdFault::WrongExtension);
    assert_eq!(fault_of("/notes/a.MD"), IdFault::WrongExtension);
}

#[test]
fn note_paths_are_told_apart() {
    assert!(ZettelId::is_note_path("/notes/a.md"));
    assert!(!ZettelId::is_note_path("/notes/a.png"));
    assert!(!ZettelId::is_note_path("/notes/"));
}

#[test]
fn generated_identifier_has_five_characters() {
    for _ in 0..50 {
        let id = ZettelId::generate();
        assert_eq!(id.as_str().chars().count(), 5);
        assert!(id.as_str().chars().all(|c| c.is_ascii_lowercase() || c.is_ascii_digit()));
    }
    let id = ZettelId::default();
    assert_eq!(id.as_str().len(), 5);
}

#[test]
fn identifier_from_text() {
    let id = ZettelId::new("abc");
    assert_eq!(id.as_str(), "abc");
    assert_eq!(id.clone(), id);
    assert_ne!(ZettelId::new("abd"), id);
}

#[test]
fn link_holds_its_ends() {
    let link = Link::new(ZettelId::new("a"), ZettelId::new("b"));
    assert_eq!(link.source.as_str(), "a");
    assert_eq!(link.dest.as_str(), "b");
    assert_eq!(link.clone(), link);
}
