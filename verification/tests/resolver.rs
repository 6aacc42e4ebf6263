use emergence_zk::resolver::{
    candidate_paths, join_path, link_candidates, present_texts, resolve_links, target_file_of,
};
use emergence_zk::{IdFault, Link, ZettelId, ZkError};

fn text(v: Vec<char>) -> String {
    v.iter().collect()
}

fn v(s: &str) -> Vec<char> {
    s.chars().collect()
}

#[test]
fn destination_becomes_a_note_file() {
    assert_eq!(text(target_file_of("./b.md")), "b.md");
    assert_eq!(text(target_file_of("b")), "b.md");
    assert_eq!(text(target_file_of("./b#heading")), "b.md");
    assert_eq!(text(target_file_of("b.md#a#b")), "b.md");
    assert_eq!(text(target_file_of("sub/c.txt")), "sub/c.txt.md");
    assert_eq!(text(target_file_of("#top")), ".md");
    assert_eq!(text(target_file_of("././d")), "./d.md");
    assert_eq!(text(target_file_of("")), ".md");
}

#[test]
fn file_is_put_under_the_root() {
    assert_eq!(join_path("/notes", &v("b.md")), "/notes/b.md");
    assert_eq!(join_path("/notes/", &v("b.md")), "/notes/b.md");
    assert_eq!(join_path("", &v("b.md")), "b.md");
    assert_eq!(join_path("/notes", &v("/abs/b.md")), "/abs/b.md");
    assert_eq!(join_path("/notes", &v("")), "/notes/");
}

#[test]
fn candidates_of_given_destinations() {
    let destinations = vec!["./b.md".to_string(), "c#sec".to_string(), "/abs/d".to_string()];
    assert_eq!(
        candidate_paths("/notes", &destinations),
        vec!["/notes/b.md".to_string(), "/notes/c.md".to_string(), "/abs/d.md".to_string()]
    );
    assert!(candidate_paths("/notes", &Vec::new()).is_empty());
}

#[test]
fn links_are_found_in_markdown() {
    let body = "See [the other](./b.md) and [again](b \"title\").\n\n* a list with [c](c#part)\n\n`[not](code)` and plain text.\n";
    assert_eq!(
        link_candidates("/notes", body),
        vec!["/notes/b.md".to_string(), "/notes/b.md".to_string(), "/notes/c.md".to_string()]
    );
    assert!(link_candidates("/notes", "no links here, not even ./b.md").is_empty());
}

#[test]
fn images_are_no_links() {
    assert!(link_candidates("/notes", "![picture](./p.md)").is_empty());
}

#[test]
fn broken_links_are_dropped() {
    let source = ZettelId::new("a");
    let canonical = vec![Some("/notes/b.md".to_string()), None, Some("/notes/b.md".to_string()), Some("/else/c.md".to_string())];
    let links = resolve_links(&source, &canonical).unwrap();
    assert_eq!(
        links,
        vec![
            Link::new(ZettelId::new("a"), ZettelId::new("b")),
            Link::new(ZettelId::new("a"), ZettelId::new("b")),
            Link::new(ZettelId::new("a"), ZettelId::new("c")),
        ]
    );
    assert!(resolve_links(&source, &vec![None, None]).unwrap().is_empty());
    assert!(resolve_links(&source, &Vec::new()).unwrap().is_empty());
}

#[test]
fn canonical_path_that_names_no_note_fails() {
    let source = ZettelId::new("a");
    let canonical = vec![Some("/notes/b.md".to_string()), Some("/notes/real.txt".to_string()), Some("/notes/".to_string())];
    assert_eq!(
        resolve_links(&source, &canonical).unwrap_err(),
        ZkError::InvalidIdentifier(IdFault::WrongExtension)
    );
}

#[test]
fn texts_that_are_there_are_kept_in_order() {
    let given = vec![None, Some("a".to_string()), None, Some("b".to_string()), Some("a".to_string())];
    assert_eq!(present_texts(&given), vec!["a".to_string(), "b".to_string(), "a".to_string()]);
    assert!(present_texts(&vec![None, None]).is_empty());
    assert!(present_texts(&Vec::new()).is_empty());
}
