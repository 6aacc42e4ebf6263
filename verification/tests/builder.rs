use chrono::NaiveDateTime;
use emergence_zk::workspace::{metadata_folder, store_url};
use emergence_zk::{FrontMatter, Tag, Zettel, ZettelBuilder, ZettelId, DATE_FORMAT};

fn stamp(text: &str) -> NaiveDateTime {
    NaiveDateTime::parse_from_str(text, DATE_FORMAT).unwrap()
}

#[test]
fn new_note_is_blank() {
    let made = stamp("2025-01-01 12:50:19 AM");
    let built = ZettelBuilder::new("/notes", made).build(made);
    let id = built.zettel.id.as_str().to_string();
    assert_eq!(id.len(), 5);
    assert_eq!(built.zettel.path, format!("/notes/{}.md", id));
    assert_eq!(built.zettel.front_matter, FrontMatter::new("", made, vec![]));
    assert!(built.zettel.tags.is_empty());
    assert!(built.zettel.links.is_empty());
    assert_eq!(built.zettel.content, "");
    assert_eq!(built.file_text, "---\nTitle: \nDate: 2025-01-01 12:50:19 AM\nTags: \n---\n\n\n");
}

#[test]
fn builder_sets_what_it_is_given() {
    let made = stamp("2025-01-01 12:50:19 AM");
    let built_at = stamp("2025-03-04 05:06:07 PM");
    let tag = Tag::new("Daily", "blue").unwrap();
    let built = ZettelBuilder::new("/notes/", made)
        .with_title("test")
        .with_additional_tag(tag.clone())
        .with_content("hello\nworld")
        .build(built_at);
    assert_eq!(built.zettel.front_matter.title, "test");
    assert_eq!(built.zettel.front_matter.created_at, built_at);
    assert_eq!(built.zettel.tags, vec![tag]);
    assert_eq!(built.zettel.content, "hello\nworld");
    assert_eq!(
        built.file_text,
        "---\nTitle: test\nDate: 2025-03-04 05:06:07 PM\nTags: \n---\n\nhello\nworld\n"
    );
    assert_eq!(built.zettel.path, format!("/notes/{}.md", built.zettel.id.as_str()));
}

#[test]
fn setters_change_in_place() {
    let made = stamp("2025-01-01 12:50:19 AM");
    let mut builder = ZettelBuilder::new("/notes", made);
    builder.name("first");
    builder.name("second");
    builder.add_tag(Tag::new("a", "c").unwrap());
    builder.add_tag(Tag::new("b", "c").unwrap());
    builder.content("body");
    let built = builder.with_name("third").build(made);
    assert_eq!(built.zettel.front_matter.title, "third");
    assert_eq!(built.zettel.tags.len(), 2);
    assert_eq!(built.zettel.tags[1].name, "b");
    assert_eq!(built.zettel.content, "body");
}

#[test]
fn note_as_text_and_as_record() {
    let when = stamp("2025-01-01 12:50:19 AM");
    let note = Zettel::new(
        ZettelId::new("abc12"),
        "/notes/abc12.md".to_string(),
        FrontMatter::new("T", when, vec!["x"]),
        Vec::new(),
        "body\n".to_string(),
    );
    assert_eq!(note.to_text(), "---\nTitle: T\nDate: 2025-01-01 12:50:19 AM\nTags: x \n---\nbody\n");
    let record = note.active_model();
    assert_eq!(record.nanoid, "abc12");
    assert_eq!(record.title, "T");
    assert_eq!(note.clone(), note);
}

#[test]
fn store_lives_in_a_hidden_folder() {
    assert_eq!(metadata_folder("/notes"), "/notes/.emergence");
    assert_eq!(metadata_folder("/notes/"), "/notes/.emergence");
    assert_eq!(store_url("/notes"), "sqlite:///notes/.emergence/emergence.sqlite?mode=rwc");
}
