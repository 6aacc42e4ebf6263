use chrono::{NaiveDate, NaiveDateTime};
use emergence_zk::{FrontMatter, HeaderFault, HeaderLines, ZkError, DATE_FORMAT};

fn stamp(text: &str) -> NaiveDateTime {
    NaiveDateTime::parse_from_str(text, DATE_FORMAT).unwrap()
}

fn fault_of(text: &str) -> HeaderFault {
    match FrontMatter::extract_from_str(text) {
        Err(ZkError::MalformedHeader(fault)) => fault,
        other => panic!("expected a malformed header, got {:?}", other),
    }
}

#[test]
fn test_extract_from_string() {
    let raw_text = "---            \nTitle: LOL\nDate: 2025-01-01 12:50:19 AM\nTags: whoa barber\n---\n";
    let front_matter = FrontMatter::new(
        "LOL",
        NaiveDateTime::parse_from_str("2025-01-01 12:50:19 AM", DATE_FORMAT).unwrap(),
        vec!["whoa", "barber"],
    );
    let remaining = "";
    let (extracted_front_matter, extracted_remaining) =
        FrontMatter::extract_from_str(raw_text).unwrap();
    assert_eq!(extracted_front_matter, front_matter);
    assert_eq!(extracted_remaining, remaining);
}

#[test]
fn frontmatter_test_extract_from_string() {
    let raw_text = "---            \nTitle: LOL\nDate: 2025-01-01 12:50:19 AM\nTags: whoa barber\n---\n";
    let (front_matter, remaining) = FrontMatter::extract_from_str(raw_text).unwrap();
    assert_eq!(front_matter.title, "LOL");
    assert_eq!(front_matter.created_at, stamp("2025-01-01 12:50:19 AM"));
    assert_eq!(front_matter.tag_strings, vec!["whoa".to_string(), "barber".to_string()]);
    assert_eq!(remaining, "");
}

#[test]
fn header_with_name_label_is_refused() {
    let raw_text = "---\nName: LOL\nDate: 2025-01-01 12:50:19 AM\n#a{#ffffff} #b{#000000}\n---\n";
    assert_eq!(
        FrontMatter::extract_from_str(raw_text).unwrap_err(),
        ZkError::MalformedHeader(HeaderFault::CorruptTitle)
    );
}

#[test]
fn timestamp_is_read_by_chrono() {
    let text = "---\nTitle: T\nDate: 2024-02-29 01:02:03 PM\nTags: \n---\n";
    let (front_matter, _) = FrontMatter::extract_from_str(text).unwrap();
    let expected = NaiveDate::from_ymd_opt(2024, 2, 29).unwrap().and_hms_opt(13, 2, 3).unwrap();
    assert_eq!(front_matter.created_at, expected);
    assert!(front_matter.tag_strings.is_empty());
}

#[test]
fn render_gives_the_five_lines() {
    let front_matter = FrontMatter::new("LOL", stamp("2025-01-01 12:50:19 AM"), vec!["whoa", "barber"]);
    assert_eq!(
        front_matter.render(),
        "---\nTitle: LOL\nDate: 2025-01-01 12:50:19 AM\nTags: whoa barber \n---\n"
    );
}

#[test]
fn render_without_tags() {
    let front_matter = FrontMatter::new("", stamp("1999-12-31 11:59:59 PM"), vec![]);
    assert_eq!(front_matter.render(), "---\nTitle: \nDate: 1999-12-31 11:59:59 PM\nTags: \n---\n");
}

#[test]
fn rendered_header_reads_back() {
    let front_matter = FrontMatter::new(
        "A title, with  spaces ",
        stamp("2025-06-15 07:08:09 PM"),
        vec!["x", "y-z", "ünï"],
    );
    assert!(front_matter.is_valid());
    let text = front_matter.render();
    let (back, rest) = FrontMatter::extract_from_str(&text).unwrap();
    assert_eq!(back, front_matter);
    assert_eq!(rest, "");
    assert_eq!(back.render(), text);
}

#[test]
fn header_that_does_not_read_back_is_not_valid() {
    let when = stamp("2025-06-15 07:08:09 PM");
    assert!(!FrontMatter::new("two\nlines", when, vec![]).is_valid());
    assert!(!FrontMatter::new("ends in a return\r", when, vec![]).is_valid());
    assert!(!FrontMatter::new("t", when, vec!["two words"]).is_valid());
    assert!(!FrontMatter::new("t", when, vec![""]).is_valid());
    assert!(FrontMatter::new("t", when, vec!["one"]).is_valid());
}

#[test]
fn body_follows_the_header() {
    let text = "---\nTitle: T\nDate: 2025-01-01 12:50:19 AM\nTags: a\n---\nfirst\r\n\nthird\n";
    let (_, rest) = FrontMatter::extract_from_str(text).unwrap();
    assert_eq!(rest, "first\n\nthird");
}

#[test]
fn delimiters_may_be_padded() {
    let text = "  ---\t\nTitle: T\nDate: 2025-01-01 12:50:19 AM\nTags: a  b\n --- \nbody";
    let (front_matter, rest) = FrontMatter::extract_from_str(text).unwrap();
    assert_eq!(front_matter.tag_strings, vec!["a".to_string(), "b".to_string()]);
    assert_eq!(rest, "body");
}

#[test]
fn every_fault_is_reported() {
    assert_eq!(fault_of(""), HeaderFault::MissingOpening);
    assert_eq!(fault_of("--\n"), HeaderFault::CorruptOpening);
    assert_eq!(fault_of("---\n"), HeaderFault::MissingTitle);
    assert_eq!(fault_of("---\nTitle:LOL\n"), HeaderFault::CorruptTitle);
    assert_eq!(fault_of("---\nTitle: LOL\n"), HeaderFault::MissingDate);
    assert_eq!(fault_of("---\nTitle: LOL\nDated: x\n"), HeaderFault::CorruptDate);
    assert_eq!(fault_of("---\nTitle: LOL\nDate: yesterday\nTags: \n---\n"), HeaderFault::BadTimestamp);
    assert_eq!(fault_of("---\nTitle: LOL\nDate: 2025-01-01 13:50:19 AM\nTags: \n---\n"), HeaderFault::BadTimestamp);
    assert_eq!(fault_of("---\nTitle: LOL\nDate: 2025-01-01 12:50:19 AM\n"), HeaderFault::MissingTags);
    assert_eq!(fault_of("---\nTitle: LOL\nDate: 2025-01-01 12:50:19 AM\nTags:\n"), HeaderFault::CorruptTags);
    assert_eq!(fault_of("---\nTitle: LOL\nDate: 2025-01-01 12:50:19 AM\nTags: a\n"), HeaderFault::MissingClosing);
    assert_eq!(fault_of("---\nTitle: LOL\nDate: 2025-01-01 12:50:19 AM\nTags: a\n----\n"), HeaderFault::CorruptClosing);
}

#[test]
fn the_first_fault_wins() {
    assert_eq!(fault_of("---\nTitle: LOL\nDate: never\n"), HeaderFault::BadTimestamp);
    assert_eq!(fault_of("--\nName: LOL\n"), HeaderFault::CorruptOpening);
}

#[test]
fn scan_hands_the_date_back_unread() {
    let head = FrontMatter::scan("---\nTitle: My note\nDate: some day\nTags: a\n---\nbody\n").unwrap();
    assert_eq!(head.title, "My note");
    assert_eq!(head.date_text, "some day");
    assert_eq!(head.tail.len(), 3);
}

#[test]
fn finish_takes_the_timestamp_as_given() {
    let when = stamp("2001-02-03 04:05:06 AM");
    let head = HeaderLines {
        title: "T".to_string(),
        date_text: "ignored".to_string(),
        tail: vec!["Tags: one two".chars().collect(), "---".chars().collect(), "rest".chars().collect()],
    };
    let (front_matter, rest) = FrontMatter::finish(head, Some(when)).unwrap();
    assert_eq!(front_matter, FrontMatter::new("T", when, vec!["one", "two"]));
    assert_eq!(rest, "rest");
}

#[test]
fn finish_without_timestamp_fails() {
    let head = HeaderLines {
        title: "T".to_string(),
        date_text: "x".to_string(),
        tail: vec!["Tags: ".chars().collect(), "---".chars().collect()],
    };
    assert_eq!(
        FrontMatter::finish(head, None).unwrap_err(),
        ZkError::MalformedHeader(HeaderFault::BadTimestamp)
    );
}

#[test]
fn fault_in_a_file_names_the_file() {
    assert_eq!(
        FrontMatter::extract_from_file("/notes/a.md", "no header").unwrap_err(),
        ZkError::MalformedNote("/notes/a.md".to_string(), HeaderFault::CorruptOpening)
    );
    let text = "---\nTitle: T\nDate: 2025-01-01 12:50:19 AM\nTags: a\n---\nbody";
    let (front_matter, rest) = FrontMatter::extract_from_file("/notes/a.md", text).unwrap();
    assert_eq!(front_matter.title, "T");
    assert_eq!(rest, "body");
}

#[test]
fn a_copy_is_equal() {
    let front_matter = FrontMatter::new("T", stamp("2025-01-01 12:50:19 AM"), vec!["a", "b"]);
    assert_eq!(front_matter.clone(), front_matter);
}
