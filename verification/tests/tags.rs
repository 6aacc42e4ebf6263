use emergence_zk::metadata::Metadata;
use emergence_zk::reconcile::{find_name, order_of, sorted_names, Order};
use emergence_zk::{ReconcilePlan, StoredTag, Tag, ZkError};

fn stored(nanoid: &str, name: &str, color: &str) -> StoredTag {
    StoredTag { nanoid: nanoid.to_string(), name: name.to_string(), color: color.to_string() }
}

fn names(words: &[&str]) -> Vec<String> {
    words.iter().map(|w| w.to_string()).collect()
}

fn v(s: &str) -> Vec<char> {
    s.chars().collect()
}

#[test]
fn tag_name_is_put_into_lower_case() {
    let tag = Tag::new("DaIlY", "#ffffff").unwrap();
    assert_eq!(tag.name, "daily");
    assert_eq!(tag.color, "#ffffff");
    assert_eq!(tag.to_text(), "daily");
}

#[test]
fn tag_name_must_be_ascii() {
    assert_eq!(Tag::new("Füße", "c").unwrap_err(), ZkError::InvalidTagName);
    assert_eq!(Tag::from_lowered("é".to_string(), "c").unwrap_err(), ZkError::InvalidTagName);
    assert_eq!(Tag::new("\u{212A}", "c").unwrap().name, "k");
    assert_eq!(Tag::from_lowered("Mixed".to_string(), "c").unwrap().name, "Mixed");
}

#[test]
fn stored_tag_is_taken_where_there_is_one() {
    let found = Tag::get_or_new("x", Some(stored("t1", "x", "blue"))).unwrap();
    assert_eq!(found, Tag { name: "x".to_string(), color: "blue".to_string() });
    let made = Tag::get_or_new("New", None).unwrap();
    assert_eq!(made, Tag { name: "new".to_string(), color: "random!".to_string() });
    assert_eq!(Tag::get_or_new("ñ", None).unwrap_err(), ZkError::InvalidTagName);
}

#[test]
fn lookup_answers_with_the_fallback_tag() {
    let metadata = Metadata::parse("/notes").unwrap();
    assert_eq!(metadata.project_root, "/notes");
    assert_eq!(metadata.tags.len(), 0);
    assert_eq!(
        metadata.lookup_tag_string("anything"),
        Some(Tag { name: "lol".to_string(), color: "wahoo".to_string() })
    );
}

#[test]
fn dictionary_order() {
    assert_eq!(order_of(&v("a"), &v("b")), Order::Before);
    assert_eq!(order_of(&v("b"), &v("a")), Order::After);
    assert_eq!(order_of(&v("ab"), &v("ab")), Order::Same);
    assert_eq!(order_of(&v("ab"), &v("abc")), Order::Before);
    assert_eq!(order_of(&v(""), &v("")), Order::Same);
    assert_eq!(order_of(&v("Z"), &v("a")), Order::Before);
    assert_eq!(order_of(&v("z"), &v("é")), Order::Before);
}

#[test]
fn names_are_sorted_and_found() {
    let sorted = sorted_names(&names(&["y", "x", "zz", "x", "a"]));
    let texts: Vec<String> = sorted.iter().map(|w| w.iter().collect()).collect();
    assert_eq!(texts, vec!["a", "x", "y", "zz"]);
    assert_eq!(find_name(&sorted, &v("a")), Some(0));
    assert_eq!(find_name(&sorted, &v("y")), Some(2));
    assert_eq!(find_name(&sorted, &v("x")), Some(1));
    assert_eq!(find_name(&sorted, &v("z")), None);
    assert_eq!(find_name(&Vec::new(), &v("z")), None);
}

#[test]
fn declared_tags_change_from_x_y_to_y_z() {
    let held = vec![stored("t1", "x", "red"), stored("t2", "y", "blue")];
    let plan = ReconcilePlan::new(&names(&["y", "z"]), &held);
    assert_eq!(plan.kept, vec![stored("t2", "y", "blue")]);
    assert_eq!(plan.removed, vec![stored("t1", "x", "red")]);
    assert_eq!(plan.wanted, names(&["z"]));
}

#[test]
fn nothing_held_wants_every_name_once_in_order() {
    let plan = ReconcilePlan::new(&names(&["b", "a", "b"]), &Vec::new());
    assert!(plan.kept.is_empty());
    assert!(plan.removed.is_empty());
    assert_eq!(plan.wanted, names(&["a", "b"]));
}

#[test]
fn a_name_declared_twice_is_declared() {
    let plan = ReconcilePlan::new(&names(&["x", "x"]), &Vec::new());
    assert_eq!(plan.wanted, names(&["x"]));
    let plan = ReconcilePlan::new(&names(&["x", "x"]), &vec![stored("t1", "x", "red")]);
    assert_eq!(plan.kept, vec![stored("t1", "x", "red")]);
    assert!(plan.removed.is_empty());
    assert!(plan.wanted.is_empty());
}

#[test]
fn nothing_declared_removes_everything() {
    let held = vec![stored("t1", "x", "red"), stored("t2", "y", "blue")];
    let plan = ReconcilePlan::new(&Vec::new(), &held);
    assert!(plan.kept.is_empty());
    assert_eq!(plan.removed, held);
    assert!(plan.wanted.is_empty());
}

#[test]
fn a_name_held_twice_is_kept_once() {
    let held = vec![stored("t1", "x", "red"), stored("t2", "x", "blue"), stored("t3", "w", "c")];
    let plan = ReconcilePlan::new(&names(&["x"]), &held);
    assert_eq!(plan.kept, vec![stored("t1", "x", "red")]);
    assert_eq!(plan.removed, vec![stored("t2", "x", "blue"), stored("t3", "w", "c")]);
    assert!(plan.wanted.is_empty());
}

#[test]
fn associations_after_are_the_declared_names_once_each() {
    let cases: Vec<(Vec<&str>, Vec<&str>)> = vec![
        (vec!["x", "y"], vec![]),
        (vec!["y", "z"], vec!["x", "y"]),
        (vec![], vec!["x", "y"]),
        (vec!["a", "a", "b"], vec!["a", "c", "a", "a"]),
        (vec!["q"], vec!["q"]),
        (vec!["x", "x"], vec![]),
    ];
    for (declared, held_names) in cases {
        let held: Vec<StoredTag> =
            held_names.iter().enumerate().map(|(i, n)| stored(&format!("t{}", i), n, "c")).collect();
        let plan = ReconcilePlan::new(&names(&declared), &held);
        let mut after: Vec<String> = held.iter().map(|t| t.name.clone()).collect();
        for gone in &plan.removed {
            let at = after.iter().position(|n| *n == gone.name).unwrap();
            after.remove(at);
        }
        after.extend(plan.wanted.iter().cloned());
        after.sort();
        let mut wanted = names(&declared);
        wanted.sort();
        wanted.dedup();
        assert_eq!(after, wanted);
    }
}
