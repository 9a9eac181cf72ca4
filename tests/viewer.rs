use response_viewer::{message_for_key, Codes, Entry, Key, Message, TagSet, Viewer};

fn s(x: &str) -> String {
    x.to_string()
}

fn tagged(index: u32, tags: &[&str]) -> Entry {
    Entry {
        index,
        lab: s("lab"),
        group: s("group"),
        response: format!("response {}", index),
        ratings: vec![s("good"), s("fine")],
        matches: None,
        codes: Codes::Tags(TagSet::from_strings(tags.iter().map(|t| s(t)).collect())),
    }
}

fn text(index: u32, t: &str) -> Entry {
    Entry {
        index,
        lab: s("lab"),
        group: s("group"),
        response: s("free"),
        ratings: vec![],
        matches: Some(false),
        codes: Codes::Text(s(t)),
    }
}

fn three() -> Viewer {
    Viewer::new(vec![tagged(10, &[]), tagged(11, &["x"]), tagged(12, &[])], vec![])
}

fn tags_of(e: &Entry) -> Vec<String> {
    match &e.codes {
        Codes::Tags(t) => t.to_vec(),
        Codes::Text(_) => panic!("free-text codes"),
    }
}

#[test]
fn advance_clamps_at_last_entry() {
    let mut v = three();
    assert_eq!(v.idx(), 0);
    assert!(!v.update(Message::NextRow));
    assert!(!v.update(Message::NextRow));
    assert_eq!(v.idx(), 2);
    assert!(!v.update(Message::NextRow));
    assert_eq!(v.idx(), 2);
}

#[test]
fn retreat_clamps_at_first_entry() {
    let mut v = three();
    assert!(!v.update(Message::PrevRow));
    assert_eq!(v.idx(), 0);
    v.update(Message::NextRow);
    v.update(Message::PrevRow);
    assert_eq!(v.idx(), 0);
}

#[test]
fn single_entry_never_moves() {
    let mut v = Viewer::new(vec![tagged(1, &[])], vec![]);
    v.update(Message::NextRow);
    assert_eq!(v.idx(), 0);
    v.update(Message::PrevRow);
    assert_eq!(v.idx(), 0);
    assert_eq!(v.len(), 1);
}

#[test]
fn set_matches_changes_only_current_entry() {
    let mut v = three();
    assert!(v.update(Message::Matches(true)));
    assert_eq!(v.entries()[0].matches, Some(true));
    assert_eq!(v.entries()[1].matches, None);
    assert_eq!(v.entries()[2].matches, None);
    assert_eq!(tags_of(&v.entries()[1]), vec![s("x")]);
    assert_eq!(v.curr().index, 10);
    assert_eq!(v.curr().response, "response 10");
}

#[test]
fn toggle_from_absent_gives_true_then_flips() {
    let mut v = three();
    assert!(v.update(Message::ToggleMatches));
    assert_eq!(v.curr().matches, Some(true));
    assert!(v.update(Message::ToggleMatches));
    assert_eq!(v.curr().matches, Some(false));
    assert!(v.update(Message::ToggleMatches));
    assert_eq!(v.curr().matches, Some(true));
}

#[test]
fn toggle_from_false_gives_true() {
    let mut v = Viewer::new(vec![text(0, "")], vec![]);
    assert!(!v.curr().matches_shown());
    v.update(Message::ToggleMatches);
    assert_eq!(v.curr().matches, Some(true));
    assert!(v.curr().matches_shown());
}

#[test]
fn code_on_then_off_restores_tags() {
    let mut v = three();
    v.update(Message::NextRow);
    assert!(v.update(Message::CodeToggle(s("y"), true)));
    assert!(v.curr().has_code(&s("y")));
    assert_eq!(tags_of(v.curr()), vec![s("x"), s("y")]);
    assert!(v.update(Message::CodeToggle(s("y"), false)));
    assert!(!v.curr().has_code(&s("y")));
    assert_eq!(tags_of(v.curr()), vec![s("x")]);
}

#[test]
fn code_on_twice_is_kept_once() {
    let mut v = three();
    v.update(Message::CodeToggle(s("a"), true));
    v.update(Message::CodeToggle(s("a"), true));
    assert_eq!(tags_of(v.curr()), vec![s("a")]);
    v.update(Message::CodeToggle(s("missing"), false));
    assert_eq!(tags_of(v.curr()), vec![s("a")]);
}

#[test]
fn code_text_replaces_free_text_only() {
    let mut v = Viewer::new(vec![text(0, "old"), tagged(1, &["t"])], vec![]);
    assert!(!v.update(Message::CodeToggle(s("t"), true)));
    assert!(v.update(Message::CodeText(s("new text"))));
    match &v.curr().codes {
        Codes::Text(t) => assert_eq!(t, "new text"),
        Codes::Tags(_) => panic!("expected free text"),
    }
    v.update(Message::NextRow);
    assert!(!v.update(Message::CodeText(s("ignored"))));
    assert_eq!(tags_of(v.curr()), vec![s("t")]);
}

#[test]
fn ignore_changes_nothing() {
    let mut v = three();
    assert!(!v.update(Message::Ignore));
    assert_eq!(v.idx(), 0);
    assert_eq!(v.curr().matches, None);
}

#[test]
fn keys_map_to_intents() {
    assert!(matches!(message_for_key(Key::Right), Message::NextRow));
    assert!(matches!(message_for_key(Key::Left), Message::PrevRow));
    assert!(matches!(message_for_key(Key::Space), Message::ToggleMatches));
    assert!(matches!(message_for_key(Key::Other), Message::Ignore));
}

#[test]
fn tag_set_from_strings_drops_repeats() {
    let t = TagSet::from_strings(vec![s("b"), s("a"), s("b")]);
    assert_eq!(t.to_vec(), vec![s("b"), s("a")]);
    assert!(t.contains(&s("a")));
    assert!(!t.contains(&s("c")));
    assert!(TagSet::new().to_vec().is_empty());
}
