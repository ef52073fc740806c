use termua::static_suggestions::{StaticSuggestionsDb, SuggestionsExample, MAX_CANDIDATES};

fn ex(cmd: &str, desc: &str) -> SuggestionsExample {
    SuggestionsExample { cmd: cmd.to_string(), desc: desc.to_string() }
}

fn file(entries: Vec<(&str, Vec<SuggestionsExample>)>) -> Vec<(String, Vec<SuggestionsExample>)> {
    entries.into_iter().map(|(c, e)| (c.to_string(), e)).collect()
}

fn shown(cmd: &str, desc: Option<&str>) -> (String, Option<String>) {
    (cmd.to_string(), desc.map(|d| d.to_string()))
}

#[test]
fn loads_suggestions_from_suggestions_dir() {
    let mut db = StaticSuggestionsDb::new();
    db.merge_suggestions(&file(vec![("ls", vec![ex("ls -al", ""), ex("ls -lah", "")])]));
    db.merge_suggestions(&file(vec![("ls", vec![ex("ls --all", "list all")])]));
    let out = db.for_each_candidate("ls");
    assert!(out.iter().any(|(cmd, _)| cmd == "ls -al"));
    assert!(out.iter().any(|(cmd, _)| cmd == "ls -lah"));
    assert!(out.iter().any(|(cmd, desc)| cmd == "ls --all" && desc.as_deref() == Some("list all")));
}

#[test]
fn candidates_come_in_command_then_example_order() {
    let mut db = StaticSuggestionsDb::new();
    db.merge_suggestions(&file(vec![
        ("lsblk", vec![ex("lsblk -f", "filesystems")]),
        ("ls", vec![ex("ls -lah", ""), ex("ls -al", " long ")]),
        ("git", vec![ex("git status", "")]),
    ]));
    assert_eq!(
        db.for_each_candidate("  ls "),
        vec![shown("ls -al", Some("long")), shown("ls -lah", None), shown("lsblk -f", Some("filesystems"))]
    );
    assert_eq!(db.for_each_candidate("gi"), vec![shown("git status", None)]);
    assert_eq!(db.for_each_candidate("zz"), vec![]);
}

#[test]
fn blank_word_gives_nothing() {
    let mut db = StaticSuggestionsDb::new();
    db.merge_suggestions(&file(vec![("ls", vec![ex("ls -al", "")])]));
    assert_eq!(db.for_each_candidate("   "), vec![]);
    assert_eq!(db.for_each_candidate(""), vec![]);
}

#[test]
fn single_character_matches_that_command_only() {
    let mut db = StaticSuggestionsDb::new();
    db.merge_suggestions(&file(vec![
        ("l", vec![ex("l -a", "")]),
        ("ls", vec![ex("ls -al", "")]),
    ]));
    assert_eq!(db.for_each_candidate("l"), vec![shown("l -a", None)]);
    assert_eq!(db.for_each_candidate("x"), vec![]);
}

#[test]
fn examples_not_under_their_command_are_dropped() {
    let mut db = StaticSuggestionsDb::new();
    db.merge_suggestions(&file(vec![
        (" ls ", vec![ex("cat x", "no"), ex("   ", "blank"), ex(" ls -1 ", "one per line")]),
        ("  ", vec![ex("anything", "")]),
    ]));
    assert_eq!(db.for_each_candidate("ls"), vec![shown("ls -1", Some("one per line"))]);
    assert_eq!(db.for_each_candidate("an"), vec![]);
}

#[test]
fn longer_description_wins() {
    let mut db = StaticSuggestionsDb::new();
    db.merge_suggestions(&file(vec![("ls", vec![ex("ls -al", "long")])]));
    db.merge_suggestions(&file(vec![("ls", vec![ex("ls -al", "x")])]));
    assert_eq!(db.for_each_candidate("ls"), vec![shown("ls -al", Some("long"))]);
    db.merge_suggestions(&file(vec![("ls", vec![ex("ls -al", "long listing")])]));
    assert_eq!(db.for_each_candidate("ls"), vec![shown("ls -al", Some("long listing"))]);
    // Byte length decides: "éé" is four bytes, longer than "abc".
    db.merge_suggestions(&file(vec![("ls", vec![ex("ls -x", "abc")])]));
    db.merge_suggestions(&file(vec![("ls", vec![ex("ls -x", "éé")])]));
    assert!(db.for_each_candidate("ls").contains(&shown("ls -x", Some("éé"))));
}

#[test]
fn at_most_max_candidates_are_offered() {
    let mut db = StaticSuggestionsDb::new();
    let examples: Vec<SuggestionsExample> = (0..600).map(|i| ex(&format!("ab {i:04}"), "")).collect();
    db.merge_suggestions(&file(vec![("ab", examples)]));
    let out = db.for_each_candidate("ab");
    assert_eq!(out.len(), MAX_CANDIDATES);
    assert_eq!(out[0].0, "ab 0000");
    assert_eq!(out[499].0, "ab 0499");
}

#[test]
fn new_command_is_listed_even_without_examples() {
    let mut db = StaticSuggestionsDb::new();
    db.merge_suggestions(&file(vec![("ls", vec![ex("cat", "")])]));
    assert_eq!(db.for_each_candidate("ls"), vec![]);
}
