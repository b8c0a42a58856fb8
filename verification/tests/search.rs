use iphone_bridge::files::api::search::{
    search, search_answer, Entry, Search, SearchQuery, MAX_DEPTH,
};

fn entry(name: &str, is_dir: bool) -> Entry {
    Entry {
        name: name.to_string(),
        path: format!("C:/r/{name}"),
        parent: "C:/r".to_string(),
        is_dir,
    }
}


#[test]
fn a_search_finds_names_and_enters_folders() {
    let mut s = Search::new("C:/r", "NOTE");
    assert_eq!(s.next_folder(false).as_deref(), Some("C:/r"));
    assert!(s.see(&entry("notes.txt", false), false));
    assert!(s.see(&entry("sub", true), false));
    assert!(s.see(&entry("node_modules", true), false));
    assert!(s.see(&entry("other", false), false));
    assert_eq!(s.next_folder(false).as_deref(), Some("C:/r/sub"));
    assert_eq!(s.next_folder(false), None);
    let (hits, truncated) = s.into_results();
    assert_eq!(hits.len(), 1);
    assert_eq!(hits[0].name, "notes.txt");
    assert!(!truncated);
}


#[test]
fn a_search_stops_at_a_hundred() {
    let mut s = Search::new("r", "x");
    s.next_folder(false);
    for i in 0..99 {
        assert!(s.see(&entry(&format!("x{i}"), false), false));
    }
    assert!(!s.see(&entry("x", true), false));
    assert!(!s.see(&entry("x", false), false));
    assert_eq!(s.next_folder(false), None);
    let (hits, truncated) = s.into_results();
    assert_eq!(hits.len(), 100);
    assert!(truncated);
}


#[test]
fn a_search_stops_when_its_time_is_up() {
    let mut s = Search::new("r", "x");
    assert_eq!(s.next_folder(true), None);
    assert!(s.into_results().1);
    let mut s = Search::new("r", "x");
    s.next_folder(false);
    assert!(!s.see(&entry("x", false), true));
    let (hits, truncated) = s.into_results();
    assert!(hits.is_empty() && truncated);
}


#[test]
fn a_search_goes_no_deeper_than_allowed() {
    let mut s = Search::new("r", "zzz");
    let mut folders = 0;
    while s.next_folder(false).is_some() {
        folders += 1;
        s.see(&entry("d", true), false);
    }
    assert_eq!(folders, MAX_DEPTH + 1);
}


#[test]
fn a_search_for_nothing_or_outside_is_refused() {
    let q = |s: &str| SearchQuery { root: "r".to_string(), q: s.to_string() };
    let inside = Ok(("C:/r".to_string(), vec![]));
    let a = search(&q("  "), &inside).err().unwrap();
    assert_eq!(a.body.text_field("error"), Some("query cannot be empty"));
    assert_eq!(search(&q("a"), &Err("no".to_string())).err().unwrap().status, 403);
    let mut s = search(&q("a"), &inside).ok().unwrap();
    assert_eq!(s.next_folder(false).as_deref(), Some("C:/r"));
    assert!(s.see(&entry("A", true), false));
    let (hits, truncated) = s.into_results();
    let a = search_answer(&hits, truncated, 12);
    let r = &a.body.list_field("results").unwrap()[0];
    assert_eq!(r.text_field("parent"), Some("C:/r"));
    assert_eq!(r.bool_field("isDir"), Some(true));
    assert_eq!(a.body.bool_field("truncated"), Some(false));
}


#[test]
fn a_whole_search_finds_every_match_shallow_ones_first() {
    let listing = |dir: &str| -> Vec<(&str, bool)> {
        match dir {
            "C:/r" => vec![("a", true), ("note.txt", false), ("b", true), (".git", true)],
            "C:/r/a" => vec![("deep", true), ("notes", true)],
            "C:/r/b" => vec![("my note", false)],
            "C:/r/a/deep" => vec![("NOTE", false)],
            "C:/r/a/notes" => vec![("x", false)],
            _ => vec![("note", false)],
        }
    };
    let mut s = Search::new("C:/r", "note");
    while let Some(dir) = s.next_folder(false) {
        for (name, is_dir) in listing(&dir) {
            let e = Entry {
                name: name.to_string(),
                path: format!("{dir}/{name}"),
                parent: dir.clone(),
                is_dir,
            };
            assert!(s.see(&e, false));
        }
    }
    let (hits, truncated) = s.into_results();
    assert!(!truncated);
    let paths: Vec<&str> = hits.iter().map(|h| h.path.as_str()).collect();
    assert_eq!(
        paths,
        vec!["C:/r/note.txt", "C:/r/a/notes", "C:/r/b/my note", "C:/r/a/deep/NOTE"]
    );
}


#[test]
fn a_search_that_is_cut_short_has_found_the_first_matches() {
    let mut whole = Search::new("r", "x");
    let mut cut = Search::new("r", "x");
    whole.next_folder(false);
    cut.next_folder(false);
    for (i, name) in ["x1", "other", "x2", "x3"].into_iter().enumerate() {
        whole.see(&entry(name, false), false);
        cut.see(&entry(name, false), i == 3);
    }
    let (all, _) = whole.into_results();
    let (first, truncated) = cut.into_results();
    assert!(truncated);
    assert_eq!((first.len(), all.len()), (2, 3));
    for (a, b) in first.iter().zip(&all) {
        assert_eq!(a.path, b.path);
    }
}
