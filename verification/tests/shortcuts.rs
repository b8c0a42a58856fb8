use iphone_bridge::files::shortcuts::resolve_shortcuts;
use std::collections::HashSet;

#[test]
fn all_present_returns_all_in_order() {
    let out = resolve_shortcuts(r"C:\Users\thedi", |_| true);
    let names: Vec<&str> = out.iter().map(|s| s.name.as_str()).collect();
    assert_eq!(
        names,
        vec!["Desktop", "Downloads", "Documents", "Work", "Projects", "Tools", "MetaGrid", "Mic"]
    );
    assert_eq!(out[0].path, r"C:\Users\thedi\Desktop");
    assert_eq!(out[6].path, r"C:\Users\thedi\Desktop\Work\Tools\MetaGrid");
}

#[test]
fn none_present_returns_empty() {
    let out = resolve_shortcuts(r"C:\Users\thedi", |_| false);
    assert!(out.is_empty());
}

#[test]
fn only_existing_entries_are_kept() {
    let existing: HashSet<&str> = [r"C:\Users\thedi\Desktop", r"C:\Users\thedi\Downloads"]
        .into_iter()
        .collect();
    let out = resolve_shortcuts(r"C:\Users\thedi", |p| existing.contains(p));
    let names: Vec<&str> = out.iter().map(|s| s.name.as_str()).collect();
    assert_eq!(names, vec!["Desktop", "Downloads"]);
}

#[test]
fn profile_trailing_backslash_is_normalized() {
    let out = resolve_shortcuts(r"C:\Users\thedi\", |_| true);
    assert_eq!(out[0].path, r"C:\Users\thedi\Desktop");
}

#[test]
fn nested_paths_use_correct_separators() {
    let out = resolve_shortcuts(r"C:\Users\thedi", |_| true);
    let mic = out.iter().find(|s| s.name == "Mic").unwrap();
    assert_eq!(mic.path, r"C:\Users\thedi\Desktop\Mic");
    let projects = out.iter().find(|s| s.name == "Projects").unwrap();
    assert_eq!(projects.path, r"C:\Users\thedi\Desktop\Work\Projects");
}
