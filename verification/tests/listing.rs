use iphone_bridge::files::api::listing::{
    follow_shortcuts, ls, parent_of, shortcut_paths, wanted_targets, Found, Landing,
};
use iphone_bridge::files::lnk::{parse_resolved, Targets};
use iphone_bridge::json::{Json, Number};

fn found(name: &str, is_dir: bool) -> Found {
    Found {
        name: name.to_string(),
        path: format!("C:/root/{name}"),
        is_dir,
        has_git: name == "repo",
        modified: Some((2, 500_000_000)),
    }
}

fn targets() -> Targets {
    parse_resolved(
        r#"[{"lnk":"C:/root/Go.lnk","target":"C:/root/deep","isDir":true},
            {"lnk":"C:/root/App.lnk","target":"C:/a.exe","isDir":false}]"#,
    )
}

fn roots() -> Vec<String> {
    vec!["C:/root".to_string()]
}


#[test]
fn a_listing_has_folders_first_by_name() {
    let read = Ok(vec![found("b.txt", false), found("Zed", true), found("A.txt", false), found("repo", true)]);
    let at = Ok(("C:/root".to_string(), roots()));
    let a = ls(&at, &read, &Targets::new(), &vec![], Some("C:/"));
    let rows = a.body.list_field("entries").unwrap();
    let names: Vec<&str> = rows.iter().map(|r| r.text_field("name").unwrap()).collect();
    assert_eq!(names, vec!["repo", "Zed", "A.txt", "b.txt"]);
    assert_eq!(rows[0].bool_field("isRepo"), Some(true));
    assert!(matches!(rows[0].get("mtimeMs"), Some(Json::Number(Number::Unsigned(2500)))));
    assert!(matches!(a.body.get("parent"), Some(Json::Null)));
    assert_eq!(a.body.text_field("path"), Some("C:/root"));
}


#[test]
fn a_listing_that_cannot_be_made_is_an_error() {
    let at = Ok(("C:/root".to_string(), roots()));
    let a = ls(&at, &Err("denied".to_string()), &Targets::new(), &vec![], None);
    assert_eq!(a.status, 400);
    assert_eq!(a.body.text_field("error"), Some("cannot read directory: denied"));
    let a = ls(&Err("no".to_string()), &Ok(vec![]), &Targets::new(), &vec![], None);
    assert_eq!((a.status, a.body.text_field("error")), (403, Some("no")));
}


#[test]
fn shortcuts_into_the_scope_are_followed() {
    let f = vec![found("Go.lnk", false), found("App.lnk", false), found("x.lnk", true)];
    assert_eq!(shortcut_paths(&f), vec!["C:/root/Go.lnk", "C:/root/App.lnk"]);
    assert_eq!(
        wanted_targets(&f, &targets()),
        vec![Some("C:/root/deep".to_string()), None, None]
    );
    let landing = |p: &str| Some(Landing { path: p.to_string(), has_git: true });
    let rows = follow_shortcuts(&f, &targets(), &vec![landing("C:/root/deep"), landing("C:/root")], &roots());
    assert_eq!(rows[0].name, "Go");
    assert_eq!(rows[0].path, "C:/root/deep");
    assert!(rows[0].is_dir && rows[0].is_repo && rows[0].is_shortcut);
    assert_eq!(rows[1].name, "App.lnk");
    assert!(!rows[1].is_shortcut && !rows[2].is_shortcut);
}


#[test]
fn shortcuts_out_of_the_scope_stay_files() {
    let f = vec![found("Go.lnk", false)];
    let away = vec![Some(Landing { path: "D:/secret".to_string(), has_git: false })];
    let rows = follow_shortcuts(&f, &targets(), &away, &roots());
    assert_eq!(rows[0].name, "Go.lnk");
    assert!(!rows[0].is_dir && !rows[0].is_shortcut);
    let rows = follow_shortcuts(&f, &targets(), &vec![None], &roots());
    assert!(!rows[0].is_shortcut);
}


#[test]
fn one_goes_up_only_inside() {
    assert_eq!(parent_of("C:/root/a", &roots(), Some("C:/root")), Some("C:/root".to_string()));
    assert_eq!(parent_of("C:/root", &roots(), Some("C:/")), None);
    assert_eq!(parent_of("C:/root/a", &roots(), Some("D:/")), None);
    assert_eq!(parent_of("C:/root/a", &roots(), None), None);
}
