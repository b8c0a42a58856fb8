use iphone_bridge::answer::Answer;
use iphone_bridge::files::api::git::{
    git_changes, git_dirty, gitchanges, gitstatus, poll, Child, Poll,
};
use iphone_bridge::files::api::peek::{
    peek_answer, peek_transcript, session_peek, transcript_candidates, transcript_dir,
    SessionPeekQuery, TranscriptFile,
};
use iphone_bridge::files::api::upload::{malformed, upload, FieldStep, Upload};
use iphone_bridge::files::api::zip::{
    build_zip, sweep_stale_zips, temp_dir, zip, zip_path, zip_script,
};
use iphone_bridge::files::api::{
    constant_time_eq, delete, delete_answer, download, kill, list_sessions, list_trash, mkdir,
    mkdir_answer, rename, rename_answer, require_pin, resolve_existing, restore_trash, roots,
    scope_answer, set_scope, spawn, spawn_answer, stream_file_response, to_epoch_ms,
    DownloadQuery, FileFacts, KillBody, MkdirBody, RenameBody, RootSpace, ScopeBody, SpawnBody,
};
use iphone_bridge::files::config::{Config, NamedRoot, Scope};
use iphone_bridge::files::delete::{recycle_buffer, to_recycle_bin};
use iphone_bridge::files::features::collision_free_name;
use iphone_bridge::files::sessions::{Session, SessionStore, SessionView};
use iphone_bridge::files::shortcuts::Shortcut;
use iphone_bridge::json::{Json, Number};

type At = Result<(String, Vec<String>), String>;

fn inside() -> At {
    Ok((r"C:\root\sub".to_string(), vec![r"C:\root".to_string()]))
}

fn at_root() -> At {
    Ok((r"C:\root".to_string(), vec![r"C:\root".to_string()]))
}

fn outside() -> At {
    Err("path is outside the allowed folders".to_string())
}

fn error(a: &Answer) -> (u16, &str) {
    (a.status, a.body.text_field("error").expect("must be an error"))
}

fn list<'a>(j: &'a Json, name: &str) -> &'a Vec<Json> {
    j.list_field(name).expect("must be a list")
}


#[test]
fn constant_time_eq_basic() {
    assert!(constant_time_eq(b"123456", b"123456"));
    assert!(!constant_time_eq(b"123456", b"123457"));
    assert!(!constant_time_eq(b"123456", b"12345"));
    assert!(!constant_time_eq(b"", b"1"));
    assert!(constant_time_eq(b"", b""));
}


#[test]
fn a_request_without_the_pin_is_refused() {
    assert!(require_pin(Some("123456"), "123456").is_none());
    let a = require_pin(Some("000000"), "123456").unwrap();
    assert_eq!(error(&a), (401, "unauthorized"));
    assert!(matches!(a.body.get("pinLength"), Some(Json::Number(Number::Unsigned(6)))));
    assert!(require_pin(None, "123456").is_some());
}


#[test]
fn a_path_is_resolved_with_its_roots() {
    let outcomes = vec![Some(r"C:\root".to_string()), None];
    let (p, roots) = resolve_existing(Some(r"C:\ROOT\a".to_string()), &outcomes).unwrap();
    assert_eq!(p, r"C:\ROOT\a");
    assert_eq!(roots, vec![r"C:\root"]);
    assert_eq!(resolve_existing(None, &outcomes).unwrap_err(), "path does not exist");
    assert_eq!(
        resolve_existing(Some(r"D:\".to_string()), &outcomes).unwrap_err(),
        "path is outside the allowed folders"
    );
}


#[test]
fn the_scope_is_set_by_its_word() {
    let mut cfg = Config::first_run(1);
    for (word, scope) in [("profile", Scope::Profile), ("drives", Scope::Drives), ("roots", Scope::Roots)] {
        let body = ScopeBody { scope: word.to_string() };
        assert!(set_scope(&mut cfg, &body).is_none());
        assert_eq!(cfg.scope, scope);
        assert_eq!(scope_answer(&body, &vec![]).body.text_field("scope"), Some(word));
    }
    let a = set_scope(&mut cfg, &ScopeBody { scope: "all".to_string() }).unwrap();
    assert_eq!(error(&a), (400, "unknown scope: all"));
    assert_eq!(cfg.scope, Scope::Roots);
}


#[test]
fn the_roots_carry_the_room_on_their_volumes() {
    let cfg = Config::first_run(1);
    let root = |n: &str| NamedRoot { name: n.to_string(), path: format!("C:/{n}") };
    let spaces = vec![
        RootSpace { root: root("a"), space: Some((5, 9)) },
        RootSpace { root: root("b"), space: None },
    ];
    let shortcuts = vec![Shortcut { name: "Desktop".to_string(), path: "d".to_string() }];
    let a = roots(&cfg, &spaces, &shortcuts);
    assert_eq!(a.body.text_field("scope"), Some("roots"));
    assert_eq!(list(&a.body, "roots").len(), 4);
    let e = list(&a.body, "effectiveRoots");
    assert!(matches!(e[0].get("freeBytes"), Some(Json::Number(Number::Unsigned(5)))));
    assert!(matches!(e[0].get("totalBytes"), Some(Json::Number(Number::Unsigned(9)))));
    assert!(matches!(e[1].get("freeBytes"), Some(Json::Null)));
    assert_eq!(list(&a.body, "shortcuts")[0].text_field("name"), Some("Desktop"));
}


#[test]
fn folders_are_made_renamed_and_deleted_inside_only() {
    let body = |n: &str| MkdirBody { parent: "p".to_string(), name: n.to_string() };
    assert_eq!(mkdir(&body("new"), &inside()).ok().unwrap(), r"C:\root\sub\new");
    assert_eq!(error(&mkdir(&body("a/b"), &inside()).err().unwrap()).0, 400);
    assert_eq!(error(&mkdir(&body("a"), &outside()).err().unwrap()).0, 403);
    assert_eq!(mkdir_answer("x", &Ok(())).body.text_field("path"), Some("x"));
    assert_eq!(
        error(&mkdir_answer("x", &Err("full".to_string()))),
        (400, "could not create folder: full")
    );
    let new = |n: &str| RenameBody { path: "p".to_string(), new_name: n.to_string() };
    assert_eq!(rename(&new("n"), &inside(), Some(r"C:\root")).ok().unwrap(), r"C:\root\n");
    assert_eq!(
        error(&rename(&new("n"), &at_root(), Some(r"C:\")).err().unwrap()),
        (403, "cannot rename a root folder")
    );
    assert_eq!(
        error(&rename(&new("n"), &inside(), None).err().unwrap()),
        (400, "path has no parent")
    );
    assert_eq!(error(&rename(&new(".."), &inside(), None).err().unwrap()).0, 400);
    assert_eq!(error(&rename_answer("x", &Err("e".to_string()))), (400, "could not rename: e"));
    assert_eq!(rename_answer("x", &Ok(())).status, 200);
    assert_eq!(delete(&inside()).ok().unwrap(), r"C:\root\sub");
    assert_eq!(
        error(&delete(&at_root()).err().unwrap()),
        (403, "cannot delete a root folder")
    );
    assert_eq!(error(&delete(&outside()).err().unwrap()).0, 403);
    assert_eq!(delete_answer(&Ok(())).body.bool_field("ok"), Some(true));
    assert_eq!(error(&delete_answer(&to_recycle_bin(-7))), (400, "SHFileOperationW failed (code -7)"));
    assert_eq!(to_recycle_bin(0), Ok(()));
    assert_eq!(recycle_buffer(&[65]), vec![65, 0, 0]);
}


#[test]
fn a_session_is_seen_the_first_time_only() {
    let mut cfg = Config::first_run(1);
    let body = SpawnBody { path: "p".to_string(), name: None, mode: None };
    let first = spawn(&cfg, &body, &inside()).ok().unwrap();
    assert!(first.first_time && !first.hidden);
    assert_eq!(first.effective, "visible");
    cfg.remember_spawned_dir(&first.path);
    let again = spawn(&cfg, &body, &inside()).ok().unwrap();
    assert!(!again.first_time && again.hidden);
    assert_eq!(error(&spawn(&cfg, &body, &outside()).err().unwrap()).0, 403);
    let s = Session {
        id: "i".to_string(),
        pid: 3,
        path: "p".to_string(),
        name: "n".to_string(),
        started_at_ms: 1,
        hidden: true,
    };
    let a = spawn_answer(&Ok(s), "hidden", false);
    assert_eq!(a.body.text_field("mode"), Some("hidden"));
    assert_eq!(a.body.bool_field("firstTime"), Some(false));
    assert_eq!(error(&spawn_answer(&Err("no".to_string()), "hidden", false)), (500, "no"));
}


#[test]
fn sessions_are_listed_and_killed() {
    let view = SessionView {
        id: "i".to_string(),
        pid: 3,
        path: "p".to_string(),
        name: "n".to_string(),
        started_at_ms: 7,
        hidden: true,
        alive: false,
    };
    let views = vec![view];
    let a = list_sessions(&views);
    let s = &list(&a.body, "sessions")[0];
    assert!(matches!(s.get("startedAtMs"), Some(Json::Number(Number::Unsigned(7)))));
    assert_eq!(s.bool_field("alive"), Some(false));
    assert_eq!(session_peek(&views, &SessionPeekQuery { id: "i".to_string() }), Some(0));
    assert_eq!(session_peek(&views, &SessionPeekQuery { id: "x".to_string() }), None);
    let mut store = SessionStore::default();
    let a = kill(&mut store, &KillBody { id: "i".to_string() }, &Ok(()));
    assert_eq!(error(&a), (400, "unknown session id"));
}


#[test]
fn the_recycle_bin_is_answered() {
    assert_eq!(list(&list_trash(&Ok(vec![])).body, "items").len(), 0);
    assert_eq!(error(&list_trash(&Err("e".to_string()))), (500, "e"));
    let a = restore_trash(&Ok("C:/x".to_string()));
    assert_eq!(a.body.text_field("restoredTo"), Some("C:/x"));
    assert_eq!(error(&restore_trash(&Err("e".to_string()))), (500, "e"));
}


#[test]
fn files_are_sent_up_to_the_cap() {
    let q = DownloadQuery { path: "p".to_string(), disposition: None };
    let facts = |is_dir: bool, len: u64| Ok(FileFacts { is_dir, len });
    let cap = 512 * 1024 * 1024;
    let s = download(&q, &inside(), Some("a.pdf"), &facts(false, cap)).ok().unwrap();
    let headers = stream_file_response(&s);
    let get = |n: &str| headers.iter().find(|h| h.0 == n).unwrap().1.clone();
    assert_eq!(get("content-type"), "application/pdf");
    assert_eq!(get("content-length"), "536870912");
    assert_eq!(get("content-disposition"), "attachment; filename=\"a.pdf\"");
    assert_eq!(get("cache-control"), "no-store");
    let err = |f: &Result<FileFacts, String>| download(&q, &inside(), None, f).err().unwrap();
    assert_eq!(error(&err(&facts(false, cap + 1))), (413, "file exceeds 512 MB download cap"));
    assert_eq!(error(&err(&facts(true, 0))), (400, "path is a directory, not a file"));
    assert_eq!(error(&err(&Err("gone".to_string()))), (400, "cannot stat file: gone"));
    assert_eq!(download(&q, &inside(), None, &facts(false, 1)).ok().unwrap().name, "download");
}


#[test]
fn times_are_counted_in_milliseconds() {
    assert_eq!(to_epoch_ms(None), 0);
    assert_eq!(to_epoch_ms(Some((12, 345_999_999))), 12_345);
}


#[test]
fn git_is_asked_for_a_while() {
    assert_eq!(poll(&Child::Running, false), Poll::Sleep);
    assert_eq!(poll(&Child::Running, true), Poll::Kill);
    assert_eq!(poll(&Child::Ended { success: true }, false), Poll::Read);
    assert_eq!(poll(&Child::Ended { success: false }, false), Poll::GiveUp);
    assert_eq!(poll(&Child::Broken, false), Poll::GiveUp);
    assert!(git_dirty(Some(" M a\n")));
    assert!(!git_dirty(Some(" \n")));
    assert!(!git_dirty(None));
    assert_eq!(gitstatus(&inside(), Some("?? x")).body.bool_field("dirty"), Some(true));
    assert_eq!(gitstatus(&outside(), Some("?? x")).body.bool_field("dirty"), Some(false));
}


#[test]
fn changes_are_read_up_to_the_cap() {
    let (c, more) = git_changes(Some(" M src/a.rs\n?? b\n"));
    assert_eq!(c.len(), 2);
    assert_eq!((c[1].status.as_str(), c[1].path.as_str()), ("??", "b"));
    assert!(!more);
    let many = "?? x\n".repeat(201);
    let (c, more) = git_changes(Some(&many));
    assert_eq!(c.len(), 200);
    assert!(more);
    assert!(!git_changes(Some(&"?? x\n".repeat(200))).1);
    // A line that cannot be cut into columns spoils the lot.
    assert!(git_changes(Some("?? x\n\u{65e5}\u{672c}\n")).0.is_empty());
    assert!(git_changes(None).0.is_empty());
    // A line without a path takes nothing away from the others.
    let (c, _) = git_changes(Some("?? x\n\u{e9} \r\r\n M y\n"));
    assert_eq!(c.len(), 2);
    assert_eq!(c[1].path, "y");
    let a = gitchanges(&inside(), Some("A  n"));
    assert_eq!(list(&a.body, "files")[0].text_field("status"), Some("A"));
    assert!(list(&gitchanges(&outside(), Some("A  n")).body, "files").is_empty());
}


#[test]
fn uploads_are_taken_field_by_field() {
    assert_eq!(upload(&inside(), true).ok().unwrap(), r"C:\root\sub");
    assert_eq!(
        error(&upload(&inside(), false).err().unwrap()),
        (400, "upload target is not a directory")
    );
    assert_eq!(error(&upload(&outside(), true).err().unwrap()).0, 403);
    let mut u = Upload::new();
    assert!(matches!(u.field(Some("note"), Some("a")), FieldStep::Skip));
    assert!(matches!(u.field(Some("files"), None), FieldStep::Discard));
    assert!(matches!(u.field(Some("files"), Some("../x")), FieldStep::Discard));
    let name = match u.field(Some("files"), Some("a.txt")) {
        FieldStep::Store(n) => n,
        _ => panic!("must be stored"),
    };
    let stored = collision_free_name(&name, |n| n == "a.txt");
    u.written(&name, &stored, &Ok(()));
    u.written("b", "b", &Err("full".to_string()));
    u.read_failed("c", "cut off");
    let a = u.answer();
    assert!(matches!(&list(&a.body, "saved")[0], Json::Text(t) if t == "a (2).txt"));
    let reasons: Vec<&str> =
        list(&a.body, "rejected").iter().map(|r| r.text_field("reason").unwrap()).collect();
    assert_eq!(
        reasons,
        vec![
            "missing filename",
            "name contains an illegal character: '/'",
            "write failed: full",
            "read failed: cut off"
        ]
    );
    assert_eq!(error(&malformed("x")), (400, "malformed multipart: x"));
}


#[test]
fn the_transcript_of_a_session_is_found() {
    assert_eq!(
        transcript_dir(r"C:\Users\me", ".agent", r"D:\Quantifull"),
        r"C:\Users\me\.agent\projects\D--Quantifull"
    );
    let f = |n: &str, c: Option<u64>, m: Option<u64>| TranscriptFile {
        name: n.to_string(),
        created_ms: c,
        modified_ms: m,
    };
    let files = vec![
        f("a.jsonl", Some(1), Some(2)),
        f("b.txt", Some(1), Some(2)),
        f("c.jsonl", None, Some(9)),
        f("d.jsonl", Some(1), None),
    ];
    let c = transcript_candidates(&files);
    assert_eq!(c.len(), 2);
    assert_eq!((c[1].name.as_str(), c[1].created_ms, c[1].modified_ms), ("c.jsonl", 9, 9));
}


#[test]
fn a_glance_shows_the_messages_of_the_last_lines() {
    let mut text = String::new();
    for i in 0..50 {
        text.push_str(&format!("{{\"type\":\"user\",\"message\":{{\"role\":\"user\",\"content\":\"m{i}\"}}}}\n"));
    }
    text.push_str("not json\n");
    let lines = peek_transcript(&text);
    assert_eq!(lines.len(), 39);
    assert_eq!(lines[0].text, "m11");
    let a = peek_answer(&lines, Some("a.jsonl"));
    assert_eq!(a.body.text_field("file"), Some("a.jsonl"));
    assert_eq!(list(&a.body, "lines")[38].text_field("text"), Some("m49"));
    assert!(matches!(peek_answer(&vec![], None).body.get("file"), Some(Json::Null)));
}


#[test]
fn a_folder_is_sent_as_an_archive() {
    assert_eq!(zip(&inside(), true, Some("sub")).ok().unwrap(), "sub.zip");
    assert_eq!(zip(&inside(), true, None).ok().unwrap(), "archive.zip");
    assert_eq!(
        error(&zip(&inside(), false, None).err().unwrap()),
        (400, "zip target must be a directory")
    );
    assert_eq!(temp_dir(None, Some("t")), "t");
    assert_eq!(temp_dir(None, None), r"C:\Windows\Temp");
    assert_eq!(zip_path(r"C:\T", 255), r"C:\T\iphone-bridge-zip-00000000000000ff.zip");
    assert_ne!(zip_path("t", 1), zip_path("t", 2));
    let script = zip_script("a'b", "z");
    assert!(!script.contains("a'b"));
    assert!(script.contains("YQAnAGIA"));
    assert!(script.contains("Compress-Archive"));
    assert_eq!(build_zip(&Ok("ok".to_string()), true), Ok(()));
    assert_eq!(
        build_zip(&Ok("ok".to_string()), false),
        Err("zip creation reported success but file is missing".to_string())
    );
    assert_eq!(build_zip(&Err("e".to_string()), true), Err("e".to_string()));
    assert!(sweep_stale_zips("iphone-bridge-zip-1.zip", Some((3600, 1))));
    assert!(!sweep_stale_zips("iphone-bridge-zip-1.zip", Some((3600, 0))));
    assert!(!sweep_stale_zips("other.zip", Some((9999, 0))));
}
