use iphone_bridge::files::sessions::{
    build_spawn_cmdline, claude_command, kill, kill_args, new_id, process_name_matches_cmd,
    restore_decision, session_names, sessions_json, parse_sessions, spawn, spawn_args, Check, Launch,
    Session, SessionStore,
};
use iphone_bridge::json::{Json, Number};

fn value(j: &Json) -> serde_json::Value {
    match j {
        Json::Null => serde_json::Value::Null,
        Json::Bool(b) => serde_json::Value::Bool(*b),
        Json::Number(Number::Unsigned(n)) => serde_json::Value::from(*n),
        Json::Number(Number::Signed(n)) => serde_json::Value::from(*n),
        Json::Number(Number::Double(bits)) => serde_json::Value::from(f64::from_bits(*bits)),
        Json::Number(Number::Single(bits)) => serde_json::Value::from(f32::from_bits(*bits)),
        Json::Text(s) => serde_json::Value::String(s.clone()),
        Json::List(items) => serde_json::Value::Array(items.iter().map(value).collect()),
        Json::Object(fields) => {
            serde_json::Value::Object(fields.iter().map(|(k, v)| (k.clone(), value(v))).collect())
        }
    }
}

fn written(j: &Json) -> String {
    serde_json::to_string_pretty(&value(j)).unwrap()
}

fn session(id: &str, pid: u32, started_at_ms: u64) -> Session {
    Session {
        id: id.to_string(),
        pid,
        path: r"C:\proj".to_string(),
        name: "proj".to_string(),
        started_at_ms,
        hidden: true,
    }
}

#[test]
fn cmdline_quotes_name_with_spaces() {
    assert_eq!(
        build_spawn_cmdline("agent", Some("MetaGrid (test)")),
        "\"agent\" --remote-control \"MetaGrid (test)\" --permission-mode auto"
    );
}

#[test]
fn cmdline_quotes_claude_path_with_spaces() {
    assert_eq!(
        build_spawn_cmdline("C:\\Program Files\\node\\agent.cmd", Some("x")),
        "\"C:\\Program Files\\node\\agent.cmd\" --remote-control \"x\" --permission-mode auto"
    );
}

#[test]
fn cmdline_strips_embedded_quotes_from_name() {
    // cmd.exe has no way to escape a quote inside a quoted arg; embedded
    // quotes must be dropped or they break out of the quoting entirely.
    assert_eq!(
        build_spawn_cmdline("agent", Some("evil\" & calc & \"")),
        "\"agent\" --remote-control \"evil & calc & \" --permission-mode auto"
    );
}

#[test]
fn cmdline_omits_name_for_auto_titling() {
    // No explicit name -> bare --remote-control so the program's automatic
    // session naming takes over (title follows the first prompt).
    assert_eq!(
        build_spawn_cmdline("agent", None),
        "\"agent\" --remote-control --permission-mode auto"
    );
}

#[test]
fn dead_pid_is_always_dropped() {
    assert!(!restore_decision(false, None));
    assert!(!restore_decision(false, Some(true)));
    assert!(!restore_decision(false, Some(false)));
}

#[test]
fn alive_and_name_matches_is_kept() {
    assert!(restore_decision(true, Some(true)));
}

#[test]
fn alive_and_name_mismatch_is_dropped() {
    // Recycled PID now belongs to some other process -> drop it.
    assert!(!restore_decision(true, Some(false)));
}

#[test]
fn alive_and_unverifiable_name_falls_back_to_keep() {
    // Couldn't check the image name (e.g. access denied) -- alive flag in
    // the UI already handles staleness, so keep it rather than losing a
    // legitimate session.
    assert!(restore_decision(true, None));
}

#[test]
fn process_name_matches_cmd_exe_case_insensitive() {
    assert!(process_name_matches_cmd(r"C:\Windows\System32\cmd.exe"));
    assert!(process_name_matches_cmd(r"C:\Windows\System32\CMD.EXE"));
    assert!(!process_name_matches_cmd(r"C:\Windows\System32\notepad.exe"));
    assert!(!process_name_matches_cmd(
        r"C:\Program Files\node\agent.exe"
    ));
}


#[test]
fn a_removed_session_is_gone() {
    let mut store = SessionStore::default();
    store.insert(session("a", 1, 10));
    store.insert(session("b", 2, 20));
    assert_eq!(store.get("a").unwrap().pid, 1);
    assert_eq!(store.remove("a").unwrap().id, "a");
    assert!(store.get("a").is_none());
    assert!(store.remove("a").is_none());
    assert_eq!(store.pids(), vec![2]);
}


#[test]
fn a_session_of_the_same_id_gives_way() {
    let mut store = SessionStore::default();
    store.insert(session("a", 1, 10));
    store.insert(session("a", 7, 10));
    assert_eq!(store.pids(), vec![7]);
}


#[test]
fn a_snapshot_is_newest_first_and_drops_stale_sessions() {
    let mut store = SessionStore::default();
    store.insert(session("old", 1, 1_000));
    store.insert(session("new", 2, 3_000));
    store.insert(session("dead", 3, 2_000));
    let seen = 5_000;
    assert_eq!(store.snapshot_and_prune(seen, &vec![true, true, false]).len(), 3);
    let now = seen + 3_600_000 + 1;
    let views = store.snapshot_and_prune(now, &vec![true, true, false]);
    let ids: Vec<&str> = views.iter().map(|v| v.id.as_str()).collect();
    assert_eq!(ids, vec!["new", "old"]);
    assert!(views[0].alive);
    assert!(store.get("dead").is_none());
}


#[test]
fn a_session_stays_for_an_hour_after_it_died() {
    // Begun two hours ago, and died a minute ago.
    let mut store = SessionStore::default();
    store.insert(session("a", 1, 0));
    let died = 7_140_000;
    assert!(store.snapshot_and_prune(died - 1, &vec![true])[0].alive);
    let views = store.snapshot_and_prune(7_200_000, &vec![false]);
    assert_eq!(views.len(), 1);
    assert!(!views[0].alive);
    assert!(store.get("a").is_some());
    // Looking again does not put it off, and the hour itself is not over yet at its end.
    assert_eq!(store.snapshot_and_prune(7_200_000 + 3_600_000, &vec![false]).len(), 1);
    assert!(store.snapshot_and_prune(7_200_000 + 3_600_001, &vec![false]).is_empty());
    assert!(store.get("a").is_none());
}


#[test]
fn a_session_that_is_alive_again_is_not_dropped() {
    let mut store = SessionStore::default();
    store.insert(session("a", 1, 0));
    store.snapshot_and_prune(1_000, &vec![false]);
    store.snapshot_and_prune(2_000, &vec![true]);
    assert_eq!(store.snapshot_and_prune(9_000_000, &vec![false]).len(), 1);
    assert!(store.snapshot_and_prune(9_000_000 + 3_600_001, &vec![false]).is_empty());
}


#[test]
fn a_restart_takes_over_what_still_runs() {
    let kept = vec![session("a", 1, 1), session("b", 2, 2), session("c", 3, 3)];
    let checks = vec![
        Check { alive: true, name_match: Some(true) },
        Check { alive: true, name_match: Some(false) },
        Check { alive: false, name_match: None },
    ];
    let store = SessionStore::load_or_default(&kept, &checks);
    assert_eq!(store.pids(), vec![1]);
    assert_eq!(store.list().len(), 1);
}


#[test]
fn a_name_by_hand_beats_the_folder() {
    assert_eq!(
        session_names(Some(" mine "), Some("folder"), "agent"),
        (Some("mine".to_string()), "mine".to_string())
    );
    assert_eq!(session_names(Some("  "), Some("folder"), "agent"), (None, "folder".to_string()));
    assert_eq!(session_names(None, None, "agent"), (None, "agent".to_string()));
}


#[test]
fn a_session_is_started_and_ended() {
    let mut store = SessionStore::default();
    let launch = Launch {
        id: new_id(255, 0),
        path: r"C:\proj".to_string(),
        shown_name: "proj".to_string(),
        hidden: false,
        now_ms: 5,
    };
    assert_eq!(launch.id, "00000000000000ff");
    assert_eq!(new_id(0, 1), "9e3779b97f4a7c15");
    let s = spawn(&mut store, &launch, &Ok(42)).unwrap();
    assert_eq!(s.pid, 42);
    assert_eq!(s.started_at_ms, 5);
    assert_eq!(
        spawn(&mut store, &launch, &Err("nope".to_string())).unwrap_err(),
        "failed to spawn: nope"
    );
    assert_eq!(kill(&mut store, "zz", &Ok(())), Err("unknown session id".to_string()));
    assert_eq!(
        kill(&mut store, &launch.id, &Err("x".to_string())),
        Err("taskkill failed: x".to_string())
    );
    assert!(store.pids().is_empty());
    assert_eq!(kill_args(42), vec!["/PID", "42", "/T", "/F"]);
}


#[test]
fn the_shell_stays_open_for_a_session_with_a_window() {
    let line = "\"agent\" --remote-control --permission-mode auto";
    assert_eq!(
        spawn_args("agent", None, false),
        vec!["/s".to_string(), "/k".to_string(), format!("\"{line}\"")]
    );
    assert_eq!(spawn_args("agent", None, true)[1], "/c");
    assert_eq!(claude_command(None, "agent"), "agent");
    assert_eq!(claude_command(Some("C:\\n\\agent.cmd\r\nother"), "agent"), "C:\\n\\agent.cmd");
}

#[test]
fn session_list_json_roundtrips() {
    let sessions = vec![
        Session {
            id: "abc123".to_string(),
            pid: 4242,
            path: r"C:\Users\thedi\proj".to_string(),
            name: "proj".to_string(),
            started_at_ms: 1_700_000_000_000,
            hidden: true,
        },
        Session {
            id: "def456".to_string(),
            pid: 99,
            path: r"C:\Users\thedi\other (copy)".to_string(),
            name: "other (copy)".to_string(),
            started_at_ms: 1_700_000_001_234,
            hidden: false,
        },
    ];
    let json = written(&sessions_json(&sessions));
    assert!(json.contains("\"startedAtMs\": 1700000000000"));
    let back = parse_sessions(&json);
    assert_eq!(back.len(), 2);
    assert_eq!(back[0].id, "abc123");
    assert_eq!(back[0].pid, 4242);
    assert_eq!(back[0].path, r"C:\Users\thedi\proj");
    assert_eq!(back[0].name, "proj");
    assert_eq!(back[0].started_at_ms, 1_700_000_000_000);
    assert!(back[0].hidden);
    assert_eq!(back[1].id, "def456");
    assert!(!back[1].hidden);
}

#[test]
fn empty_session_list_roundtrips() {
    let sessions: Vec<Session> = Vec::new();
    let json = written(&sessions_json(&sessions));
    let back = parse_sessions(&json);
    assert!(back.is_empty());
}

#[test]
fn a_session_file_that_cannot_be_read_holds_no_sessions() {
    let whole = r#"{"id":"a","pid":1,"path":"p","name":"n","startedAtMs":5,"hidden":true,"x":0}"#;
    assert_eq!(parse_sessions(&format!("[{whole}]")).len(), 1);
    assert_eq!(parse_sessions(r#"[["a",1,"p","n",5,true]]"#).len(), 1);
    for text in [
        "",
        "{}",
        "[1]",
        r#"[{"id":"a","pid":1,"path":"p","name":"n","hidden":true}]"#,
        r#"[{"id":"a","pid":-1,"path":"p","name":"n","startedAtMs":5,"hidden":true}]"#,
        r#"[{"id":"a","pid":4294967296,"path":"p","name":"n","startedAtMs":5,"hidden":true}]"#,
        r#"[{"id":"a","pid":1.5,"path":"p","name":"n","startedAtMs":5,"hidden":true}]"#,
        r#"[["a",1,"p","n",5]]"#,
    ] {
        assert!(parse_sessions(text).is_empty(), "{text}");
    }
}
