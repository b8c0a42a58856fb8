use iphone_bridge::files::features::{
    collision_free_name, content_disposition, content_type_for, decide_spawn, is_skipped_dir,
    name_matches, parse_porcelain_line, peek_line_from_json, project_slug, rfc5987_encode,
    select_peek_file, PeekCandidate, SpawnMode,
};
use iphone_bridge::json::parse;

#[test]
fn skip_dirs_case_insensitive() {
    assert!(is_skipped_dir("node_modules"));
    assert!(is_skipped_dir("Node_Modules"));
    assert!(is_skipped_dir(".git"));
    assert!(is_skipped_dir("$RECYCLE.BIN"));
    assert!(is_skipped_dir("system volume information"));
    assert!(!is_skipped_dir("src"));
    assert!(!is_skipped_dir("node_modules_backup"));
}

#[test]
fn name_matches_is_case_insensitive_substring() {
    assert!(name_matches("ReadMe.md", "readme"));
    assert!(name_matches("app.js", "PP"));
    assert!(!name_matches("main.rs", "xyz"));
}

#[test]
fn content_type_text_family() {
    assert_eq!(content_type_for("a.txt"), "text/plain; charset=utf-8");
    assert_eq!(content_type_for("a.rs"), "text/plain; charset=utf-8");
    assert_eq!(content_type_for("a.PS1"), "text/plain; charset=utf-8");
    assert_eq!(content_type_for(".gitignore"), "text/plain; charset=utf-8");
}

#[test]
fn content_type_json_and_html_special() {
    assert_eq!(content_type_for("pkg.json"), "application/json");
    assert_eq!(content_type_for("index.html"), "text/html; charset=utf-8");
    assert_eq!(content_type_for("index.htm"), "text/html; charset=utf-8");
}

#[test]
fn content_type_images_and_pdf_and_default() {
    assert_eq!(content_type_for("a.png"), "image/png");
    assert_eq!(content_type_for("a.JPG"), "image/jpeg");
    assert_eq!(content_type_for("a.jpeg"), "image/jpeg");
    assert_eq!(content_type_for("a.svg"), "image/svg+xml");
    assert_eq!(content_type_for("a.ico"), "image/x-icon");
    assert_eq!(content_type_for("a.pdf"), "application/pdf");
    assert_eq!(content_type_for("a.bin"), "application/octet-stream");
    assert_eq!(content_type_for("noext"), "application/octet-stream");
}

#[test]
fn disposition_ascii_simple() {
    assert_eq!(
        content_disposition("attachment", "report.pdf"),
        "attachment; filename=\"report.pdf\""
    );
    assert_eq!(
        content_disposition("inline", "a.txt"),
        "inline; filename=\"a.txt\""
    );
}

#[test]
fn disposition_non_ascii_uses_rfc5987() {
    let d = content_disposition("attachment", "café.pdf");
    assert!(d.contains("filename*=UTF-8''"));
    assert!(d.contains("caf%C3%A9.pdf"));
    // ASCII fallback present with '_' for the non-ascii char.
    assert!(d.contains("filename=\"caf_.pdf\""));
}

#[test]
fn rfc5987_encodes_space_and_unicode() {
    assert_eq!(rfc5987_encode("a b"), "a%20b");
    assert_eq!(rfc5987_encode("é"), "%C3%A9");
    assert_eq!(rfc5987_encode("file-1.txt"), "file-1.txt");
}

#[test]
fn no_collision_returns_original() {
    assert_eq!(collision_free_name("a.txt", |_| false), "a.txt");
}

#[test]
fn collision_appends_suffix_before_ext() {
    let existing = |n: &str| n == "a.txt";
    assert_eq!(collision_free_name("a.txt", existing), "a (2).txt");
}

#[test]
fn collision_walks_upward() {
    let existing = |n: &str| matches!(n, "a.txt" | "a (2).txt" | "a (3).txt");
    assert_eq!(collision_free_name("a.txt", existing), "a (4).txt");
}

#[test]
fn collision_no_extension() {
    let existing = |n: &str| n == "README";
    assert_eq!(collision_free_name("README", existing), "README (2)");
}

#[test]
fn collision_dotfile_suffixes_at_end() {
    let existing = |n: &str| n == ".gitignore";
    assert_eq!(collision_free_name(".gitignore", existing), ".gitignore (2)");
}

#[test]
fn collision_multi_dot_uses_last_ext() {
    let existing = |n: &str| n == "archive.tar.gz";
    assert_eq!(
        collision_free_name("archive.tar.gz", existing),
        "archive.tar (2).gz"
    );
}

#[test]
fn porcelain_modified_worktree() {
    let c = parse_porcelain_line(" M src/main.rs").unwrap();
    assert_eq!(c.status, "M");
    assert_eq!(c.path, "src/main.rs");
}

#[test]
fn porcelain_untracked() {
    let c = parse_porcelain_line("?? new.txt").unwrap();
    assert_eq!(c.status, "??");
    assert_eq!(c.path, "new.txt");
}

#[test]
fn porcelain_added_staged() {
    let c = parse_porcelain_line("A  staged.rs").unwrap();
    assert_eq!(c.status, "A");
    assert_eq!(c.path, "staged.rs");
}

#[test]
fn porcelain_rename_shows_new_path() {
    let c = parse_porcelain_line("R  old.rs -> new.rs").unwrap();
    assert_eq!(c.status, "R");
    assert_eq!(c.path, "new.rs");
}

#[test]
fn porcelain_deleted() {
    let c = parse_porcelain_line(" D gone.rs").unwrap();
    assert_eq!(c.status, "D");
}

#[test]
fn porcelain_blank_or_short_is_none() {
    assert!(parse_porcelain_line("").is_none());
    assert!(parse_porcelain_line(" M ").is_none());
}


#[test]
fn porcelain_line_without_a_path_is_none() {
    assert!(parse_porcelain_line("\u{e9} \r").is_none());
    assert!(parse_porcelain_line("?? \r\n").is_none());
}

#[test]
fn slug_matches_live_convention() {
    assert_eq!(project_slug(r"C:\Users\thedi"), "C--Users-thedi");
    assert_eq!(
        project_slug(r"C:\Users\thedi\Desktop\Work\Tools\MetaGrid"),
        "C--Users-thedi-Desktop-Work-Tools-MetaGrid"
    );
    // apostrophe + space each -> one dash
    assert_eq!(
        project_slug(r"C:\Users\thedi\Desktop\Let's go"),
        "C--Users-thedi-Desktop-Let-s-go"
    );
    // space -> dash, case preserved
    assert_eq!(
        project_slug(r"C:\Users\thedi\Desktop\police AI"),
        "C--Users-thedi-Desktop-police-AI"
    );
    assert_eq!(project_slug(r"D:\Quantifull"), "D--Quantifull");
}

#[test]
fn own_file_created_at_start_chosen_over_older_but_recently_modified() {
    // A different, unrelated session's transcript keeps getting its
    // mtime bumped by ongoing writes, but it was created well before this
    // session started. Our own file was created right at launch. Own file
    // must win even though the other file's mtime is newer.
    let started = 1_700_000_100_000u64;
    let candidates = vec![
        PeekCandidate {
            name: "other-session.jsonl".to_string(),
            created_ms: 1_699_000_000_000, // created long before this session
            modified_ms: 1_700_000_500_000, // but still being actively written
        },
        PeekCandidate {
            name: "own-session.jsonl".to_string(),
            created_ms: 1_700_000_101_000, // created just after session start
            modified_ms: 1_700_000_101_000,
        },
    ];
    assert_eq!(
        select_peek_file(&candidates, started),
        Some("own-session.jsonl".to_string())
    );
}

#[test]
fn multiple_candidates_after_start_picks_earliest_created() {
    let started = 1_700_000_000_000u64;
    let candidates = vec![
        PeekCandidate {
            name: "later.jsonl".to_string(),
            created_ms: 1_700_000_050_000,
            modified_ms: 1_700_000_050_000,
        },
        PeekCandidate {
            name: "earliest.jsonl".to_string(),
            created_ms: 1_700_000_010_000,
            modified_ms: 1_700_000_010_000,
        },
    ];
    assert_eq!(
        select_peek_file(&candidates, started),
        Some("earliest.jsonl".to_string())
    );
}

#[test]
fn within_creation_slack_window_counts_as_after_start() {
    // Created 10s before startedAtMs -- within the 15s slack -- still
    // counts as "the session's own file".
    let started = 1_700_000_100_000u64;
    let candidates = vec![PeekCandidate {
        name: "just-before.jsonl".to_string(),
        created_ms: 1_700_000_090_000, // 10s before start
        modified_ms: 1_700_000_090_000,
    }];
    assert_eq!(
        select_peek_file(&candidates, started),
        Some("just-before.jsonl".to_string())
    );
}

#[test]
fn none_created_after_start_falls_back_to_mtime_heuristic() {
    let started = 1_700_000_100_000u64;
    let candidates = vec![
        PeekCandidate {
            name: "old-created-old-modified.jsonl".to_string(),
            created_ms: 1_000_000_000_000,
            modified_ms: 1_000_000_000_000, // outside mtime slack too -> excluded
        },
        PeekCandidate {
            name: "old-created-recently-modified.jsonl".to_string(),
            created_ms: 1_000_000_000_000, // created long before start (and slack)
            modified_ms: 1_700_000_090_000, // modified within 60s mtime slack
        },
    ];
    assert_eq!(
        select_peek_file(&candidates, started),
        Some("old-created-recently-modified.jsonl".to_string())
    );
}

#[test]
fn empty_candidate_list_returns_none() {
    assert_eq!(select_peek_file(&[], 1_700_000_000_000), None);
}

#[test]
fn no_candidate_qualifies_by_creation_or_mtime_returns_none() {
    let started = 1_700_000_100_000u64;
    let candidates = vec![PeekCandidate {
        name: "ancient.jsonl".to_string(),
        created_ms: 1_000_000_000_000,
        modified_ms: 1_000_000_000_000,
    }];
    assert_eq!(select_peek_file(&candidates, started), None);
}

#[test]
fn spawn_mode_parse_defaults_to_auto() {
    assert_eq!(SpawnMode::parse(None), SpawnMode::Auto);
    assert_eq!(SpawnMode::parse(Some("")), SpawnMode::Auto);
    assert_eq!(SpawnMode::parse(Some("bogus")), SpawnMode::Auto);
    assert_eq!(SpawnMode::parse(Some("Visible")), SpawnMode::Visible);
    assert_eq!(SpawnMode::parse(Some("HIDDEN")), SpawnMode::Hidden);
}

#[test]
fn auto_first_time_is_visible_then_hidden() {
    assert_eq!(decide_spawn(SpawnMode::Auto, true), (false, "visible"));
    assert_eq!(decide_spawn(SpawnMode::Auto, false), (true, "hidden"));
}

#[test]
fn explicit_modes_honored_regardless_of_first_time() {
    assert_eq!(decide_spawn(SpawnMode::Visible, false), (false, "visible"));
    assert_eq!(decide_spawn(SpawnMode::Visible, true), (false, "visible"));
    assert_eq!(decide_spawn(SpawnMode::Hidden, true), (true, "hidden"));
    assert_eq!(decide_spawn(SpawnMode::Hidden, false), (true, "hidden"));
}


#[test]
fn peek_user_string_content() {
    let v = parse(r#"{"type":"user","message":{"role":"user","content":"yo"}}"#).unwrap();
    let p = peek_line_from_json(&v).unwrap();
    assert_eq!(p.role, "user");
    assert_eq!(p.text, "yo");
}


#[test]
fn peek_assistant_text_block() {
    let v = parse(
        r#"{
            "type":"assistant",
            "message":{"role":"assistant","content":[
                {"type":"thinking","thinking":"..."},
                {"type":"text","text":"Here is the answer."}
            ]}
        }"#,
    )
    .unwrap();
    let p = peek_line_from_json(&v).unwrap();
    assert_eq!(p.role, "assistant");
    assert_eq!(p.text, "Here is the answer.");
}


#[test]
fn peek_assistant_tool_use() {
    let v = parse(
        r#"{
            "type":"assistant",
            "message":{"role":"assistant","content":[
                {"type":"tool_use","name":"Bash","input":{}}
            ]}
        }"#,
    )
    .unwrap();
    let p = peek_line_from_json(&v).unwrap();
    assert_eq!(p.text, "[tool: Bash]");
}


#[test]
fn peek_skips_non_message_lines() {
    let none = |s: &str| peek_line_from_json(&parse(s).unwrap()).is_none();
    assert!(none(r#"{"type":"queue-operation"}"#));
    assert!(none(r#"{"type":"summary","summary":"x"}"#));
    assert!(none(r#"{"type":"progress"}"#));
    // assistant with only thinking -> no display line
    assert!(none(
        r#"{
            "type":"assistant",
            "message":{"role":"assistant","content":[{"type":"thinking","thinking":"x"}]}
        }"#
    ));
}


#[test]
fn peek_truncates_long_text() {
    let long = "a".repeat(500);
    let text = format!(
        r#"{{"type":"user","message":{{"role":"user","content":"{long}"}}}}"#
    );
    let v = parse(&text).unwrap();
    let p = peek_line_from_json(&v).unwrap();
    // 200 chars + ellipsis
    assert_eq!(p.text.chars().count(), 201);
    assert!(p.text.ends_with('\u{2026}'));
}
