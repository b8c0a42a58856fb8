use iphone_bridge::files::lnk::{is_lnk, parse_resolved, resolve_script, resolve_targets, strip_lnk};

#[test]
fn is_lnk_is_case_insensitive_and_needs_a_stem() {
    assert!(is_lnk("Work Mode.lnk"));
    assert!(is_lnk("thing.LNK"));
    assert!(is_lnk("a.Lnk"));
    assert!(!is_lnk(".lnk")); // extension only, no stem
    assert!(!is_lnk("notes.txt"));
    assert!(!is_lnk("lnk"));
}

#[test]
fn strip_lnk_removes_only_the_extension() {
    assert_eq!(strip_lnk("Work Mode.lnk"), "Work Mode");
    assert_eq!(strip_lnk("Hermes.LNK"), "Hermes");
    assert_eq!(strip_lnk("plain.txt"), "plain.txt");
}

#[test]
fn parse_resolved_keys_case_insensitively() {
    let json = r#"[
        {"lnk":"C:\\Users\\me\\Work Mode.lnk","target":"D:\\Work","isDir":true},
        {"lnk":"C:\\Users\\me\\Hermes.lnk","target":"C:\\apps\\hermes.exe","isDir":false}
    ]"#;
    let map = parse_resolved(json);
    assert_eq!(map.len(), 2);
    let w = map.get(r"c:\users\me\work mode.lnk").unwrap();
    assert_eq!(w.target, r"D:\Work");
    assert!(w.is_dir);
    let h = map.get(r"c:\users\me\hermes.lnk").unwrap();
    assert!(!h.is_dir);
}

#[test]
fn parse_resolved_tolerates_empty_and_garbage() {
    assert!(parse_resolved("").is_empty());
    assert!(parse_resolved("   ").is_empty());
    assert!(parse_resolved("not json").is_empty());
    assert!(parse_resolved("[]").is_empty());
}

#[test]
fn parse_resolved_defaults_missing_fields() {
    // A broken shortcut may resolve to an empty target.
    let json = r#"[{"lnk":"C:\\x\\broken.lnk","target":"","isDir":false}]"#;
    let map = parse_resolved(json);
    let r = map.get(r"c:\x\broken.lnk").unwrap();
    assert_eq!(r.target, "");
    assert!(!r.is_dir);
}


#[test]
fn a_failed_lookup_resolves_nothing() {
    assert!(resolve_targets(&Err("powershell operation timed out".to_string())).is_empty());
    let answer = r#"[{"lnk":"C:\\a.lnk","target":"D:\\a","isDir":true}]"#;
    assert_eq!(resolve_targets(&Ok(answer.to_string())).len(), 1);
}


#[test]
fn the_lookup_script_holds_the_paths_encoded() {
    assert!(resolve_script(&[]).is_none());
    let script = resolve_script(&[r"C:\a.lnk".to_string()]).unwrap();
    assert!(!script.contains(r"C:\a.lnk"));
    // "C:\a.lnk" in UTF-16LE, base64.
    assert!(script.contains("QwA6AFwAYQAuAGwAbgBrAA=="));
}

#[test]
fn parse_resolved_reads_what_is_left_out_and_lists() {
    let map = parse_resolved(r#"[{"lnk":"C:\\A.lnk"},["C:\\b.lnk","D:\\b",true],["c.lnk"]]"#);
    assert_eq!(map.len(), 3);
    assert_eq!(map.get(r"c:\a.lnk").unwrap().target, "");
    assert!(!map.get(r"c:\a.lnk").unwrap().is_dir);
    assert_eq!(map.get(r"c:\b.lnk").unwrap().target, r"D:\b");
    assert!(map.get(r"c:\b.lnk").unwrap().is_dir);
    assert!(!map.get("c.lnk").unwrap().is_dir);
    for answer in [
        r#"[{"target":"x"}]"#,
        r#"[{"lnk":"a","target":null}]"#,
        r#"[{"lnk":"a","isDir":1}]"#,
        r#"[["a","b",true,4]]"#,
        r#"["a"]"#,
        r#"{"lnk":"a"}"#,
    ] {
        assert!(parse_resolved(answer).is_empty(), "{answer}");
    }
}
