use iphone_bridge::files::pathsafe::{
    canonicalize_roots, is_effective_root, is_path_allowed, is_within, normalize_for_compare,
    resolve_allowed, validate_name,
};

fn roots() -> Vec<String> {
    vec![
        r"C:\Users\thedi\Desktop\Work".to_string(),
        r"C:\Users\thedi\Desktop".to_string(),
    ]
}

#[test]
fn root_itself_is_allowed() {
    assert!(is_path_allowed(
        r"C:\Users\thedi\Desktop\Work",
        &roots()
    ));
}

#[test]
fn nested_path_is_allowed() {
    assert!(is_path_allowed(
        r"C:\Users\thedi\Desktop\Work\project\src",
        &roots()
    ));
}

#[test]
fn sibling_with_shared_prefix_is_rejected() {
    // Work2 must NOT match root Work.
    assert!(!is_path_allowed(
        r"C:\Users\thedi\Desktop\Work2",
        &[r"C:\Users\thedi\Desktop\Work".to_string()]
    ));
}

#[test]
fn path_above_root_is_rejected() {
    assert!(!is_path_allowed(
        r"C:\Users\thedi",
        &[r"C:\Users\thedi\Desktop\Work".to_string()]
    ));
}

#[test]
fn unrelated_drive_is_rejected() {
    assert!(!is_path_allowed(
        r"D:\secrets",
        &roots()
    ));
}

#[test]
fn case_insensitive_match() {
    assert!(is_path_allowed(
        r"c:\users\THEDI\desktop\WORK\thing",
        &roots()
    ));
}

#[test]
fn forward_slashes_are_normalized() {
    assert!(is_path_allowed(
        "C:/Users/thedi/Desktop/Work/x",
        &roots()
    ));
}

#[test]
fn trailing_separator_on_root_still_matches() {
    assert!(is_path_allowed(
        r"C:\Users\thedi\Desktop\Work\",
        &roots()
    ));
}

#[test]
fn empty_roots_allow_nothing() {
    assert!(!is_path_allowed(
        r"C:\Users\thedi\Desktop\Work",
        &[]
    ));
}

#[test]
fn effective_root_detection() {
    let r = roots();
    assert!(is_effective_root(
        r"C:\Users\thedi\Desktop\Work",
        &r
    ));
    assert!(!is_effective_root(
        r"C:\Users\thedi\Desktop\Work\sub",
        &r
    ));
}

#[test]
fn valid_names_pass() {
    for n in ["project", "my-folder", "a.b.c", "New Folder", "日本語", "v1.2.3"] {
        assert!(validate_name(n).is_ok(), "expected {n:?} to be valid");
    }
}

#[test]
fn empty_name_rejected() {
    assert!(validate_name("").is_err());
}

#[test]
fn dot_names_rejected() {
    assert!(validate_name(".").is_err());
    assert!(validate_name("..").is_err());
}

#[test]
fn path_separators_rejected() {
    assert!(validate_name("a/b").is_err());
    assert!(validate_name("a\\b").is_err());
    assert!(validate_name("..\\escape").is_err());
}

#[test]
fn illegal_chars_rejected() {
    for n in ["a:b", "a<b", "a>b", "a\"b", "a|b", "a?b", "a*b"] {
        assert!(validate_name(n).is_err(), "expected {n:?} to be rejected");
    }
}

#[test]
fn control_chars_rejected() {
    assert!(validate_name("a\u{0007}b").is_err());
}

#[test]
fn trailing_space_or_dot_rejected() {
    assert!(validate_name("name ").is_err());
    assert!(validate_name("name.").is_err());
}

#[test]
fn reserved_device_names_rejected() {
    for n in ["CON", "con", "NUL", "nul.txt", "COM1", "lpt9", "AUX", "PRN"] {
        assert!(validate_name(n).is_err(), "expected {n:?} to be rejected");
    }
}

#[test]
fn reserved_name_as_substring_is_ok() {
    // CONSOLE is not reserved; only the exact stem CON is.
    assert!(validate_name("CONSOLE").is_ok());
    assert!(validate_name("COM10").is_ok());
}


#[test]
fn names_are_refused_with_their_reason() {
    let why = |n: &str| validate_name(n).unwrap_err();
    assert_eq!(why(""), "name cannot be empty");
    assert_eq!(why(&"x".repeat(256)), "name too long");
    assert!(validate_name(&"x".repeat(255)).is_ok());
    assert_eq!(why(".."), "name cannot be '.' or '..'");
    assert_eq!(why("a\u{1}b"), "name contains a control character");
    assert_eq!(why("a|b"), "name contains an illegal character: '|'");
    assert_eq!(why("x."), "name cannot end with a space or dot");
    assert_eq!(why("nul.txt"), "'nul.txt' is a reserved device name");
}


#[test]
fn paths_are_compared_in_one_form() {
    assert_eq!(normalize_for_compare("C:/Users/ME/"), r"c:\users\me");
    assert!(is_within(r"C:\a\b", r"c:/A/"));
    assert!(!is_within(r"C:\a", r"C:\a\b"));
}


#[test]
fn roots_that_do_not_exist_are_left_out() {
    let outcomes = vec![Some(r"C:\a".to_string()), None, Some(r"D:\b".to_string())];
    assert_eq!(canonicalize_roots(&outcomes), vec![r"C:\a", r"D:\b"]);
    assert_eq!(
        resolve_allowed(Some(r"D:\b\c".to_string()), &outcomes),
        Ok(r"D:\b\c".to_string())
    );
    assert_eq!(
        resolve_allowed(Some(r"E:\x".to_string()), &outcomes),
        Err("path is outside the allowed folders".to_string())
    );
    assert_eq!(
        resolve_allowed(None, &outcomes),
        Err("path does not exist".to_string())
    );
}
