use iphone_bridge::files::config::{
    basename_of, drive_root, load_or_init, random_pin, ready_drives, seed, user_profile_dir,
    Config, Scope,
};
use iphone_bridge::json::{parse, Json, Number};
use iphone_bridge::stored::Stored;

fn value(j: &Json) -> serde_json::Value {
    match j {
        Json::Null => serde_json::Value::Null,
        Json::Bool(b) => serde_json::Value::Bool(*b),
        Json::Number(Number::Unsigned(n)) => serde_json::Value::from(*n),
        Json::Number(Number::Signed(n)) => serde_json::Value::from(*n),
        Json::Number(Number::Double(bits)) => serde_json::Value::from(f64::from_bits(*bits)),
        Json::Number(Number::Single(bits)) => serde_json::Value::from(f32::from_bits(*bits)),
        Json::Text(s) => serde_json::Value::String(s.clone()),
        Json::List(items) => serde_json::Value::Array(items.iter().map(value).collect()),
        Json::Object(fields) => {
            serde_json::Value::Object(fields.iter().map(|(k, v)| (k.clone(), value(v))).collect())
        }
    }
}

fn written(j: &Json) -> String {
    serde_json::to_string_pretty(&value(j)).unwrap()
}

#[test]
fn remember_spawned_dir_dedups_case_insensitively() {
    let mut cfg = Config::first_run(1);
    assert!(cfg.remember_spawned_dir(r"C:\Users\thedi\proj"));
    // Same path, different case -> not added again.
    assert!(!cfg.remember_spawned_dir(r"c:\users\thedi\PROJ"));
    assert_eq!(cfg.spawned_dirs.len(), 1);
    assert!(cfg.has_spawned_dir(r"C:\Users\thedi\proj"));
    assert!(cfg.has_spawned_dir(r"C:\USERS\THEDI\PROJ"));
    assert!(!cfg.has_spawned_dir(r"C:\Users\thedi\other"));
}


#[test]
fn pins_are_six_digits() {
    for s in [0u64, 1, 2, 12_345, u64::MAX] {
        let pin = random_pin(s);
        assert_eq!(pin.len(), 6);
        assert!(pin.chars().all(|c| c.is_ascii_digit()), "{pin}");
    }
    assert_ne!(random_pin(1), random_pin(1 << 40));
    assert_eq!(seed(0, 0), 0);
}


#[test]
fn the_scope_decides_which_roots_are_in_effect() {
    let mut cfg = Config::first_run(7);
    let drives = vec!["C:\\\\".to_string(), "D:\\\\".to_string()];
    assert_eq!(cfg.effective_root_paths(r"C:\Users\me", &drives), cfg.roots);
    cfg.scope = Scope::Profile;
    assert_eq!(cfg.effective_root_paths(r"C:\Users\me", &drives), vec![r"C:\Users\me"]);
    cfg.scope = Scope::Drives;
    assert_eq!(cfg.effective_root_paths(r"C:\Users\me", &drives), drives);
    let named = cfg.configured_named_roots();
    assert_eq!(named[0].name, "Work");
    assert_eq!(named[0].path, r"C:\Users\thedi\Desktop\Work");
    assert_eq!(basename_of(r"C:\a\b"), "b");
    assert_eq!(basename_of("C:\\"), "C:\\");
    assert_eq!(basename_of("d:\\"), "d:\\");
    assert!(!user_profile_dir(None).is_empty());
    assert_eq!(user_profile_dir(Some(r"E:\me")), r"E:\me");
}


#[test]
fn a_config_that_cannot_be_read_is_made_anew() {
    let (cfg, save) = load_or_init(Some(r#"{"pin":"123456","scope":"drives"}"#), 9);
    assert_eq!(cfg.pin, "123456");
    assert_eq!(cfg.scope, Scope::Drives);
    assert_eq!(cfg.ptt_hotkey, "right_alt");
    assert_eq!(cfg.voice.modes.len(), 5);
    assert!(!save);
    for bad in [None, Some(""), Some("{}"), Some(r#"{"pin":7}"#), Some(r#"{"pin":"1","scope":"all"}"#)] {
        let (cfg, save) = load_or_init(bad, 9);
        assert_eq!(cfg.pin, random_pin(9));
        assert_eq!(
            cfg.roots,
            vec![r"C:\Users\thedi\Desktop\Work".to_string(), r"C:\Users\thedi\Desktop".to_string()]
        );
        assert!(save);
    }
}

#[test]
fn legacy_config_without_spawned_dirs_loads() {
    // A config.json written before batch-2 has no `spawned_dirs` key.
    let legacy = r#"{ "pin": "123456", "scope": "roots", "roots": ["C:\\x"] }"#;
    let cfg = Config::from_stored(&parse(legacy).unwrap()).expect("legacy config must load");
    assert_eq!(cfg.pin, "123456");
    assert_eq!(cfg.scope, Scope::Roots);
    assert_eq!(cfg.roots, vec!["C:\\x".to_string()]);
    assert!(cfg.spawned_dirs.is_empty());
}

#[test]
fn config_roundtrips_with_spawned_dirs() {
    let mut cfg = Config::first_run(1);
    cfg.remember_spawned_dir(r"C:\a");
    let json = written(&cfg.to_stored());
    let back = Config::from_stored(&parse(&json).unwrap()).unwrap();
    assert_eq!(back.spawned_dirs, vec![r"C:\a".to_string()]);
    assert_eq!(back.pin, cfg.pin);
    assert_eq!(back.roots, cfg.roots);
}


#[test]
fn ready_drives_are_listed_by_letter() {
    let mut ready = vec![false; 26];
    ready[2] = true;
    ready[25] = true;
    assert_eq!(ready_drives(&ready), vec!["C:\\", "Z:\\"]);
    assert_eq!(ready_drives(&vec![true]), vec!["A:\\"]);
    assert_eq!(drive_root(3), "D:\\");
}
