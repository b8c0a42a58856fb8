use iphone_bridge::fields::parse;
use iphone_bridge::files::config::load_or_init;
use iphone_bridge::files::lnk::parse_resolved;
use iphone_bridge::files::sessions::parse_sessions;
use iphone_bridge::json::{Json, Number};
use iphone_bridge::trackpad::parse as command;
use iphone_bridge::voice::history::parse_entries;

fn object(text: &str) -> Vec<(String, Json)> {
    match parse(text).unwrap() {
        Json::Object(fields) => fields,
        other => panic!("{other:?}"),
    }
}

#[test]
fn every_field_of_an_object_is_kept_in_order() {
    let fields = object(r#"{"b":1,"a":"x","b":[{"c":2,"c":"three"}]}"#);
    let names: Vec<&str> = fields.iter().map(|f| f.0.as_str()).collect();
    assert_eq!(names, vec!["b", "a", "b"]);
    assert!(matches!(fields[0].1, Json::Number(Number::Unsigned(1))));
    assert!(matches!(&fields[1].1, Json::Text(s) if s == "x"));
    let Json::List(items) = &fields[2].1 else { panic!() };
    let Json::Object(inner) = &items[0] else { panic!() };
    assert_eq!(inner.len(), 2);
    assert!(matches!(&inner[1].1, Json::Text(s) if s == "three"));
}

#[test]
fn strings_are_left_as_they_were() {
    for text in [
        r#""""#,
        r#""plain""#,
        r#""a \"quoted\" word""#,
        r#""ends in a backslash \\""#,
        r#""\\\" : { } [ ] , "\n""#,
        "\"caf\u{e9} \u{1f3a4}\"",
    ] {
        let whole: String = serde_json::from_str(text).unwrap();
        assert!(matches!(parse(text).unwrap(), Json::Text(s) if s == whole), "{text}");
    }
    let fields = object(r#"{"\"":"\\","a\\":"\""}"#);
    assert_eq!(fields[0].0, "\"");
    assert!(matches!(&fields[0].1, Json::Text(s) if s == "\\"));
    assert_eq!(fields[1].0, "a\\");
}

#[test]
fn what_is_no_json_is_refused() {
    for text in ["", "{", r#"{"a":1,}"#, r#""open"#, r#"{"a" 1}"#, "[1 2]", r#""\x""#] {
        assert_eq!(
            parse(text).unwrap_err(),
            serde_json::from_str::<serde_json::Value>(text).unwrap_err().to_string()
        );
    }
}

#[test]
fn a_configuration_that_repeats_a_field_is_made_anew() {
    for bad in [
        r#"{"pin":"111111","pin":"222222"}"#,
        r#"{"pin":"111111","pin":"111111"}"#,
        r#"{"pin":"111111","scope":"drives","scope":"drives"}"#,
        r#"{"pin":"111111","roots":[],"roots":[]}"#,
        r#"{"pin":"111111","voice":{"ai":{"model":"a","model":"b"}}}"#,
        r#"{"pin":"111111","voice":{"replacements":[{"from":"a","to":"b","to":"c"}]}}"#,
    ] {
        assert!(load_or_init(Some(bad), 9).1, "{bad}");
    }
}

#[test]
fn fields_that_are_not_read_may_be_repeated() {
    for good in [
        r#"{"pin":"111111","later":1,"later":2}"#,
        r#"{"later":{"pin":1,"pin":2},"pin":"111111"}"#,
        r#"{"pin":"111111","voice":{"ai":{"later":[],"later":{}}}}"#,
    ] {
        let (cfg, save) = load_or_init(Some(good), 9);
        assert_eq!(cfg.pin, "111111", "{good}");
        assert!(!save);
    }
    assert_eq!(parse_entries(r#"[{"at":3,"x":1,"x":1}]"#).unwrap().len(), 1);
}

#[test]
fn lists_with_a_repeated_field_are_refused() {
    let session = |more: &str| {
        format!(
            r#"[{{"id":"a","pid":1,"path":"p","name":"n","startedAtMs":5,"hidden":false{more}}}]"#
        )
    };
    assert_eq!(parse_sessions(&session("")).len(), 1);
    assert_eq!(parse_sessions(&session(r#","x":1,"x":2"#)).len(), 1);
    assert!(parse_sessions(&session(r#","pid":1"#)).is_empty());
    assert!(parse_entries(r#"[{"at":3,"at":3}]"#).is_none());
    assert_eq!(parse_resolved(r#"[{"lnk":"a.lnk","x":1,"x":1}]"#).len(), 1);
    assert_eq!(parse_resolved(r#"[{"lnk":"a.lnk","target":"t","target":"t"}]"#).len(), 0);
}

#[test]
fn a_command_that_repeats_a_field_is_refused() {
    assert!(command(r#"{"op":"move","x":1,"y":2}"#).is_some());
    assert!(command(r#"{"op":"move","x":1,"y":2,"x":1}"#).is_none());
    assert!(command(r#"{"op":"move","op":"move","x":1,"y":2}"#).is_none());
    assert!(command(r#"{"op":"up","op":"up"}"#).is_none());
}
