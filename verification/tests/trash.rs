use iphone_bridge::files::trash::{
    item_from_json, items_from_json, list, parse_deleted_at_ms, restore, restore_script,
    sanitize_date_string,
};
use iphone_bridge::json::{parse, Json};

#[test]
fn strips_lrm_marks() {
    let raw = "\u{200E}1/5/2026\u{200E} 2:14 AM\u{200E}";
    assert_eq!(sanitize_date_string(raw), "1/5/2026 2:14 AM");
}

#[test]
fn strips_nbsp_and_other_invisibles() {
    let raw = "1/5/2026\u{00A0}2:14\u{200F} AM";
    let cleaned = sanitize_date_string(raw);
    assert!(cleaned.chars().all(|c| c.is_ascii()));
    assert!(cleaned.contains("2:14"));
}

#[test]
fn plain_ascii_passes_through() {
    assert_eq!(sanitize_date_string("1/5/2026 2:14 AM"), "1/5/2026 2:14 AM");
}

#[test]
fn parses_lrm_wrapped_datetime() {
    let raw = "\u{200E}1/5/2026\u{200E} 2:14 AM\u{200E}";
    let ms = parse_deleted_at_ms(raw);
    assert!(ms.is_some());
}

#[test]
fn parses_24h_format() {
    let ms = parse_deleted_at_ms("5/1/2026 14:14");
    assert!(ms.is_some());
}

#[test]
fn returns_none_for_garbage() {
    assert_eq!(parse_deleted_at_ms("not a date"), None);
    assert_eq!(parse_deleted_at_ms(""), None);
    assert_eq!(parse_deleted_at_ms("\u{200E}\u{200F}"), None);
}

#[test]
fn pm_hour_is_converted_to_24h() {
    let noon = parse_deleted_at_ms("1/1/2026 12:00 PM").unwrap();
    let midnight = parse_deleted_at_ms("1/1/2026 12:00 AM").unwrap();
    let one_pm = parse_deleted_at_ms("1/1/2026 1:00 PM").unwrap();
    assert_eq!(one_pm - noon, 3600_000);
    assert!(noon > midnight);
}

#[test]
fn maps_single_object_json() {
    let v = parse(r#"{
        "Path": "C:\\$Recycle.Bin\\S-1-5-21\\$RABC123.txt",
        "Name": "notes.txt",
        "OriginalPath": "C:\\Users\\thedi\\Desktop\\notes.txt",
        "DateDeleted": "\u200E1/5/2026\u200E 2:14 AM",
        "Size": 1234,
        "IsFolder": false
    }"#).unwrap();
    let item = item_from_json(&v).unwrap();
    assert_eq!(item.name, "notes.txt");
    assert_eq!(item.original_path, r"C:\Users\thedi\Desktop\notes.txt");
    assert_eq!(item.size_bytes, Some(1234));
    assert!(!item.is_dir);
    assert!(item.deleted_at_ms.is_some());
}

#[test]
fn missing_path_yields_none() {
    let v = parse(r#"{ "Name": "x" }"#).unwrap();
    assert!(item_from_json(&v).is_none());
}

#[test]
fn unparseable_date_yields_null_not_error() {
    let v = parse(r#"{
        "Path": "C:\\$Recycle.Bin\\x",
        "Name": "x",
        "OriginalPath": "C:\\x",
        "DateDeleted": "garbage-date",
        "Size": 0,
        "IsFolder": true
    }"#).unwrap();
    let item = item_from_json(&v).unwrap();
    assert_eq!(item.deleted_at_ms, None);
    assert!(item.is_dir);
}

#[test]
fn items_from_json_handles_single_object() {
    let v = parse(r#"{
        "Path": "C:\\$Recycle.Bin\\x",
        "Name": "x",
        "OriginalPath": "C:\\x",
        "DateDeleted": "1/1/2026 1:00 AM",
        "Size": 1,
        "IsFolder": false
    }"#).unwrap();
    let items = items_from_json(&v);
    assert_eq!(items.len(), 1);
}

#[test]
fn items_from_json_handles_array() {
    let v = parse(r#"[
        {
            "Path": "C:\\$Recycle.Bin\\a",
            "Name": "a",
            "OriginalPath": "C:\\a",
            "DateDeleted": "1/1/2026 1:00 AM",
            "Size": 1,
            "IsFolde": false
        },
        {
            "Path": "C:\\$Recycle.Bin\\b",
            "Name": "b",
            "OriginalPath": "C:\\b",
            "DateDeleted": "1/1/2026 2:00 AM",
            "Size": 2,
            "IsFolder": true
        }
    ]"#).unwrap();
    let items = items_from_json(&v);
    assert_eq!(items.len(), 2);
    assert_eq!(items[1].name, "b");
}

#[test]
fn items_from_json_handles_null_as_empty() {
    assert_eq!(items_from_json(&Json::Null).len(), 0);
}

#[test]
fn items_from_json_drops_entries_without_path() {
    let v = parse(r#"[
        { "Name": "no-path" },
        {
            "Path": "C:\\$Recycle.Bin\\a",
            "Name": "a",
            "OriginalPath": "C:\\a",
            "DateDeleted": "1/1/2026 1:00 AM",
            "Size": 1,
            "IsFolder": false
        }
    ]"#).unwrap();
    let items = items_from_json(&v);
    assert_eq!(items.len(), 1);
    assert_eq!(items[0].name, "a");
}


#[test]
fn a_date_is_counted_from_the_epoch() {
    assert_eq!(parse_deleted_at_ms("1/1/1970 12:00 AM"), Some(0));
    assert_eq!(parse_deleted_at_ms("1/2/1970 0:01"), Some(86_460_000));
    assert_eq!(parse_deleted_at_ms("2/29/2024 12:00 PM"), Some(1_709_208_000_000));
}


#[test]
fn the_listing_is_newest_first_and_capped() {
    let mut text = String::from("[");
    for i in 0..250 {
        if i > 0 {
            text.push(',');
        }
        text.push_str(&format!(
            r#"{{"Path":"p{i}","Name":"n{i}","DateDeleted":"1/1/{} 1:00 AM"}}"#,
            1971 + i
        ));
    }
    text.push(']');
    let items = list(Ok(parse(&text).unwrap())).unwrap();
    assert_eq!(items.len(), 200);
    assert_eq!(items[0].name, "n249");
    assert_eq!(items[199].name, "n50");
    assert_eq!(list(Err("no".to_string())).unwrap_err(), "no");
}


#[test]
fn a_restore_tells_where_the_item_went() {
    let script = restore_script(r"C:\$Recycle.Bin\x");
    assert!(!script.contains("$Recycle.Bin"));
    let ok = parse(r#"{"RestoredTo":"C:\\x"}"#).unwrap();
    assert_eq!(restore(Ok(ok)), Ok(r"C:\x".to_string()));
    assert!(restore(Err("gone".to_string())).is_err());
}


#[test]
fn a_first_number_that_is_no_month_is_the_day() {
    assert_eq!(parse_deleted_at_ms("25/12/2025 14:30"), Some(1_766_673_000_000));
    assert_eq!(parse_deleted_at_ms("12/25/2025 14:30"), Some(1_766_673_000_000));
    // Where both are months, the first is the month.
    assert_ne!(parse_deleted_at_ms("5/1/2026 14:14"), parse_deleted_at_ms("1/5/2026 14:14"));
    assert_eq!(parse_deleted_at_ms("25/13/2025 14:30"), None);
}
