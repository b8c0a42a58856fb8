use iphone_bridge::voice::history::{
    append, clear, delete, entries_json, get, list, new_id, parse_entries, random_u16, search, stats,
    Entry,
};
use iphone_bridge::json::{Json, Number};
use std::collections::HashSet;

fn value(j: &Json) -> serde_json::Value {
    match j {
        Json::Null => serde_json::Value::Null,
        Json::Bool(b) => serde_json::Value::Bool(*b),
        Json::Number(Number::Unsigned(n)) => serde_json::Value::from(*n),
        Json::Number(Number::Signed(n)) => serde_json::Value::from(*n),
        Json::Number(Number::Double(bits)) => serde_json::Value::from(f64::from_bits(*bits)),
        Json::Number(Number::Single(bits)) => serde_json::Value::from(f32::from_bits(*bits)),
        Json::Text(s) => serde_json::Value::String(s.clone()),
        Json::List(items) => serde_json::Value::Array(items.iter().map(value).collect()),
        Json::Object(fields) => {
            serde_json::Value::Object(fields.iter().map(|(k, v)| (k.clone(), value(v))).collect())
        }
    }
}

fn written(j: &Json) -> String {
    serde_json::to_string_pretty(&value(j)).unwrap()
}

const NOW: i64 = 1_800_000_000;

fn at(secs: i64, text: &str) -> Entry {
    let mut e = Entry::new("default", 1.0f32.to_bits(), text, text, NOW, String::new());
    e.at = secs;
    e
}

/// Appends entries one by one, each with an id of its own.
fn filled(entries: Vec<Entry>, cap: usize) -> Vec<Entry> {
    let mut all = Vec::new();
    for (i, e) in entries.into_iter().enumerate() {
        all = append(all, e, cap, NOW, new_id(NOW as u64, 7, i as u64));
    }
    all
}

fn texts(v: Vec<Entry>) -> Vec<String> {
    v.into_iter().map(|e| e.text).collect()
}


#[test]
fn append_then_list_roundtrips_every_field() {
    let mut e = Entry::new("email", 12.5f32.to_bits(), "raw words", "Polished words.", NOW, String::new());
    e.at = 1_700_000_000;
    let all = list(filled(vec![e], 50));
    assert_eq!(all.len(), 1, "one append must yield one entry");
    assert_eq!(all[0].mode, "email");
    assert_eq!(f32::from_bits(all[0].seconds), 12.5);
    assert_eq!(all[0].raw, "raw words");
    assert_eq!(all[0].text, "Polished words.");
    assert_eq!(all[0].at, 1_700_000_000);
    assert!(!all[0].id.is_empty(), "append must assign an id");
}


#[test]
fn list_returns_newest_first() {
    let all = filled(vec![at(100, "oldest"), at(300, "newest"), at(200, "middle")], 50);
    assert_eq!(
        texts(list(all)),
        vec!["newest", "middle", "oldest"],
        "list must be newest-first regardless of insertion order"
    );
}


#[test]
fn cap_prunes_the_oldest_and_keeps_the_newest_n() {
    let entries: Vec<Entry> = (0..10).map(|i| at(1000 + i, &format!("entry {i}"))).collect();
    let all = list(filled(entries, 3));
    assert_eq!(all.len(), 3, "cap of 3 must leave exactly 3 entries");
    assert_eq!(
        texts(all),
        vec!["entry 9", "entry 8", "entry 7"],
        "pruning must drop the oldest, not the newest"
    );
}


#[test]
fn missing_file_is_empty_not_an_error() {
    assert!(list(Vec::new()).is_empty(), "no file means no history");
    assert!(search(Vec::new(), "anything").is_empty());
    assert!(get(&Vec::new(), "nope").is_none());
    assert_eq!(stats(&Vec::new(), NOW).total, 0);
}


#[test]
fn search_is_case_insensitive_and_matches_mid_string() {
    let all = || {
        filled(
            vec![at(100, "Send the QUARTERLY report to Dave"), at(200, "unrelated chatter")],
            50,
        )
    };
    assert_eq!(search(all(), "quarterly").len(), 1, "lowercase query must match uppercase text");
    assert_eq!(search(all(), "QUARTERLY").len(), 1, "uppercase query must match too");
    assert_eq!(
        search(all(), "rterly rep").len(),
        1,
        "a match in the middle of the text must count"
    );
}


#[test]
fn search_matches_raw_as_well_as_delivered_text() {
    let all = || {
        let mut e = Entry::new(
            "email",
            1.0f32.to_bits(),
            "um send it to dave",
            "Please send it to Dave.",
            NOW,
            String::new(),
        );
        e.at = 100;
        filled(vec![e], 50)
    };
    assert_eq!(search(all(), "um send").len(), 1, "the raw transcript must be searchable");
    assert_eq!(search(all(), "Please send").len(), 1, "the delivered text must be searchable");
}


#[test]
fn search_with_no_match_returns_empty() {
    assert!(
        search(filled(vec![at(100, "hello world")], 50), "zebra").is_empty(),
        "a query matching nothing must return no entries"
    );
}


#[test]
fn search_results_are_newest_first() {
    let all = filled(vec![at(100, "meeting notes one"), at(200, "meeting notes two")], 50);
    assert_eq!(texts(search(all, "meeting")), vec!["meeting notes two", "meeting notes one"]);
}


#[test]
fn get_and_delete_work_by_id() {
    let all = filled(vec![at(100, "keep me"), at(200, "delete me")], 50);
    let id = all.iter().find(|e| e.text == "delete me").expect("entry must exist").id.clone();
    assert_eq!(
        get(&all, &id).map(|e| e.text.clone()),
        Some("delete me".to_string()),
        "get must find an entry by its id"
    );
    let (all, removed) = delete(all, &id);
    assert!(removed);
    assert!(get(&all, &id).is_none(), "deleted entry must be gone");
    assert_eq!(list(all).len(), 1, "delete must remove exactly one entry");
}


#[test]
fn deleting_an_unknown_id_is_a_no_op() {
    let (all, removed) = delete(filled(vec![at(100, "still here")], 50), "not-a-real-id");
    assert!(!removed);
    assert_eq!(list(all).len(), 1, "nothing must be removed");
}


#[test]
fn clear_empties_the_history() {
    let all = clear();
    assert!(all.is_empty(), "clear must leave no entries");
    let all = append(all, at(999, "after clear"), 50, NOW, "id".to_string());
    assert_eq!(list(all).len(), 1);
}


#[test]
fn stats_count_words_and_estimate_time_saved() {
    let entries: Vec<Entry> = (0..10).map(|_| at(NOW, "one two three four")).collect();
    let s = stats(&filled(entries, 50), NOW);
    assert_eq!(s.total, 10, "one entry per append");
    assert_eq!(s.total_words, 40, "four words per entry");
}


#[test]
fn stats_this_week_excludes_older_entries() {
    let day = 24 * 60 * 60;
    let all = filled(
        vec![
            at(NOW - day, "inside the window"),
            at(NOW - 8 * day, "outside of the window here"),
        ],
        50,
    );
    let s = stats(&all, NOW);
    assert_eq!(s.total_words, 8, "all entries count towards the total");
    assert_eq!(s.words_this_week, 3, "only the last 7 days count towards this week");
}


#[test]
fn two_appends_in_the_same_second_get_distinct_ids() {
    let entries: Vec<Entry> = (0..50).map(|_| at(0, "x")).collect();
    let ids: HashSet<String> = list(filled(entries, 100)).into_iter().map(|e| e.id).collect();
    assert_eq!(ids.len(), 50, "ids must stay unique even when many land in the same second");
}


#[test]
fn ids_sort_in_chronological_order() {
    let a = new_id(NOW as u64, 3, 0);
    let b = new_id(NOW as u64, 3, 1);
    assert!(a < b, "ids minted later must sort after earlier ones");
    assert!(b < new_id(NOW as u64 + 1, 0, 0));
    assert_eq!(new_id(5, 0xab, 16), "0000000005-00ab000000000010");
    assert_ne!(random_u16(1), random_u16(1 << 33));
}

#[test]
fn stored_dictations_are_read_back() {
    let entries = vec![at(5, "one"), at(-7, "two")];
    let back = parse_entries(&written(&entries_json(&entries))).unwrap();
    assert_eq!(back.len(), 2);
    assert_eq!((back[0].at, back[1].at), (5, -7));
    assert_eq!(back[1].raw, "two");
    assert_eq!(back[0].seconds, Number::Double(1.0f64.to_bits()));
    let e = back.into_iter().next().unwrap().entry(1.0f32.to_bits());
    assert_eq!(e.text, "one");
    assert_eq!(e.mode, "default");
}

#[test]
fn what_is_left_out_of_a_dictation_has_its_default() {
    let back = parse_entries(r#"[{},{"at":3,"seconds":2}]"#).unwrap();
    assert_eq!(back[0].id, "");
    assert_eq!(back[0].seconds, Number::Single(0));
    assert_eq!(back[1].at, 3);
    assert_eq!(back[1].seconds, Number::Unsigned(2));
    assert!(parse_entries("{ this is not a json array").is_none());
    assert!(parse_entries(r#"[{"at":"x"}]"#).is_none());
}
