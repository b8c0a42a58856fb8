use iphone_bridge::json::{Json, Number};
use iphone_bridge::voice::api::{
    apply_settings_payload, clear_history, delete_entry, entry_json, get_history, get_settings,
    has_key_json, provider_id, put_settings, reprocess_answer, reprocess_plan, reprocess_text,
    set_key, set_provider_key, settings_json, take_limit, wants_search, AiPayload, HistoryQuery,
    KeyBody, SettingsPayload,
};
use iphone_bridge::voice::history::Entry;
use iphone_bridge::voice::settings::{AiSettings, Mode, Provider, Replacement, VoiceSettings};
use iphone_bridge::voice::Plan;

/// Settings with every provider key populated with a distinctive, greppable value, so a
/// leak in any response is unmistakable.
fn keyed_settings() -> VoiceSettings {
    let mut v = VoiceSettings::default();
    v.ai.provider = Provider::Anthropic;
    v.ai.model = "opus-4-8".into();
    v.ai.anthropic_key = "SECRET-ANTHROPIC-abc123".into();
    v.ai.openai_key = "SECRET-OPENAI-def456".into();
    v.ai.gemini_key = "SECRET-GEMINI-ghi789".into();
    v.ai.openrouter_key = "SECRET-OPENROUTER-jkl012".into();
    v
}

fn at<'a>(v: &'a Json, path: &[&str]) -> &'a Json {
    let mut cur = v;
    for p in path {
        cur = match cur {
            Json::List(items) => &items[p.parse::<usize>().unwrap()],
            other => other.get(p).expect("field must exist"),
        };
    }
    cur
}

fn flag(v: &Json, path: &[&str]) -> bool {
    match at(v, path) {
        Json::Bool(b) => *b,
        other => panic!("must be a flag: {other:?}"),
    }
}

fn text<'a>(v: &'a Json, path: &[&str]) -> &'a str {
    at(v, path).as_text().expect("must be a string")
}

fn number(v: &Json, path: &[&str]) -> u64 {
    match at(v, path) {
        Json::Number(Number::Unsigned(n)) => *n,
        other => panic!("must be a number: {other:?}"),
    }
}

/// Every name and every string in a value.
fn all_text(v: &Json) -> String {
    match v {
        Json::Text(s) => s.clone(),
        Json::List(items) => items.iter().map(all_text).collect::<Vec<_>>().join("\n"),
        Json::Object(fields) => fields
            .iter()
            .map(|(k, v)| format!("{k}\n{}", all_text(v)))
            .collect::<Vec<_>>()
            .join("\n"),
        _ => String::new(),
    }
}

fn mode(id: &str, name: &str) -> Mode {
    Mode {
        id: id.to_string(),
        name: name.to_string(),
        prompt: String::new(),
        apps: Vec::new(),
        use_replacements: true,
        use_vocabulary: true,
        use_context: false,
    }
}

fn entries(n: usize) -> Vec<Entry> {
    (0..n)
        .map(|i| Entry {
            id: format!("id-{i}"),
            at: 0,
            mode: String::new(),
            seconds: 0,
            raw: String::new(),
            text: String::new(),
        })
        .collect()
}

fn plan_for(cfg: &VoiceSettings, mode_id: &str) -> Plan {
    reprocess_plan(cfg, mode_id).expect("test mode must exist")
}

#[test]
fn provider_ids_match_the_wire_names() {
    assert_eq!(provider_id(Provider::Unset), "none");
    assert_eq!(provider_id(Provider::Anthropic), "anthropic");
    assert_eq!(provider_id(Provider::Openai), "openai");
    assert_eq!(provider_id(Provider::Gemini), "gemini");
    assert_eq!(provider_id(Provider::Openrouter), "openrouter");
}

#[test]
fn setting_one_key_leaves_the_others_intact() {
    let mut ai = AiSettings::default();
    assert!(set_provider_key(&mut ai, Provider::Anthropic, "sk-ant-1"));
    assert!(set_provider_key(&mut ai, Provider::Openai, "sk-oai-2"));
    assert_eq!(ai.anthropic_key, "sk-ant-1");
    assert_eq!(ai.openai_key, "sk-oai-2");
    assert_eq!(ai.gemini_key, "");
    assert_eq!(ai.openrouter_key, "");

    set_provider_key(&mut ai, Provider::Openrouter, "sk-or-3");
    assert_eq!(ai.anthropic_key, "sk-ant-1", "an unrelated key must not move");
    assert_eq!(ai.openrouter_key, "sk-or-3");
}

#[test]
fn an_empty_key_clears_that_provider_only() {
    let mut ai = keyed_settings().ai;
    assert!(set_provider_key(&mut ai, Provider::Gemini, ""));
    assert_eq!(ai.gemini_key, "");
    assert_eq!(ai.anthropic_key, "SECRET-ANTHROPIC-abc123");
    assert_eq!(ai.openai_key, "SECRET-OPENAI-def456");
    assert_eq!(ai.openrouter_key, "SECRET-OPENROUTER-jkl012");

    // Whitespace is a clear too -- a phone keyboard adds it freely.
    assert!(set_provider_key(&mut ai, Provider::Openai, "  \n "));
    assert_eq!(ai.openai_key, "");
}

#[test]
fn a_pasted_key_is_trimmed() {
    let mut ai = AiSettings::default();
    set_provider_key(&mut ai, Provider::Anthropic, "  sk-ant-trimmed\n");
    assert_eq!(ai.anthropic_key, "sk-ant-trimmed");
}

#[test]
fn none_is_rejected_as_a_key_target() {
    let mut ai = keyed_settings().ai;
    assert!(!set_provider_key(&mut ai, Provider::Unset, "whatever"));
    assert_eq!(ai.anthropic_key, "SECRET-ANTHROPIC-abc123", "nothing was written");
}

#[test]
fn a_blank_query_lists_rather_than_searches() {
    assert!(!wants_search(None));
    assert!(!wants_search(Some("")));
    assert!(!wants_search(Some("   ")));
    assert!(wants_search(Some("dave")));
    assert!(wants_search(Some("  dave  ")));
}

#[test]
fn limit_defaults_to_100_and_keeps_the_newest() {
    let out = take_limit(entries(250), None);
    assert_eq!(out.len(), 100);
    assert_eq!(
        out[0].id, "id-0",
        "the list is already newest-first, so truncation keeps the newest"
    );
}

#[test]
fn an_explicit_limit_is_honoured() {
    assert_eq!(take_limit(entries(250), Some(5)).len(), 5);
    assert_eq!(take_limit(entries(250), Some(0)).len(), 0);
    assert_eq!(
        take_limit(entries(3), Some(500)).len(),
        3,
        "a limit above the count is not an error"
    );
}

#[test]
fn reprocess_applies_replacements_without_an_ai_call() {
    let mut cfg = VoiceSettings::default();
    cfg.replacements.push(Replacement {
        from: "at sign".into(),
        to: "@".into(),
    });
    let (text, warning) = reprocess_text("me at sign example", &cfg, &plan_for(&cfg, "raw"), &Err("unused".to_string()));
    assert_eq!(text, "me @ example");
    assert!(warning.is_none());
}

#[test]
fn reprocess_warns_when_the_mode_needs_an_absent_provider() {
    let cfg = VoiceSettings::default();
    let (text, warning) = reprocess_text("hey send that over", &cfg, &plan_for(&cfg, "email"), &Err("unused".to_string()));
    assert_eq!(text, "hey send that over", "the words must survive");
    assert!(warning.expect("must warn").contains("Email"));
}

#[test]
fn reprocess_of_a_blank_transcript_is_empty_and_silent() {
    let cfg = VoiceSettings::default();
    let (text, warning) = reprocess_text("  \n ", &cfg, &plan_for(&cfg, "email"), &Err("unused".to_string()));
    assert_eq!(text, "");
    assert!(warning.is_none());
}


#[test]
fn settings_json_never_contains_an_api_key() {
    let v = keyed_settings();
    let text = all_text(&settings_json(&v));
    for key in [
        "SECRET-ANTHROPIC-abc123",
        "SECRET-OPENAI-def456",
        "SECRET-GEMINI-ghi789",
        "SECRET-OPENROUTER-jkl012",
    ] {
        assert!(!text.contains(key), "{key} leaked into the settings response: {text}");
    }
    // And nothing key-shaped snuck in under another name.
    assert!(!text.contains("SECRET"), "some key material survived: {text}");
    for field in ["anthropic_key", "openai_key", "gemini_key", "openrouter_key"] {
        assert!(!text.contains(field), "the {field} field leaked into the response: {text}");
    }
}


#[test]
fn has_key_reports_presence_without_the_value() {
    let mut v = keyed_settings();
    v.ai.openai_key = String::new();
    v.ai.gemini_key = "   ".into(); // whitespace is not a key
    let j = settings_json(&v);
    assert!(flag(&j, &["ai", "has_key", "anthropic"]));
    assert!(!flag(&j, &["ai", "has_key", "openai"]));
    assert!(!flag(&j, &["ai", "has_key", "gemini"]));
    assert!(flag(&j, &["ai", "has_key", "openrouter"]));
}


#[test]
fn settings_json_has_every_contracted_field() {
    let mut v = VoiceSettings::default();
    v.replacements.push(Replacement {
        from: "at sign".into(),
        to: "@".into(),
    });
    v.vocabulary.push("Tailscale".into());
    v.auto_mode = true;
    v.ai.anthropic_model = "opus-4-8".into();
    let j = settings_json(&v);

    assert_eq!(text(&j, &["active_mode"]), "raw");
    assert!(flag(&j, &["auto_mode"]));
    assert_eq!(number(&j, &["history_cap"]), 500);
    assert_eq!(text(&j, &["vocabulary", "0"]), "Tailscale");
    assert_eq!(text(&j, &["replacements", "0", "from"]), "at sign");
    assert_eq!(text(&j, &["replacements", "0", "to"]), "@");

    for field in [
        "id",
        "name",
        "prompt",
        "apps",
        "use_replacements",
        "use_vocabulary",
        "use_context",
    ] {
        assert!(
            at(&j, &["modes", "0"]).get(field).is_some(),
            "mode is missing the {field} field"
        );
    }

    assert_eq!(text(&j, &["ai", "provider"]), "none");
    assert_eq!(text(&j, &["ai", "model"]), "");
    for p in ["anthropic", "openai", "gemini", "openrouter"] {
        flag(&j, &["ai", "has_key", p]);
        text(&j, &["ai", "default_models", p]);
    }
    assert_eq!(text(&j, &["ai", "default_models", "anthropic"]), "opus-4-8");
}


#[test]
fn a_settings_put_never_wipes_the_stored_keys() {
    // The phone is never given the keys, so it can never send them back.
    let mut v = keyed_settings();
    apply_settings_payload(
        &mut v,
        SettingsPayload {
            active_mode: Some("email".into()),
            auto_mode: Some(true),
            ai: Some(AiPayload {
                provider: Some(Provider::Openai),
                model: Some("gpt-5".into()),
            }),
            ..Default::default()
        },
    );
    assert_eq!(v.ai.anthropic_key, "SECRET-ANTHROPIC-abc123");
    assert_eq!(v.ai.openai_key, "SECRET-OPENAI-def456");
    assert_eq!(v.ai.gemini_key, "SECRET-GEMINI-ghi789");
    assert_eq!(v.ai.openrouter_key, "SECRET-OPENROUTER-jkl012");
    assert_eq!(v.ai.provider, Provider::Openai);
    assert_eq!(v.ai.model, "gpt-5");
    assert_eq!(v.active_mode, "email");
    assert!(v.auto_mode);
}


#[test]
fn a_payload_carrying_key_fields_has_them_ignored() {
    // A payload has no place for a key.
    let mut v = keyed_settings();
    apply_settings_payload(
        &mut v,
        SettingsPayload {
            ai: Some(AiPayload { provider: Some(Provider::Gemini), model: None }),
            ..Default::default()
        },
    );
    assert_eq!(
        v.ai.anthropic_key, "SECRET-ANTHROPIC-abc123",
        "only /api/voice/key may write a key"
    );
    assert_eq!(v.ai.gemini_key, "SECRET-GEMINI-ghi789");
}


#[test]
fn a_settings_put_replaces_the_collections_it_sends() {
    let mut v = VoiceSettings::default();
    apply_settings_payload(
        &mut v,
        SettingsPayload {
            replacements: Some(vec![Replacement { from: "at sign".into(), to: "@".into() }]),
            vocabulary: Some(vec!["Tailscale".into(), "whisper.cpp".into()]),
            modes: Some(vec![mode("only", "Only")]),
            ..Default::default()
        },
    );
    assert_eq!(v.replacements.len(), 1);
    assert_eq!(v.vocabulary, vec!["Tailscale", "whisper.cpp"]);
    assert_eq!(v.modes.len(), 1, "sent modes replace, not merge");
    assert_eq!(v.modes[0].id, "only");
    assert!(v.modes[0].use_replacements);
    assert!(v.modes[0].use_vocabulary);
    assert!(!v.modes[0].use_context);
}


#[test]
fn an_empty_payload_leaves_everything_alone() {
    let mut v = keyed_settings();
    v.vocabulary.push("Tailscale".into());
    apply_settings_payload(&mut v, SettingsPayload::default());
    assert_eq!(v.vocabulary, vec!["Tailscale"]);
    assert_eq!(v.active_mode, "raw");
    assert_eq!(v.history_cap, 500);
    assert_eq!(v.ai.anthropic_key, "SECRET-ANTHROPIC-abc123");
}


#[test]
fn a_put_normalizes_a_dangling_active_mode() {
    let mut v = VoiceSettings::default();
    apply_settings_payload(
        &mut v,
        SettingsPayload { active_mode: Some("no-such-mode".into()), ..Default::default() },
    );
    assert_eq!(v.active_mode, "", "a mode id that names nothing is cleared");
}


#[test]
fn a_put_that_deletes_the_active_mode_clears_it() {
    let mut v = VoiceSettings::default();
    v.active_mode = "email".into();
    apply_settings_payload(
        &mut v,
        SettingsPayload { modes: Some(vec![mode("raw", "Voice to Text")]), ..Default::default() },
    );
    assert_eq!(v.active_mode, "");
}


#[test]
fn a_zero_history_cap_is_replaced_by_the_default() {
    let mut v = VoiceSettings::default();
    apply_settings_payload(&mut v, SettingsPayload { history_cap: Some(0), ..Default::default() });
    assert_eq!(v.history_cap, 500, "a cap of 0 would silently discard every dictation");
}


#[test]
fn an_empty_mode_list_falls_back_to_the_builtins() {
    let mut v = VoiceSettings::default();
    apply_settings_payload(&mut v, SettingsPayload { modes: Some(vec![]), ..Default::default() });
    assert!(!v.modes.is_empty(), "normalize must guarantee a mode exists");
}


#[test]
fn the_put_response_round_trips_through_the_get_shape() {
    let mut v = keyed_settings();
    let a = put_settings(&mut v, SettingsPayload { history_cap: Some(25), ..Default::default() });
    assert_eq!(a.status, 200);
    let j = get_settings(&v).body;
    assert_eq!(number(&j, &["history_cap"]), 25);
    assert_eq!(number(&a.body, &["history_cap"]), 25);
    assert!(flag(&j, &["ai", "has_key", "anthropic"]));
}


#[test]
fn set_key_response_reports_presence_only() {
    let mut ai = AiSettings::default();
    let body = set_key(&mut ai, &KeyBody { provider: Provider::Gemini, key: "sk-gem".into() }).body;
    assert_eq!(ai.gemini_key, "sk-gem");
    assert!(!all_text(&body).contains("sk-gem"), "the key was echoed back");
    assert!(flag(&body, &["has_key", "gemini"]));
    assert!(!flag(&body, &["has_key", "openai"]));
    assert!(flag(&has_key_json(&ai), &["gemini"]));
    let refused = set_key(&mut ai, &KeyBody { provider: Provider::Unset, key: "x".into() });
    assert_eq!(refused.status, 400);
}


#[test]
fn entry_json_carries_every_contracted_field() {
    let e = Entry::new("email", 12.5f32.to_bits(), "raw words", "Polished words.", 9, "i".into());
    let j = entry_json(&e);
    assert_eq!(text(&j, &["mode"]), "email");
    assert!(matches!(at(&j, &["seconds"]), Json::Number(Number::Single(b)) if f32::from_bits(*b) == 12.5));
    assert_eq!(text(&j, &["raw"]), "raw words");
    assert_eq!(text(&j, &["text"]), "Polished words.");
    assert_eq!(text(&j, &["id"]), "i");
    assert_eq!(number(&j, &["at"]), 9);
}


#[test]
fn the_history_is_searched_or_listed() {
    let all = || {
        let mut v = entries(3);
        v[1].text = "Dave".into();
        v
    };
    let shown = |q: Option<&str>, limit: Option<usize>| {
        let a = get_history(all(), &HistoryQuery { q: q.map(|s| s.to_string()), limit });
        assert_eq!(a.status, 200);
        match a.body.get("entries") {
            Some(Json::List(items)) => items.len(),
            other => panic!("must be a list: {other:?}"),
        }
    };
    assert_eq!(shown(None, None), 3);
    assert_eq!(shown(Some(" "), Some(2)), 2);
    assert_eq!(shown(Some("dave"), None), 1);
}


#[test]
fn the_other_answers_tell_what_happened() {
    assert_eq!(delete_entry(true).status, 200);
    assert_eq!(delete_entry(false).body.text_field("error"), Some("could not delete the entry"));
    assert_eq!(clear_history(true).body.bool_field("ok"), Some(true));
    assert_eq!(clear_history(false).status, 500);
    assert_eq!(reprocess_answer(None, None).status, 404);
    let a = reprocess_answer(Some(("t".to_string(), None)), None);
    assert_eq!(a.body.text_field("text"), Some("t"));
    let a = reprocess_answer(Some(("t".to_string(), Some("w".to_string()))), Some("f"));
    assert!(a.body.text_field("warning").unwrap().contains("w"));
    assert!(a.body.text_field("warning").unwrap().contains("f"));
    assert!(reprocess_plan(&VoiceSettings::default(), "nope").is_none());
}
