use iphone_bridge::json::{parse, Json, Number};
use iphone_bridge::stored::Stored;
use iphone_bridge::voice::settings::{AiSettings, Mode, Provider, Replacement, VoiceSettings};

fn value(j: &Json) -> serde_json::Value {
    match j {
        Json::Null => serde_json::Value::Null,
        Json::Bool(b) => serde_json::Value::Bool(*b),
        Json::Number(Number::Unsigned(n)) => serde_json::Value::from(*n),
        Json::Number(Number::Signed(n)) => serde_json::Value::from(*n),
        Json::Number(Number::Double(bits)) => serde_json::Value::from(f64::from_bits(*bits)),
        Json::Number(Number::Single(bits)) => serde_json::Value::from(f32::from_bits(*bits)),
        Json::Text(s) => serde_json::Value::String(s.clone()),
        Json::List(items) => serde_json::Value::Array(items.iter().map(value).collect()),
        Json::Object(fields) => {
            serde_json::Value::Object(fields.iter().map(|(k, v)| (k.clone(), value(v))).collect())
        }
    }
}

fn written(j: &Json) -> String {
    serde_json::to_string_pretty(&value(j)).unwrap()
}

#[test]
fn active_model_falls_back_to_provider_default() {
    let mut ai = AiSettings {
        provider: Provider::Anthropic,
        anthropic_model: "opus-4-8".into(),
        ..Default::default()
    };
    assert_eq!(ai.active_model(), "opus-4-8");
    ai.model = "  sonnet-5  ".into();
    assert_eq!(ai.active_model(), "sonnet-5");
}

#[test]
fn is_ready_requires_provider_and_key() {
    let mut ai = AiSettings::default();
    assert!(!ai.is_ready(), "no provider selected");
    ai.provider = Provider::Openai;
    assert!(!ai.is_ready(), "provider but no key");
    ai.openai_key = "sk-test".into();
    assert!(ai.is_ready());
    // Keys are per-provider: switching away must not borrow the other key.
    ai.provider = Provider::Gemini;
    assert!(!ai.is_ready(), "gemini key is empty");
}

#[test]
fn manual_mode_selection_beats_app_auto_selection() {
    let mut v = VoiceSettings::default();
    v.auto_mode = true;
    v.modes
        .iter_mut()
        .find(|m| m.id == "email")
        .unwrap()
        .apps
        .push("outlook.exe".into());

    // Pinned to raw -> stays raw even though Outlook is focused.
    v.active_mode = "raw".into();
    assert_eq!(v.effective_mode(Some("outlook.exe")).id, "raw");

    // Unpinned -> the app decides.
    v.active_mode = String::new();
    assert_eq!(v.effective_mode(Some("outlook.exe")).id, "email");
    assert_eq!(v.effective_mode(Some("OUTLOOK.EXE")).id, "email");

    // Unpinned, unknown app -> first mode.
    assert_eq!(v.effective_mode(Some("notepad.exe")).id, "raw");
}

#[test]
fn auto_mode_off_ignores_the_foreground_app() {
    let mut v = VoiceSettings::default();
    v.auto_mode = false;
    v.active_mode = String::new();
    v.modes
        .iter_mut()
        .find(|m| m.id == "email")
        .unwrap()
        .apps
        .push("outlook.exe".into());
    assert_eq!(v.effective_mode(Some("outlook.exe")).id, "raw");
}

#[test]
fn normalize_clears_a_dangling_active_mode() {
    let mut v = VoiceSettings::default();
    v.active_mode = "deleted-mode".into();
    v.normalize();
    assert_eq!(v.active_mode, "");
}

#[test]
fn whisper_prompt_joins_vocabulary_and_skips_blanks() {
    let mut v = VoiceSettings::default();
    let mode = v.mode("raw").unwrap().clone();
    assert_eq!(v.whisper_prompt(&mode), None, "no vocabulary yet");

    v.vocabulary = vec!["Tailscale".into(), "  ".into(), "whisper.cpp".into()];
    assert_eq!(
        v.whisper_prompt(&mode),
        Some("Tailscale, whisper.cpp".to_string())
    );

    let mut off = mode.clone();
    off.use_vocabulary = false;
    assert_eq!(v.whisper_prompt(&off), None);
}


#[test]
fn normalizing_twice_changes_nothing() {
    let mut v = VoiceSettings::default();
    v.modes.clear();
    v.history_cap = 0;
    v.active_mode = "x".into();
    v.normalize();
    assert!(!v.modes.is_empty());
    assert_eq!(v.history_cap, 500);
    let n = v.modes.len();
    v.normalize();
    assert_eq!(v.modes.len(), n);
}


#[test]
fn each_provider_has_a_default_model() {
    assert_eq!(Provider::Unset.default_model("m"), "");
    for p in [Provider::Anthropic, Provider::Openai, Provider::Gemini, Provider::Openrouter] {
        assert!(!p.default_model("m").is_empty());
    }
}

#[test]
fn legacy_config_without_voice_key_uses_defaults() {
    let v = VoiceSettings::from_stored(&parse("{}").unwrap()).expect("empty object must load");
    assert_eq!(v.history_cap, 500);
    assert_eq!(v.ai.provider, Provider::Unset);
    assert!(v.replacements.is_empty());
    let mut v = v;
    v.normalize();
    assert!(!v.modes.is_empty(), "normalize must guarantee a mode exists");
}

#[test]
fn roundtrips_through_json() {
    let mut v = VoiceSettings::default();
    v.replacements.push(Replacement {
        from: "at sign".into(),
        to: "@".into(),
    });
    v.vocabulary.push("Tailscale".into());
    v.ai.provider = Provider::Openrouter;
    v.ai.openrouter_key = "sk-or-test".into();
    let json = written(&v.to_stored());
    let back = VoiceSettings::from_stored(&parse(&json).unwrap()).unwrap();
    assert_eq!(back.replacements, v.replacements);
    assert_eq!(back.vocabulary, v.vocabulary);
    assert_eq!(back.ai.provider, Provider::Openrouter);
    assert_eq!(back.ai.active_key(), "sk-or-test");
    assert_eq!(back.modes.len(), 5);
}

#[test]
fn what_is_left_out_of_a_mode_has_its_default() {
    let read = |t: &str| Mode::from_stored(&parse(t).unwrap());
    let m = read(r#"{"id":"a","name":"A"}"#).unwrap();
    assert!(m.use_replacements && m.use_vocabulary && !m.use_context);
    assert!(m.prompt.is_empty() && m.apps.is_empty());
    assert!(read(r#"{"id":"a"}"#).is_none());
    assert!(read(r#"{"id":"a","name":"A","apps":[1]}"#).is_none());
    assert!(read(r#"{"id":"a","name":"A","use_context":null}"#).is_none());
    assert_eq!(read(r#"["a","A","p",["x.exe"]]"#).unwrap().apps, vec!["x.exe"]);
    let provider = |t: &str| Provider::from_stored(&parse(t).unwrap());
    assert_eq!(provider(r#""openai""#), Some(Provider::Openai));
    assert_eq!(provider(r#""none""#), Some(Provider::Unset));
    assert_eq!(provider(r#"{"gemini":null}"#), Some(Provider::Gemini));
    assert_eq!(provider(r#""OpenAI""#), None);
    assert_eq!(provider("3"), None);
}
