use iphone_bridge::voice::appctx::AppContext;
use iphone_bridge::voice::settings::{Provider, Replacement, VoiceSettings};
use iphone_bridge::voice::history;
use iphone_bridge::voice::{apply, draft, plan, record, reprocess, Plan};

fn plan_for(cfg: &VoiceSettings, mode_id: &str) -> Plan {
    let mode = cfg.mode(mode_id).expect("test mode must exist").clone();
    let whisper_prompt = cfg.whisper_prompt(&mode);
    Plan {
        mode,
        whisper_prompt,
        window_title: None,
    }
}

fn no_answer() -> Result<String, String> {
    Err("nothing was asked".to_string())
}

fn ready() -> VoiceSettings {
    let mut cfg = VoiceSettings::default();
    cfg.ai.provider = Provider::Anthropic;
    cfg.ai.anthropic_key = "k".into();
    cfg
}

#[test]
fn raw_mode_applies_replacements_but_no_ai() {
    let mut cfg = VoiceSettings::default();
    cfg.replacements.push(Replacement {
        from: "at sign".into(),
        to: "@".into(),
    });
    let plan = plan_for(&cfg, "raw");
    let out = apply("email me at sign example dot com", &cfg, &plan, &no_answer());
    assert_eq!(out.text, "email me @ example dot com");
    assert_eq!(out.raw, "email me at sign example dot com");
    assert!(out.warning.is_none(), "raw mode needs no AI, so no warning");
}

#[test]
fn a_prompted_mode_without_a_provider_warns_and_still_delivers() {
    let cfg = VoiceSettings::default();
    assert!(!cfg.ai.is_ready(), "default config has no provider");
    let plan = plan_for(&cfg, "email");
    let out = apply("hey can you send that over", &cfg, &plan, &no_answer());
    assert_eq!(
        out.text, "hey can you send that over",
        "the words must survive even with no AI configured"
    );
    let warning = out.warning.expect("must warn that the mode needs a provider");
    assert!(
        warning.contains("Email"),
        "warning should name the mode, got: {warning}"
    );
}

#[test]
fn blank_transcript_short_circuits() {
    let cfg = VoiceSettings::default();
    let plan = plan_for(&cfg, "email");
    let out = apply("   \n  ", &cfg, &plan, &no_answer());
    assert_eq!(out.text, "");
    assert_eq!(out.raw, "");
    assert!(
        out.warning.is_none(),
        "an empty recording is not an AI failure"
    );
}

#[test]
fn a_mode_can_opt_out_of_replacements() {
    let mut cfg = VoiceSettings::default();
    cfg.replacements.push(Replacement {
        from: "at sign".into(),
        to: "@".into(),
    });
    let mut plan = plan_for(&cfg, "raw");
    plan.mode.use_replacements = false;
    let out = apply("me at sign example", &cfg, &plan, &no_answer());
    assert_eq!(out.text, "me at sign example");
}

#[test]
fn plan_carries_the_vocabulary_prompt_for_whisper() {
    let mut cfg = VoiceSettings::default();
    cfg.vocabulary = vec!["Tailscale".into(), "whisper.cpp".into()];
    let plan = plan_for(&cfg, "raw");
    assert_eq!(
        plan.whisper_prompt.as_deref(),
        Some("Tailscale, whisper.cpp")
    );
}

#[test]
fn context_is_only_captured_when_the_mode_asks_for_it() {
    let cfg = VoiceSettings::default();
    let plan = plan_for(&cfg, "raw");
    assert!(
        !plan.mode.use_context,
        "built-in modes must not enable context by default"
    );
    assert!(plan.window_title.is_none());
}


#[test]
fn rewritten_words_are_delivered_and_failures_keep_the_words() {
    let cfg = ready();
    let p = plan_for(&cfg, "email");
    assert_eq!(draft("hello", &cfg, &p).as_deref(), Some("hello"));
    let out = apply("hello", &cfg, &p, &Ok("Dear all,".to_string()));
    assert_eq!(out.text, "Dear all,");
    assert!(out.warning.is_none());
    let out = apply("hello", &cfg, &p, &Ok("  ".to_string()));
    assert_eq!(out.text, "hello");
    assert_eq!(
        out.warning.as_deref(),
        Some("AI returned nothing; delivered the raw transcript")
    );
    let out = reprocess("hello", &cfg, &p, &Err("no net".to_string()));
    assert_eq!(out.text, "hello");
    assert_eq!(
        out.warning.as_deref(),
        Some("AI step failed (no net); kept the unrewritten text")
    );
    assert_eq!(draft("hello", &cfg, &plan_for(&cfg, "raw")), None);
    assert_eq!(draft(" ", &cfg, &p), None);
}


#[test]
fn the_focused_window_chooses_the_mode_and_gives_its_title() {
    let mut cfg = VoiceSettings::default();
    cfg.auto_mode = true;
    cfg.active_mode = String::new();
    let i = cfg.modes.iter().position(|m| m.id == "email").unwrap();
    cfg.modes[i].apps.push("outlook.exe".into());
    cfg.modes[i].use_context = true;
    let fg = AppContext {
        exe: Some("outlook.exe".to_string()),
        title: Some("Inbox".to_string()),
    };
    let p = plan(&cfg, Some(&fg));
    assert_eq!(p.mode.id, "email");
    assert_eq!(p.window_title.as_deref(), Some("Inbox"));
    cfg.modes[i].use_context = false;
    assert_eq!(plan(&cfg, Some(&fg)).window_title, None);
    assert_eq!(plan(&cfg, None).mode.id, "raw");
}

#[test]
fn apply_records_into_the_sandbox_not_the_real_history() {
    let cfg = VoiceSettings::default();
    let plan = plan_for(&cfg, "raw");
    let out = apply("one two three", &cfg, &plan, &no_answer());
    let entries = history::list(record(Vec::new(), &out, &cfg, &plan, 0, 5, "id".to_string()));
    assert_eq!(entries.len(), 1, "apply must record exactly one entry");
    assert_eq!(entries[0].text, "one two three");
    assert_eq!(entries[0].mode, "raw");
    let blank = apply("  ", &cfg, &plan, &no_answer());
    assert!(record(Vec::new(), &blank, &cfg, &plan, 0, 5, "id".to_string()).is_empty());
}
