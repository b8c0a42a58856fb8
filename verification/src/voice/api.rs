//! The answers of the voice interface: settings, keys, history, and old dictations under
//! another mode.
//!
//! The settings are written out field by field: what leaves holds no key.
use super::history::Entry;
use super::settings;
use super::settings::{AiSettings, AiView, Mode, ModeView, Provider, Replacement, VoiceSettings};
use super::Plan;
use crate::answer;
use crate::answer::{done, err, ok, Answer};
use crate::json;
use crate::json::{Json, Number};
use crate::text;
use vstd::prelude::*;

verus! {

/// How many entries are given when no number is asked for.
pub const DEFAULT_HISTORY_LIMIT: usize = 100;

/// The word for a provider on the wire.
pub fn provider_id(p: Provider) -> (r: &'static str)
    ensures
        r@ == super::ai::name_of(p),
{
    super::ai::provider_name(p)
}

/// Which providers have a key.
pub open spec fn has_key_view(ai: AiView) -> json::JsonView {
    json::JsonView::Object(
        seq![
            ("anthropic"@, json::JsonView::Bool(!text::blank(ai.anthropic_key))),
            ("openai"@, json::JsonView::Bool(!text::blank(ai.openai_key))),
            ("gemini"@, json::JsonView::Bool(!text::blank(ai.gemini_key))),
            ("openrouter"@, json::JsonView::Bool(!text::blank(ai.openrouter_key))),
        ],
    )
}

/// Which providers have a key, without saying what any of them is.
pub fn has_key_json(ai: &AiSettings) -> (r: Json)
    ensures
        r@ == has_key_view(ai@),
{
    let mut f: Vec<(String, Json)> = Vec::new();
    assert(json::fields_view(f@) =~= Seq::empty());
    json::put(&mut f, "anthropic", Json::Bool(!text::is_blank(ai.anthropic_key.as_str())));
    json::put(&mut f, "openai", Json::Bool(!text::is_blank(ai.openai_key.as_str())));
    json::put(&mut f, "gemini", Json::Bool(!text::is_blank(ai.gemini_key.as_str())));
    json::put(&mut f, "openrouter", Json::Bool(!text::is_blank(ai.openrouter_key.as_str())));
    assert(json::fields_view(f@) =~= has_key_view(ai@)->Object_0);
    Json::Object(f)
}

/// The default model of each provider.
pub open spec fn default_models_view(anthropic_model: Seq<char>) -> json::JsonView {
    json::JsonView::Object(
        seq![
            (
                "anthropic"@,
                json::JsonView::Text(settings::default_model_of(Provider::Anthropic, anthropic_model)),
            ),
            ("openai"@, json::JsonView::Text(settings::default_model_of(Provider::Openai, anthropic_model))),
            ("gemini"@, json::JsonView::Text(settings::default_model_of(Provider::Gemini, anthropic_model))),
            (
                "openrouter"@,
                json::JsonView::Text(settings::default_model_of(Provider::Openrouter, anthropic_model)),
            ),
        ],
    )
}

/// The default model of each provider.
pub fn default_models_json(anthropic_model: &str) -> (r: Json)
    ensures
        r@ == default_models_view(anthropic_model@),
{
    let mut f: Vec<(String, Json)> = Vec::new();
    assert(json::fields_view(f@) =~= Seq::empty());
    json::put(&mut f, "anthropic", json::text_json(Provider::Anthropic.default_model(anthropic_model)));
    json::put(&mut f, "openai", json::text_json(Provider::Openai.default_model(anthropic_model)));
    json::put(&mut f, "gemini", json::text_json(Provider::Gemini.default_model(anthropic_model)));
    json::put(&mut f, "openrouter", json::text_json(Provider::Openrouter.default_model(anthropic_model)));
    assert(json::fields_view(f@) =~= default_models_view(anthropic_model@)->Object_0);
    Json::Object(f)
}

/// A mode on the wire.
pub open spec fn mode_view(m: ModeView) -> json::JsonView {
    json::JsonView::Object(
        seq![
            ("id"@, json::JsonView::Text(m.id)),
            ("name"@, json::JsonView::Text(m.name)),
            ("prompt"@, json::JsonView::Text(m.prompt)),
            ("apps"@, json::texts_view(m.apps)),
            ("use_replacements"@, json::JsonView::Bool(m.use_replacements)),
            ("use_vocabulary"@, json::JsonView::Bool(m.use_vocabulary)),
            ("use_context"@, json::JsonView::Bool(m.use_context)),
        ],
    )
}

/// A mode on the wire.
pub fn mode_json(m: &Mode) -> (r: Json)
    ensures
        r@ == mode_view(m@),
{
    let mut f: Vec<(String, Json)> = Vec::new();
    assert(json::fields_view(f@) =~= Seq::empty());
    json::put(&mut f, "id", json::text_json(m.id.as_str()));
    json::put(&mut f, "name", json::text_json(m.name.as_str()));
    json::put(&mut f, "prompt", json::text_json(m.prompt.as_str()));
    json::put(&mut f, "apps", json::texts_json(&m.apps));
    json::put(&mut f, "use_replacements", Json::Bool(m.use_replacements));
    json::put(&mut f, "use_vocabulary", Json::Bool(m.use_vocabulary));
    json::put(&mut f, "use_context", Json::Bool(m.use_context));
    assert(json::fields_view(f@) =~= mode_view(m@)->Object_0);
    Json::Object(f)
}

/// A replacement on the wire.
pub open spec fn rule_view(r: settings::ReplacementView) -> json::JsonView {
    json::JsonView::Object(
        seq![("from"@, json::JsonView::Text(r.from)), ("to"@, json::JsonView::Text(r.to))],
    )
}

fn rule_json(rule: &Replacement) -> (r: Json)
    ensures
        r@ == rule_view(rule@),
{
    let mut f: Vec<(String, Json)> = Vec::new();
    assert(json::fields_view(f@) =~= Seq::empty());
    json::put(&mut f, "from", json::text_json(rule.from.as_str()));
    json::put(&mut f, "to", json::text_json(rule.to.as_str()));
    assert(json::fields_view(f@) =~= rule_view(rule@)->Object_0);
    Json::Object(f)
}

fn modes_json(modes: &Vec<Mode>) -> (r: Json)
    ensures
        r@ == json::JsonView::List(
            settings::modes_view(modes@).map_values(|m: ModeView| mode_view(m)),
        ),
{
    let ghost all = settings::modes_view(modes@).map_values(|m: ModeView| mode_view(m));
    let mut items: Vec<Json> = Vec::new();
    let mut i: usize = 0;
    assert(json::list_view(items@) =~= all.take(0));
    while i < modes.len()
        invariant
            i <= modes@.len(),
            all == settings::modes_view(modes@).map_values(|m: ModeView| mode_view(m)),
            json::list_view(items@) == all.take(i as int),
        decreases modes@.len() - i,
    {
        let j = mode_json(&modes[i]);
        assert(all[i as int] == j@);
        proof {
            json::lemma_list_push(items@, j);
        }
        items.push(j);
        i = i + 1;
        assert(all.take(i as int) =~= all.take(i - 1).push(all[i - 1]));
    }
    assert(all.take(i as int) =~= all);
    Json::List(items)
}

fn rules_json(rules: &Vec<Replacement>) -> (r: Json)
    ensures
        r@ == json::JsonView::List(
            settings::rules_view(rules@).map_values(|x: settings::ReplacementView| rule_view(x)),
        ),
{
    let ghost all = settings::rules_view(rules@).map_values(
        |x: settings::ReplacementView| rule_view(x),
    );
    let mut items: Vec<Json> = Vec::new();
    let mut i: usize = 0;
    assert(json::list_view(items@) =~= all.take(0));
    while i < rules.len()
        invariant
            i <= rules@.len(),
            all == settings::rules_view(rules@).map_values(
                |x: settings::ReplacementView| rule_view(x),
            ),
            json::list_view(items@) == all.take(i as int),
        decreases rules@.len() - i,
    {
        let j = rule_json(&rules[i]);
        assert(all[i as int] == j@);
        proof {
            json::lemma_list_push(items@, j);
        }
        items.push(j);
        i = i + 1;
        assert(all.take(i as int) =~= all.take(i - 1).push(all[i - 1]));
    }
    assert(all.take(i as int) =~= all);
    Json::List(items)
}

/// The service settings on the wire.
pub open spec fn ai_view(ai: AiView) -> json::JsonView {
    json::JsonView::Object(
        seq![
            ("provider"@, json::JsonView::Text(super::ai::name_of(ai.provider))),
            ("model"@, json::JsonView::Text(ai.model)),
            ("has_key"@, has_key_view(ai)),
            ("default_models"@, default_models_view(ai.anthropic_model)),
        ],
    )
}

/// The settings on the wire.
pub open spec fn settings_view(v: settings::VoiceView) -> json::JsonView {
    json::JsonView::Object(
        seq![
            (
                "modes"@,
                json::JsonView::List(v.modes.map_values(|m: ModeView| mode_view(m))),
            ),
            ("active_mode"@, json::JsonView::Text(v.active_mode)),
            ("auto_mode"@, json::JsonView::Bool(v.auto_mode)),
            (
                "replacements"@,
                json::JsonView::List(
                    v.replacements.map_values(|x: settings::ReplacementView| rule_view(x)),
                ),
            ),
            ("vocabulary"@, json::texts_view(v.vocabulary)),
            ("history_cap"@, json::JsonView::Number(Number::Unsigned(v.history_cap as u64))),
            ("ai"@, ai_view(v.ai)),
        ],
    )
}

/// The settings on the wire.
pub fn settings_json(v: &VoiceSettings) -> (r: Json)
    ensures
        r@ == settings_view(v@),
{
    let mut a: Vec<(String, Json)> = Vec::new();
    assert(json::fields_view(a@) =~= Seq::empty());
    json::put(&mut a, "provider", json::text_json(provider_id(v.ai.provider)));
    json::put(&mut a, "model", json::text_json(v.ai.model.as_str()));
    json::put(&mut a, "has_key", has_key_json(&v.ai));
    json::put(&mut a, "default_models", default_models_json(v.ai.anthropic_model.as_str()));
    assert(json::fields_view(a@) =~= ai_view(v.ai@)->Object_0);
    let mut f: Vec<(String, Json)> = Vec::new();
    assert(json::fields_view(f@) =~= Seq::empty());
    json::put(&mut f, "modes", modes_json(&v.modes));
    json::put(&mut f, "active_mode", json::text_json(v.active_mode.as_str()));
    json::put(&mut f, "auto_mode", Json::Bool(v.auto_mode));
    json::put(&mut f, "replacements", rules_json(&v.replacements));
    json::put(&mut f, "vocabulary", json::texts_json(&v.vocabulary));
    json::put(&mut f, "history_cap", Json::Number(Number::Unsigned(v.history_cap as u64)));
    json::put(&mut f, "ai", Json::Object(a));
    assert(json::fields_view(f@) =~= settings_view(v@)->Object_0);
    Json::Object(f)
}

/// An update of the settings. It has no place for a key.
#[derive(Debug)]
pub struct SettingsPayload {
    pub modes: Option<Vec<Mode>>,
    pub active_mode: Option<String>,
    pub auto_mode: Option<bool>,
    pub replacements: Option<Vec<Replacement>>,
    pub vocabulary: Option<Vec<String>>,
    pub history_cap: Option<usize>,
    pub ai: Option<AiPayload>,
}

/// An update of the service settings.
#[derive(Debug)]
pub struct AiPayload {
    pub provider: Option<Provider>,
    pub model: Option<String>,
}

impl Default for SettingsPayload {
    fn default() -> (r: Self)
        ensures
            is_empty_payload(r),
    {
        SettingsPayload {
            modes: None,
            active_mode: None,
            auto_mode: None,
            replacements: None,
            vocabulary: None,
            history_cap: None,
            ai: None,
        }
    }
}

/// An update that updates nothing.
pub open spec fn is_empty_payload(p: SettingsPayload) -> bool {
    p.modes is None && p.active_mode is None && p.auto_mode is None && p.replacements is None
        && p.vocabulary is None && p.history_cap is None && p.ai is None
}

/// The service settings with an update laid over them.
pub open spec fn ai_updated(ai: AiView, p: Option<AiPayload>) -> AiView {
    match p {
        Some(a) => AiView {
            provider: match a.provider {
                Some(x) => x,
                None => ai.provider,
            },
            model: match a.model {
                Some(m) => m@,
                None => ai.model,
            },
            ..ai
        },
        None => ai,
    }
}

/// The settings with an update laid over them, before they are put right.
pub open spec fn overlaid(v: settings::VoiceView, p: SettingsPayload) -> settings::VoiceView {
    settings::VoiceView {
        modes: match p.modes {
            Some(m) => settings::modes_view(m@),
            None => v.modes,
        },
        active_mode: match p.active_mode {
            Some(m) => m@,
            None => v.active_mode,
        },
        auto_mode: match p.auto_mode {
            Some(b) => b,
            None => v.auto_mode,
        },
        replacements: match p.replacements {
            Some(r) => settings::rules_view(r@),
            None => v.replacements,
        },
        vocabulary: match p.vocabulary {
            Some(t) => text::views(t@),
            None => v.vocabulary,
        },
        history_cap: match p.history_cap {
            Some(c) => c,
            None => v.history_cap,
        },
        ai: ai_updated(v.ai, p.ai),
    }
}

/// Lays an update over the settings and puts them right. What the update does not hold is
/// left as it was; keys are never touched.
pub fn apply_settings_payload(cfg: &mut VoiceSettings, payload: SettingsPayload)
    ensures
        final(cfg)@ == overlaid(old(cfg)@, payload).normalized(),
{
    let ghost before = cfg@;
    if let Some(v) = payload.modes {
        cfg.modes = v;
    }
    if let Some(v) = payload.active_mode {
        cfg.active_mode = v;
    }
    if let Some(v) = payload.auto_mode {
        cfg.auto_mode = v;
    }
    if let Some(v) = payload.replacements {
        cfg.replacements = v;
    }
    if let Some(v) = payload.vocabulary {
        cfg.vocabulary = v;
    }
    if let Some(v) = payload.history_cap {
        cfg.history_cap = v;
    }
    if let Some(a) = payload.ai {
        if let Some(p) = a.provider {
            cfg.ai.provider = p;
        }
        if let Some(m) = a.model {
            cfg.ai.model = m;
        }
    }
    assert(cfg@ =~= overlaid(before, payload));
    cfg.normalize();
}

/// Stores one provider's key, trimmed; an empty one clears it. Whether there is a place
/// for it: the absent provider has none.
pub fn set_provider_key(ai: &mut AiSettings, provider: Provider, key: &str) -> (r: bool)
    ensures
        r == (provider != Provider::Unset),
        final(ai)@ == old(ai)@.with_key(provider, text::trimmed(key@)),
{
    let key = text::trim(key);
    match provider {
        Provider::Unset => return false,
        Provider::Anthropic => {
            ai.anthropic_key = key;
        },
        Provider::Openai => {
            ai.openai_key = key;
        },
        Provider::Gemini => {
            ai.gemini_key = key;
        },
        Provider::Openrouter => {
            ai.openrouter_key = key;
        },
    }
    true
}

/// A key for a provider.
pub struct KeyBody {
    pub provider: Provider,
    pub key: String,
}

/// The answer to a key that was stored, or could not be.
pub fn set_key(ai: &mut AiSettings, body: &KeyBody) -> (r: Answer)
    ensures
        final(ai)@ == old(ai)@.with_key(body.provider, text::trimmed(body.key@)),
        if body.provider == Provider::Unset {
            r.status == 400 && r.body@ == answer::error_view("\"none\" is not a key-holding provider"@)
        } else {
            r.status == 200 && r.body@ == json::JsonView::Object(
                seq![
                    ("ok"@, json::JsonView::Bool(true)),
                    ("has_key"@, has_key_view(final(ai)@)),
                ],
            )
        },
{
    if !set_provider_key(ai, body.provider, body.key.as_str()) {
        return err(400, "\"none\" is not a key-holding provider");
    }
    let mut f: Vec<(String, Json)> = Vec::new();
    assert(json::fields_view(f@) =~= Seq::empty());
    json::put(&mut f, "ok", Json::Bool(true));
    json::put(&mut f, "has_key", has_key_json(ai));
    assert(json::fields_view(f@) =~= seq![
        ("ok"@, json::JsonView::Bool(true)),
        ("has_key"@, has_key_view(ai@)),
    ]);
    ok(Json::Object(f))
}

// ---------------------------------------------------------------- history

/// A question for the history.
pub struct HistoryQuery {
    pub q: Option<String>,
    pub limit: Option<usize>,
}

/// Whether a query asks for a search: a blank one lists everything.
pub fn wants_search(q: Option<&str>) -> (r: bool)
    ensures
        r == match q {
            Some(s) => !text::blank(s@),
            None => false,
        },
{
    match q {
        Some(s) => !text::is_blank(s),
        None => false,
    }
}

/// The first entries, as many as asked for.
pub fn take_limit(entries: Vec<Entry>, limit: Option<usize>) -> (r: Vec<Entry>)
    ensures
        r@ == crate::files::trash::at_most(
            entries@,
            match limit {
                Some(n) => n as int,
                None => DEFAULT_HISTORY_LIMIT as int,
            },
        ),
{
    let n: usize = match limit {
        Some(n) => n,
        None => DEFAULT_HISTORY_LIMIT,
    };
    let mut out = entries;
    if out.len() > n {
        out.truncate(n);
    }
    assert(out@ =~= crate::files::trash::at_most(entries@, n as int));
    out
}

/// A number of seconds since the epoch on the wire.
pub open spec fn signed_view(n: i64) -> json::JsonView {
    if n < 0 {
        json::JsonView::Number(Number::Signed(n))
    } else {
        json::JsonView::Number(Number::Unsigned(n as u64))
    }
}

/// An entry on the wire.
pub open spec fn entry_view(e: super::history::EntryView) -> json::JsonView {
    json::JsonView::Object(
        seq![
            ("id"@, json::JsonView::Text(e.id)),
            ("at"@, signed_view(e.at)),
            ("mode"@, json::JsonView::Text(e.mode)),
            ("seconds"@, json::JsonView::Number(Number::Single(e.seconds))),
            ("raw"@, json::JsonView::Text(e.raw)),
            ("text"@, json::JsonView::Text(e.text)),
        ],
    )
}

/// An entry on the wire.
pub fn entry_json(e: &Entry) -> (r: Json)
    ensures
        r@ == entry_view(e@),
{
    let at = if e.at < 0 {
        Json::Number(Number::Signed(e.at))
    } else {
        Json::Number(Number::Unsigned(e.at as u64))
    };
    let mut f: Vec<(String, Json)> = Vec::new();
    assert(json::fields_view(f@) =~= Seq::empty());
    json::put(&mut f, "id", json::text_json(e.id.as_str()));
    json::put(&mut f, "at", at);
    json::put(&mut f, "mode", json::text_json(e.mode.as_str()));
    json::put(&mut f, "seconds", Json::Number(Number::Single(e.seconds)));
    json::put(&mut f, "raw", json::text_json(e.raw.as_str()));
    json::put(&mut f, "text", json::text_json(e.text.as_str()));
    assert(json::fields_view(f@) =~= entry_view(e@)->Object_0);
    Json::Object(f)
}

/// The entries that a question is answered with.
pub open spec fn answered_with(all: Seq<Entry>, q: HistoryQuery) -> Seq<Entry> {
    let listed = super::history::newest_first(all);
    let found = match q.q {
        Some(s) => if text::blank(s@) || super::history::needle_of(s@).len() == 0 {
            listed
        } else {
            listed.filter(
                |e: Entry| super::history::mentions(e@, super::history::needle_of(s@)),
            )
        },
        None => listed,
    };
    crate::files::trash::at_most(
        found,
        match q.limit {
            Some(n) => n as int,
            None => DEFAULT_HISTORY_LIMIT as int,
        },
    )
}

/// The answer to a question for the history.
pub fn get_history(all: Vec<Entry>, query: &HistoryQuery) -> (r: Answer)
    ensures
        r.status == 200,
        r.body@ == json::JsonView::Object(
            seq![
                (
                    "entries"@,
                    json::JsonView::List(
                        answered_with(all@, *query).map_values(|e: Entry| entry_view(e@)),
                    ),
                ),
            ],
        ),
{
    let found = match &query.q {
        Some(s) => if wants_search(Some(s.as_str())) {
            super::history::search(all, s.as_str())
        } else {
            super::history::list(all)
        },
        None => super::history::list(all),
    };
    let shown = take_limit(found, query.limit);
    assert(shown@ == answered_with(all@, *query));
    let ghost views = shown@.map_values(|e: Entry| entry_view(e@));
    let mut items: Vec<Json> = Vec::new();
    let mut i: usize = 0;
    assert(json::list_view(items@) =~= views.take(0));
    while i < shown.len()
        invariant
            i <= shown@.len(),
            views == shown@.map_values(|e: Entry| entry_view(e@)),
            json::list_view(items@) == views.take(i as int),
        decreases shown@.len() - i,
    {
        let j = entry_json(&shown[i]);
        proof {
            json::lemma_list_push(items@, j);
        }
        items.push(j);
        i = i + 1;
        assert(views.take(i as int) =~= views.take(i - 1).push(views[i - 1]));
    }
    assert(views.take(i as int) =~= views);
    let mut f: Vec<(String, Json)> = Vec::new();
    assert(json::fields_view(f@) =~= Seq::empty());
    json::put(&mut f, "entries", Json::List(items));
    assert(json::fields_view(f@) =~= seq![("entries"@, json::JsonView::List(views))]);
    ok(Json::Object(f))
}

// ---------------------------------------------------------------- old dictations

/// The mode that an old dictation is put through, and whether the result is typed.
pub struct ReprocessBody {
    pub mode: String,
    pub deliver: bool,
}

/// The plan for an old dictation under another mode. What has the focus now is no context
/// for it.
pub fn reprocess_plan(voice: &VoiceSettings, mode: &str) -> (r: Option<Plan>)
    ensures
        match r {
            Some(p) => voice@.mode_index(mode@) matches Some(i) && 0 <= i < voice@.modes.len()
                && p@ == (super::PlanView {
                mode: voice@.modes[i],
                whisper_prompt: voice@.whisper_prompt(voice@.modes[i]),
                window_title: None,
            }),
            None => voice@.mode_index(mode@) is None,
        },
{
    match voice.mode(mode) {
        Some(m) => {
            let mode = m.clone();
            let whisper_prompt = voice.whisper_prompt(&mode);
            Some(Plan { mode, whisper_prompt, window_title: None })
        },
        None => None,
    }
}

/// An old transcript under another mode, given what came of rewriting it: the text, and
/// what did not work. Nothing is recorded.
pub fn reprocess_text(
    raw: &str,
    cfg: &VoiceSettings,
    plan: &Plan,
    rewritten: &Result<String, String>,
) -> (r: (String, Option<String>))
    ensures
        ({
            let p = super::processed(
                raw@,
                cfg@,
                plan.mode@,
                crate::files::pshell::result_view(*rewritten),
                super::KEPT_TEXT@,
            );
            r.0@ == p.text && text::opt_view(r.1) == p.warning
        }),
{
    let p = super::reprocess(raw, cfg, plan, rewritten);
    (p.text, p.warning)
}

/// A warning with another one behind it.
pub open spec fn with_warning(warning: Option<Seq<char>>, more: Option<Seq<char>>) -> Option<
    Seq<char>,
> {
    match (warning, more) {
        (Some(w), Some(m)) => Some(w + "; "@ + m),
        (None, Some(m)) => Some(m),
        (w, None) => w,
    }
}

/// What typing an old dictation did not do, in words.
pub open spec fn delivery_warning(failure: Option<Seq<char>>) -> Option<Seq<char>> {
    match failure {
        Some(e) => Some("could not type the text ("@ + e + ")"@),
        None => None,
    }
}

/// The answer to an old dictation under another mode: `outcome` is none where there is no
/// such dictation; `failure` is what went wrong with typing it, if it was typed.
pub fn reprocess_answer(
    outcome: Option<(String, Option<String>)>,
    failure: Option<&str>,
) -> (r: Answer)
    ensures
        match outcome {
            None => r.status == 404 && r.body@ == answer::error_view("no such history entry"@),
            Some(o) => r.status == 200 && r.body@ == json::JsonView::Object(
                seq![
                    ("text"@, json::JsonView::Text(o.0@)),
                    (
                        "warning"@,
                        json::opt_text_view(
                            with_warning(
                                text::opt_view(o.1),
                                delivery_warning(text::opt_str(failure)),
                            ),
                        ),
                    ),
                ],
            ),
        },
{
    match outcome {
        None => err(404, "no such history entry"),
        Some((t, warning)) => {
            let ghost w0 = text::opt_view(warning);
            let full: Option<String> = match failure {
                Some(e) => {
                    let mut m = match warning {
                        Some(w) => {
                            let mut w2 = w;
                            w2.append("; ");
                            w2
                        },
                        None => String::new(),
                    };
                    m.append("could not type the text (");
                    m.append(e);
                    m.append(")");
                    assert(Some(m@) =~= with_warning(w0, delivery_warning(Some(e@)))) by {
                        match w0 {
                            Some(w) => {
                                assert(m@ =~= w + "; "@ + ("could not type the text ("@ + e@
                                    + ")"@));
                            },
                            None => {
                                assert(m@ =~= "could not type the text ("@ + e@ + ")"@);
                            },
                        }
                    }
                    Some(m)
                },
                None => warning,
            };
            let mut f: Vec<(String, Json)> = Vec::new();
            assert(json::fields_view(f@) =~= Seq::empty());
            json::put(&mut f, "text", json::text_json(t.as_str()));
            let wj = match &full {
                Some(s) => json::text_json(s.as_str()),
                None => Json::Null,
            };
            json::put(&mut f, "warning", wj);
            assert(json::fields_view(f@) =~= seq![
                ("text"@, json::JsonView::Text(t@)),
                (
                    "warning"@,
                    json::opt_text_view(
                        with_warning(w0, delivery_warning(text::opt_str(failure))),
                    ),
                ),
            ]);
            ok(Json::Object(f))
        },
    }
}

// ---------------------------------------------------------------- laws

/// The settings that leave do not depend on what the keys are, only on which of them are
/// blank.
pub proof fn keys_do_not_leave(a: settings::VoiceView, b: settings::VoiceView)
    requires
        a.modes == b.modes,
        a.active_mode == b.active_mode,
        a.auto_mode == b.auto_mode,
        a.replacements == b.replacements,
        a.vocabulary == b.vocabulary,
        a.history_cap == b.history_cap,
        a.ai.provider == b.ai.provider,
        a.ai.anthropic_model == b.ai.anthropic_model,
        a.ai.model == b.ai.model,
        text::blank(a.ai.anthropic_key) == text::blank(b.ai.anthropic_key),
        text::blank(a.ai.openai_key) == text::blank(b.ai.openai_key),
        text::blank(a.ai.gemini_key) == text::blank(b.ai.gemini_key),
        text::blank(a.ai.openrouter_key) == text::blank(b.ai.openrouter_key),
    ensures
        settings_view(a) == settings_view(b),
{
}

/// No update of the settings touches a key.
pub proof fn updates_never_touch_keys(v: settings::VoiceView, p: SettingsPayload, k: Provider)
    ensures
        overlaid(v, p).normalized().ai.key_of(k) == v.ai.key_of(k),
{
}

/// An update that updates nothing leaves settings that are in order as they are.
pub proof fn empty_updates_change_nothing(v: settings::VoiceView, p: SettingsPayload)
    requires
        is_empty_payload(p),
        v.is_normal(),
    ensures
        overlaid(v, p).normalized() == v,
{
    assert(overlaid(v, p) =~= v);
    settings::normalizing_leaves_normal_settings_alone(v);
}

/// After any update the settings are in order.
pub proof fn updates_leave_the_settings_in_order(v: settings::VoiceView, p: SettingsPayload)
    ensures
        overlaid(v, p).normalized().is_normal(),
{
    settings::normalizing_establishes_the_invariant(overlaid(v, p), None);
}

/// Setting one key leaves the others and everything else as they were.
pub proof fn setting_a_key_leaves_the_others(
    ai: AiView,
    p: Provider,
    other: Provider,
    key: Seq<char>,
)
    ensures
        other != p ==> ai.with_key(p, key).key_of(other) == ai.key_of(other),
        p != Provider::Unset ==> ai.with_key(p, key).key_of(p) == key,
        ai.with_key(p, key).provider == ai.provider,
        ai.with_key(p, key).model == ai.model,
{
}

/// The answer with the settings.
pub fn get_settings(voice: &VoiceSettings) -> (r: Answer)
    ensures
        r.status == 200,
        r.body@ == settings_view(voice@),
{
    ok(settings_json(voice))
}

/// Takes an update of the settings and answers with the settings that come of it.
pub fn put_settings(voice: &mut VoiceSettings, payload: SettingsPayload) -> (r: Answer)
    ensures
        final(voice)@ == overlaid(old(voice)@, payload).normalized(),
        r.status == 200,
        r.body@ == settings_view(final(voice)@),
{
    apply_settings_payload(voice, payload);
    ok(settings_json(voice))
}

/// The answer once an entry was deleted, or was not.
pub fn delete_entry(deleted: bool) -> (r: Answer)
    ensures
        if deleted {
            r.status == 200 && r.body@ == answer::done_view()
        } else {
            r.status == 500 && r.body@ == answer::error_view("could not delete the entry"@)
        },
{
    if deleted {
        done()
    } else {
        err(500, "could not delete the entry")
    }
}

/// The answer once the history was cleared, or was not.
pub fn clear_history(cleared: bool) -> (r: Answer)
    ensures
        if cleared {
            r.status == 200 && r.body@ == answer::done_view()
        } else {
            r.status == 500 && r.body@ == answer::error_view("could not clear history"@)
        },
{
    if cleared {
        done()
    } else {
        err(500, "could not clear history")
    }
}

/// The page learns of each provider whether there is a key, under the name of that provider.
pub proof fn the_page_learns_which_keys_are_there(ai: AiView)
    ensures
        json::has_once(
            has_key_view(ai),
            "anthropic"@,
            json::JsonView::Bool(!text::blank(ai.anthropic_key)),
        ),
        json::has_once(
            has_key_view(ai),
            "openai"@,
            json::JsonView::Bool(!text::blank(ai.openai_key)),
        ),
        json::has_once(
            has_key_view(ai),
            "gemini"@,
            json::JsonView::Bool(!text::blank(ai.gemini_key)),
        ),
        json::has_once(
            has_key_view(ai),
            "openrouter"@,
            json::JsonView::Bool(!text::blank(ai.openrouter_key)),
        ),
{
    reveal_strlit("anthropic");
    reveal_strlit("openai");
    reveal_strlit("gemini");
    reveal_strlit("openrouter");
    assert("anthropic"@.len() == 9);
    assert("openai"@.len() == 6);
    assert("gemini"@.len() == 6);
    assert("openrouter"@.len() == 10);
    assert("openai"@[0] != "gemini"@[0]);
    let fields = has_key_view(ai)->Object_0;
    assert(fields.len() == 4);
    assert(fields[0] == ("anthropic"@, json::JsonView::Bool(!text::blank(ai.anthropic_key))));
    assert(fields[1] == ("openai"@, json::JsonView::Bool(!text::blank(ai.openai_key))));
    assert(fields[2] == ("gemini"@, json::JsonView::Bool(!text::blank(ai.gemini_key))));
    assert(fields[3] == ("openrouter"@, json::JsonView::Bool(!text::blank(ai.openrouter_key))));
}

/// The page learns the default model of each provider, under the name of that provider.
pub proof fn the_page_learns_the_default_models(model: Seq<char>)
    ensures
        json::has_once(
            default_models_view(model),
            "anthropic"@,
            json::JsonView::Text(model),
        ),
        json::has_once(
            default_models_view(model),
            "openai"@,
            json::JsonView::Text("gpt-5"@),
        ),
        json::has_once(
            default_models_view(model),
            "gemini"@,
            json::JsonView::Text("gemini-2.5-flash"@),
        ),
        json::has_once(
            default_models_view(model),
            "openrouter"@,
            json::JsonView::Text("deepseek/deepseek-chat"@),
        ),
{
    reveal_strlit("anthropic");
    reveal_strlit("openai");
    reveal_strlit("gemini");
    reveal_strlit("openrouter");
    assert("anthropic"@.len() == 9);
    assert("openai"@.len() == 6);
    assert("gemini"@.len() == 6);
    assert("openrouter"@.len() == 10);
    assert("openai"@[0] != "gemini"@[0]);
    let fields = default_models_view(model)->Object_0;
    assert(fields.len() == 4);
    assert(fields[0] == ("anthropic"@, json::JsonView::Text(model)));
    assert(fields[1] == ("openai"@, json::JsonView::Text("gpt-5"@)));
    assert(fields[2] == ("gemini"@, json::JsonView::Text("gemini-2.5-flash"@)));
    assert(fields[3] == ("openrouter"@, json::JsonView::Text("deepseek/deepseek-chat"@)));
}

/// The page learns each part of a mode under its name.
pub proof fn the_page_learns_the_modes(m: ModeView)
    ensures
        json::has_once(
            mode_view(m),
            "id"@,
            json::JsonView::Text(m.id),
        ),
        json::has_once(
            mode_view(m),
            "name"@,
            json::JsonView::Text(m.name),
        ),
        json::has_once(
            mode_view(m),
            "prompt"@,
            json::JsonView::Text(m.prompt),
        ),
        json::has_once(
            mode_view(m),
            "apps"@,
            json::JsonView::List(m.apps.map_values(|s: Seq<char>| json::JsonView::Text(s))),
        ),
        json::has_once(
            mode_view(m),
            "use_replacements"@,
            json::JsonView::Bool(m.use_replacements),
        ),
        json::has_once(
            mode_view(m),
            "use_vocabulary"@,
            json::JsonView::Bool(m.use_vocabulary),
        ),
        json::has_once(
            mode_view(m),
            "use_context"@,
            json::JsonView::Bool(m.use_context),
        ),
{
    reveal_strlit("id");
    reveal_strlit("name");
    reveal_strlit("prompt");
    reveal_strlit("apps");
    reveal_strlit("use_replacements");
    reveal_strlit("use_vocabulary");
    reveal_strlit("use_context");
    assert("id"@.len() == 2);
    assert("name"@.len() == 4);
    assert("prompt"@.len() == 6);
    assert("apps"@.len() == 4);
    assert("use_replacements"@.len() == 16);
    assert("use_vocabulary"@.len() == 14);
    assert("use_context"@.len() == 11);
    assert("name"@[0] != "apps"@[0]);
    let fields = mode_view(m)->Object_0;
    assert(fields.len() == 7);
    assert(fields[0] == ("id"@, json::JsonView::Text(m.id)));
    assert(fields[1] == ("name"@, json::JsonView::Text(m.name)));
    assert(fields[2] == ("prompt"@, json::JsonView::Text(m.prompt)));
    assert(fields[3] == ("apps"@, json::JsonView::List(m.apps.map_values(|s: Seq<char>| json::JsonView::Text(s)))));
    assert(fields[4] == ("use_replacements"@, json::JsonView::Bool(m.use_replacements)));
    assert(fields[5] == ("use_vocabulary"@, json::JsonView::Bool(m.use_vocabulary)));
    assert(fields[6] == ("use_context"@, json::JsonView::Bool(m.use_context)));
}

/// The page learns both sides of a rule under their names.
pub proof fn the_page_learns_the_rules(r: settings::ReplacementView)
    ensures
        json::has_once(
            rule_view(r),
            "from"@,
            json::JsonView::Text(r.from),
        ),
        json::has_once(
            rule_view(r),
            "to"@,
            json::JsonView::Text(r.to),
        ),
{
    reveal_strlit("from");
    reveal_strlit("to");
    assert("from"@.len() == 4);
    assert("to"@.len() == 2);
    let fields = rule_view(r)->Object_0;
    assert(fields.len() == 2);
    assert(fields[0] == ("from"@, json::JsonView::Text(r.from)));
    assert(fields[1] == ("to"@, json::JsonView::Text(r.to)));
}

/// The page learns the chosen provider and model.
pub proof fn the_page_learns_the_provider(ai: AiView)
    ensures
        json::has_once(
            ai_view(ai),
            "provider"@,
            json::JsonView::Text(super::ai::name_of(ai.provider)),
        ),
        json::has_once(
            ai_view(ai),
            "model"@,
            json::JsonView::Text(ai.model),
        ),
        json::has_once(
            ai_view(ai),
            "has_key"@,
            has_key_view(ai),
        ),
        json::has_once(
            ai_view(ai),
            "default_models"@,
            default_models_view(ai.anthropic_model),
        ),
        ai.provider == Provider::Unset ==> super::ai::name_of(ai.provider) == "none"@,
        ai.provider == Provider::Anthropic ==> super::ai::name_of(ai.provider) == "anthropic"@,
        ai.provider == Provider::Openai ==> super::ai::name_of(ai.provider) == "openai"@,
        ai.provider == Provider::Gemini ==> super::ai::name_of(ai.provider) == "gemini"@,
        ai.provider == Provider::Openrouter ==> super::ai::name_of(ai.provider) == "openrouter"@,
{
    reveal_strlit("provider");
    reveal_strlit("model");
    reveal_strlit("has_key");
    reveal_strlit("default_models");
    assert("provider"@.len() == 8);
    assert("model"@.len() == 5);
    assert("has_key"@.len() == 7);
    assert("default_models"@.len() == 14);
    let fields = ai_view(ai)->Object_0;
    assert(fields.len() == 4);
    assert(fields[0] == ("provider"@, json::JsonView::Text(super::ai::name_of(ai.provider))));
    assert(fields[1] == ("model"@, json::JsonView::Text(ai.model)));
    assert(fields[2] == ("has_key"@, has_key_view(ai)));
    assert(fields[3] == ("default_models"@, default_models_view(ai.anthropic_model)));
}

/// The page learns each of the settings under its name.
pub proof fn the_page_learns_the_settings(v: settings::VoiceView)
    ensures
        json::has_once(
            settings_view(v),
            "modes"@,
            json::JsonView::List(v.modes.map_values(|m: ModeView| mode_view(m))),
        ),
        json::has_once(
            settings_view(v),
            "active_mode"@,
            json::JsonView::Text(v.active_mode),
        ),
        json::has_once(
            settings_view(v),
            "auto_mode"@,
            json::JsonView::Bool(v.auto_mode),
        ),
        json::has_once(
            settings_view(v),
            "replacements"@,
            json::JsonView::List(v.replacements.map_values(|x: settings::ReplacementView| rule_view(x))),
        ),
        json::has_once(
            settings_view(v),
            "vocabulary"@,
            json::JsonView::List(v.vocabulary.map_values(|s: Seq<char>| json::JsonView::Text(s))),
        ),
        json::has_once(
            settings_view(v),
            "history_cap"@,
            json::JsonView::Number(Number::Unsigned(v.history_cap as u64)),
        ),
        json::has_once(
            settings_view(v),
            "ai"@,
            ai_view(v.ai),
        ),
{
    reveal_strlit("modes");
    reveal_strlit("active_mode");
    reveal_strlit("auto_mode");
    reveal_strlit("replacements");
    reveal_strlit("vocabulary");
    reveal_strlit("history_cap");
    reveal_strlit("ai");
    assert("modes"@.len() == 5);
    assert("active_mode"@.len() == 11);
    assert("auto_mode"@.len() == 9);
    assert("replacements"@.len() == 12);
    assert("vocabulary"@.len() == 10);
    assert("history_cap"@.len() == 11);
    assert("ai"@.len() == 2);
    assert("active_mode"@[0] != "history_cap"@[0]);
    let fields = settings_view(v)->Object_0;
    assert(fields.len() == 7);
    assert(fields[0] == ("modes"@, json::JsonView::List(v.modes.map_values(|m: ModeView| mode_view(m)))));
    assert(fields[1] == ("active_mode"@, json::JsonView::Text(v.active_mode)));
    assert(fields[2] == ("auto_mode"@, json::JsonView::Bool(v.auto_mode)));
    assert(fields[3] == ("replacements"@, json::JsonView::List(v.replacements.map_values(|x: settings::ReplacementView| rule_view(x)))));
    assert(fields[4] == ("vocabulary"@, json::JsonView::List(v.vocabulary.map_values(|s: Seq<char>| json::JsonView::Text(s)))));
    assert(fields[5] == ("history_cap"@, json::JsonView::Number(Number::Unsigned(v.history_cap as u64))));
    assert(fields[6] == ("ai"@, ai_view(v.ai)));
}

/// The page learns each part of an entry under its name.
pub proof fn the_page_learns_the_entries(e: super::history::EntryView)
    ensures
        json::has_once(
            entry_view(e),
            "id"@,
            json::JsonView::Text(e.id),
        ),
        json::has_once(
            entry_view(e),
            "at"@,
            signed_view(e.at),
        ),
        json::has_once(
            entry_view(e),
            "mode"@,
            json::JsonView::Text(e.mode),
        ),
        json::has_once(
            entry_view(e),
            "seconds"@,
            json::JsonView::Number(Number::Single(e.seconds)),
        ),
        json::has_once(
            entry_view(e),
            "raw"@,
            json::JsonView::Text(e.raw),
        ),
        json::has_once(
            entry_view(e),
            "text"@,
            json::JsonView::Text(e.text),
        ),
        e.at >= 0 ==> signed_view(e.at) == json::JsonView::Number(Number::Unsigned(e.at as u64)),
        e.at < 0 ==> signed_view(e.at) == json::JsonView::Number(Number::Signed(e.at)),
{
    reveal_strlit("id");
    reveal_strlit("at");
    reveal_strlit("mode");
    reveal_strlit("seconds");
    reveal_strlit("raw");
    reveal_strlit("text");
    assert("id"@.len() == 2);
    assert("at"@.len() == 2);
    assert("mode"@.len() == 4);
    assert("seconds"@.len() == 7);
    assert("raw"@.len() == 3);
    assert("text"@.len() == 4);
    assert("id"@[0] != "at"@[0]);
    assert("mode"@[0] != "text"@[0]);
    let fields = entry_view(e)->Object_0;
    assert(fields.len() == 6);
    assert(fields[0] == ("id"@, json::JsonView::Text(e.id)));
    assert(fields[1] == ("at"@, signed_view(e.at)));
    assert(fields[2] == ("mode"@, json::JsonView::Text(e.mode)));
    assert(fields[3] == ("seconds"@, json::JsonView::Number(Number::Single(e.seconds))));
    assert(fields[4] == ("raw"@, json::JsonView::Text(e.raw)));
    assert(fields[5] == ("text"@, json::JsonView::Text(e.text)));
}

/// A part of the settings that an update gives takes the place of the old one; every other part
/// stays. This is said of each part by itself: whatever else the update gives.
pub proof fn updates_replace_what_they_give(v: settings::VoiceView, p: SettingsPayload)
    ensures
        p.modes matches Some(m) ==> overlaid(v, p).modes.len() == m@.len() && forall|i: int|
            0 <= i < m@.len() ==> (#[trigger] overlaid(v, p).modes[i]) == m@[i]@,
        p.modes is None ==> overlaid(v, p).modes == v.modes,
        p.active_mode matches Some(a) ==> overlaid(v, p).active_mode == a@,
        p.active_mode is None ==> overlaid(v, p).active_mode == v.active_mode,
        p.auto_mode matches Some(a) ==> overlaid(v, p).auto_mode == a,
        p.auto_mode is None ==> overlaid(v, p).auto_mode == v.auto_mode,
        p.replacements matches Some(r) ==> overlaid(v, p).replacements.len() == r@.len()
            && forall|i: int|
            0 <= i < r@.len() ==> (#[trigger] overlaid(v, p).replacements[i]) == r@[i]@,
        p.replacements is None ==> overlaid(v, p).replacements == v.replacements,
        p.vocabulary matches Some(t) ==> overlaid(v, p).vocabulary.len() == t@.len()
            && forall|i: int|
            0 <= i < t@.len() ==> (#[trigger] overlaid(v, p).vocabulary[i]) == t@[i]@,
        p.vocabulary is None ==> overlaid(v, p).vocabulary == v.vocabulary,
        p.history_cap matches Some(c) ==> overlaid(v, p).history_cap == c,
        p.history_cap is None ==> overlaid(v, p).history_cap == v.history_cap,
        p.ai is None ==> overlaid(v, p).ai == v.ai,
        p.ai matches Some(a) ==> (a.provider matches Some(x) ==> overlaid(v, p).ai.provider == x),
        p.ai matches Some(a) ==> (a.provider is None ==> overlaid(v, p).ai.provider
            == v.ai.provider),
        p.ai matches Some(a) ==> (a.model matches Some(m) ==> overlaid(v, p).ai.model == m@),
        p.ai matches Some(a) ==> (a.model is None ==> overlaid(v, p).ai.model == v.ai.model),
{
}

/// A key that is set is stored for that provider and no other.
pub proof fn keys_are_set_for_their_provider(ai: AiView, p: Provider, key: Seq<char>)
    ensures
        p == Provider::Anthropic ==> ai.with_key(p, key) == (AiView { anthropic_key: key, ..ai }),
        p == Provider::Openai ==> ai.with_key(p, key) == (AiView { openai_key: key, ..ai }),
        p == Provider::Gemini ==> ai.with_key(p, key) == (AiView { gemini_key: key, ..ai }),
        p == Provider::Openrouter ==> ai.with_key(p, key) == (AiView { openrouter_key: key, ..ai }),
        p == Provider::Unset ==> ai.with_key(p, key) == ai,
{
}

/// Without a search the history is answered newest first, and cut off at the limit, which is 100
/// where none is given: what is answered is the beginning of the whole list.
pub proof fn the_newest_entries_are_answered(all: Seq<Entry>, q: HistoryQuery)
    requires
        q.q is None,
    ensures
        answered_with(all, q).len() <= match q.limit {
            Some(n) => n as int,
            None => 100int,
        },
        answered_with(all, q) == super::history::newest_first(all).take(
            answered_with(all, q).len() as int,
        ),
        answered_with(all, q).len() < super::history::newest_first(all).len() ==> answered_with(
            all,
            q,
        ).len() == match q.limit {
            Some(n) => n as int,
            None => 100int,
        },
{
    assert(answered_with(all, q) =~= super::history::newest_first(all).take(
        answered_with(all, q).len() as int,
    ));
}

/// Warnings are put one behind the other; none is lost, and none is made up.
pub proof fn warnings_are_put_together(w: Seq<char>, m: Seq<char>)
    ensures
        with_warning(Some(w), Some(m)) == Some(w + "; "@ + m),
        with_warning(Some(w), None) == Some(w),
        with_warning(None, Some(m)) == Some(m),
        with_warning(None, None) is None,
        delivery_warning(None) is None,
        delivery_warning(Some(m)) == Some("could not type the text ("@ + m + ")"@),
{
}

} // verus!
