//! What happens to a transcript after recognition: modes, replacements, vocabulary,
//! rewriting and history.
use crate::text;
use vstd::prelude::*;

pub mod ai;
pub mod api;
pub mod appctx;
pub mod history;
pub mod replacements;
pub mod settings;

verus! {

use appctx::AppContext;
use history::Entry;
use settings::{Mode, VoiceSettings};

/// What is decided before a recording is recognised.
pub struct Plan {
    pub mode: Mode,
    pub whisper_prompt: Option<String>,
    pub window_title: Option<String>,
}

/// A plan, mathematically.
pub struct PlanView {
    pub mode: settings::ModeView,
    pub whisper_prompt: Option<Seq<char>>,
    pub window_title: Option<Seq<char>>,
}

impl View for Plan {
    type V = PlanView;

    open spec fn view(&self) -> PlanView {
        PlanView {
            mode: self.mode@,
            whisper_prompt: text::opt_view(self.whisper_prompt),
            window_title: text::opt_view(self.window_title),
        }
    }
}

/// The plan for a dictation that begins with that window in focus.
pub open spec fn plan_of(
    v: settings::VoiceView,
    exe: Option<Seq<char>>,
    title: Option<Seq<char>>,
) -> PlanView {
    let mode = v.modes[v.effective_index(exe)];
    PlanView {
        mode,
        whisper_prompt: v.whisper_prompt(mode),
        window_title: if mode.use_context {
            title
        } else {
            None
        },
    }
}

/// Chooses the mode for a dictation that is about to begin. The window's title is carried
/// along only where the mode wants it.
pub fn plan(cfg: &VoiceSettings, fg: Option<&AppContext>) -> (r: Plan)
    requires
        cfg.modes@.len() > 0,
    ensures
        r@ == plan_of(cfg@, appctx::exe_in(fg), appctx::title_in(fg)),
{
    let exe = appctx::foreground_exe(fg);
    let chosen = cfg.effective_mode(exe);
    let ghost i = cfg@.effective_index(text::opt_str(exe));
    assert(cfg@.modes[i] == cfg.modes@[i]@);
    let mode = chosen.clone();
    let whisper_prompt = cfg.whisper_prompt(&mode);
    let window_title = if mode.use_context {
        match appctx::foreground_title(fg) {
            Some(t) => Some(text::owned(t)),
            None => None,
        }
    } else {
        None
    };
    Plan { mode, whisper_prompt, window_title }
}

/// A transcript that went through a mode.
pub struct Processed {
    /// What was recognised, trimmed.
    pub raw: String,
    /// What is typed and put on the clipboard.
    pub text: String,
    /// What did not work, where the text is delivered all the same.
    pub warning: Option<String>,
}

/// A processed transcript, mathematically.
pub struct ProcessedView {
    pub raw: Seq<char>,
    pub text: Seq<char>,
    pub warning: Option<Seq<char>>,
}

impl View for Processed {
    type V = ProcessedView;

    open spec fn view(&self) -> ProcessedView {
        ProcessedView {
            raw: self.raw@,
            text: self.text@,
            warning: text::opt_view(self.warning),
        }
    }
}

/// The transcript with the replacements, where the mode wants them.
pub open spec fn drafted(
    raw: Seq<char>,
    v: settings::VoiceView,
    mode: settings::ModeView,
) -> Seq<char> {
    if mode.use_replacements {
        replacements::replaced(text::trimmed(raw), v.replacements)
    } else {
        text::trimmed(raw)
    }
}

/// There is something to rewrite, the mode asks for it, and a provider is set up.
pub open spec fn rewriting_is_due(
    raw: Seq<char>,
    v: settings::VoiceView,
    mode: settings::ModeView,
) -> bool {
    !text::blank(raw) && !text::blank(mode.prompt) && v.ai.is_ready()
}

/// The transcript as it goes to rewriting, if that is due.
pub fn draft(raw: &str, cfg: &VoiceSettings, plan: &Plan) -> (r: Option<String>)
    ensures
        text::opt_view(r) == if rewriting_is_due(raw@, cfg@, plan.mode@) {
            Some(drafted(raw@, cfg@, plan.mode@))
        } else {
            None
        },
{
    if text::is_blank(raw) || text::is_blank(plan.mode.prompt.as_str()) || !cfg.ai.is_ready() {
        return None;
    }
    let trimmed = text::trim(raw);
    if plan.mode.use_replacements {
        Some(
            replacements::apply_replacements(trimmed.as_str(), cfg.replacements.as_slice()),
        )
    } else {
        Some(trimmed)
    }
}

/// What comes of a transcript, given what came of rewriting it. `fallback` says what is
/// delivered where rewriting did not work.
pub open spec fn processed(
    raw: Seq<char>,
    v: settings::VoiceView,
    mode: settings::ModeView,
    rewritten: Result<Seq<char>, Seq<char>>,
    fallback: Seq<char>,
) -> ProcessedView {
    let draft = drafted(raw, v, mode);
    if text::blank(raw) {
        ProcessedView { raw: Seq::empty(), text: Seq::empty(), warning: None }
    } else if text::blank(mode.prompt) {
        ProcessedView { raw: text::trimmed(raw), text: draft, warning: None }
    } else if !v.ai.is_ready() {
        ProcessedView {
            raw: text::trimmed(raw),
            text: draft,
            warning: Some(
                "mode \""@ + mode.name + "\" needs an AI provider; set one in Settings"@,
            ),
        }
    } else {
        match rewritten {
            Ok(t) => if text::blank(t) {
                ProcessedView {
                    raw: text::trimmed(raw),
                    text: draft,
                    warning: Some("AI returned nothing; "@ + fallback),
                }
            } else {
                ProcessedView { raw: text::trimmed(raw), text: t, warning: None }
            },
            Err(e) => ProcessedView {
                raw: text::trimmed(raw),
                text: draft,
                warning: Some("AI step failed ("@ + e + "); "@ + fallback),
            },
        }
    }
}

/// What comes of a transcript, given what came of rewriting it.
fn process(
    raw: &str,
    cfg: &VoiceSettings,
    plan: &Plan,
    rewritten: &Result<String, String>,
    fallback: &str,
) -> (r: Processed)
    ensures
        r@ == processed(
            raw@,
            cfg@,
            plan.mode@,
            crate::files::pshell::result_view(*rewritten),
            fallback@,
        ),
{
    let trimmed = text::trim(raw);
    if trimmed.as_str().is_empty() {
        let r = Processed { raw: trimmed, text: String::new(), warning: None };
        assert(r@.raw =~= Seq::empty());
        return r;
    }
    let mut delivered = if plan.mode.use_replacements {
        replacements::apply_replacements(trimmed.as_str(), cfg.replacements.as_slice())
    } else {
        text::owned(trimmed.as_str())
    };
    let mut warning: Option<String> = None;
    if !text::is_blank(plan.mode.prompt.as_str()) {
        if cfg.ai.is_ready() {
            match rewritten {
                Ok(t) => {
                    if text::is_blank(t.as_str()) {
                        let mut w = text::owned("AI returned nothing; ");
                        w.append(fallback);
                        warning = Some(w);
                    } else {
                        delivered = text::owned(t.as_str());
                    }
                },
                Err(e) => {
                    let mut w = text::owned("AI step failed (");
                    w.append(e.as_str());
                    w.append("); ");
                    w.append(fallback);
                    warning = Some(w);
                },
            }
        } else {
            let mut w = text::owned("mode \"");
            w.append(plan.mode.name.as_str());
            w.append("\" needs an AI provider; set one in Settings");
            warning = Some(w);
        }
    }
    Processed { raw: trimmed, text: delivered, warning }
}

/// What is said of the text where rewriting a dictation did not work.
pub const DELIVERED_RAW: &'static str = "delivered the raw transcript";

/// What comes of a dictation, given what came of rewriting it. Whatever went wrong, the
/// words are delivered. It is recorded in the history unless it is blank.
pub fn apply(
    raw: &str,
    cfg: &VoiceSettings,
    plan: &Plan,
    rewritten: &Result<String, String>,
) -> (r: Processed)
    ensures
        r@ == processed(
            raw@,
            cfg@,
            plan.mode@,
            crate::files::pshell::result_view(*rewritten),
            DELIVERED_RAW@,
        ),
{
    process(raw, cfg, plan, rewritten, DELIVERED_RAW)
}

/// The history with a dictation recorded; as it was where nothing was said.
pub fn record(
    all: Vec<Entry>,
    done: &Processed,
    cfg: &VoiceSettings,
    plan: &Plan,
    seconds: u32,
    now: i64,
    fresh_id: String,
) -> (r: Vec<Entry>)
    ensures
        if done.raw@.len() == 0 {
            r@ == all@
        } else {
            exists|e: Entry|
                {
                    &&& r@ == #[trigger] history::appended(all@, e, cfg.history_cap as int)
                    &&& e@ == (history::EntryView {
                        id: fresh_id@,
                        at: now,
                        mode: plan.mode.id@,
                        seconds,
                        raw: done.raw@,
                        text: done.text@,
                    })
                }
        },
{
    let chars = text::chars_of(done.raw.as_str());
    if chars.len() == 0 {
        return all;
    }
    let entry = Entry::new(
        plan.mode.id.as_str(),
        seconds,
        done.raw.as_str(),
        done.text.as_str(),
        now,
        text::owned(fresh_id.as_str()),
    );
    history::append(all, entry, cfg.history_cap, now, fresh_id)
}

/// What is said of the text where rewriting an old dictation did not work.
pub const KEPT_TEXT: &'static str = "kept the unrewritten text";

/// What comes of an old transcript under another mode, given what came of rewriting it.
pub fn reprocess(
    raw: &str,
    cfg: &VoiceSettings,
    plan: &Plan,
    rewritten: &Result<String, String>,
) -> (r: Processed)
    ensures
        r@ == processed(
            raw@,
            cfg@,
            plan.mode@,
            crate::files::pshell::result_view(*rewritten),
            KEPT_TEXT@,
        ),
{
    process(raw, cfg, plan, rewritten, KEPT_TEXT)
}

// ---------------------------------------------------------------- laws

/// Without a context switch in the mode the title of the window goes nowhere.
pub proof fn titles_are_carried_only_where_wanted(
    v: settings::VoiceView,
    exe: Option<Seq<char>>,
    title: Option<Seq<char>>,
)
    requires
        !v.modes[v.effective_index(exe)].use_context,
    ensures
        plan_of(v, exe, title).window_title is None,
        plan_of(v, exe, title) == plan_of(v, exe, None),
{
}

/// The words are never lost: what is delivered is the draft or the rewritten text, and
/// where it is the draft although the mode asked for rewriting, there is a warning.
pub proof fn words_are_never_lost(
    raw: Seq<char>,
    v: settings::VoiceView,
    mode: settings::ModeView,
    rewritten: Result<Seq<char>, Seq<char>>,
    fallback: Seq<char>,
)
    requires
        !text::blank(raw),
    ensures
        ({
            let p = processed(raw, v, mode, rewritten, fallback);
            &&& p.raw == text::trimmed(raw)
            &&& p.text == drafted(raw, v, mode) || rewritten == Ok::<Seq<char>, Seq<char>>(p.text)
            &&& p.warning is Some ==> p.text == drafted(raw, v, mode)
            &&& p.warning is None && !text::blank(mode.prompt) ==> rewritten == Ok::<
                Seq<char>,
                Seq<char>,
            >(p.text) && !text::blank(p.text)
        }),
{
}

/// A mode without a prompt gives the same whatever rewriting would have given, and never
/// a warning.
pub proof fn raw_modes_do_not_rewrite(
    raw: Seq<char>,
    v: settings::VoiceView,
    mode: settings::ModeView,
    a: Result<Seq<char>, Seq<char>>,
    b: Result<Seq<char>, Seq<char>>,
    fallback: Seq<char>,
)
    requires
        text::blank(mode.prompt),
    ensures
        processed(raw, v, mode, a, fallback) == processed(raw, v, mode, b, fallback),
        processed(raw, v, mode, a, fallback).warning is None,
{
}

/// A blank recording is neither delivered nor warned of.
pub proof fn blank_recordings_are_silent(
    raw: Seq<char>,
    v: settings::VoiceView,
    mode: settings::ModeView,
    rewritten: Result<Seq<char>, Seq<char>>,
    fallback: Seq<char>,
)
    requires
        text::blank(raw),
    ensures
        processed(raw, v, mode, rewritten, fallback).text.len() == 0,
        processed(raw, v, mode, rewritten, fallback).raw.len() == 0,
        processed(raw, v, mode, rewritten, fallback).warning is None,
{
}

/// What is typed. Where the mode has a prompt and a provider is ready, it is what rewriting gave,
/// exactly and without a warning, unless that is blank or failed; then it is the draft, and the
/// warning says so. Without a provider it is the draft, and the warning names the mode.
pub proof fn what_was_rewritten_is_delivered(
    raw: Seq<char>,
    v: settings::VoiceView,
    mode: settings::ModeView,
    t: Seq<char>,
    e: Seq<char>,
    fallback: Seq<char>,
)
    requires
        !text::blank(raw),
        !text::blank(mode.prompt),
    ensures
        v.ai.is_ready() && !text::blank(t) ==> processed(raw, v, mode, Ok(t), fallback).text == t
            && processed(raw, v, mode, Ok(t), fallback).warning is None,
        v.ai.is_ready() && text::blank(t) ==> processed(raw, v, mode, Ok(t), fallback).warning
            == Some("AI returned nothing; "@ + fallback),
        v.ai.is_ready() ==> processed(raw, v, mode, Err(e), fallback).warning == Some(
            "AI step failed ("@ + e + "); "@ + fallback,
        ),
        !v.ai.is_ready() ==> processed(raw, v, mode, Ok(t), fallback).warning == Some(
            "mode \""@ + mode.name + "\" needs an AI provider; set one in Settings"@,
        ),
        !v.ai.is_ready() ==> processed(raw, v, mode, Ok(t), fallback).text == processed(
            raw,
            v,
            mode,
            Err(e),
            fallback,
        ).text,
{
}

/// The draft is what was recognised, trimmed. Where the mode uses the replacements they are made in
/// it, and nothing else happens to it; where it does not, or there are none, it stays as it is.
pub proof fn drafts_keep_the_words(
    raw: Seq<char>,
    v: settings::VoiceView,
    mode: settings::ModeView,
)
    ensures
        !mode.use_replacements ==> drafted(raw, v, mode) == text::trimmed(raw),
        v.replacements.len() == 0 ==> drafted(raw, v, mode) == text::trimmed(raw),
        mode.use_replacements ==> drafted(raw, v, mode) == replacements::replaced(
            text::trimmed(raw),
            v.replacements,
        ),
{
    replacements::no_rules_change_nothing(text::trimmed(raw));
    if v.replacements.len() == 0 {
        assert(v.replacements =~= Seq::empty());
    }
}

/// A mode without a prompt types the draft.
pub proof fn modes_without_a_prompt_type_the_draft(
    raw: Seq<char>,
    v: settings::VoiceView,
    mode: settings::ModeView,
    rewritten: Result<Seq<char>, Seq<char>>,
    fallback: Seq<char>,
)
    requires
        !text::blank(raw),
        text::blank(mode.prompt),
    ensures
        processed(raw, v, mode, rewritten, fallback).text == drafted(raw, v, mode),
        processed(raw, v, mode, rewritten, fallback).raw == text::trimmed(raw),
{
}

/// A recording runs in the mode that is chosen, with the title where that mode wants it and the
/// terms where it uses them.
pub proof fn recordings_run_in_the_chosen_mode(
    v: settings::VoiceView,
    exe: Option<Seq<char>>,
    title: Option<Seq<char>>,
    k: int,
)
    requires
        0 <= k < v.modes.len(),
        v.modes[k].id == v.active_mode,
        forall|i: int| 0 <= i < k ==> (#[trigger] v.modes[i]).id != v.active_mode,
    ensures
        plan_of(v, exe, title).mode == v.modes[k],
        v.modes[k].use_context ==> plan_of(v, exe, title).window_title == title,
        !v.modes[k].use_vocabulary ==> plan_of(v, exe, title).whisper_prompt is None,
        v.modes[k].use_vocabulary && settings::terms(v.vocabulary).len() > 0 ==> plan_of(
            v,
            exe,
            title,
        ).whisper_prompt == Some(text::join(settings::terms(v.vocabulary), ", "@)),
{
    settings::the_mode_of_that_id_is_chosen(v, exe, k);
}

/// Rewriting is asked for exactly where its outcome can count: where two outcomes would be typed
/// differently, it is due.
pub proof fn rewriting_is_asked_for_where_it_counts(
    raw: Seq<char>,
    v: settings::VoiceView,
    mode: settings::ModeView,
    a: Result<Seq<char>, Seq<char>>,
    b: Result<Seq<char>, Seq<char>>,
    fallback: Seq<char>,
)
    ensures
        !rewriting_is_due(raw, v, mode) ==> processed(raw, v, mode, a, fallback) == processed(
            raw,
            v,
            mode,
            b,
            fallback,
        ),
        !text::blank(raw) && !text::blank(mode.prompt) && v.ai.is_ready() ==> rewriting_is_due(
            raw,
            v,
            mode,
        ),
{
}

} // verus!
