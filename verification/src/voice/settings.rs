//! Voice settings: modes, replacements, vocabulary, the language model service and
//! the length of the history.
use crate::json;
use crate::json::Json;
use crate::order;
use crate::stored;
use crate::stored::Stored;
use crate::text;
use vstd::prelude::*;

verus! {

/// A deterministic find/replace on the transcript, blind to ASCII case.
#[derive(Debug, PartialEq, Eq)]
pub struct Replacement {
    pub from: String,
    pub to: String,
}

/// A replacement, mathematically.
#[verifier::ext_equal]
pub struct ReplacementView {
    pub from: Seq<char>,
    pub to: Seq<char>,
}

impl View for Replacement {
    type V = ReplacementView;

    open spec fn view(&self) -> ReplacementView {
        ReplacementView { from: self.from@, to: self.to@ }
    }
}

impl Clone for Replacement {
    fn clone(&self) -> (r: Self)
        ensures
            r@ == self@,
    {
        Replacement { from: text::owned(self.from.as_str()), to: text::owned(self.to.as_str()) }
    }
}

/// The views of a list of replacements.
pub open spec fn rules_view(rules: Seq<Replacement>) -> Seq<ReplacementView> {
    rules.map_values(|r: Replacement| r@)
}

/// Which language model service rewriting calls.
#[derive(Clone, Copy, Debug, PartialEq, Eq, Structural)]
pub enum Provider {
    /// No service: modes pass the transcript through.
    Unset,
    Anthropic,
    Openai,
    Gemini,
    /// One key, many models.
    Openrouter,
}

impl Default for Provider {
    fn default() -> (r: Self)
        ensures
            r == Provider::Unset,
    {
        Provider::Unset
    }
}

/// The model id that a provider uses when none was chosen. That of Anthropic is named by
/// whoever sets the bridge up.
pub open spec fn default_model_of(p: Provider, anthropic_model: Seq<char>) -> Seq<char> {
    match p {
        Provider::Unset => ""@,
        Provider::Anthropic => anthropic_model,
        Provider::Openai => "gpt-5"@,
        Provider::Gemini => "gemini-2.5-flash"@,
        Provider::Openrouter => "deepseek/deepseek-chat"@,
    }
}

impl Provider {
    /// The model id used when none was chosen.
    pub fn default_model<'a>(self, anthropic_model: &'a str) -> (r: &'a str)
        ensures
            r@ == default_model_of(self, anthropic_model@),
    {
        match self {
            Provider::Unset => "",
            Provider::Anthropic => anthropic_model,
            Provider::Openai => "gpt-5",
            Provider::Gemini => "gemini-2.5-flash",
            Provider::Openrouter => "deepseek/deepseek-chat",
        }
    }
}

/// The chosen service, one key per service, and the chosen model.
#[derive(Debug)]
pub struct AiSettings {
    pub provider: Provider,
    pub anthropic_key: String,
    pub openai_key: String,
    pub gemini_key: String,
    pub openrouter_key: String,
    /// Blank means the provider's default model.
    pub model: String,
    /// The default model of Anthropic.
    pub anthropic_model: String,
}

/// The service settings, mathematically.
#[verifier::ext_equal]
pub struct AiView {
    pub provider: Provider,
    pub anthropic_key: Seq<char>,
    pub openai_key: Seq<char>,
    pub gemini_key: Seq<char>,
    pub openrouter_key: Seq<char>,
    pub model: Seq<char>,
    pub anthropic_model: Seq<char>,
}

impl View for AiSettings {
    type V = AiView;

    open spec fn view(&self) -> AiView {
        AiView {
            provider: self.provider,
            anthropic_key: self.anthropic_key@,
            openai_key: self.openai_key@,
            gemini_key: self.gemini_key@,
            openrouter_key: self.openrouter_key@,
            model: self.model@,
            anthropic_model: self.anthropic_model@,
        }
    }
}

impl AiView {
    /// The key stored for a provider.
    pub open spec fn key_of(self, p: Provider) -> Seq<char> {
        match p {
            Provider::Unset => ""@,
            Provider::Anthropic => self.anthropic_key,
            Provider::Openai => self.openai_key,
            Provider::Gemini => self.gemini_key,
            Provider::Openrouter => self.openrouter_key,
        }
    }

    /// The model to ask for.
    pub open spec fn active_model(self) -> Seq<char> {
        if text::blank(self.model) {
            default_model_of(self.provider, self.anthropic_model)
        } else {
            text::trimmed(self.model)
        }
    }

    /// A provider is chosen and its key is not blank.
    pub open spec fn is_ready(self) -> bool {
        self.provider != Provider::Unset && !text::blank(self.key_of(self.provider))
    }

    /// The same settings with another key for one provider.
    pub open spec fn with_key(self, p: Provider, key: Seq<char>) -> AiView {
        match p {
            Provider::Unset => self,
            Provider::Anthropic => AiView { anthropic_key: key, ..self },
            Provider::Openai => AiView { openai_key: key, ..self },
            Provider::Gemini => AiView { gemini_key: key, ..self },
            Provider::Openrouter => AiView { openrouter_key: key, ..self },
        }
    }
}

impl Clone for AiSettings {
    fn clone(&self) -> (r: Self)
        ensures
            r@ == self@,
    {
        AiSettings {
            provider: self.provider,
            anthropic_key: text::owned(self.anthropic_key.as_str()),
            openai_key: text::owned(self.openai_key.as_str()),
            gemini_key: text::owned(self.gemini_key.as_str()),
            openrouter_key: text::owned(self.openrouter_key.as_str()),
            model: text::owned(self.model.as_str()),
            anthropic_model: text::owned(self.anthropic_model.as_str()),
        }
    }
}

impl Default for AiSettings {
    fn default() -> (r: Self)
        ensures
            r@ == default_ai(),
    {
        AiSettings {
            provider: Provider::Unset,
            anthropic_key: String::new(),
            openai_key: String::new(),
            gemini_key: String::new(),
            openrouter_key: String::new(),
            model: String::new(),
            anthropic_model: String::new(),
        }
    }
}

/// No provider, no keys, no model.
pub open spec fn default_ai() -> AiView {
    AiView {
        provider: Provider::Unset,
        anthropic_key: Seq::empty(),
        openai_key: Seq::empty(),
        gemini_key: Seq::empty(),
        openrouter_key: Seq::empty(),
        model: Seq::empty(),
        anthropic_model: Seq::empty(),
    }
}

impl AiSettings {
    /// The key of the chosen provider.
    pub fn active_key(&self) -> (r: &str)
        ensures
            r@ == self@.key_of(self.provider),
    {
        match self.provider {
            Provider::Unset => "",
            Provider::Anthropic => self.anthropic_key.as_str(),
            Provider::Openai => self.openai_key.as_str(),
            Provider::Gemini => self.gemini_key.as_str(),
            Provider::Openrouter => self.openrouter_key.as_str(),
        }
    }

    /// The model to ask for: the chosen one, or the provider's default.
    pub fn active_model(&self) -> (r: String)
        ensures
            r@ == self@.active_model(),
    {
        if text::is_blank(self.model.as_str()) {
            text::owned(self.provider.default_model(self.anthropic_model.as_str()))
        } else {
            text::trim(self.model.as_str())
        }
    }

    /// Whether a call can be made: a provider is chosen and it has a key.
    pub fn is_ready(&self) -> (r: bool)
        ensures
            r == self@.is_ready(),
    {
        self.provider != Provider::Unset && !text::is_blank(self.active_key())
    }
}

/// A mode: a rewriting prompt and the switches that shape a dictation.
#[derive(Debug)]
pub struct Mode {
    pub id: String,
    pub name: String,
    /// Blank means that nothing is rewritten.
    pub prompt: String,
    /// Program names that select this mode when it is chosen by the focused program.
    pub apps: Vec<String>,
    pub use_replacements: bool,
    pub use_vocabulary: bool,
    /// Give the focused window's title to the rewriting step.
    pub use_context: bool,
}

/// A mode, mathematically.
#[verifier::ext_equal]
pub struct ModeView {
    pub id: Seq<char>,
    pub name: Seq<char>,
    pub prompt: Seq<char>,
    pub apps: Seq<Seq<char>>,
    pub use_replacements: bool,
    pub use_vocabulary: bool,
    pub use_context: bool,
}

impl View for Mode {
    type V = ModeView;

    open spec fn view(&self) -> ModeView {
        ModeView {
            id: self.id@,
            name: self.name@,
            prompt: self.prompt@,
            apps: text::views(self.apps@),
            use_replacements: self.use_replacements,
            use_vocabulary: self.use_vocabulary,
            use_context: self.use_context,
        }
    }
}

impl Clone for Mode {
    fn clone(&self) -> (r: Self)
        ensures
            r@ == self@,
    {
        Mode {
            id: text::owned(self.id.as_str()),
            name: text::owned(self.name.as_str()),
            prompt: text::owned(self.prompt.as_str()),
            apps: text::clone_strings(&self.apps),
            use_replacements: self.use_replacements,
            use_vocabulary: self.use_vocabulary,
            use_context: self.use_context,
        }
    }
}

/// The views of a list of modes.
pub open spec fn modes_view(modes: Seq<Mode>) -> Seq<ModeView> {
    modes.map_values(|m: Mode| m@)
}

/// A mode that only has an id, a name and a prompt.
pub open spec fn plain_mode(id: Seq<char>, name: Seq<char>, prompt: Seq<char>) -> ModeView {
    ModeView {
        id,
        name,
        prompt,
        apps: Seq::empty(),
        use_replacements: true,
        use_vocabulary: true,
        use_context: false,
    }
}

fn plain(id: &str, name: &str, prompt: &str) -> (r: Mode)
    ensures
        r@ == plain_mode(id@, name@, prompt@),
{
    let r = Mode {
        id: text::owned(id),
        name: text::owned(name),
        prompt: text::owned(prompt),
        apps: Vec::new(),
        use_replacements: true,
        use_vocabulary: true,
        use_context: false,
    };
    assert(r@.apps =~= Seq::empty());
    r
}

pub const MESSAGE_PROMPT: &'static str = "Rewrite the transcript as a casual chat message. Fix speech errors and filler words. Keep the original meaning and voice. Output only the message.";

pub const EMAIL_PROMPT: &'static str = "Rewrite the transcript as a clear, professional email body. Fix speech errors and filler words. No subject line, no sign-off unless dictated. Output only the email body.";

pub const NOTE_PROMPT: &'static str = "Rewrite the transcript as tidy notes. Use short bullet points where the content is a list. Fix speech errors and filler words. Output only the notes.";

pub const PROMPT_PROMPT: &'static str = "Rewrite the transcript as a clear instruction to a coding assistant. Fix speech errors and filler words. Keep every technical detail, file name, and identifier exactly as dictated. Do not answer the request or add commentary. Output only the rewritten instruction.";

/// The built-in modes.
pub open spec fn built_in_modes() -> Seq<ModeView> {
    seq![
        plain_mode("raw"@, "Voice to Text"@, ""@),
        plain_mode("message"@, "Message"@, MESSAGE_PROMPT@),
        plain_mode("email"@, "Email"@, EMAIL_PROMPT@),
        plain_mode("note"@, "Note"@, NOTE_PROMPT@),
        plain_mode("prompt"@, "Prompt"@, PROMPT_PROMPT@),
    ]
}

/// The built-in modes.
pub fn default_modes() -> (r: Vec<Mode>)
    ensures
        modes_view(r@) == built_in_modes(),
{
    let r = vec![
        plain("raw", "Voice to Text", ""),
        plain("message", "Message", MESSAGE_PROMPT),
        plain("email", "Email", EMAIL_PROMPT),
        plain("note", "Note", NOTE_PROMPT),
        plain("prompt", "Prompt", PROMPT_PROMPT),
    ];
    assert(modes_view(r@) =~= built_in_modes());
    r
}

/// How many history entries are kept when nothing was chosen.
pub const DEFAULT_HISTORY_CAP: usize = 500;

/// Everything that shapes a dictation.
#[derive(Debug)]
pub struct VoiceSettings {
    pub replacements: Vec<Replacement>,
    /// Terms that the recogniser is told to expect.
    pub vocabulary: Vec<String>,
    pub modes: Vec<Mode>,
    /// The id of the mode chosen by hand; empty when none is.
    pub active_mode: String,
    pub ai: AiSettings,
    /// At most this many history entries are kept.
    pub history_cap: usize,
    /// Let the focused program choose the mode.
    pub auto_mode: bool,
}

/// The voice settings, mathematically.
#[verifier::ext_equal]
pub struct VoiceView {
    pub replacements: Seq<ReplacementView>,
    pub vocabulary: Seq<Seq<char>>,
    pub modes: Seq<ModeView>,
    pub active_mode: Seq<char>,
    pub ai: AiView,
    pub history_cap: usize,
    pub auto_mode: bool,
}

impl View for VoiceSettings {
    type V = VoiceView;

    open spec fn view(&self) -> VoiceView {
        VoiceView {
            replacements: rules_view(self.replacements@),
            vocabulary: text::views(self.vocabulary@),
            modes: modes_view(self.modes@),
            active_mode: self.active_mode@,
            ai: self.ai@,
            history_cap: self.history_cap,
            auto_mode: self.auto_mode,
        }
    }
}

/// The settings of a first run.
pub open spec fn default_settings() -> VoiceView {
    VoiceView {
        replacements: Seq::empty(),
        vocabulary: Seq::empty(),
        modes: built_in_modes(),
        active_mode: "raw"@,
        ai: default_ai(),
        history_cap: DEFAULT_HISTORY_CAP,
        auto_mode: false,
    }
}

impl Default for VoiceSettings {
    fn default() -> (r: Self)
        ensures
            r@ == default_settings(),
    {
        let r = VoiceSettings {
            replacements: Vec::new(),
            vocabulary: Vec::new(),
            modes: default_modes(),
            active_mode: text::owned("raw"),
            ai: AiSettings::default(),
            history_cap: DEFAULT_HISTORY_CAP,
            auto_mode: false,
        };
        assert(r@.replacements =~= Seq::empty());
        assert(r@.vocabulary =~= Seq::empty());
        r
    }
}

/// A copy of each replacement.
pub fn clone_rules(v: &Vec<Replacement>) -> (r: Vec<Replacement>)
    ensures
        rules_view(r@) == rules_view(v@),
{
    let mut out: Vec<Replacement> = Vec::new();
    let mut i: usize = 0;
    while i < v.len()
        invariant
            i <= v@.len(),
            rules_view(out@) == rules_view(v@).take(i as int),
        decreases v@.len() - i,
    {
        let ghost o = out@;
        out.push(v[i].clone());
        assert(rules_view(out@) =~= rules_view(o).push(v@[i as int]@));
        i = i + 1;
        assert(rules_view(v@).take(i as int) =~= rules_view(v@).take(i - 1).push(v@[i - 1]@));
    }
    assert(rules_view(v@).take(i as int) =~= rules_view(v@));
    out
}

/// A copy of each mode.
pub fn clone_modes(v: &Vec<Mode>) -> (r: Vec<Mode>)
    ensures
        modes_view(r@) == modes_view(v@),
{
    let mut out: Vec<Mode> = Vec::new();
    let mut i: usize = 0;
    while i < v.len()
        invariant
            i <= v@.len(),
            modes_view(out@) == modes_view(v@).take(i as int),
        decreases v@.len() - i,
    {
        let ghost o = out@;
        out.push(v[i].clone());
        assert(modes_view(out@) =~= modes_view(o).push(v@[i as int]@));
        i = i + 1;
        assert(modes_view(v@).take(i as int) =~= modes_view(v@).take(i - 1).push(v@[i - 1]@));
    }
    assert(modes_view(v@).take(i as int) =~= modes_view(v@));
    out
}

impl Clone for VoiceSettings {
    fn clone(&self) -> (r: Self)
        ensures
            r@ == self@,
    {
        VoiceSettings {
            replacements: clone_rules(&self.replacements),
            vocabulary: text::clone_strings(&self.vocabulary),
            modes: clone_modes(&self.modes),
            active_mode: text::owned(self.active_mode.as_str()),
            ai: self.ai.clone(),
            history_cap: self.history_cap,
            auto_mode: self.auto_mode,
        }
    }
}

/// One of the mode's programs is `exe`, but for ASCII case.
pub open spec fn serves(m: ModeView, exe: Seq<char>) -> bool {
    exists|k: int| 0 <= k < m.apps.len() && text::eq_ignore_case(#[trigger] m.apps[k], exe)
}

impl VoiceView {
    /// The first mode with that id.
    pub open spec fn mode_index(self, id: Seq<char>) -> Option<int> {
        order::first_index(self.modes, |m: ModeView| m.id == id, 0)
    }

    /// The first mode that serves that program.
    pub open spec fn app_index(self, exe: Seq<char>) -> Option<int> {
        order::first_index(self.modes, |m: ModeView| serves(m, exe), 0)
    }

    /// The mode that a dictation runs under: the one chosen by hand; else, if that is
    /// switched on, the one that serves the focused program; else the first.
    pub open spec fn effective_index(self, exe: Option<Seq<char>>) -> int {
        match self.mode_index(self.active_mode) {
            Some(i) => i,
            None => match exe {
                Some(e) => if self.auto_mode {
                    match self.app_index(e) {
                        Some(i) => i,
                        None => 0,
                    }
                } else {
                    0
                },
                None => 0,
            },
        }
    }

    /// There is a mode, the mode chosen by hand exists or none is chosen, and the
    /// history may hold something.
    pub open spec fn is_normal(self) -> bool {
        &&& self.modes.len() > 0
        &&& self.history_cap > 0
        &&& self.active_mode.len() == 0 || self.mode_index(self.active_mode) is Some
    }

    /// The settings with what `is_normal` asks put right.
    pub open spec fn normalized(self) -> VoiceView {
        let with_modes = VoiceView {
            modes: if self.modes.len() == 0 {
                built_in_modes()
            } else {
                self.modes
            },
            history_cap: if self.history_cap == 0 {
                DEFAULT_HISTORY_CAP
            } else {
                self.history_cap
            },
            ..self
        };
        if self.active_mode.len() > 0 && with_modes.mode_index(self.active_mode) is None {
            VoiceView { active_mode: Seq::empty(), ..with_modes }
        } else {
            with_modes
        }
    }

    /// The prompt that biases recognition under a mode.
    pub open spec fn whisper_prompt(self, m: ModeView) -> Option<Seq<char>> {
        if m.use_vocabulary && terms(self.vocabulary).len() > 0 {
            Some(text::join(terms(self.vocabulary), ", "@))
        } else {
            None
        }
    }
}

/// The terms, trimmed, without those that are blank.
pub open spec fn terms(vocabulary: Seq<Seq<char>>) -> Seq<Seq<char>>
    decreases vocabulary.len(),
{
    if vocabulary.len() == 0 {
        Seq::empty()
    } else if text::blank(vocabulary.last()) {
        terms(vocabulary.drop_last())
    } else {
        terms(vocabulary.drop_last()).push(text::trimmed(vocabulary.last()))
    }
}

impl VoiceSettings {
    /// The position of the first mode with that id.
    fn position_of(&self, id: &str) -> (r: Option<usize>)
        ensures
            match r {
                Some(i) => i < self.modes@.len() && self@.mode_index(id@) == Some(i as int),
                None => self@.mode_index(id@) is None,
            },
    {
        let ghost p = |m: ModeView| m.id == id@;
        let mut i: usize = 0;
        while i < self.modes.len()
            invariant
                i <= self.modes@.len(),
                p == (|m: ModeView| m.id == id@),
                order::first_index(self@.modes, p, 0) == order::first_index(
                    self@.modes,
                    p,
                    i as int,
                ),
            decreases self.modes@.len() - i,
        {
            assert(self@.modes[i as int] == self.modes@[i as int]@);
            if text::same(self.modes[i].id.as_str(), id) {
                return Some(i);
            }
            i = i + 1;
        }
        None
    }

    /// The position of the first mode that serves a program.
    fn position_for(&self, exe: &str) -> (r: Option<usize>)
        ensures
            match r {
                Some(i) => i < self.modes@.len() && self@.app_index(exe@) == Some(i as int),
                None => self@.app_index(exe@) is None,
            },
    {
        let ghost p = |m: ModeView| serves(m, exe@);
        let mut i: usize = 0;
        while i < self.modes.len()
            invariant
                i <= self.modes@.len(),
                p == (|m: ModeView| serves(m, exe@)),
                order::first_index(self@.modes, p, 0) == order::first_index(
                    self@.modes,
                    p,
                    i as int,
                ),
            decreases self.modes@.len() - i,
        {
            let m = &self.modes[i];
            assert(self@.modes[i as int] == m@);
            let hit = text::any_equals_ignore_case(&m.apps, exe);
            assert(hit == serves(m@, exe@)) by {
                if hit {
                    let k = choose|k: int|
                        0 <= k < m.apps@.len() && #[trigger] text::eq_ignore_case(
                            m.apps@[k]@,
                            exe@,
                        );
                    assert(text::eq_ignore_case(m@.apps[k], exe@));
                }
                if serves(m@, exe@) {
                    let k = choose|k: int|
                        0 <= k < m@.apps.len() && text::eq_ignore_case(#[trigger] m@.apps[k], exe@);
                    assert(text::eq_ignore_case(m.apps@[k]@, exe@));
                }
            }
            if hit {
                return Some(i);
            }
            i = i + 1;
        }
        None
    }

    /// The mode with that id.
    pub fn mode(&self, id: &str) -> (r: Option<&Mode>)
        ensures
            match r {
                Some(m) => self@.mode_index(id@) matches Some(i) && 0 <= i < self.modes@.len()
                    && *m == self.modes@[i],
                None => self@.mode_index(id@) is None,
            },
    {
        match self.position_of(id) {
            Some(i) => Some(&self.modes[i]),
            None => None,
        }
    }

    /// The mode that a dictation runs under. A mode chosen by hand always wins.
    pub fn effective_mode(&self, foreground_exe: Option<&str>) -> (r: &Mode)
        requires
            self.modes@.len() > 0,
        ensures
            *r == self.modes@[self@.effective_index(text::opt_str(foreground_exe))],
            0 <= self@.effective_index(text::opt_str(foreground_exe)) < self.modes@.len(),
    {
        if let Some(i) = self.position_of(self.active_mode.as_str()) {
            return &self.modes[i];
        }
        if self.auto_mode {
            if let Some(exe) = foreground_exe {
                if let Some(i) = self.position_for(exe) {
                    return &self.modes[i];
                }
            }
        }
        &self.modes[0]
    }

    /// Puts right what the rest relies on: there is a mode, `active_mode` names one or
    /// is empty, and the history may hold something.
    pub fn normalize(&mut self)
        ensures
            final(self)@ == old(self)@.normalized(),
    {
        if self.modes.len() == 0 {
            self.modes = default_modes();
        }
        if self.history_cap == 0 {
            self.history_cap = DEFAULT_HISTORY_CAP;
        }
        if !self.active_mode.as_str().is_empty() && self.position_of(
            self.active_mode.as_str(),
        ).is_none() {
            self.active_mode = String::new();
        }
    }

    /// The prompt that biases recognition; none when the vocabulary is not used.
    pub fn whisper_prompt(&self, mode: &Mode) -> (r: Option<String>)
        ensures
            text::opt_view(r) == self@.whisper_prompt(mode@),
    {
        if !mode.use_vocabulary {
            return None;
        }
        let mut kept: Vec<String> = Vec::new();
        let mut i: usize = 0;
        let ghost all = text::views(self.vocabulary@);
        assert(text::views(kept@) =~= terms(all.take(0)));
        while i < self.vocabulary.len()
            invariant
                i <= self.vocabulary@.len(),
                all == text::views(self.vocabulary@),
                text::views(kept@) == terms(all.take(i as int)),
            decreases self.vocabulary@.len() - i,
        {
            assert(all.take(i + 1).drop_last() =~= all.take(i as int));
            assert(all.take(i + 1).last() == self.vocabulary@[i as int]@);
            let t = text::trim(self.vocabulary[i].as_str());
            if !t.as_str().is_empty() {
                let ghost o = kept@;
                kept.push(t);
                assert(text::views(kept@) =~= text::views(o).push(t@));
            }
            i = i + 1;
        }
        assert(all.take(i as int) =~= all);
        if kept.len() == 0 {
            None
        } else {
            Some(text::join_strings(kept.as_slice(), ", "))
        }
    }
}

// ---------------------------------------------------------------- laws

/// A mode chosen by hand is the one that runs, whatever program has the focus and
/// whether or not programs may choose.
pub proof fn manual_choice_wins(v: VoiceView, exe: Option<Seq<char>>)
    requires
        v.mode_index(v.active_mode) is Some,
    ensures
        0 <= v.effective_index(exe) < v.modes.len(),
        v.modes[v.effective_index(exe)].id == v.active_mode,
        v.effective_index(exe) == v.effective_index(None),
{
    order::lemma_first_index(v.modes, |m: ModeView| m.id == v.active_mode, 0);
}

/// With automatic choice switched off, the focused program changes nothing.
pub proof fn focused_program_is_ignored_unless_switched_on(v: VoiceView, exe: Option<Seq<char>>)
    requires
        !v.auto_mode,
    ensures
        v.effective_index(exe) == v.effective_index(None),
{
}

/// With nothing chosen by hand and automatic choice switched on, a program that a mode
/// serves gets a mode that serves it.
pub proof fn focused_program_chooses_its_mode(v: VoiceView, exe: Seq<char>, k: int)
    requires
        v.auto_mode,
        v.mode_index(v.active_mode) is None,
        0 <= k < v.modes.len(),
        serves(v.modes[k], exe),
    ensures
        0 <= v.effective_index(Some(exe)) <= k,
        serves(v.modes[v.effective_index(Some(exe))], exe),
{
    order::lemma_first_index(v.modes, |m: ModeView| serves(m, exe), 0);
}

/// Normalizing establishes the invariant, and there is then always a mode to run under.
pub proof fn normalizing_establishes_the_invariant(v: VoiceView, exe: Option<Seq<char>>)
    ensures
        v.normalized().is_normal(),
        0 <= v.normalized().effective_index(exe) < v.normalized().modes.len(),
{
    let n = v.normalized();
    order::lemma_first_index(n.modes, |m: ModeView| m.id == n.active_mode, 0);
    if exe is Some {
        order::lemma_first_index(n.modes, |m: ModeView| serves(m, exe->0), 0);
    }
}

/// Settings that are in order stay as they are; so normalizing twice is normalizing once.
pub proof fn normalizing_leaves_normal_settings_alone(v: VoiceView)
    ensures
        v.is_normal() ==> v.normalized() == v,
        v.normalized().normalized() == v.normalized(),
{
    normalizing_establishes_the_invariant(v, None);
    let n = v.normalized();
    assert(n.is_normal());
    assert(n.normalized() =~= n);
    if v.is_normal() {
        assert(v.normalized() =~= v);
    }
}

/// Normalizing never touches replacements, vocabulary, keys or the automatic choice.
pub proof fn normalizing_keeps_the_rest(v: VoiceView)
    ensures
        v.normalized().replacements == v.replacements,
        v.normalized().vocabulary == v.vocabulary,
        v.normalized().ai == v.ai,
        v.normalized().auto_mode == v.auto_mode,
{
}

/// Every term is trimmed and not blank.
pub proof fn terms_are_not_blank(vocabulary: Seq<Seq<char>>)
    ensures
        forall|i: int|
            0 <= i < terms(vocabulary).len() ==> (#[trigger] terms(vocabulary)[i]).len() > 0
                && text::trimmed(terms(vocabulary)[i]) == terms(vocabulary)[i],
    decreases vocabulary.len(),
{
    if vocabulary.len() > 0 {
        terms_are_not_blank(vocabulary.drop_last());
        text::trim_is_idempotent(vocabulary.last());
        let t = terms(vocabulary.drop_last());
        assert forall|i: int| 0 <= i < terms(vocabulary).len() implies (
        #[trigger] terms(vocabulary)[i]).len() > 0 && text::trimmed(terms(vocabulary)[i]) == terms(
            vocabulary,
        )[i] by {
            if i < t.len() {
                assert(terms(vocabulary)[i] == t[i]);
            }
        }
    }
}

// ---------------------------------------------------------------- on disk

impl Stored for Replacement {
    open spec fn written(v: ReplacementView) -> json::JsonView {
        json::JsonView::Object(
            seq![
                ("from"@, String::written(v.from)),
                ("to"@, String::written(v.to)),
            ],
        )
    }

    open spec fn read(j: json::JsonView) -> Option<ReplacementView> {
        if !stored::is_record(j, 2) {
            None
        } else {
            match (
                stored::value_or::<String>(stored::part(j, "from"@, 0), None),
                stored::value_or::<String>(stored::part(j, "to"@, 1), None),
            ) {
                (
                    Some(from),
                    Some(to),
                ) => Some(ReplacementView { from, to }),
                _ => None,
            }
        }
    }

    fn to_stored(&self) -> (r: Json) {
        let mut f: Vec<(String, Json)> = Vec::new();
        assert(json::fields_view(f@) =~= Seq::empty());
        json::put(&mut f, "from", self.from.to_stored());
        json::put(&mut f, "to", self.to.to_stored());
        assert(json::fields_view(f@) =~= Self::written(self@)->Object_0);
        Json::Object(f)
    }

    fn from_stored(j: &Json) -> (r: Option<Replacement>) {
        if !stored::record_like(j, 2) {
            return None;
        }
        let from = stored::read_or::<String>(stored::part_of(j, "from", 0), None);
        let to = stored::read_or::<String>(stored::part_of(j, "to", 1), None);
        match (from, to) {
            (
                Some(from),
                Some(to),
            ) => {
                let r = Replacement { from, to };
                Some(r)
            },
            _ => None,
        }
    }

    proof fn reads_back(v: ReplacementView) {
        reveal_strlit("from");
        reveal_strlit("to");
        let fields = Self::written(v)->Object_0;
        assert("from"@.len() == 4);
        assert("to"@.len() == 2);
        stored::lemma_lookup(fields, 0);
        stored::lemma_lookup(fields, 1);
    }
}

impl View for Provider {
    type V = Provider;

    open spec fn view(&self) -> Provider {
        *self
    }
}

impl Stored for Provider {
    open spec fn written(v: Provider) -> json::JsonView {
        json::JsonView::Text(
            match v {
                Provider::Unset => "none"@,
                Provider::Anthropic => "anthropic"@,
                Provider::Openai => "openai"@,
                Provider::Gemini => "gemini"@,
                Provider::Openrouter => "openrouter"@,
            },
        )
    }

    open spec fn read(j: json::JsonView) -> Option<Provider> {
        match stored::word_in(j) {
            Some(w) => if w == "none"@ {
                Some(Provider::Unset)
            } else if w == "anthropic"@ {
                Some(Provider::Anthropic)
            } else if w == "openai"@ {
                Some(Provider::Openai)
            } else if w == "gemini"@ {
                Some(Provider::Gemini)
            } else if w == "openrouter"@ {
                Some(Provider::Openrouter)
            } else {
                None
            },
            None => None,
        }
    }

    fn to_stored(&self) -> (r: Json) {
        json::text_json(
            match self {
                Provider::Unset => "none",
                Provider::Anthropic => "anthropic",
                Provider::Openai => "openai",
                Provider::Gemini => "gemini",
                Provider::Openrouter => "openrouter",
            },
        )
    }

    fn from_stored(j: &Json) -> (r: Option<Provider>) {
        let w = match stored::word_of(j) {
            Some(w) => w,
            None => return None,
        };
        if text::same(w, "none") {
            Some(Provider::Unset)
        } else if text::same(w, "anthropic") {
            Some(Provider::Anthropic)
        } else if text::same(w, "openai") {
            Some(Provider::Openai)
        } else if text::same(w, "gemini") {
            Some(Provider::Gemini)
        } else if text::same(w, "openrouter") {
            Some(Provider::Openrouter)
        } else {
            None
        }
    }

    proof fn reads_back(v: Provider) {
        reveal_strlit("none");
        reveal_strlit("anthropic");
        reveal_strlit("openai");
        reveal_strlit("gemini");
        reveal_strlit("openrouter");
        assert("none"@.len() == 4);
        assert("anthropic"@.len() == 9);
        assert("openai"@.len() == 6);
        assert("gemini"@.len() == 6);
        assert("openrouter"@.len() == 10);
        assert("openai"@[0] != "gemini"@[0]);
    }
}

impl Stored for AiSettings {
    open spec fn written(v: AiView) -> json::JsonView {
        json::JsonView::Object(
            seq![
                ("provider"@, Provider::written(v.provider)),
                ("anthropic_key"@, String::written(v.anthropic_key)),
                ("openai_key"@, String::written(v.openai_key)),
                ("gemini_key"@, String::written(v.gemini_key)),
                ("openrouter_key"@, String::written(v.openrouter_key)),
                ("model"@, String::written(v.model)),
                ("anthropic_model"@, String::written(v.anthropic_model)),
            ],
        )
    }

    open spec fn read(j: json::JsonView) -> Option<AiView> {
        if !stored::is_record(j, 7) {
            None
        } else {
            match (
                stored::value_or::<Provider>(stored::part(j, "provider"@, 0), Some(Provider::Unset)),
                stored::value_or::<String>(stored::part(j, "anthropic_key"@, 1), Some(Seq::empty())),
                stored::value_or::<String>(stored::part(j, "openai_key"@, 2), Some(Seq::empty())),
                stored::value_or::<String>(stored::part(j, "gemini_key"@, 3), Some(Seq::empty())),
                stored::value_or::<String>(stored::part(j, "openrouter_key"@, 4), Some(Seq::empty())),
                stored::value_or::<String>(stored::part(j, "model"@, 5), Some(Seq::empty())),
                stored::value_or::<String>(stored::part(j, "anthropic_model"@, 6), Some(Seq::empty())),
            ) {
                (
                    Some(provider),
                    Some(anthropic_key),
                    Some(openai_key),
                    Some(gemini_key),
                    Some(openrouter_key),
                    Some(model),
                    Some(anthropic_model),
                ) => Some(AiView {
                    provider,
                    anthropic_key,
                    openai_key,
                    gemini_key,
                    openrouter_key,
                    model,
                    anthropic_model,
                }),
                _ => None,
            }
        }
    }

    fn to_stored(&self) -> (r: Json) {
        let mut f: Vec<(String, Json)> = Vec::new();
        assert(json::fields_view(f@) =~= Seq::empty());
        json::put(&mut f, "provider", self.provider.to_stored());
        json::put(&mut f, "anthropic_key", self.anthropic_key.to_stored());
        json::put(&mut f, "openai_key", self.openai_key.to_stored());
        json::put(&mut f, "gemini_key", self.gemini_key.to_stored());
        json::put(&mut f, "openrouter_key", self.openrouter_key.to_stored());
        json::put(&mut f, "model", self.model.to_stored());
        json::put(&mut f, "anthropic_model", self.anthropic_model.to_stored());
        assert(json::fields_view(f@) =~= Self::written(self@)->Object_0);
        Json::Object(f)
    }

    fn from_stored(j: &Json) -> (r: Option<AiSettings>) {
        if !stored::record_like(j, 7) {
            return None;
        }
        let provider = stored::read_or::<Provider>(
            stored::part_of(j, "provider", 0),
            Some(Provider::Unset),
        );
        let anthropic_key = stored::read_or::<String>(
            stored::part_of(j, "anthropic_key", 1),
            Some(String::new()),
        );
        let openai_key = stored::read_or::<String>(
            stored::part_of(j, "openai_key", 2),
            Some(String::new()),
        );
        let gemini_key = stored::read_or::<String>(
            stored::part_of(j, "gemini_key", 3),
            Some(String::new()),
        );
        let openrouter_key = stored::read_or::<String>(
            stored::part_of(j, "openrouter_key", 4),
            Some(String::new()),
        );
        let model = stored::read_or::<String>(
            stored::part_of(j, "model", 5),
            Some(String::new()),
        );
        let anthropic_model = stored::read_or::<String>(
            stored::part_of(j, "anthropic_model", 6),
            Some(String::new()),
        );
        match (provider, anthropic_key, openai_key, gemini_key, openrouter_key, model, anthropic_model) {
            (
                Some(provider),
                Some(anthropic_key),
                Some(openai_key),
                Some(gemini_key),
                Some(openrouter_key),
                Some(model),
                Some(anthropic_model),
            ) => {
                let r = AiSettings {
                    provider,
                    anthropic_key,
                    openai_key,
                    gemini_key,
                    openrouter_key,
                    model,
                    anthropic_model,
                };
                Some(r)
            },
            _ => None,
        }
    }

    proof fn reads_back(v: AiView) {
        reveal_strlit("provider");
        reveal_strlit("anthropic_key");
        reveal_strlit("openai_key");
        reveal_strlit("gemini_key");
        reveal_strlit("openrouter_key");
        reveal_strlit("model");
        reveal_strlit("anthropic_model");
        let fields = Self::written(v)->Object_0;
        assert("provider"@.len() == 8);
        assert("anthropic_key"@.len() == 13);
        assert("openai_key"@.len() == 10);
        assert("gemini_key"@.len() == 10);
        assert("openrouter_key"@.len() == 14);
        assert("model"@.len() == 5);
        assert("anthropic_model"@.len() == 15);
        assert("openai_key"@[0] != "gemini_key"@[0]);
        stored::lemma_lookup(fields, 0);
        stored::lemma_lookup(fields, 1);
        stored::lemma_lookup(fields, 2);
        stored::lemma_lookup(fields, 3);
        stored::lemma_lookup(fields, 4);
        stored::lemma_lookup(fields, 5);
        stored::lemma_lookup(fields, 6);
        Provider::reads_back(v.provider);
    }
}

impl Stored for Mode {
    open spec fn written(v: ModeView) -> json::JsonView {
        json::JsonView::Object(
            seq![
                ("id"@, String::written(v.id)),
                ("name"@, String::written(v.name)),
                ("prompt"@, String::written(v.prompt)),
                ("apps"@, stored::written_list::<String>(v.apps)),
                ("use_replacements"@, bool::written(v.use_replacements)),
                ("use_vocabulary"@, bool::written(v.use_vocabulary)),
                ("use_context"@, bool::written(v.use_context)),
            ],
        )
    }

    open spec fn read(j: json::JsonView) -> Option<ModeView> {
        if !stored::is_record(j, 7) {
            None
        } else {
            match (
                stored::value_or::<String>(stored::part(j, "id"@, 0), None),
                stored::value_or::<String>(stored::part(j, "name"@, 1), None),
                stored::value_or::<String>(stored::part(j, "prompt"@, 2), Some(Seq::empty())),
                stored::list_in::<String>(stored::part(j, "apps"@, 3)),
                stored::value_or::<bool>(stored::part(j, "use_replacements"@, 4), Some(true)),
                stored::value_or::<bool>(stored::part(j, "use_vocabulary"@, 5), Some(true)),
                stored::value_or::<bool>(stored::part(j, "use_context"@, 6), Some(false)),
            ) {
                (
                    Some(id),
                    Some(name),
                    Some(prompt),
                    Some(apps),
                    Some(use_replacements),
                    Some(use_vocabulary),
                    Some(use_context),
                ) => Some(ModeView {
                    id,
                    name,
                    prompt,
                    apps,
                    use_replacements,
                    use_vocabulary,
                    use_context,
                }),
                _ => None,
            }
        }
    }

    fn to_stored(&self) -> (r: Json) {
        let mut f: Vec<(String, Json)> = Vec::new();
        assert(json::fields_view(f@) =~= Seq::empty());
        json::put(&mut f, "id", self.id.to_stored());
        json::put(&mut f, "name", self.name.to_stored());
        json::put(&mut f, "prompt", self.prompt.to_stored());
        json::put(&mut f, "apps", stored::write_list::<String>(&self.apps));
        json::put(&mut f, "use_replacements", self.use_replacements.to_stored());
        json::put(&mut f, "use_vocabulary", self.use_vocabulary.to_stored());
        json::put(&mut f, "use_context", self.use_context.to_stored());
        assert(stored::views_of(self.apps@) =~= self@.apps);
        assert(json::fields_view(f@) =~= Self::written(self@)->Object_0);
        Json::Object(f)
    }

    fn from_stored(j: &Json) -> (r: Option<Mode>) {
        if !stored::record_like(j, 7) {
            return None;
        }
        let id = stored::read_or::<String>(stored::part_of(j, "id", 0), None);
        let name = stored::read_or::<String>(stored::part_of(j, "name", 1), None);
        let prompt = stored::read_or::<String>(
            stored::part_of(j, "prompt", 2),
            Some(String::new()),
        );
        let apps = stored::list_or_empty::<String>(stored::part_of(j, "apps", 3));
        let use_replacements = stored::read_or::<bool>(stored::part_of(j, "use_replacements", 4), Some(true));
        let use_vocabulary = stored::read_or::<bool>(stored::part_of(j, "use_vocabulary", 5), Some(true));
        let use_context = stored::read_or::<bool>(stored::part_of(j, "use_context", 6), Some(false));
        match (id, name, prompt, apps, use_replacements, use_vocabulary, use_context) {
            (
                Some(id),
                Some(name),
                Some(prompt),
                Some(apps),
                Some(use_replacements),
                Some(use_vocabulary),
                Some(use_context),
            ) => {
                let r = Mode { id, name, prompt, apps, use_replacements, use_vocabulary, use_context };
                assert(stored::views_of(r.apps@) =~= r@.apps);
                Some(r)
            },
            _ => None,
        }
    }

    proof fn reads_back(v: ModeView) {
        reveal_strlit("id");
        reveal_strlit("name");
        reveal_strlit("prompt");
        reveal_strlit("apps");
        reveal_strlit("use_replacements");
        reveal_strlit("use_vocabulary");
        reveal_strlit("use_context");
        let fields = Self::written(v)->Object_0;
        assert("id"@.len() == 2);
        assert("name"@.len() == 4);
        assert("prompt"@.len() == 6);
        assert("apps"@.len() == 4);
        assert("use_replacements"@.len() == 16);
        assert("use_vocabulary"@.len() == 14);
        assert("use_context"@.len() == 11);
        assert("name"@[0] != "apps"@[0]);
        stored::lemma_lookup(fields, 0);
        stored::lemma_lookup(fields, 1);
        stored::lemma_lookup(fields, 2);
        stored::lemma_lookup(fields, 3);
        stored::lemma_lookup(fields, 4);
        stored::lemma_lookup(fields, 5);
        stored::lemma_lookup(fields, 6);
        stored::lists_read_back::<String>(v.apps);
    }
}

impl Stored for VoiceSettings {
    open spec fn written(v: VoiceView) -> json::JsonView {
        json::JsonView::Object(
            seq![
                ("replacements"@, stored::written_list::<Replacement>(v.replacements)),
                ("vocabulary"@, stored::written_list::<String>(v.vocabulary)),
                ("modes"@, stored::written_list::<Mode>(v.modes)),
                ("active_mode"@, String::written(v.active_mode)),
                ("ai"@, AiSettings::written(v.ai)),
                ("history_cap"@, usize::written(v.history_cap)),
                ("auto_mode"@, bool::written(v.auto_mode)),
            ],
        )
    }

    open spec fn read(j: json::JsonView) -> Option<VoiceView> {
        if !stored::is_record(j, 7) {
            None
        } else {
            match (
                stored::list_in::<Replacement>(stored::part(j, "replacements"@, 0)),
                stored::list_in::<String>(stored::part(j, "vocabulary"@, 1)),
                stored::list_in::<Mode>(stored::part(j, "modes"@, 2)),
                stored::value_or::<String>(stored::part(j, "active_mode"@, 3), Some(Seq::empty())),
                stored::value_or::<AiSettings>(stored::part(j, "ai"@, 4), Some(default_ai())),
                stored::value_or::<usize>(stored::part(j, "history_cap"@, 5), Some(DEFAULT_HISTORY_CAP)),
                stored::value_or::<bool>(stored::part(j, "auto_mode"@, 6), Some(false)),
            ) {
                (
                    Some(replacements),
                    Some(vocabulary),
                    Some(modes),
                    Some(active_mode),
                    Some(ai),
                    Some(history_cap),
                    Some(auto_mode),
                ) => Some(VoiceView {
                    replacements,
                    vocabulary,
                    modes,
                    active_mode,
                    ai,
                    history_cap,
                    auto_mode,
                }),
                _ => None,
            }
        }
    }

    fn to_stored(&self) -> (r: Json) {
        let mut f: Vec<(String, Json)> = Vec::new();
        assert(json::fields_view(f@) =~= Seq::empty());
        json::put(&mut f, "replacements", stored::write_list::<Replacement>(&self.replacements));
        json::put(&mut f, "vocabulary", stored::write_list::<String>(&self.vocabulary));
        json::put(&mut f, "modes", stored::write_list::<Mode>(&self.modes));
        json::put(&mut f, "active_mode", self.active_mode.to_stored());
        json::put(&mut f, "ai", self.ai.to_stored());
        json::put(&mut f, "history_cap", self.history_cap.to_stored());
        json::put(&mut f, "auto_mode", self.auto_mode.to_stored());
        assert(stored::views_of(self.replacements@) =~= self@.replacements);
        assert(stored::views_of(self.vocabulary@) =~= self@.vocabulary);
        assert(stored::views_of(self.modes@) =~= self@.modes);
        assert(json::fields_view(f@) =~= Self::written(self@)->Object_0);
        Json::Object(f)
    }

    fn from_stored(j: &Json) -> (r: Option<VoiceSettings>) {
        if !stored::record_like(j, 7) {
            return None;
        }
        let replacements = stored::list_or_empty::<Replacement>(stored::part_of(j, "replacements", 0));
        let vocabulary = stored::list_or_empty::<String>(stored::part_of(j, "vocabulary", 1));
        let modes = stored::list_or_empty::<Mode>(stored::part_of(j, "modes", 2));
        let active_mode = stored::read_or::<String>(
            stored::part_of(j, "active_mode", 3),
            Some(String::new()),
        );
        let ai = stored::read_or::<AiSettings>(
            stored::part_of(j, "ai", 4),
            Some(AiSettings::default()),
        );
        let history_cap = stored::read_or::<usize>(
            stored::part_of(j, "history_cap", 5),
            Some(DEFAULT_HISTORY_CAP),
        );
        let auto_mode = stored::read_or::<bool>(stored::part_of(j, "auto_mode", 6), Some(false));
        match (replacements, vocabulary, modes, active_mode, ai, history_cap, auto_mode) {
            (
                Some(replacements),
                Some(vocabulary),
                Some(modes),
                Some(active_mode),
                Some(ai),
                Some(history_cap),
                Some(auto_mode),
            ) => {
                let r = VoiceSettings {
                    replacements,
                    vocabulary,
                    modes,
                    active_mode,
                    ai,
                    history_cap,
                    auto_mode,
                };
                assert(stored::views_of(r.replacements@) =~= r@.replacements);
                assert(stored::views_of(r.vocabulary@) =~= r@.vocabulary);
                assert(stored::views_of(r.modes@) =~= r@.modes);
                Some(r)
            },
            _ => None,
        }
    }

    proof fn reads_back(v: VoiceView) {
        reveal_strlit("replacements");
        reveal_strlit("vocabulary");
        reveal_strlit("modes");
        reveal_strlit("active_mode");
        reveal_strlit("ai");
        reveal_strlit("history_cap");
        reveal_strlit("auto_mode");
        let fields = Self::written(v)->Object_0;
        assert("replacements"@.len() == 12);
        assert("vocabulary"@.len() == 10);
        assert("modes"@.len() == 5);
        assert("active_mode"@.len() == 11);
        assert("ai"@.len() == 2);
        assert("history_cap"@.len() == 11);
        assert("auto_mode"@.len() == 9);
        assert("active_mode"@[0] != "history_cap"@[0]);
        stored::lemma_lookup(fields, 0);
        stored::lemma_lookup(fields, 1);
        stored::lemma_lookup(fields, 2);
        stored::lemma_lookup(fields, 3);
        stored::lemma_lookup(fields, 4);
        stored::lemma_lookup(fields, 5);
        stored::lemma_lookup(fields, 6);
        stored::lists_read_back::<Replacement>(v.replacements);
        stored::lists_read_back::<String>(v.vocabulary);
        stored::lists_read_back::<Mode>(v.modes);
        AiSettings::reads_back(v.ai);
    }
}

// ---------------------------------------------------------------- what the settings are for

/// Each provider has its own key and its own default model. A call can be made exactly when a
/// provider is chosen and its own key is not blank; the keys of the others do not count. The model
/// asked for is the chosen one, trimmed, or the default of the chosen provider.
pub proof fn each_provider_has_its_own_key_and_model(ai: AiView)
    ensures
        ai.provider == Provider::Unset ==> !ai.is_ready(),
        ai.provider == Provider::Anthropic ==> ai.is_ready() == !text::blank(ai.anthropic_key),
        ai.provider == Provider::Openai ==> ai.is_ready() == !text::blank(ai.openai_key),
        ai.provider == Provider::Gemini ==> ai.is_ready() == !text::blank(ai.gemini_key),
        ai.provider == Provider::Openrouter ==> ai.is_ready() == !text::blank(ai.openrouter_key),
        !text::blank(ai.model) ==> ai.active_model() == text::trimmed(ai.model),
        text::blank(ai.model) && ai.provider == Provider::Anthropic ==> ai.active_model()
            == ai.anthropic_model,
        text::blank(ai.model) && ai.provider == Provider::Openai ==> ai.active_model() == "gpt-5"@,
        text::blank(ai.model) && ai.provider == Provider::Gemini ==> ai.active_model()
            == "gemini-2.5-flash"@,
        text::blank(ai.model) && ai.provider == Provider::Openrouter ==> ai.active_model()
            == "deepseek/deepseek-chat"@,
{
}

/// Where nothing is chosen by hand, and no program chooses, the first mode serves: with automatic
/// choice switched off, without a focused program, and where no mode serves that program.
pub proof fn the_first_mode_serves_otherwise(v: VoiceView, exe: Option<Seq<char>>)
    requires
        forall|i: int| 0 <= i < v.modes.len() ==> (#[trigger] v.modes[i]).id != v.active_mode,
        !v.auto_mode || exe is None || (forall|i: int|
            0 <= i < v.modes.len() ==> !serves(#[trigger] v.modes[i], exe->0)),
    ensures
        v.effective_index(exe) == 0,
{
    order::lemma_first_index(v.modes, |m: ModeView| m.id == v.active_mode, 0);
    if exe is Some {
        order::lemma_first_index(v.modes, |m: ModeView| serves(m, exe->0), 0);
    }
}

/// The mode that is chosen by hand is the first with that id, whatever the program.
pub proof fn the_mode_of_that_id_is_chosen(v: VoiceView, exe: Option<Seq<char>>, k: int)
    requires
        0 <= k < v.modes.len(),
        v.modes[k].id == v.active_mode,
        forall|i: int| 0 <= i < k ==> (#[trigger] v.modes[i]).id != v.active_mode,
    ensures
        v.effective_index(exe) == k,
{
    order::lemma_first_index(v.modes, |m: ModeView| m.id == v.active_mode, 0);
}

/// A mode serves the programs that it names, and no others; capitals make no difference.
pub proof fn programs_are_named_in_any_case(m: ModeView, k: int, exe: Seq<char>, other: Seq<char>)
    ensures
        0 <= k < m.apps.len() && text::ascii_lower(m.apps[k]) == text::ascii_lower(exe) ==> serves(
            m,
            exe,
        ),
        text::ascii_lower(exe) == text::ascii_lower(other) ==> serves(m, exe) == serves(m, other),
        (forall|i: int|
            0 <= i < m.apps.len() ==> text::ascii_lower(#[trigger] m.apps[i]) != text::ascii_lower(
                exe,
            )) ==> !serves(m, exe),
{
    if text::ascii_lower(exe) == text::ascii_lower(other) {
        if serves(m, exe) {
            let i = choose|i: int|
                0 <= i < m.apps.len() && text::eq_ignore_case(#[trigger] m.apps[i], exe);
            assert(text::eq_ignore_case(m.apps[i], other));
        }
        if serves(m, other) {
            let i = choose|i: int|
                0 <= i < m.apps.len() && text::eq_ignore_case(#[trigger] m.apps[i], other);
            assert(text::eq_ignore_case(m.apps[i], exe));
        }
    }
    if 0 <= k < m.apps.len() && text::ascii_lower(m.apps[k]) == text::ascii_lower(exe) {
        assert(text::eq_ignore_case(m.apps[k], exe));
    }
}

/// Putting settings in order mends only what is wrong: modes that are there stay, none become the
/// five of a first run; a limit that is there stays, none becomes 500; a choice of a mode that is
/// there stays, of one that is not becomes no choice.
pub proof fn putting_in_order_mends_only_what_is_wrong(v: VoiceView, k: int)
    ensures
        v.modes.len() > 0 ==> v.normalized().modes == v.modes,
        v.modes.len() == 0 ==> v.normalized().modes.len() == 5 && v.normalized().modes[0].id
            == "raw"@ && v.normalized().modes[1].id == "message"@ && v.normalized().modes[2].id
            == "email"@ && v.normalized().modes[3].id == "note"@ && v.normalized().modes[4].id
            == "prompt"@,
        v.history_cap > 0 ==> v.normalized().history_cap == v.history_cap,
        v.history_cap == 0 ==> v.normalized().history_cap == 500,
        0 <= k < v.modes.len() && v.modes[k].id == v.active_mode ==> v.normalized().active_mode
            == v.active_mode,
        v.modes.len() > 0 && (forall|i: int|
            0 <= i < v.modes.len() ==> (#[trigger] v.modes[i]).id != v.active_mode)
            ==> v.normalized().active_mode.len() == 0,
{
    let with_modes = VoiceView {
        modes: if v.modes.len() == 0 {
            built_in_modes()
        } else {
            v.modes
        },
        history_cap: if v.history_cap == 0 {
            DEFAULT_HISTORY_CAP
        } else {
            v.history_cap
        },
        ..v
    };
    order::lemma_first_index(with_modes.modes, |m: ModeView| m.id == v.active_mode, 0);
}

/// A first run has five modes, of which the one without a prompt is chosen. None of them is for
/// particular programs or sees a window's title, and all of them use the replacements and the
/// vocabulary. There is no provider, key or model, the program chooses nothing, and 500 entries of
/// history are kept.
pub proof fn a_first_run_rewrites_nothing(i: int)
    requires
        0 <= i < 5,
    ensures
        default_settings().modes.len() == 5,
        default_settings().modes[0].id == default_settings().active_mode,
        default_settings().modes[0].prompt == ""@,
        default_settings().modes[i].apps.len() == 0,
        default_settings().modes[i].use_replacements,
        default_settings().modes[i].use_vocabulary,
        !default_settings().modes[i].use_context,
        default_settings().replacements.len() == 0,
        default_settings().vocabulary.len() == 0,
        !default_settings().auto_mode,
        default_settings().history_cap == 500,
        !default_settings().ai.is_ready(),
        default_settings().ai.anthropic_key.len() == 0,
        default_settings().ai.openai_key.len() == 0,
        default_settings().ai.gemini_key.len() == 0,
        default_settings().ai.openrouter_key.len() == 0,
        default_settings().ai.model.len() == 0,
{
}

/// The terms of two vocabularies, one behind the other, are those of the first and then those of
/// the second. A term is trimmed, and a blank one is left out.
pub proof fn terms_keep_their_order(a: Seq<Seq<char>>, b: Seq<Seq<char>>, w: Seq<char>)
    ensures
        terms(a + b) == terms(a) + terms(b),
        terms(seq![w]) == if text::blank(w) {
            Seq::empty()
        } else {
            seq![text::trimmed(w)]
        },
    decreases b.len(),
{
    reveal_with_fuel(terms, 2);
    assert(seq![w].drop_last() =~= Seq::empty());
    assert(terms(seq![w]) =~= if text::blank(w) {
        Seq::empty()
    } else {
        seq![text::trimmed(w)]
    });
    if b.len() == 0 {
        assert(a + b =~= a);
        assert(terms(a) + terms(b) =~= terms(a));
    } else {
        terms_keep_their_order(a, b.drop_last(), w);
        assert((a + b).drop_last() =~= a + b.drop_last());
        assert(terms(a + b) =~= terms(a) + terms(b));
    }
}

/// The recogniser is told the terms, with a comma and a space between each two, where the mode
/// uses the vocabulary and there are any; else it is told nothing.
pub proof fn the_recogniser_is_told_the_terms(
    v: VoiceView,
    m: ModeView,
    first: Seq<char>,
    rest: Seq<Seq<char>>,
)
    ensures
        !m.use_vocabulary ==> v.whisper_prompt(m) is None,
        terms(v.vocabulary).len() == 0 ==> v.whisper_prompt(m) is None,
        m.use_vocabulary && terms(v.vocabulary) == seq![first] ==> v.whisper_prompt(m) == Some(
            first,
        ),
        m.use_vocabulary && rest.len() > 0 && terms(v.vocabulary) == rest.push(first)
            ==> v.whisper_prompt(m) == Some(text::join(rest, ", "@) + ", "@ + first),
{
    assert(rest.push(first).drop_last() =~= rest);
}

/// A replacement rule is stored with its two sides under their names.
pub proof fn rules_are_stored_by_name(r: ReplacementView)
    ensures
        json::has_once(
            Replacement::written(r),
            "from"@,
            json::JsonView::Text(r.from),
        ),
        json::has_once(
            Replacement::written(r),
            "to"@,
            json::JsonView::Text(r.to),
        ),
{
    reveal_strlit("from");
    reveal_strlit("to");
    assert("from"@.len() == 4);
    assert("to"@.len() == 2);
    let fields = Replacement::written(r)->Object_0;
    assert(fields.len() == 2);
    assert(fields[0] == ("from"@, json::JsonView::Text(r.from)));
    assert(fields[1] == ("to"@, json::JsonView::Text(r.to)));
}

/// Each key is stored under the name of its provider, and the model under its own.
pub proof fn keys_are_stored_by_name(ai: AiView)
    ensures
        json::has_once(
            AiSettings::written(ai),
            "provider"@,
            Provider::written(ai.provider),
        ),
        json::has_once(
            AiSettings::written(ai),
            "anthropic_key"@,
            json::JsonView::Text(ai.anthropic_key),
        ),
        json::has_once(
            AiSettings::written(ai),
            "openai_key"@,
            json::JsonView::Text(ai.openai_key),
        ),
        json::has_once(
            AiSettings::written(ai),
            "gemini_key"@,
            json::JsonView::Text(ai.gemini_key),
        ),
        json::has_once(
            AiSettings::written(ai),
            "openrouter_key"@,
            json::JsonView::Text(ai.openrouter_key),
        ),
        json::has_once(
            AiSettings::written(ai),
            "model"@,
            json::JsonView::Text(ai.model),
        ),
        json::has_once(
            AiSettings::written(ai),
            "anthropic_model"@,
            json::JsonView::Text(ai.anthropic_model),
        ),
{
    reveal_strlit("provider");
    reveal_strlit("anthropic_key");
    reveal_strlit("openai_key");
    reveal_strlit("gemini_key");
    reveal_strlit("openrouter_key");
    reveal_strlit("model");
    reveal_strlit("anthropic_model");
    assert("provider"@.len() == 8);
    assert("anthropic_key"@.len() == 13);
    assert("openai_key"@.len() == 10);
    assert("gemini_key"@.len() == 10);
    assert("openrouter_key"@.len() == 14);
    assert("model"@.len() == 5);
    assert("anthropic_model"@.len() == 15);
    assert("openai_key"@[0] != "gemini_key"@[0]);
    let fields = AiSettings::written(ai)->Object_0;
    assert(fields.len() == 7);
    assert(fields[0] == ("provider"@, Provider::written(ai.provider)));
    assert(fields[1] == ("anthropic_key"@, json::JsonView::Text(ai.anthropic_key)));
    assert(fields[2] == ("openai_key"@, json::JsonView::Text(ai.openai_key)));
    assert(fields[3] == ("gemini_key"@, json::JsonView::Text(ai.gemini_key)));
    assert(fields[4] == ("openrouter_key"@, json::JsonView::Text(ai.openrouter_key)));
    assert(fields[5] == ("model"@, json::JsonView::Text(ai.model)));
    assert(fields[6] == ("anthropic_model"@, json::JsonView::Text(ai.anthropic_model)));
}

/// A mode is stored with each of its parts under its name.
pub proof fn modes_are_stored_by_name(m: ModeView)
    ensures
        json::has_once(
            Mode::written(m),
            "id"@,
            json::JsonView::Text(m.id),
        ),
        json::has_once(
            Mode::written(m),
            "name"@,
            json::JsonView::Text(m.name),
        ),
        json::has_once(
            Mode::written(m),
            "prompt"@,
            json::JsonView::Text(m.prompt),
        ),
        json::has_once(
            Mode::written(m),
            "apps"@,
            stored::written_list::<String>(m.apps),
        ),
        json::has_once(
            Mode::written(m),
            "use_replacements"@,
            json::JsonView::Bool(m.use_replacements),
        ),
        json::has_once(
            Mode::written(m),
            "use_vocabulary"@,
            json::JsonView::Bool(m.use_vocabulary),
        ),
        json::has_once(
            Mode::written(m),
            "use_context"@,
            json::JsonView::Bool(m.use_context),
        ),
{
    reveal_strlit("id");
    reveal_strlit("name");
    reveal_strlit("prompt");
    reveal_strlit("apps");
    reveal_strlit("use_replacements");
    reveal_strlit("use_vocabulary");
    reveal_strlit("use_context");
    assert("id"@.len() == 2);
    assert("name"@.len() == 4);
    assert("prompt"@.len() == 6);
    assert("apps"@.len() == 4);
    assert("use_replacements"@.len() == 16);
    assert("use_vocabulary"@.len() == 14);
    assert("use_context"@.len() == 11);
    assert("name"@[0] != "apps"@[0]);
    let fields = Mode::written(m)->Object_0;
    assert(fields.len() == 7);
    assert(fields[0] == ("id"@, json::JsonView::Text(m.id)));
    assert(fields[1] == ("name"@, json::JsonView::Text(m.name)));
    assert(fields[2] == ("prompt"@, json::JsonView::Text(m.prompt)));
    assert(fields[3] == ("apps"@, stored::written_list::<String>(m.apps)));
    assert(fields[4] == ("use_replacements"@, json::JsonView::Bool(m.use_replacements)));
    assert(fields[5] == ("use_vocabulary"@, json::JsonView::Bool(m.use_vocabulary)));
    assert(fields[6] == ("use_context"@, json::JsonView::Bool(m.use_context)));
}

/// The settings are stored with each of their parts under its name.
pub proof fn settings_are_stored_by_name(v: VoiceView)
    ensures
        json::has_once(
            VoiceSettings::written(v),
            "replacements"@,
            stored::written_list::<Replacement>(v.replacements),
        ),
        json::has_once(
            VoiceSettings::written(v),
            "vocabulary"@,
            stored::written_list::<String>(v.vocabulary),
        ),
        json::has_once(
            VoiceSettings::written(v),
            "modes"@,
            stored::written_list::<Mode>(v.modes),
        ),
        json::has_once(
            VoiceSettings::written(v),
            "active_mode"@,
            json::JsonView::Text(v.active_mode),
        ),
        json::has_once(
            VoiceSettings::written(v),
            "ai"@,
            AiSettings::written(v.ai),
        ),
        json::has_once(
            VoiceSettings::written(v),
            "history_cap"@,
            json::JsonView::Number(json::Number::Unsigned(v.history_cap as u64)),
        ),
        json::has_once(
            VoiceSettings::written(v),
            "auto_mode"@,
            json::JsonView::Bool(v.auto_mode),
        ),
{
    reveal_strlit("replacements");
    reveal_strlit("vocabulary");
    reveal_strlit("modes");
    reveal_strlit("active_mode");
    reveal_strlit("ai");
    reveal_strlit("history_cap");
    reveal_strlit("auto_mode");
    assert("replacements"@.len() == 12);
    assert("vocabulary"@.len() == 10);
    assert("modes"@.len() == 5);
    assert("active_mode"@.len() == 11);
    assert("ai"@.len() == 2);
    assert("history_cap"@.len() == 11);
    assert("auto_mode"@.len() == 9);
    assert("active_mode"@[0] != "history_cap"@[0]);
    let fields = VoiceSettings::written(v)->Object_0;
    assert(fields.len() == 7);
    assert(fields[0] == ("replacements"@, stored::written_list::<Replacement>(v.replacements)));
    assert(fields[1] == ("vocabulary"@, stored::written_list::<String>(v.vocabulary)));
    assert(fields[2] == ("modes"@, stored::written_list::<Mode>(v.modes)));
    assert(fields[3] == ("active_mode"@, json::JsonView::Text(v.active_mode)));
    assert(fields[4] == ("ai"@, AiSettings::written(v.ai)));
    assert(fields[5] == ("history_cap"@, json::JsonView::Number(json::Number::Unsigned(v.history_cap as u64))));
    assert(fields[6] == ("auto_mode"@, json::JsonView::Bool(v.auto_mode)));
}

/// Settings stored as an object without fields are those without anything: no rules, terms or
/// modes, no choice, no provider, 500 entries of history, no automatic choice.
pub proof fn missing_settings_get_their_defaults()
    ensures
        VoiceSettings::read(json::JsonView::Object(Seq::empty())) == Some(
            VoiceView {
                replacements: Seq::empty(),
                vocabulary: Seq::empty(),
                modes: Seq::empty(),
                active_mode: Seq::empty(),
                ai: AiView {
                    provider: Provider::Unset,
                    anthropic_key: Seq::empty(),
                    openai_key: Seq::empty(),
                    gemini_key: Seq::empty(),
                    openrouter_key: Seq::empty(),
                    model: Seq::empty(),
                    anthropic_model: Seq::empty(),
                },
                history_cap: 500,
                auto_mode: false,
            },
        ),
{
}

} // verus!
