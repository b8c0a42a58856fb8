//! What the configuration holds and which roots it exposes.
use crate::fields;
use crate::json;
use crate::json::Json;
use crate::stored;
use crate::stored::Stored;
use crate::text;
use crate::voice::settings;
use crate::voice::settings::VoiceSettings;
use vstd::prelude::*;

verus! {

/// How much of the file system may be browsed.
#[derive(Clone, Copy, Debug, PartialEq, Eq, Structural)]
pub enum Scope {
    /// The configured roots.
    Roots,
    /// The user's profile as the only root.
    Profile,
    /// Every drive that is ready, each as a root.
    Drives,
}

impl Default for Scope {
    fn default() -> (r: Self)
        ensures
            r == Scope::Roots,
    {
        Scope::Roots
    }
}

/// A root and the name that it is shown under.
#[derive(Debug)]
pub struct NamedRoot {
    pub name: String,
    pub path: String,
}

/// A named root, mathematically.
#[verifier::ext_equal]
pub struct RootView {
    pub name: Seq<char>,
    pub path: Seq<char>,
}

impl View for NamedRoot {
    type V = RootView;

    open spec fn view(&self) -> RootView {
        RootView { name: self.name@, path: self.path@ }
    }
}

/// The views of a list of roots.
pub open spec fn roots_view(roots: Seq<NamedRoot>) -> Seq<RootView> {
    roots.map_values(|r: NamedRoot| r@)
}

/// The configuration.
#[derive(Debug)]
pub struct Config {
    pub pin: String,
    pub scope: Scope,
    pub roots: Vec<String>,
    /// Canonical paths in which a session was spawned at least once.
    pub spawned_dirs: Vec<String>,
    /// The key combination that switches the dictation program on and off.
    pub ptt_hotkey: String,
    pub voice: VoiceSettings,
}

/// The configuration, mathematically.
#[verifier::ext_equal]
pub struct ConfigView {
    pub pin: Seq<char>,
    pub scope: Scope,
    pub roots: Seq<Seq<char>>,
    pub spawned_dirs: Seq<Seq<char>>,
    pub ptt_hotkey: Seq<char>,
    pub voice: settings::VoiceView,
}

impl View for Config {
    type V = ConfigView;

    open spec fn view(&self) -> ConfigView {
        ConfigView {
            pin: self.pin@,
            scope: self.scope,
            roots: text::views(self.roots@),
            spawned_dirs: text::views(self.spawned_dirs@),
            ptt_hotkey: self.ptt_hotkey@,
            voice: self.voice@,
        }
    }
}

impl Clone for Config {
    fn clone(&self) -> (r: Self)
        ensures
            r@ == self@,
    {
        Config {
            pin: text::owned(self.pin.as_str()),
            scope: self.scope,
            roots: text::clone_strings(&self.roots),
            spawned_dirs: text::clone_strings(&self.spawned_dirs),
            ptt_hotkey: text::owned(self.ptt_hotkey.as_str()),
            voice: self.voice.clone(),
        }
    }
}

/// One of the paths is `canon`, but for ASCII case.
pub open spec fn listed(paths: Seq<Seq<char>>, canon: Seq<char>) -> bool {
    exists|k: int| 0 <= k < paths.len() && text::eq_ignore_case(#[trigger] paths[k], canon)
}

/// Whether one of the paths is `canon`, but for ASCII case.
pub fn is_listed(paths: &Vec<String>, canon: &str) -> (r: bool)
    ensures
        r == listed(text::views(paths@), canon@),
{
    let ghost all = text::views(paths@);
    let mut i: usize = 0;
    while i < paths.len()
        invariant
            i <= paths@.len(),
            all == text::views(paths@),
            forall|k: int| 0 <= k < i ==> !text::eq_ignore_case(#[trigger] all[k], canon@),
        decreases paths@.len() - i,
    {
        assert(all[i as int] == paths@[i as int]@);
        if text::equals_ignore_case(paths[i].as_str(), canon) {
            return true;
        }
        i = i + 1;
    }
    false
}

/// A drive: a letter and a colon.
pub open spec fn is_drive(s: Seq<char>) -> bool {
    s.len() == 2 && text::ascii_alphabetic(s[0]) && s[1] == ':'
}

/// The last component of a path; the whole path where it has none, as the root of a drive.
pub open spec fn basename(p: Seq<char>) -> Seq<char> {
    let trimmed = text::trim_end_of(p, '\\', '/');
    let name = text::after_last(trimmed, '\\', '/');
    if name.len() > 0 && !is_drive(trimmed) {
        name
    } else {
        p
    }
}

/// The last component of a path.
pub fn basename_of(p: &str) -> (r: String)
    ensures
        r@ == basename(p@),
{
    let chars = text::chars_of(p);
    let trimmed = text::without_trailing(chars.as_slice(), '\\', '/');
    let name = text::suffix_after_last(trimmed, '\\', '/');
    let drive = trimmed.len() == 2 && text::is_ascii_alphabetic(trimmed[0]) && trimmed[1] == ':';
    if name.len() > 0 && !drive {
        text::string_of(name)
    } else {
        text::owned(p)
    }
}

/// The roots under their last components.
pub open spec fn configured(roots: Seq<Seq<char>>) -> Seq<RootView> {
    roots.map_values(|p: Seq<char>| RootView { name: basename(p), path: p })
}

/// The drives under their letters.
pub open spec fn drive_roots(drives: Seq<Seq<char>>) -> Seq<RootView> {
    drives.map_values(
        |d: Seq<char>| RootView { name: text::trim_end_of(d, '\\', '\\'), path: d },
    )
}

/// What a scope exposes, given the user's profile and the drives that are ready.
pub open spec fn effective(
    scope: Scope,
    roots: Seq<Seq<char>>,
    profile: Seq<char>,
    drives: Seq<Seq<char>>,
) -> Seq<RootView> {
    match scope {
        Scope::Roots => configured(roots),
        Scope::Profile => seq![RootView { name: "profile"@, path: profile }],
        Scope::Drives => drive_roots(drives),
    }
}

/// The configuration of a first run, with a PIN made of `seed`.
pub open spec fn first_config(seed: u64) -> ConfigView {
    ConfigView {
        pin: pin_of(seed),
        scope: Scope::Roots,
        roots: seq![
            r"C:\Users\thedi\Desktop\Work"@,
            r"C:\Users\thedi\Desktop"@,
        ],
        spawned_dirs: Seq::empty(),
        ptt_hotkey: crate::keyboard::DEFAULT_PTT_HOTKEY@,
        voice: settings::default_settings(),
    }
}

impl Config {
    /// Remembers that a session was spawned in a canonical path; whether that is new.
    pub fn remember_spawned_dir(&mut self, canon: &str) -> (r: bool)
        ensures
            r == !listed(text::views(old(self).spawned_dirs@), canon@),
            text::views(final(self).spawned_dirs@) == if r {
                text::views(old(self).spawned_dirs@).push(canon@)
            } else {
                text::views(old(self).spawned_dirs@)
            },
            final(self).pin == old(self).pin,
            final(self).scope == old(self).scope,
            final(self).roots == old(self).roots,
            final(self).ptt_hotkey == old(self).ptt_hotkey,
            final(self).voice == old(self).voice,
    {
        if is_listed(&self.spawned_dirs, canon) {
            false
        } else {
            let ghost o = self.spawned_dirs@;
            self.spawned_dirs.push(text::owned(canon));
            assert(text::views(self.spawned_dirs@) =~= text::views(o).push(canon@));
            true
        }
    }

    /// Whether a session was spawned in a canonical path before.
    pub fn has_spawned_dir(&self, canon: &str) -> (r: bool)
        ensures
            r == listed(text::views(self.spawned_dirs@), canon@),
    {
        is_listed(&self.spawned_dirs, canon)
    }

    /// The configuration of a first run, with a PIN made of `seed`.
    pub fn first_run(seed: u64) -> (r: Config)
        ensures
            r@ == first_config(seed),
    {
        let roots: Vec<String> = vec![
            text::owned(r"C:\Users\thedi\Desktop\Work"),
            text::owned(r"C:\Users\thedi\Desktop"),
        ];
        assert(text::views(roots@) =~= seq![
            r"C:\Users\thedi\Desktop\Work"@,
            r"C:\Users\thedi\Desktop"@,
        ]);
        let r = Config {
            pin: random_pin(seed),
            scope: Scope::Roots,
            roots,
            spawned_dirs: Vec::new(),
            ptt_hotkey: text::owned(crate::keyboard::DEFAULT_PTT_HOTKEY),
            voice: VoiceSettings::default(),
        };
        assert(r@.spawned_dirs =~= Seq::empty());
        r
    }

    /// The configured roots under their last components.
    pub fn configured_named_roots(&self) -> (r: Vec<NamedRoot>)
        ensures
            roots_view(r@) == configured(text::views(self.roots@)),
    {
        let mut out: Vec<NamedRoot> = Vec::new();
        let ghost all = configured(text::views(self.roots@));
        let mut i: usize = 0;
        assert(roots_view(out@) =~= all.take(0));
        while i < self.roots.len()
            invariant
                i <= self.roots@.len(),
                all == configured(text::views(self.roots@)),
                roots_view(out@) == all.take(i as int),
            decreases self.roots@.len() - i,
        {
            let ghost o = out@;
            let p = self.roots[i].as_str();
            let root = NamedRoot { name: basename_of(p), path: text::owned(p) };
            out.push(root);
            assert(all[i as int] =~= root@);
            assert(roots_view(out@) =~= roots_view(o).push(root@));
            i = i + 1;
            assert(all.take(i as int) =~= all.take(i - 1).push(all[i - 1]));
        }
        assert(all.take(i as int) =~= all);
        out
    }

    /// What the current scope exposes.
    pub fn effective_named_roots(&self, profile: &str, drives: &Vec<String>) -> (r: Vec<NamedRoot>)
        ensures
            roots_view(r@) == effective(
                self.scope,
                text::views(self.roots@),
                profile@,
                text::views(drives@),
            ),
    {
        match self.scope {
            Scope::Roots => self.configured_named_roots(),
            Scope::Profile => {
                let r: Vec<NamedRoot> = vec![
                    NamedRoot { name: text::owned("profile"), path: text::owned(profile) },
                ];
                assert(roots_view(r@) =~= seq![RootView { name: "profile"@, path: profile@ }]);
                r
            },
            Scope::Drives => {
                let mut out: Vec<NamedRoot> = Vec::new();
                let ghost all = drive_roots(text::views(drives@));
                let mut i: usize = 0;
                assert(roots_view(out@) =~= all.take(0));
                while i < drives.len()
                    invariant
                        i <= drives@.len(),
                        all == drive_roots(text::views(drives@)),
                        roots_view(out@) == all.take(i as int),
                    decreases drives@.len() - i,
                {
                    let ghost o = out@;
                    let d = drives[i].as_str();
                    let chars = text::chars_of(d);
                    let root = NamedRoot {
                        name: text::string_of(
                            text::without_trailing(chars.as_slice(), '\\', '\\'),
                        ),
                        path: text::owned(d),
                    };
                    out.push(root);
                    assert(all[i as int] =~= root@);
                    assert(roots_view(out@) =~= roots_view(o).push(root@));
                    i = i + 1;
                    assert(all.take(i as int) =~= all.take(i - 1).push(all[i - 1]));
                }
                assert(all.take(i as int) =~= all);
                out
            },
        }
    }

    /// The paths that the current scope exposes.
    pub fn effective_root_paths(&self, profile: &str, drives: &Vec<String>) -> (r: Vec<String>)
        ensures
            text::views(r@) == effective(
                self.scope,
                text::views(self.roots@),
                profile@,
                text::views(drives@),
            ).map_values(|v: RootView| v.path),
    {
        let named = self.effective_named_roots(profile, drives);
        let ghost all = roots_view(named@).map_values(|v: RootView| v.path);
        let mut out: Vec<String> = Vec::new();
        let mut i: usize = 0;
        assert(text::views(out@) =~= all.take(0));
        while i < named.len()
            invariant
                i <= named@.len(),
                all == roots_view(named@).map_values(|v: RootView| v.path),
                text::views(out@) == all.take(i as int),
            decreases named@.len() - i,
        {
            let ghost o = out@;
            out.push(text::owned(named[i].path.as_str()));
            assert(text::views(out@) =~= text::views(o).push(named@[i as int].path@));
            i = i + 1;
            assert(all.take(i as int) =~= all.take(i - 1).push(all[i - 1]));
        }
        assert(all.take(i as int) =~= all);
        out
    }
}

/// The user's profile folder, or the folder of all profiles where it is not known.
pub fn user_profile_dir(variable: Option<&str>) -> (r: String)
    ensures
        r@ == match variable {
            Some(v) => v@,
            None => r"C:\Users"@,
        },
{
    match variable {
        Some(v) => text::owned(v),
        None => text::owned(r"C:\Users"),
    }
}

// ---------------------------------------------------------------- PIN

/// A seed made of the clock and the process id.
pub open spec fn seed_of(nanos: u64, pid: u32) -> u64 {
    nanos ^ ((pid * 0x9E3779B97F4A7C15) % 0x1_0000_0000_0000_0000) as u64
}

/// A seed made of the clock and the process id.
pub fn seed(nanos: u64, pid: u32) -> (r: u64)
    ensures
        r == seed_of(nanos, pid),
{
    let product: u128 = pid as u128 * 0x9E3779B97F4A7C15;
    nanos ^ ((product % 0x1_0000_0000_0000_0000) as u64)
}

/// One step of a 64-bit xorshift generator, before its last multiplication.
pub open spec fn shifted(seed: u64) -> u64 {
    let a = seed | 1;
    let b = a ^ (a >> 12);
    let c = b ^ (b << 25);
    c ^ (c >> 27)
}

/// One step of a 64-bit xorshift generator with its last multiplication.
pub open spec fn scrambled(seed: u64) -> u64 {
    ((shifted(seed) * 0x2545F4914F6CDD1D) % 0x1_0000_0000_0000_0000) as u64
}

/// One step of the generator.
pub fn scramble(seed: u64) -> (r: u64)
    ensures
        r == scrambled(seed),
{
    let mut x: u64 = seed | 1;
    x = x ^ (x >> 12);
    x = x ^ (x << 25);
    x = x ^ (x >> 27);
    let product: u128 = x as u128 * 0x2545F4914F6CDD1D;
    assert(x * 0x2545F4914F6CDD1D < 0x1_0000_0000_0000_0000 * 0x1_0000_0000_0000_0000);
    (product % 0x1_0000_0000_0000_0000) as u64
}

/// The PIN that a seed gives: six decimal digits.
pub open spec fn pin_of(seed: u64) -> Seq<char> {
    text::zero_padded(
        text::decimal(((scrambled(seed) / 0x100_0000_0000) % 1_000_000) as nat),
        6,
    )
}

/// A PIN of six decimal digits.
pub fn random_pin(seed: u64) -> (r: String)
    ensures
        r@ == pin_of(seed),
{
    let n: u64 = (scramble(seed) / 0x100_0000_0000) % 1_000_000;
    text::padded_decimal(n, 6)
}

/// Every PIN has six characters, all of them decimal digits.
pub proof fn pins_have_six_digits(seed: u64)
    ensures
        pin_of(seed).len() == 6,
        forall|i: int| 0 <= i < 6 ==> text::ascii_digit(#[trigger] pin_of(seed)[i]),
{
    let n = ((scrambled(seed) / 0x100_0000_0000) % 1_000_000) as nat;
    text::lemma_short_decimal(n);
    let d = text::decimal(n);
    assert forall|i: int| 0 <= i < 6 implies text::ascii_digit(#[trigger] pin_of(seed)[i]) by {
        if i >= 6 - d.len() {
            assert(pin_of(seed)[i] == d[i - (6 - d.len())]);
        }
    }
}

/// A path that was remembered is known, in whatever case it is asked for.
pub proof fn remembered_paths_are_known(paths: Seq<Seq<char>>, canon: Seq<char>, asked: Seq<char>)
    requires
        text::eq_ignore_case(canon, asked),
    ensures
        listed(paths.push(canon), asked),
        listed(paths, canon) == listed(paths, asked),
{
    let more = paths.push(canon);
    assert(text::eq_ignore_case(more[paths.len() as int], asked));
    if listed(paths, canon) {
        let k = choose|k: int|
            0 <= k < paths.len() && text::eq_ignore_case(#[trigger] paths[k], canon);
        assert(text::eq_ignore_case(paths[k], asked));
    }
    if listed(paths, asked) {
        let k = choose|k: int|
            0 <= k < paths.len() && text::eq_ignore_case(#[trigger] paths[k], asked);
        assert(text::eq_ignore_case(paths[k], canon));
    }
}

// ---------------------------------------------------------------- on disk

impl View for Scope {
    type V = Scope;

    open spec fn view(&self) -> Scope {
        *self
    }
}

impl Stored for Scope {
    open spec fn written(v: Scope) -> json::JsonView {
        json::JsonView::Text(
            match v {
                Scope::Roots => "roots"@,
                Scope::Profile => "profile"@,
                Scope::Drives => "drives"@,
            },
        )
    }

    open spec fn read(j: json::JsonView) -> Option<Scope> {
        match stored::word_in(j) {
            Some(w) => if w == "roots"@ {
                Some(Scope::Roots)
            } else if w == "profile"@ {
                Some(Scope::Profile)
            } else if w == "drives"@ {
                Some(Scope::Drives)
            } else {
                None
            },
            None => None,
        }
    }

    fn to_stored(&self) -> (r: Json) {
        json::text_json(
            match self {
                Scope::Roots => "roots",
                Scope::Profile => "profile",
                Scope::Drives => "drives",
            },
        )
    }

    fn from_stored(j: &Json) -> (r: Option<Scope>) {
        let w = match stored::word_of(j) {
            Some(w) => w,
            None => return None,
        };
        if text::same(w, "roots") {
            Some(Scope::Roots)
        } else if text::same(w, "profile") {
            Some(Scope::Profile)
        } else if text::same(w, "drives") {
            Some(Scope::Drives)
        } else {
            None
        }
    }

    proof fn reads_back(v: Scope) {
        reveal_strlit("roots");
        reveal_strlit("profile");
        reveal_strlit("drives");
        assert("roots"@.len() == 5);
        assert("profile"@.len() == 7);
        assert("drives"@.len() == 6);
    }
}

impl Stored for Config {
    open spec fn written(v: ConfigView) -> json::JsonView {
        json::JsonView::Object(
            seq![
                ("pin"@, String::written(v.pin)),
                ("scope"@, Scope::written(v.scope)),
                ("roots"@, stored::written_list::<String>(v.roots)),
                ("spawned_dirs"@, stored::written_list::<String>(v.spawned_dirs)),
                ("ptt_hotkey"@, String::written(v.ptt_hotkey)),
                ("voice"@, VoiceSettings::written(v.voice)),
            ],
        )
    }

    open spec fn read(j: json::JsonView) -> Option<ConfigView> {
        if !stored::is_record(j, 6) {
            None
        } else {
            match (
                stored::value_or::<String>(stored::part(j, "pin"@, 0), None),
                stored::value_or::<Scope>(stored::part(j, "scope"@, 1), Some(Scope::Roots)),
                stored::list_in::<String>(stored::part(j, "roots"@, 2)),
                stored::list_in::<String>(stored::part(j, "spawned_dirs"@, 3)),
                stored::value_or::<String>(stored::part(j, "ptt_hotkey"@, 4), Some(crate::keyboard::DEFAULT_PTT_HOTKEY@)),
                stored::value_or::<VoiceSettings>(stored::part(j, "voice"@, 5), Some(settings::default_settings())),
            ) {
                (
                    Some(pin),
                    Some(scope),
                    Some(roots),
                    Some(spawned_dirs),
                    Some(ptt_hotkey),
                    Some(voice),
                ) => Some(ConfigView { pin, scope, roots, spawned_dirs, ptt_hotkey, voice }),
                _ => None,
            }
        }
    }

    fn to_stored(&self) -> (r: Json) {
        let mut f: Vec<(String, Json)> = Vec::new();
        assert(json::fields_view(f@) =~= Seq::empty());
        json::put(&mut f, "pin", self.pin.to_stored());
        json::put(&mut f, "scope", self.scope.to_stored());
        json::put(&mut f, "roots", stored::write_list::<String>(&self.roots));
        json::put(&mut f, "spawned_dirs", stored::write_list::<String>(&self.spawned_dirs));
        json::put(&mut f, "ptt_hotkey", self.ptt_hotkey.to_stored());
        json::put(&mut f, "voice", self.voice.to_stored());
        assert(stored::views_of(self.roots@) =~= self@.roots);
        assert(stored::views_of(self.spawned_dirs@) =~= self@.spawned_dirs);
        assert(json::fields_view(f@) =~= Self::written(self@)->Object_0);
        Json::Object(f)
    }

    fn from_stored(j: &Json) -> (r: Option<Config>) {
        if !stored::record_like(j, 6) {
            return None;
        }
        let pin = stored::read_or::<String>(stored::part_of(j, "pin", 0), None);
        let scope = stored::read_or::<Scope>(
            stored::part_of(j, "scope", 1),
            Some(Scope::Roots),
        );
        let roots = stored::list_or_empty::<String>(stored::part_of(j, "roots", 2));
        let spawned_dirs = stored::list_or_empty::<String>(stored::part_of(j, "spawned_dirs", 3));
        let ptt_hotkey = stored::read_or::<String>(
            stored::part_of(j, "ptt_hotkey", 4),
            Some(text::owned(crate::keyboard::DEFAULT_PTT_HOTKEY)),
        );
        let voice = stored::read_or::<VoiceSettings>(
            stored::part_of(j, "voice", 5),
            Some(VoiceSettings::default()),
        );
        match (pin, scope, roots, spawned_dirs, ptt_hotkey, voice) {
            (
                Some(pin),
                Some(scope),
                Some(roots),
                Some(spawned_dirs),
                Some(ptt_hotkey),
                Some(voice),
            ) => {
                let r = Config { pin, scope, roots, spawned_dirs, ptt_hotkey, voice };
                assert(stored::views_of(r.roots@) =~= r@.roots);
                assert(stored::views_of(r.spawned_dirs@) =~= r@.spawned_dirs);
                Some(r)
            },
            _ => None,
        }
    }

    proof fn reads_back(v: ConfigView) {
        reveal_strlit("pin");
        reveal_strlit("scope");
        reveal_strlit("roots");
        reveal_strlit("spawned_dirs");
        reveal_strlit("ptt_hotkey");
        reveal_strlit("voice");
        let fields = Self::written(v)->Object_0;
        assert("pin"@.len() == 3);
        assert("scope"@.len() == 5);
        assert("roots"@.len() == 5);
        assert("spawned_dirs"@.len() == 12);
        assert("ptt_hotkey"@.len() == 10);
        assert("voice"@.len() == 5);
        assert("scope"@[0] != "roots"@[0]);
        assert("scope"@[0] != "voice"@[0]);
        assert("roots"@[0] != "voice"@[0]);
        stored::lemma_lookup(fields, 0);
        stored::lemma_lookup(fields, 1);
        stored::lemma_lookup(fields, 2);
        stored::lemma_lookup(fields, 3);
        stored::lemma_lookup(fields, 4);
        stored::lemma_lookup(fields, 5);
        Scope::reads_back(v.scope);
        stored::lists_read_back::<String>(v.roots);
        stored::lists_read_back::<String>(v.spawned_dirs);
        VoiceSettings::reads_back(v.voice);
    }
}

/// The configuration that a text tells of, if it tells of one. One that repeats a field tells of
/// none.
pub open spec fn config_in(text: Seq<char>) -> Option<ConfigView> {
    match fields::every_field(text) {
        Ok(j) => Config::read(j),
        Err(_) => None,
    }
}

/// The configuration to start with, given the contents of the file, if it could be read; and
/// whether it has to be stored: what tells of no configuration gives way to a new one with a
/// new PIN.
pub fn load_or_init(contents: Option<&str>, seed: u64) -> (r: (Config, bool))
    ensures
        match contents {
            Some(t) => match config_in(t@) {
                Some(c) => r.0@ == c && !r.1,
                None => r.0@ == first_config(seed) && r.1,
            },
            None => r.0@ == first_config(seed) && r.1,
        },
{
    let read = match contents {
        Some(t) => match fields::parse(t) {
            Ok(j) => Config::from_stored(&j),
            Err(_) => None,
        },
        None => None,
    };
    match read {
        Some(c) => (c, false),
        None => (Config::first_run(seed), true),
    }
}

/// A configuration without the fields that came later is read with their defaults.
pub proof fn old_configurations_are_read(pin: Seq<char>)
    ensures
        Config::read(json::JsonView::Object(seq![("pin"@, json::JsonView::Text(pin))])) == Some(
            ConfigView {
                pin,
                scope: Scope::Roots,
                roots: Seq::empty(),
                spawned_dirs: Seq::empty(),
                ptt_hotkey: crate::keyboard::DEFAULT_PTT_HOTKEY@,
                voice: settings::default_settings(),
            },
        ),
{
    reveal_strlit("pin");
    reveal_strlit("scope");
    reveal_strlit("roots");
    reveal_strlit("spawned_dirs");
    reveal_strlit("ptt_hotkey");
    reveal_strlit("voice");
    let fields = seq![("pin"@, json::JsonView::Text(pin))];
    assert("pin"@.len() == 3 && "scope"@.len() == 5 && "roots"@.len() == 5);
    assert("spawned_dirs"@.len() == 12 && "ptt_hotkey"@.len() == 10 && "voice"@.len() == 5);
    assert(fields.drop_last() =~= Seq::empty());
    reveal_with_fuel(json::lookup, 3);
    reveal_with_fuel(stored::occurrences, 3);
    assert(json::lookup(fields, "pin"@) == Some(json::JsonView::Text(pin)));
    assert(json::lookup(fields, "scope"@) is None && json::lookup(fields, "roots"@) is None);
    assert(json::lookup(fields, "spawned_dirs"@) is None);
    assert(json::lookup(fields, "ptt_hotkey"@) is None && json::lookup(fields, "voice"@) is None);
}

/// The root of the drive with the `i`-th letter.
pub open spec fn drive_root_of(i: int) -> Seq<char> {
    seq![(65 + i) as char] + ":\\"@
}

/// The root of the drive with the `i`-th letter.
pub fn drive_root(i: u8) -> (r: String)
    requires
        i < 26,
    ensures
        r@ == drive_root_of(i as int),
{
    let mut out = String::new();
    out.push((65 + i) as char);
    out.append(":\\");
    assert(out@ =~= drive_root_of(i as int));
    out
}

/// The roots of the drives that are ready, among the first `n` letters.
pub open spec fn drives_among(ready: Seq<bool>, n: int) -> Seq<Seq<char>>
    decreases n,
{
    if n <= 0 {
        Seq::empty()
    } else if n <= ready.len() && ready[n - 1] {
        drives_among(ready, n - 1).push(drive_root_of(n - 1))
    } else {
        drives_among(ready, n - 1)
    }
}

/// The roots of the drives that are ready, from A to Z, given whether each is.
pub fn ready_drives(ready: &Vec<bool>) -> (r: Vec<String>)
    ensures
        text::views(r@) == drives_among(ready@, 26),
{
    let mut out: Vec<String> = Vec::new();
    let mut i: u8 = 0;
    assert(text::views(out@) =~= drives_among(ready@, 0));
    while i < 26
        invariant
            i <= 26,
            text::views(out@) == drives_among(ready@, i as int),
        decreases 26 - i,
    {
        if (i as usize) < ready.len() && ready[i as usize] {
            let ghost before = text::views(out@);
            out.push(drive_root(i));
            assert(text::views(out@) =~= before.push(drive_root_of(i as int)));
        }
        i = i + 1;
    }
    out
}

/// The name of a folder is what follows the last separator of its path, whichever of the two it
/// is, and whatever separators stand at the end.
pub proof fn folders_go_by_their_last_name(front: Seq<char>, c: char, name: Seq<char>)
    requires
        c == '\\' || c == '/',
        name.len() > 0,
        !name.contains('\\'),
        !name.contains('/'),
    ensures
        basename(front.push(c) + name) == name,
        basename((front.push(c) + name).push('\\')) == name,
        basename((front.push(c) + name).push('/')) == name,
{
    let p = front.push(c) + name;
    assert(name.contains(name.last()));
    assert(p.last() == name.last());
    assert(text::trim_end_of(p, '\\', '/') == p);
    assert(p.push('\\').drop_last() =~= p);
    assert(p.push('/').drop_last() =~= p);
    text::what_stands_behind_a_separator(front, c, name, '\\', '/');
    assert(!is_drive(p)) by {
        assert(p.contains(p[front.len() as int]));
        assert(p[front.len() as int] == c);
        if is_drive(p) {
            if front.len() == 0 {
                assert(p[0] == c);
            }
        }
    }
}

/// A bare drive goes by its whole path.
pub proof fn drives_go_by_their_path(p: Seq<char>)
    requires
        p.len() == 3,
        'A' <= p[0] <= 'Z' || 'a' <= p[0] <= 'z',
        p[1] == ':',
        p[2] == '\\' || p[2] == '/',
    ensures
        basename(p) == p,
{
    assert(text::trim_end_of(p.drop_last(), '\\', '/') == p.drop_last());
    assert(text::trim_end_of(p, '\\', '/') == p.drop_last());
}

/// The folders that are served: those of the configuration, each under its last name; or the
/// profile alone; or the drives, each without its backslash. The choice decides which, and each
/// folder stands at its place.
pub proof fn the_scope_decides_what_is_served(
    scope: Scope,
    roots: Seq<Seq<char>>,
    profile: Seq<char>,
    drives: Seq<Seq<char>>,
    i: int,
)
    ensures
        scope == Scope::Roots ==> effective(scope, roots, profile, drives).len() == roots.len(),
        scope == Scope::Roots && 0 <= i < roots.len() ==> effective(
            scope,
            roots,
            profile,
            drives,
        )[i].path == roots[i] && effective(scope, roots, profile, drives)[i].name == basename(
            roots[i],
        ),
        scope == Scope::Profile ==> effective(scope, roots, profile, drives).len() == 1
            && effective(scope, roots, profile, drives)[0].path == profile && effective(
            scope,
            roots,
            profile,
            drives,
        )[0].name == "profile"@,
        scope == Scope::Drives ==> effective(scope, roots, profile, drives).len() == drives.len(),
        scope == Scope::Drives && 0 <= i < drives.len() ==> effective(
            scope,
            roots,
            profile,
            drives,
        )[i].path == drives[i] && effective(scope, roots, profile, drives)[i].name
            == text::trim_end_of(drives[i], '\\', '\\'),
{
}

/// A path is known exactly when one of those that were remembered is the same but for capitals.
pub proof fn remembered_paths_are_found(paths: Seq<Seq<char>>, k: int, asked: Seq<char>)
    ensures
        0 <= k < paths.len() && text::ascii_lower(paths[k]) == text::ascii_lower(asked) ==> listed(
            paths,
            asked,
        ),
        (forall|i: int|
            0 <= i < paths.len() ==> text::ascii_lower(#[trigger] paths[i]) != text::ascii_lower(
                asked,
            )) ==> !listed(paths, asked),
{
    if 0 <= k < paths.len() && text::ascii_lower(paths[k]) == text::ascii_lower(asked) {
        assert(text::eq_ignore_case(paths[k], asked));
    }
}

/// A first run serves the configured folders, knows no folder in which a session ran, has a number
/// of six digits as its key and the right Alt key as its combination.
pub proof fn a_first_run_asks_for_six_digits(seed: u64)
    ensures
        first_config(seed).pin.len() == 6,
        first_config(seed).scope == Scope::Roots,
        first_config(seed).spawned_dirs.len() == 0,
        first_config(seed).ptt_hotkey == "right_alt"@,
        first_config(seed).voice.active_mode == "raw"@,
        first_config(seed).voice.modes.len() == 5,
{
    pins_have_six_digits(seed);
}

/// The words for what is served.
pub proof fn scopes_are_stored_as_words()
    ensures
        Scope::written(Scope::Roots) == json::JsonView::Text("roots"@),
        Scope::written(Scope::Profile) == json::JsonView::Text("profile"@),
        Scope::written(Scope::Drives) == json::JsonView::Text("drives"@),
{
}

proof fn lemma_drives_among(ready: Seq<bool>, n: int, i: int)
    requires
        0 <= i < 26,
        0 <= n <= 26,
    ensures
        drives_among(ready, n).contains(drive_root_of(i)) == (i < n && i < ready.len() && ready[i]),
        drives_among(ready, n).len() <= n,
    decreases n,
{
    if n > 0 {
        lemma_drives_among(ready, n - 1, i);
        let before = drives_among(ready, n - 1);
        let all = drives_among(ready, n);
        reveal_strlit(":\\");
        assert(drive_root_of(i)[0] == (65 + i) as char);
        assert(drive_root_of(n - 1)[0] == (65 + n - 1) as char);
        assert((65 + i) as char as int == 65 + i);
        assert((65 + n - 1) as char as int == 65 + n - 1);
        if n <= ready.len() && ready[n - 1] {
            assert(all == before.push(drive_root_of(n - 1)));
            if before.contains(drive_root_of(i)) {
                let k = choose|k: int| 0 <= k < before.len() && before[k] == drive_root_of(i);
                assert(all[k] == drive_root_of(i));
            }
            if i == n - 1 {
                assert(all[before.len() as int] == drive_root_of(i));
            }
            if all.contains(drive_root_of(i)) {
                let k = choose|k: int| 0 <= k < all.len() && all[k] == drive_root_of(i);
                if k < before.len() {
                    assert(before[k] == drive_root_of(i));
                }
            }
        }
    }
}

/// A drive is served exactly when it is ready: of the 26 letters, in their order, those whose drive
/// is. Its path is the letter, a colon and a backslash.
pub proof fn ready_drives_are_served(ready: Seq<bool>, i: int)
    requires
        0 <= i < 26,
    ensures
        drives_among(ready, 26).contains(seq![('A' as int + i) as char, ':', '\\']) == (i
            < ready.len() && ready[i]),
        drives_among(ready, 26).len() <= 26,
{
    reveal_strlit(":\\");
    lemma_drives_among(ready, 26, i);
    assert(drive_root_of(i) =~= seq![('A' as int + i) as char, ':', '\\']);
}

/// The configuration is stored with each of its parts under its name.
pub proof fn the_configuration_is_stored_by_name(v: ConfigView)
    ensures
        json::has_once(
            Config::written(v),
            "pin"@,
            json::JsonView::Text(v.pin),
        ),
        json::has_once(
            Config::written(v),
            "scope"@,
            Scope::written(v.scope),
        ),
        json::has_once(
            Config::written(v),
            "roots"@,
            stored::written_list::<String>(v.roots),
        ),
        json::has_once(
            Config::written(v),
            "spawned_dirs"@,
            stored::written_list::<String>(v.spawned_dirs),
        ),
        json::has_once(
            Config::written(v),
            "ptt_hotkey"@,
            json::JsonView::Text(v.ptt_hotkey),
        ),
        json::has_once(
            Config::written(v),
            "voice"@,
            VoiceSettings::written(v.voice),
        ),
{
    reveal_strlit("pin");
    reveal_strlit("scope");
    reveal_strlit("roots");
    reveal_strlit("spawned_dirs");
    reveal_strlit("ptt_hotkey");
    reveal_strlit("voice");
    assert("pin"@.len() == 3);
    assert("scope"@.len() == 5);
    assert("roots"@.len() == 5);
    assert("spawned_dirs"@.len() == 12);
    assert("ptt_hotkey"@.len() == 10);
    assert("voice"@.len() == 5);
    assert("scope"@[0] != "roots"@[0]);
    assert("scope"@[0] != "voice"@[0]);
    assert("roots"@[0] != "voice"@[0]);
    let fields = Config::written(v)->Object_0;
    assert(fields.len() == 6);
    assert(fields[0] == ("pin"@, json::JsonView::Text(v.pin)));
    assert(fields[1] == ("scope"@, Scope::written(v.scope)));
    assert(fields[2] == ("roots"@, stored::written_list::<String>(v.roots)));
    assert(fields[3] == ("spawned_dirs"@, stored::written_list::<String>(v.spawned_dirs)));
    assert(fields[4] == ("ptt_hotkey"@, json::JsonView::Text(v.ptt_hotkey)));
    assert(fields[5] == ("voice"@, VoiceSettings::written(v.voice)));
}

/// The key is six decimal digits of the scrambled seed, those that stand above its lowest forty bits.
pub proof fn keys_come_from_the_scrambled_seed(seed: u64)
    ensures
        text::digits_value(pin_of(seed)) == scrambled(seed) / 0x100_0000_0000 % 1_000_000,
{
    let n = ((scrambled(seed) / 0x100_0000_0000) % 1_000_000) as nat;
    text::numerals_read_back(n);
    text::padding_keeps_the_value(text::decimal(n), 6);
}

proof fn lemma_shifts_can_be_undone(a: u64, b: u64)
    ensures
        shifted(a) == shifted(b) ==> a | 1 == b | 1,
{
    let x = a | 1;
    let y = b | 1;
    let x1 = x ^ (x >> 12);
    let y1 = y ^ (y >> 12);
    let x2 = x1 ^ (x1 << 25);
    let y2 = y1 ^ (y1 << 25);
    assert(x2 ^ (x2 >> 27) == y2 ^ (y2 >> 27) ==> x2 == y2) by (bit_vector);
    assert(x1 ^ (x1 << 25) == y1 ^ (y1 << 25) ==> x1 == y1) by (bit_vector);
    assert(x ^ (x >> 12) == y ^ (y >> 12) ==> x == y) by (bit_vector);
}

/// Seeds that differ in more than their lowest bit are scrambled to different numbers: nothing of a
/// seed is lost but that bit.
pub proof fn different_seeds_stay_different(a: u64, b: u64)
    requires
        a | 1 != b | 1,
    ensures
        scrambled(a) != scrambled(b),
{
    lemma_shifts_can_be_undone(a, b);
    lemma_product_can_be_undone(shifted(a));
    lemma_product_can_be_undone(shifted(b));
}

proof fn lemma_product_can_be_undone(x: u64)
    ensures
        ((((x * 0x2545F4914F6CDD1D) % 0x1_0000_0000_0000_0000) as u64) * 0x59071D96D81ECD35)
            % 0x1_0000_0000_0000_0000 == x,
{
    let m = 0x1_0000_0000_0000_0000int;
    let c = 0x2545F4914F6CDD1Dint;
    let k = 0x59071D96D81ECD35int;
    let p = x as int * c;
    vstd::arithmetic::div_mod::lemma_mul_mod_noop_left(p, k, m);
    assert(p * k == x as int * (c * k)) by (nonlinear_arith)
        requires
            p == x as int * c,
    ;
    vstd::arithmetic::div_mod::lemma_mul_mod_noop_right(x as int, c * k, m);
    assert(c * k % m == 1) by (nonlinear_arith)
        requires
            c == 0x2545F4914F6CDD1Dint,
            k == 0x59071D96D81ECD35int,
            m == 0x1_0000_0000_0000_0000int,
    ;
    vstd::arithmetic::div_mod::lemma_small_mod(x as nat, m as nat);
}

} // verus!
