//! The answers of the files interface.
//!
//! Each request names paths as the phone knows them. What a path is in canonical form is
//! for the system to say; whether it may be used is decided here.
use crate::answer;
use crate::answer::{done, err, ok, Answer};
use crate::dictate;
use crate::dictate::join_path;
use crate::files::config;
use crate::files::config::{Config, NamedRoot, Scope};
use crate::files::features;
use crate::files::pathsafe;
use crate::files::pshell;
use crate::files::sessions;
use crate::files::sessions::{Session, SessionView};
use crate::files::shortcuts::Shortcut;
use crate::files::trash::TrashItem;
use crate::json;
use crate::json::{Json, JsonView, Number, Shown};
use crate::text;
use vstd::prelude::*;

pub mod git;
pub mod listing;
pub mod peek;
pub mod search;
pub mod upload;
pub mod zip;

verus! {

/// The largest upload.
pub const UPLOAD_BODY_LIMIT: usize = 209_715_200;

/// The largest file that is sent.
pub const DOWNLOAD_MAX_BYTES: u64 = 536_870_912;

// ---------------------------------------------------------------- the pin

/// Whether two byte strings are equal. The time it takes depends on their lengths only.
pub fn constant_time_eq(a: &[u8], b: &[u8]) -> (r: bool)
    ensures
        r == (a@ == b@),
{
    if a.len() != b.len() {
        return false;
    }
    let mut diff: u8 = 0;
    let mut i: usize = 0;
    assert(a@.take(0) =~= b@.take(0));
    while i < a.len()
        invariant
            i <= a@.len(),
            a@.len() == b@.len(),
            diff == 0 <==> a@.take(i as int) == b@.take(i as int),
        decreases a@.len() - i,
    {
        let x: u8 = a[i];
        let y: u8 = b[i];
        assert((diff | (x ^ y)) == 0 <==> diff == 0 && x == y) by (bit_vector);
        assert(a@.take(i + 1) =~= a@.take(i as int).push(x));
        assert(b@.take(i + 1) =~= b@.take(i as int).push(y));
        assert(a@.take(i + 1) == b@.take(i + 1) <==> a@.take(i as int) == b@.take(i as int) && x
            == y) by {
            if a@.take(i + 1) == b@.take(i + 1) {
                assert(a@.take(i as int) =~= a@.take(i + 1).drop_last());
                assert(b@.take(i as int) =~= b@.take(i + 1).drop_last());
                assert(a@.take(i + 1).last() == x && b@.take(i + 1).last() == y);
            }
        }
        diff = diff | (x ^ y);
        i = i + 1;
    }
    assert(a@.take(i as int) =~= a@);
    assert(b@.take(i as int) =~= b@);
    diff == 0
}

/// The answer to a request without the pin. It tells how long the pin is.
pub open spec fn unauthorized_view(pin: Seq<char>) -> JsonView {
    JsonView::Object(
        seq![
            ("error"@, JsonView::Text("unauthorized"@)),
            ("pinLength"@, json::number_view(pin.len() as u64)),
        ],
    )
}

/// Lets a request with the pin through; the answer to any other.
pub fn require_pin(provided: Option<&str>, pin: &str) -> (r: Option<Answer>)
    ensures
        r is None <==> (match provided {
            Some(p) => p@,
            None => ""@,
        }) == pin@,
        r matches Some(a) ==> a.status == 401 && a.body@ == unauthorized_view(pin@),
{
    let given: &str = match provided {
        Some(p) => p,
        None => "",
    };
    let same = constant_time_eq(given.as_bytes(), pin.as_bytes());
    proof {
        vstd::utf8::encode_utf8_decode_utf8(given@);
        vstd::utf8::encode_utf8_decode_utf8(pin@);
    }
    if same {
        return None;
    }
    let chars = text::chars_of(pin);
    let n: usize = chars.len();
    let mut f: Vec<(String, Json)> = Vec::new();
    assert(json::fields_view(f@) =~= Seq::empty());
    json::put(&mut f, "error", json::text_json("unauthorized"));
    json::put(&mut f, "pinLength", Json::Number(Number::Unsigned(n as u64)));
    assert(json::fields_view(f@) =~= unauthorized_view(pin@)->Object_0);
    Some(Answer { status: 401, body: Json::Object(f) })
}

// ---------------------------------------------------------------- resolving

/// A path that may be used, with the canonical roots, given its canonical form, if it
/// exists, and what came of making the roots canonical.
pub fn resolve_existing(canon: Option<String>, root_outcomes: &Vec<Option<String>>) -> (r: Result<
    (String, Vec<String>),
    String,
>)
    ensures
        match (canon, r) {
            (None, Err(e)) => e@ == "path does not exist"@,
            (None, Ok(_)) => false,
            (Some(c), Ok((p, roots))) => p@ == c@ && text::views(roots@)
                == pathsafe::resolved_roots(root_outcomes@) && pathsafe::allowed(
                c@,
                text::views(roots@),
            ),
            (Some(c), Err(e)) => !pathsafe::allowed(c@, pathsafe::resolved_roots(root_outcomes@))
                && e@ == "path is outside the allowed folders"@,
        },
{
    let roots = pathsafe::canonicalize_roots(root_outcomes);
    match pathsafe::resolve_allowed(canon, root_outcomes) {
        Ok(p) => Ok((p, roots)),
        Err(e) => Err(e),
    }
}

// ---------------------------------------------------------------- roots and scope

/// The word for a scope on the wire.
pub open spec fn scope_word_of(s: Scope) -> Seq<char> {
    match s {
        Scope::Roots => "roots"@,
        Scope::Profile => "profile"@,
        Scope::Drives => "drives"@,
    }
}

/// The word for a scope on the wire.
pub fn scope_word(s: Scope) -> (r: &'static str)
    ensures
        r@ == scope_word_of(s),
{
    match s {
        Scope::Roots => "roots",
        Scope::Profile => "profile",
        Scope::Drives => "drives",
    }
}

/// A name and a path.
pub open spec fn named_view(name: Seq<char>, path: Seq<char>) -> JsonView {
    JsonView::Object(seq![("name"@, JsonView::Text(name)), ("path"@, JsonView::Text(path))])
}

fn named_json(name: &str, path: &str) -> (r: Json)
    ensures
        r@ == named_view(name@, path@),
{
    let mut f: Vec<(String, Json)> = Vec::new();
    assert(json::fields_view(f@) =~= Seq::empty());
    json::put(&mut f, "name", json::text_json(name));
    json::put(&mut f, "path", json::text_json(path));
    assert(json::fields_view(f@) =~= named_view(name@, path@)->Object_0);
    Json::Object(f)
}

impl Shown for NamedRoot {
    open spec fn shown(self) -> JsonView {
        named_view(self.name@, self.path@)
    }

    fn to_json(&self) -> (r: Json) {
        named_json(self.name.as_str(), self.path.as_str())
    }
}

impl Shown for Shortcut {
    open spec fn shown(self) -> JsonView {
        named_view(self.name@, self.path@)
    }

    fn to_json(&self) -> (r: Json) {
        named_json(self.name.as_str(), self.path.as_str())
    }
}

/// A root with the room on its volume, as far as that is known: free and total bytes.
pub struct RootSpace {
    pub root: NamedRoot,
    pub space: Option<(u64, u64)>,
}

/// The free and the total bytes, where they are known.
pub fn disk_space(space: Option<(u64, u64)>) -> (r: (Option<u64>, Option<u64>))
    ensures
        r == match space {
            Some((free, total)) => (Some(free), Some(total)),
            None => (None::<u64>, None::<u64>),
        },
{
    match space {
        Some((free, total)) => (Some(free), Some(total)),
        None => (None, None),
    }
}

impl Shown for RootSpace {
    open spec fn shown(self) -> JsonView {
        JsonView::Object(
            seq![
                ("name"@, JsonView::Text(self.root.name@)),
                ("path"@, JsonView::Text(self.root.path@)),
                (
                    "freeBytes"@,
                    json::opt_number_view(
                        match self.space {
                            Some(s) => Some(s.0),
                            None => None,
                        },
                    ),
                ),
                (
                    "totalBytes"@,
                    json::opt_number_view(
                        match self.space {
                            Some(s) => Some(s.1),
                            None => None,
                        },
                    ),
                ),
            ],
        )
    }

    fn to_json(&self) -> (r: Json) {
        let (free, total) = disk_space(self.space);
        let mut f: Vec<(String, Json)> = Vec::new();
        assert(json::fields_view(f@) =~= Seq::empty());
        json::put(&mut f, "name", json::text_json(self.root.name.as_str()));
        json::put(&mut f, "path", json::text_json(self.root.path.as_str()));
        json::put(&mut f, "freeBytes", json::opt_number_json(free));
        json::put(&mut f, "totalBytes", json::opt_number_json(total));
        assert(json::fields_view(f@) =~= self.shown()->Object_0);
        Json::Object(f)
    }
}

/// The answer to the question what may be browsed.
pub open spec fn roots_view(
    cfg: Config,
    spaces: Seq<RootSpace>,
    shortcuts: Seq<Shortcut>,
) -> JsonView {
    JsonView::Object(
        seq![
            ("scope"@, JsonView::Text(scope_word_of(cfg.scope))),
            (
                "roots"@,
                JsonView::List(
                    config::configured(text::views(cfg.roots@)).map_values(
                        |r: config::RootView| named_view(r.name, r.path),
                    ),
                ),
            ),
            ("effectiveRoots"@, json::shown_list(spaces)),
            ("shortcuts"@, json::shown_list(shortcuts)),
        ],
    )
}

/// What may be browsed: the scope, the configured roots, those in effect with the room on
/// their volumes, and the shortcuts that lead somewhere.
pub fn roots(cfg: &Config, spaces: &Vec<RootSpace>, shortcuts: &Vec<Shortcut>) -> (r: Answer)
    ensures
        r.status == 200,
        r.body@ == roots_view(*cfg, spaces@, shortcuts@),
{
    let configured = cfg.configured_named_roots();
    let mut f: Vec<(String, Json)> = Vec::new();
    assert(json::fields_view(f@) =~= Seq::empty());
    json::put(&mut f, "scope", json::text_json(scope_word(cfg.scope)));
    json::put(&mut f, "roots", json::list_json(&configured));
    json::put(&mut f, "effectiveRoots", json::list_json(spaces));
    json::put(&mut f, "shortcuts", json::list_json(shortcuts));
    assert(configured@.map_values(|r: NamedRoot| r.shown()) =~= config::configured(
        text::views(cfg.roots@),
    ).map_values(|r: config::RootView| named_view(r.name, r.path))) by {
        let c = config::roots_view(configured@);
        assert forall|i: int| 0 <= i < configured@.len() implies configured@[i].shown()
            == named_view(#[trigger] c[i].name, c[i].path) by {
            assert(c[i] == configured@[i]@);
        }
    }
    assert(json::fields_view(f@) =~= roots_view(*cfg, spaces@, shortcuts@)->Object_0);
    ok(Json::Object(f))
}

/// A request to change the scope.
pub struct ScopeBody {
    pub scope: String,
}

/// The scope that a word on the wire stands for.
pub open spec fn scope_of(word: Seq<char>) -> Option<Scope> {
    if word == "roots"@ {
        Some(Scope::Roots)
    } else if word == "profile"@ {
        Some(Scope::Profile)
    } else if word == "drives"@ {
        Some(Scope::Drives)
    } else {
        None
    }
}

/// Changes the scope; the answer where the word is not known.
pub fn set_scope(cfg: &mut Config, body: &ScopeBody) -> (r: Option<Answer>)
    ensures
        match scope_of(body.scope@) {
            Some(s) => r is None && *final(cfg) == (Config { scope: s, ..*old(cfg) }),
            None => *final(cfg) == *old(cfg) && (r matches Some(a) && a.status == 400 && a.body@
                == answer::error_view("unknown scope: "@ + body.scope@)),
        },
{
    let word = body.scope.as_str();
    if text::same(word, "roots") {
        cfg.scope = Scope::Roots;
        None
    } else if text::same(word, "profile") {
        cfg.scope = Scope::Profile;
        None
    } else if text::same(word, "drives") {
        cfg.scope = Scope::Drives;
        None
    } else {
        let m = pshell::concat("unknown scope: ", word);
        Some(err(400, m.as_str()))
    }
}

/// A scope set by its word is shown by that word.
pub proof fn scopes_keep_their_words(word: Seq<char>, s: Scope)
    ensures
        scope_of(word) == Some(s) ==> scope_word_of(s) == word,
        scope_of(scope_word_of(s)) == Some(s),
{
    reveal_strlit("roots");
    reveal_strlit("profile");
    reveal_strlit("drives");
    assert("roots"@[0] != "profile"@[0]);
    assert("roots"@[0] != "drives"@[0]);
    assert("profile"@[0] != "drives"@[0]);
}

/// The answer once the scope is changed: the roots that are in effect from then on.
pub fn scope_answer(body: &ScopeBody, spaces: &Vec<RootSpace>) -> (r: Answer)
    ensures
        r.status == 200,
        r.body@ == JsonView::Object(
            seq![
                ("scope"@, JsonView::Text(body.scope@)),
                ("effectiveRoots"@, json::shown_list(spaces@)),
            ],
        ),
{
    let mut f: Vec<(String, Json)> = Vec::new();
    assert(json::fields_view(f@) =~= Seq::empty());
    json::put(&mut f, "scope", json::text_json(body.scope.as_str()));
    json::put(&mut f, "effectiveRoots", json::list_json(spaces));
    assert(json::fields_view(f@) =~= seq![
        ("scope"@, JsonView::Text(body.scope@)),
        ("effectiveRoots"@, json::shown_list(spaces@)),
    ]);
    ok(Json::Object(f))
}

/// A request that names a path.
pub struct PathQuery {
    pub path: String,
}

/// An answer with a path.
pub open spec fn path_view(path: Seq<char>) -> JsonView {
    JsonView::Object(seq![("path"@, JsonView::Text(path))])
}

fn path_answer(path: &str) -> (r: Answer)
    ensures
        r.status == 200,
        r.body@ == path_view(path@),
{
    let mut f: Vec<(String, Json)> = Vec::new();
    assert(json::fields_view(f@) =~= Seq::empty());
    json::put(&mut f, "path", json::text_json(path));
    assert(json::fields_view(f@) =~= path_view(path@)->Object_0);
    ok(Json::Object(f))
}

/// The answer is an error with that status and message.
pub open spec fn is_error(a: Answer, status: int, message: Seq<char>) -> bool {
    a.status == status && a.body@ == answer::error_view(message)
}

// ---------------------------------------------------------------- folders

/// A request to make a folder.
pub struct MkdirBody {
    pub parent: String,
    pub name: String,
}

/// The folder to make, given where its parent is, or the answer.
pub fn mkdir(body: &MkdirBody, parent: &Result<(String, Vec<String>), String>) -> (r: Result<
    String,
    Answer,
>)
    ensures
        match pathsafe::name_error(body.name@) {
            Some(e) => r matches Err(a) && is_error(a, 400, e),
            None => match parent {
                Err(e) => r matches Err(a) && is_error(a, 403, e@),
                Ok((p, _)) => r matches Ok(path) && path@ == dictate::joined_path(
                    p@,
                    body.name@,
                ),
            },
        },
{
    if let Err(e) = pathsafe::validate_name(body.name.as_str()) {
        return Err(err(400, e.as_str()));
    }
    match parent {
        Err(e) => Err(err(403, e.as_str())),
        Ok((p, _)) => Ok(join_path(p.as_str(), body.name.as_str())),
    }
}

/// The answer once the folder was made, or was not.
pub fn mkdir_answer(path: &str, made: &Result<(), String>) -> (r: Answer)
    ensures
        match made {
            Ok(_) => r.status == 200 && r.body@ == path_view(path@),
            Err(e) => is_error(r, 400, "could not create folder: "@ + e@),
        },
{
    match made {
        Ok(_) => path_answer(path),
        Err(e) => {
            let m = pshell::concat("could not create folder: ", e.as_str());
            err(400, m.as_str())
        },
    }
}

/// A request to give a path another name.
pub struct RenameBody {
    pub path: String,
    pub new_name: String,
}

/// The path under its new name, given where it is and what it lies in, or the answer. A
/// root keeps its name.
pub fn rename(
    body: &RenameBody,
    at: &Result<(String, Vec<String>), String>,
    parent: Option<&str>,
) -> (r: Result<String, Answer>)
    ensures
        match pathsafe::name_error(body.new_name@) {
            Some(e) => r matches Err(a) && is_error(a, 400, e),
            None => match at {
                Err(e) => r matches Err(a) && is_error(a, 403, e@),
                Ok((p, roots)) => if pathsafe::is_root(p@, text::views(roots@)) {
                    r matches Err(a) && is_error(a, 403, "cannot rename a root folder"@)
                } else {
                    match parent {
                        None => r matches Err(a) && is_error(a, 400, "path has no parent"@),
                        Some(q) => r matches Ok(path) && path@ == dictate::joined_path(
                            q@,
                            body.new_name@,
                        ),
                    }
                },
            },
        },
{
    if let Err(e) = pathsafe::validate_name(body.new_name.as_str()) {
        return Err(err(400, e.as_str()));
    }
    match at {
        Err(e) => Err(err(403, e.as_str())),
        Ok((p, roots)) => {
            if pathsafe::is_effective_root(p.as_str(), roots.as_slice()) {
                return Err(err(403, "cannot rename a root folder"));
            }
            match parent {
                None => Err(err(400, "path has no parent")),
                Some(q) => Ok(join_path(q, body.new_name.as_str())),
            }
        },
    }
}

/// The answer once the path has its new name, or has not.
pub fn rename_answer(path: &str, renamed: &Result<(), String>) -> (r: Answer)
    ensures
        match renamed {
            Ok(_) => r.status == 200 && r.body@ == path_view(path@),
            Err(e) => is_error(r, 400, "could not rename: "@ + e@),
        },
{
    match renamed {
        Ok(_) => path_answer(path),
        Err(e) => {
            let m = pshell::concat("could not rename: ", e.as_str());
            err(400, m.as_str())
        },
    }
}

/// A request to delete a path.
pub struct DeleteBody {
    pub path: String,
}

/// The path to send to the recycle bin, given where it is, or the answer. A root stays.
pub fn delete(at: &Result<(String, Vec<String>), String>) -> (r: Result<String, Answer>)
    ensures
        match at {
            Err(e) => r matches Err(a) && is_error(a, 403, e@),
            Ok((p, roots)) => if pathsafe::is_root(p@, text::views(roots@)) {
                r matches Err(a) && is_error(a, 403, "cannot delete a root folder"@)
            } else {
                r matches Ok(path) && path@ == p@
            },
        },
{
    match at {
        Err(e) => Err(err(403, e.as_str())),
        Ok((p, roots)) => {
            if pathsafe::is_effective_root(p.as_str(), roots.as_slice()) {
                Err(err(403, "cannot delete a root folder"))
            } else {
                Ok(text::owned(p.as_str()))
            }
        },
    }
}

/// The answer once the path was deleted, or was not.
pub fn delete_answer(deleted: &Result<(), String>) -> (r: Answer)
    ensures
        match deleted {
            Ok(_) => r.status == 200 && r.body@ == answer::done_view(),
            Err(e) => is_error(r, 400, e@),
        },
{
    match deleted {
        Ok(_) => done(),
        Err(e) => err(400, e.as_str()),
    }
}

// ---------------------------------------------------------------- sessions

/// A request to start a session.
pub struct SpawnBody {
    pub path: String,
    pub name: Option<String>,
    pub mode: Option<String>,
}

/// How a session is started.
pub struct SpawnPlan {
    pub path: String,
    pub hidden: bool,
    pub effective: &'static str,
    pub first_time: bool,
}

/// How a session is started, given where: unless the request says otherwise it is seen the
/// first time a folder is used, and hidden from then on.
pub fn spawn(cfg: &Config, body: &SpawnBody, at: &Result<(String, Vec<String>), String>) -> (r: Result<
    SpawnPlan,
    Answer,
>)
    ensures
        match at {
            Err(e) => r matches Err(a) && is_error(a, 403, e@),
            Ok((p, _)) => r matches Ok(plan) && {
                let mode = features::spawn_mode(text::opt_view(body.mode));
                &&& plan.path@ == p@
                &&& plan.first_time == !config::listed(text::views(cfg.spawned_dirs@), p@)
                &&& plan.hidden == features::spawns_hidden(mode, plan.first_time)
                &&& plan.effective@ == if plan.hidden {
                    "hidden"@
                } else {
                    "visible"@
                }
            },
        },
{
    match at {
        Err(e) => Err(err(403, e.as_str())),
        Ok((p, _)) => {
            let mode = features::SpawnMode::parse(
                match &body.mode {
                    Some(m) => Some(m.as_str()),
                    None => None,
                },
            );
            let first_time = !cfg.has_spawned_dir(p.as_str());
            let (hidden, effective) = features::decide_spawn(mode, first_time);
            Ok(SpawnPlan { path: text::owned(p.as_str()), hidden, effective, first_time })
        },
    }
}

/// The answer once the session was started, or was not.
pub fn spawn_answer(
    started: &Result<Session, String>,
    effective: &str,
    first_time: bool,
) -> (r: Answer)
    ensures
        match started {
            Ok(s) => r.status == 200 && r.body@ == JsonView::Object(
                seq![
                    ("id"@, JsonView::Text(s.id@)),
                    ("pid"@, json::number_view(s.pid as u64)),
                    ("mode"@, JsonView::Text(effective@)),
                    ("firstTime"@, JsonView::Bool(first_time)),
                ],
            ),
            Err(e) => is_error(r, 500, e@),
        },
{
    match started {
        Ok(s) => {
            let mut f: Vec<(String, Json)> = Vec::new();
            assert(json::fields_view(f@) =~= Seq::empty());
            json::put(&mut f, "id", json::text_json(s.id.as_str()));
            json::put(&mut f, "pid", Json::Number(Number::Unsigned(s.pid as u64)));
            json::put(&mut f, "mode", json::text_json(effective));
            json::put(&mut f, "firstTime", Json::Bool(first_time));
            assert(json::fields_view(f@) =~= seq![
                ("id"@, JsonView::Text(s.id@)),
                ("pid"@, json::number_view(s.pid as u64)),
                ("mode"@, JsonView::Text(effective@)),
                ("firstTime"@, JsonView::Bool(first_time)),
            ]);
            ok(Json::Object(f))
        },
        Err(e) => err(500, e.as_str()),
    }
}

impl Shown for SessionView {
    open spec fn shown(self) -> JsonView {
        JsonView::Object(
            seq![
                ("id"@, JsonView::Text(self.id@)),
                ("pid"@, json::number_view(self.pid as u64)),
                ("path"@, JsonView::Text(self.path@)),
                ("name"@, JsonView::Text(self.name@)),
                ("startedAtMs"@, json::number_view(self.started_at_ms)),
                ("hidden"@, JsonView::Bool(self.hidden)),
                ("alive"@, JsonView::Bool(self.alive)),
            ],
        )
    }

    fn to_json(&self) -> (r: Json) {
        let mut f: Vec<(String, Json)> = Vec::new();
        assert(json::fields_view(f@) =~= Seq::empty());
        json::put(&mut f, "id", json::text_json(self.id.as_str()));
        json::put(&mut f, "pid", Json::Number(Number::Unsigned(self.pid as u64)));
        json::put(&mut f, "path", json::text_json(self.path.as_str()));
        json::put(&mut f, "name", json::text_json(self.name.as_str()));
        json::put(&mut f, "startedAtMs", Json::Number(Number::Unsigned(self.started_at_ms)));
        json::put(&mut f, "hidden", Json::Bool(self.hidden));
        json::put(&mut f, "alive", Json::Bool(self.alive));
        assert(json::fields_view(f@) =~= self.shown()->Object_0);
        Json::Object(f)
    }
}

fn one_field(name: &str, value: Json) -> (r: Answer)
    ensures
        r.status == 200,
        r.body@ == JsonView::Object(seq![(name@, value@)]),
{
    let mut f: Vec<(String, Json)> = Vec::new();
    assert(json::fields_view(f@) =~= Seq::empty());
    json::put(&mut f, name, value);
    assert(json::fields_view(f@) =~= seq![(name@, value@)]);
    ok(Json::Object(f))
}

/// The answer with the sessions.
pub fn list_sessions(views: &Vec<SessionView>) -> (r: Answer)
    ensures
        r.status == 200,
        r.body@ == JsonView::Object(seq![("sessions"@, json::shown_list(views@))]),
{
    one_field("sessions", json::list_json(views))
}

/// A request to end a session.
pub struct KillBody {
    pub id: String,
}

/// Ends a session, given what came of ending its process, and answers.
pub fn kill(
    store: &mut sessions::SessionStore,
    body: &KillBody,
    ended: &Result<(), String>,
) -> (r: Answer)
    ensures
        final(store)@ == sessions::without(old(store)@, body.id@),
        if sessions::unknown(old(store)@, body.id@) {
            is_error(r, 400, "unknown session id"@)
        } else {
            match ended {
                Ok(_) => r.status == 200 && r.body@ == answer::done_view(),
                Err(e) => is_error(r, 400, "taskkill failed: "@ + e@),
            }
        },
{
    match sessions::kill(store, body.id.as_str(), ended) {
        Ok(_) => done(),
        Err(e) => err(400, e.as_str()),
    }
}

// ---------------------------------------------------------------- the recycle bin

impl Shown for TrashItem {
    open spec fn shown(self) -> JsonView {
        JsonView::Object(
            seq![
                ("id"@, JsonView::Text(self.id@)),
                ("name"@, JsonView::Text(self.name@)),
                ("originalPath"@, JsonView::Text(self.original_path@)),
                ("deletedAtMs"@, json::opt_number_view(self.deleted_at_ms)),
                ("sizeBytes"@, json::opt_number_view(self.size_bytes)),
                ("isDir"@, JsonView::Bool(self.is_dir)),
            ],
        )
    }

    fn to_json(&self) -> (r: Json) {
        let mut f: Vec<(String, Json)> = Vec::new();
        assert(json::fields_view(f@) =~= Seq::empty());
        json::put(&mut f, "id", json::text_json(self.id.as_str()));
        json::put(&mut f, "name", json::text_json(self.name.as_str()));
        json::put(&mut f, "originalPath", json::text_json(self.original_path.as_str()));
        json::put(&mut f, "deletedAtMs", json::opt_number_json(self.deleted_at_ms));
        json::put(&mut f, "sizeBytes", json::opt_number_json(self.size_bytes));
        json::put(&mut f, "isDir", Json::Bool(self.is_dir));
        assert(json::fields_view(f@) =~= self.shown()->Object_0);
        Json::Object(f)
    }
}

/// The answer with what lies in the recycle bin.
pub fn list_trash(items: &Result<Vec<TrashItem>, String>) -> (r: Answer)
    ensures
        match items {
            Ok(v) => r.status == 200 && r.body@ == JsonView::Object(
                seq![("items"@, json::shown_list(v@))],
            ),
            Err(e) => is_error(r, 500, e@),
        },
{
    match items {
        Ok(v) => one_field("items", json::list_json(v)),
        Err(e) => err(500, e.as_str()),
    }
}

/// A request to restore an item of the recycle bin.
pub struct TrashRestoreBody {
    pub id: String,
}

/// The answer once the item was restored, or was not.
pub fn restore_trash(restored_to: &Result<String, String>) -> (r: Answer)
    ensures
        match restored_to {
            Ok(p) => r.status == 200 && r.body@ == JsonView::Object(
                seq![("ok"@, JsonView::Bool(true)), ("restoredTo"@, JsonView::Text(p@))],
            ),
            Err(e) => is_error(r, 500, e@),
        },
{
    match restored_to {
        Ok(p) => {
            let mut f: Vec<(String, Json)> = Vec::new();
            assert(json::fields_view(f@) =~= Seq::empty());
            json::put(&mut f, "ok", Json::Bool(true));
            json::put(&mut f, "restoredTo", json::text_json(p.as_str()));
            assert(json::fields_view(f@) =~= seq![
                ("ok"@, JsonView::Bool(true)),
                ("restoredTo"@, JsonView::Text(p@)),
            ]);
            ok(Json::Object(f))
        },
        Err(e) => err(500, e.as_str()),
    }
}

// ---------------------------------------------------------------- sending a file

/// A request for a file.
pub struct DownloadQuery {
    pub path: String,
    pub disposition: Option<String>,
}

/// What is known of a file: whether it is a folder, and its length.
pub struct FileFacts {
    pub is_dir: bool,
    pub len: u64,
}

/// A file to send.
pub struct Sending {
    pub path: String,
    pub name: String,
    pub disposition: String,
    pub len: u64,
}

/// The file to send, given where it is, its own name, and what is known of it, or the
/// answer.
pub fn download(
    query: &DownloadQuery,
    at: &Result<(String, Vec<String>), String>,
    file_name: Option<&str>,
    facts: &Result<FileFacts, String>,
) -> (r: Result<Sending, Answer>)
    ensures
        match at {
            Err(e) => r matches Err(a) && is_error(a, 403, e@),
            Ok((p, _)) => match facts {
                Err(e) => r matches Err(a) && is_error(a, 400, "cannot stat file: "@ + e@),
                Ok(m) => if m.is_dir {
                    r matches Err(a) && is_error(a, 400, "path is a directory, not a file"@)
                } else if m.len > DOWNLOAD_MAX_BYTES {
                    r matches Err(a) && is_error(a, 413, "file exceeds 512 MB download cap"@)
                } else {
                    r matches Ok(s) && {
                        &&& s.path@ == p@
                        &&& s.len == m.len
                        &&& s.name@ == match file_name {
                            Some(n) => n@,
                            None => "download"@,
                        }
                        &&& s.disposition@ == match query.disposition {
                            Some(d) => d@,
                            None => "attachment"@,
                        }
                    }
                },
            },
        },
{
    match at {
        Err(e) => Err(err(403, e.as_str())),
        Ok((p, _)) => match facts {
            Err(e) => {
                let m = pshell::concat("cannot stat file: ", e.as_str());
                Err(err(400, m.as_str()))
            },
            Ok(m) => {
                if m.is_dir {
                    return Err(err(400, "path is a directory, not a file"));
                }
                if m.len > DOWNLOAD_MAX_BYTES {
                    return Err(err(413, "file exceeds 512 MB download cap"));
                }
                let name = match file_name {
                    Some(n) => text::owned(n),
                    None => text::owned("download"),
                };
                let disposition = match &query.disposition {
                    Some(d) => text::owned(d.as_str()),
                    None => text::owned("attachment"),
                };
                Ok(Sending { path: text::owned(p.as_str()), name, disposition, len: m.len })
            },
        },
    }
}

/// The headers that a file is sent with.
pub open spec fn file_headers(name: Seq<char>, disposition: Seq<char>, len: u64) -> Seq<
    (Seq<char>, Seq<char>),
> {
    seq![
        ("content-type"@, features::content_type(text::ascii_lower(text::after_last(name, '.', '.')))),
        ("content-length"@, text::decimal(len as nat)),
        ("content-disposition"@, features::disposition_of(disposition, name)),
        ("cache-control"@, "no-store"@),
    ]
}

/// The contents of a list of headers.
pub open spec fn headers_view(h: Seq<(String, String)>) -> Seq<(Seq<char>, Seq<char>)> {
    h.map_values(|p: (String, String)| (p.0@, p.1@))
}

/// The headers that a file is sent with: its type by its name, its length, and whether it is
/// shown or saved. It is not kept anywhere on the way.
pub fn stream_file_response(sending: &Sending) -> (r: Vec<(String, String)>)
    ensures
        headers_view(r@) == file_headers(sending.name@, sending.disposition@, sending.len),
{
    let mut out: Vec<(String, String)> = Vec::new();
    out.push(
        (
            text::owned("content-type"),
            text::owned(features::content_type_for(sending.name.as_str())),
        ),
    );
    out.push((text::owned("content-length"), text::decimal_of(sending.len)));
    out.push(
        (
            text::owned("content-disposition"),
            features::content_disposition(sending.disposition.as_str(), sending.name.as_str()),
        ),
    );
    out.push((text::owned("cache-control"), text::owned("no-store")));
    assert(headers_view(out@) =~= file_headers(
        sending.name@,
        sending.disposition@,
        sending.len,
    ));
    out
}

// ---------------------------------------------------------------- times

/// Milliseconds since the epoch, of a time given in seconds and nanoseconds since then; 0
/// for a time before it. Only the low 64 bits are kept.
pub fn to_epoch_ms(since_epoch: Option<(u64, u32)>) -> (r: u64)
    ensures
        r == match since_epoch {
            Some((s, n)) => (s * 1000 + n as int / 1_000_000) % 0x1_0000_0000_0000_0000,
            None => 0,
        },
{
    match since_epoch {
        Some((s, n)) => {
            let ms: u128 = s as u128 * 1000 + (n / 1_000_000) as u128;
            assert(ms as u64 == ms % 0x1_0000_0000_0000_0000u128) by (bit_vector);
            ms as u64
        },
        None => 0,
    }
}

/// Whoever has no key is told so, and how many characters the key has, no more.
pub proof fn a_wrong_key_is_told_how_long_the_right_one_is(pin: Seq<char>)
    ensures
        json::has_once(
            unauthorized_view(pin),
            "error"@,
            JsonView::Text("unauthorized"@),
        ),
        json::has_once(
            unauthorized_view(pin),
            "pinLength"@,
            JsonView::Number(Number::Unsigned(pin.len() as u64)),
        ),
{
    reveal_strlit("error");
    reveal_strlit("pinLength");
    assert("error"@.len() == 5);
    assert("pinLength"@.len() == 9);
    let fields = unauthorized_view(pin)->Object_0;
    assert(fields.len() == 2);
    assert(fields[0] == ("error"@, JsonView::Text("unauthorized"@)));
    assert(fields[1] == ("pinLength"@, JsonView::Number(Number::Unsigned(pin.len() as u64))));
}

/// A folder is shown with its name and its path.
pub proof fn folders_are_shown_by_name(name: Seq<char>, path: Seq<char>)
    ensures
        json::has_once(
            named_view(name, path),
            "name"@,
            JsonView::Text(name),
        ),
        json::has_once(
            named_view(name, path),
            "path"@,
            JsonView::Text(path),
        ),
{
    reveal_strlit("name");
    reveal_strlit("path");
    assert("name"@.len() == 4);
    assert("path"@.len() == 4);
    assert("name"@[0] != "path"@[0]);
    let fields = named_view(name, path)->Object_0;
    assert(fields.len() == 2);
    assert(fields[0] == ("name"@, JsonView::Text(name)));
    assert(fields[1] == ("path"@, JsonView::Text(path)));
}

/// A folder that is served is shown with the space on its drive: what is free, and what there is in all.
pub proof fn drives_are_shown_with_their_space(s: RootSpace)
    ensures
        json::has_once(
            s.shown(),
            "name"@,
            JsonView::Text(s.root.name@),
        ),
        json::has_once(
            s.shown(),
            "path"@,
            JsonView::Text(s.root.path@),
        ),
        json::has_once(
            s.shown(),
            "freeBytes"@,
            (match s.space {
                Some((free, total)) => JsonView::Number(Number::Unsigned(free)),
                None => JsonView::Null,
            }),
        ),
        json::has_once(
            s.shown(),
            "totalBytes"@,
            (match s.space {
                Some((free, total)) => JsonView::Number(Number::Unsigned(total)),
                None => JsonView::Null,
            }),
        ),
{
    reveal_strlit("name");
    reveal_strlit("path");
    reveal_strlit("freeBytes");
    reveal_strlit("totalBytes");
    assert("name"@.len() == 4);
    assert("path"@.len() == 4);
    assert("freeBytes"@.len() == 9);
    assert("totalBytes"@.len() == 10);
    assert("name"@[0] != "path"@[0]);
    let fields = s.shown()->Object_0;
    assert(fields.len() == 4);
    assert(fields[0] == ("name"@, JsonView::Text(s.root.name@)));
    assert(fields[1] == ("path"@, JsonView::Text(s.root.path@)));
    assert(fields[2] == ("freeBytes"@, (match s.space {
                Some((free, total)) => JsonView::Number(Number::Unsigned(free)),
                None => JsonView::Null,
            })));
    assert(fields[3] == ("totalBytes"@, (match s.space {
                Some((free, total)) => JsonView::Number(Number::Unsigned(total)),
                None => JsonView::Null,
            })));
}

/// A session is shown with each of its parts under its name.
pub proof fn sessions_are_shown_by_name(s: SessionView)
    ensures
        json::has_once(
            s.shown(),
            "id"@,
            JsonView::Text(s.id@),
        ),
        json::has_once(
            s.shown(),
            "pid"@,
            JsonView::Number(Number::Unsigned(s.pid as u64)),
        ),
        json::has_once(
            s.shown(),
            "path"@,
            JsonView::Text(s.path@),
        ),
        json::has_once(
            s.shown(),
            "name"@,
            JsonView::Text(s.name@),
        ),
        json::has_once(
            s.shown(),
            "startedAtMs"@,
            JsonView::Number(Number::Unsigned(s.started_at_ms)),
        ),
        json::has_once(
            s.shown(),
            "hidden"@,
            JsonView::Bool(s.hidden),
        ),
        json::has_once(
            s.shown(),
            "alive"@,
            JsonView::Bool(s.alive),
        ),
{
    reveal_strlit("id");
    reveal_strlit("pid");
    reveal_strlit("path");
    reveal_strlit("name");
    reveal_strlit("startedAtMs");
    reveal_strlit("hidden");
    reveal_strlit("alive");
    assert("id"@.len() == 2);
    assert("pid"@.len() == 3);
    assert("path"@.len() == 4);
    assert("name"@.len() == 4);
    assert("startedAtMs"@.len() == 11);
    assert("hidden"@.len() == 6);
    assert("alive"@.len() == 5);
    assert("path"@[0] != "name"@[0]);
    let fields = s.shown()->Object_0;
    assert(fields.len() == 7);
    assert(fields[0] == ("id"@, JsonView::Text(s.id@)));
    assert(fields[1] == ("pid"@, JsonView::Number(Number::Unsigned(s.pid as u64))));
    assert(fields[2] == ("path"@, JsonView::Text(s.path@)));
    assert(fields[3] == ("name"@, JsonView::Text(s.name@)));
    assert(fields[4] == ("startedAtMs"@, JsonView::Number(Number::Unsigned(s.started_at_ms))));
    assert(fields[5] == ("hidden"@, JsonView::Bool(s.hidden)));
    assert(fields[6] == ("alive"@, JsonView::Bool(s.alive)));
}

/// A deleted item is shown with each of its parts under its name.
pub proof fn deleted_items_are_shown_by_name(t: TrashItem)
    ensures
        json::has_once(
            t.shown(),
            "id"@,
            JsonView::Text(t.id@),
        ),
        json::has_once(
            t.shown(),
            "name"@,
            JsonView::Text(t.name@),
        ),
        json::has_once(
            t.shown(),
            "originalPath"@,
            JsonView::Text(t.original_path@),
        ),
        json::has_once(
            t.shown(),
            "deletedAtMs"@,
            json::opt_number_view(t.deleted_at_ms),
        ),
        json::has_once(
            t.shown(),
            "sizeBytes"@,
            json::opt_number_view(t.size_bytes),
        ),
        json::has_once(
            t.shown(),
            "isDir"@,
            JsonView::Bool(t.is_dir),
        ),
{
    reveal_strlit("id");
    reveal_strlit("name");
    reveal_strlit("originalPath");
    reveal_strlit("deletedAtMs");
    reveal_strlit("sizeBytes");
    reveal_strlit("isDir");
    assert("id"@.len() == 2);
    assert("name"@.len() == 4);
    assert("originalPath"@.len() == 12);
    assert("deletedAtMs"@.len() == 11);
    assert("sizeBytes"@.len() == 9);
    assert("isDir"@.len() == 5);
    let fields = t.shown()->Object_0;
    assert(fields.len() == 6);
    assert(fields[0] == ("id"@, JsonView::Text(t.id@)));
    assert(fields[1] == ("name"@, JsonView::Text(t.name@)));
    assert(fields[2] == ("originalPath"@, JsonView::Text(t.original_path@)));
    assert(fields[3] == ("deletedAtMs"@, json::opt_number_view(t.deleted_at_ms)));
    assert(fields[4] == ("sizeBytes"@, json::opt_number_view(t.size_bytes)));
    assert(fields[5] == ("isDir"@, JsonView::Bool(t.is_dir)));
}

/// What is served is chosen by one of three words, and by no other.
pub proof fn three_words_choose_what_is_served(word: Seq<char>)
    ensures
        word == "roots"@ ==> scope_of(word) == Some(Scope::Roots),
        word == "profile"@ ==> scope_of(word) == Some(Scope::Profile),
        word == "drives"@ ==> scope_of(word) == Some(Scope::Drives),
        word != "roots"@ && word != "profile"@ && word != "drives"@ ==> scope_of(word) is None,
{
    reveal_strlit("roots");
    reveal_strlit("profile");
    reveal_strlit("drives");
    assert("roots"@.len() == 5 && "profile"@.len() == 7 && "drives"@.len() == 6);
}

/// A file is sent with four headers: its type, which goes by its name; its length; its name; and that
/// it is not to be kept.
pub proof fn files_are_sent_with_their_length(
    stem: Seq<char>,
    ext: Seq<char>,
    disposition: Seq<char>,
    len: u64,
)
    requires
        !ext.contains('.'),
    ensures
        ({
            let name = stem.push('.') + ext;
            let h = file_headers(name, disposition, len);
            &&& h.len() == 4
            &&& h[0] == ("content-type"@, features::content_type(text::ascii_lower(ext)))
            &&& h[1].0 == "content-length"@ && text::digits_value(h[1].1) == len
            &&& h[2] == ("content-disposition"@, features::disposition_of(disposition, name))
            &&& h[3] == ("cache-control"@, "no-store"@)
        }),
{
    features::the_last_dot_begins_the_extension(stem, ext);
    text::numerals_read_back(len as nat);
}

/// Uploads end at 200 megabytes, downloads at 512.
pub proof fn transfers_have_their_limits(len: u64)
    ensures
        UPLOAD_BODY_LIMIT == 200 * 1024 * 1024,
        len <= DOWNLOAD_MAX_BYTES <==> len <= 512 * 1024 * 1024,
{
}

/// What is served is shown with the word for it, the configured folders, those that are served, and the shortcuts.
pub proof fn the_served_folders_are_shown(cfg: Config, spaces: Seq<RootSpace>, shortcuts: Seq<Shortcut>)
    ensures
        json::has_once(
            roots_view(cfg, spaces, shortcuts),
            "scope"@,
            JsonView::Text(scope_word_of(cfg.scope)),
        ),
        json::has_once(
            roots_view(cfg, spaces, shortcuts),
            "roots"@,
            JsonView::List(config::configured(text::views(cfg.roots@)).map_values(|r: config::RootView| named_view(r.name, r.path))),
        ),
        json::has_once(
            roots_view(cfg, spaces, shortcuts),
            "effectiveRoots"@,
            json::shown_list(spaces),
        ),
        json::has_once(
            roots_view(cfg, spaces, shortcuts),
            "shortcuts"@,
            json::shown_list(shortcuts),
        ),
{
    reveal_strlit("scope");
    reveal_strlit("roots");
    reveal_strlit("effectiveRoots");
    reveal_strlit("shortcuts");
    assert("scope"@.len() == 5);
    assert("roots"@.len() == 5);
    assert("effectiveRoots"@.len() == 14);
    assert("shortcuts"@.len() == 9);
    assert("scope"@[0] != "roots"@[0]);
    let fields = roots_view(cfg, spaces, shortcuts)->Object_0;
    assert(fields.len() == 4);
    assert(fields[0] == ("scope"@, JsonView::Text(scope_word_of(cfg.scope))));
    assert(fields[1] == ("roots"@, JsonView::List(config::configured(text::views(cfg.roots@)).map_values(|r: config::RootView| named_view(r.name, r.path)))));
    assert(fields[2] == ("effectiveRoots"@, json::shown_list(spaces)));
    assert(fields[3] == ("shortcuts"@, json::shown_list(shortcuts)));
}

} // verus!
