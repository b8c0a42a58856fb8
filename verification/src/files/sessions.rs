//! Sessions that were spawned: which of them are tracked, which are alive, and how one is
//! started.
use crate::fields;
use crate::files::config;
use crate::order;
use crate::text;
use crate::json;
use crate::json::Json;
use crate::stored;
use crate::stored::Stored;
use vstd::prelude::*;

verus! {

/// A tracked session.
#[derive(Debug)]
pub struct Session {
    pub id: String,
    pub pid: u32,
    pub path: String,
    pub name: String,
    pub started_at_ms: u64,
    pub hidden: bool,
}

/// A session, mathematically.
#[verifier::ext_equal]
pub struct SessionData {
    pub id: Seq<char>,
    pub pid: u32,
    pub path: Seq<char>,
    pub name: Seq<char>,
    pub started_at_ms: u64,
    pub hidden: bool,
}

impl View for Session {
    type V = SessionData;

    open spec fn view(&self) -> SessionData {
        SessionData {
            id: self.id@,
            pid: self.pid,
            path: self.path@,
            name: self.name@,
            started_at_ms: self.started_at_ms,
            hidden: self.hidden,
        }
    }
}

impl Clone for Session {
    fn clone(&self) -> (r: Self)
        ensures
            r@ == self@,
    {
        Session {
            id: text::owned(self.id.as_str()),
            pid: self.pid,
            path: text::owned(self.path.as_str()),
            name: text::owned(self.name.as_str()),
            started_at_ms: self.started_at_ms,
            hidden: self.hidden,
        }
    }
}

/// A session and whether it is alive.
#[derive(Debug)]
pub struct SessionView {
    pub id: String,
    pub pid: u32,
    pub path: String,
    pub name: String,
    pub started_at_ms: u64,
    pub hidden: bool,
    pub alive: bool,
}

/// A session and whether it is alive, mathematically.
pub open spec fn shown(v: SessionView) -> (SessionData, bool) {
    (
        SessionData {
            id: v.id@,
            pid: v.pid,
            path: v.path@,
            name: v.name@,
            started_at_ms: v.started_at_ms,
            hidden: v.hidden,
        },
        v.alive,
    )
}

impl order::Ranked for SessionView {
    open spec fn before(a: Self, b: Self) -> bool {
        a.started_at_ms >= b.started_at_ms
    }

    fn may_precede(a: &Self, b: &Self) -> (r: bool) {
        a.started_at_ms >= b.started_at_ms
    }
}

/// A session as it is tracked: with the moment at which it was first seen dead, if it was.
#[derive(Debug)]
pub struct Watched {
    pub session: Session,
    pub dead_since: Option<u64>,
}

/// A tracked session, mathematically.
#[verifier::ext_equal]
pub struct WatchedView {
    pub session: SessionData,
    pub dead_since: Option<u64>,
}

impl View for Watched {
    type V = WatchedView;

    open spec fn view(&self) -> WatchedView {
        WatchedView { session: self.session@, dead_since: self.dead_since }
    }
}

impl Clone for Watched {
    fn clone(&self) -> (r: Self)
        ensures
            r@ == self@,
    {
        Watched { session: self.session.clone(), dead_since: self.dead_since }
    }
}

/// The tracked sessions, no two of the same id.
pub struct SessionStore {
    sessions: Vec<Watched>,
}

/// The contents of the sessions.
pub open spec fn data(sessions: Seq<Session>) -> Seq<SessionData> {
    sessions.map_values(|s: Session| s@)
}

/// The contents of the tracked sessions.
pub open spec fn watched(sessions: Seq<Watched>) -> Seq<WatchedView> {
    sessions.map_values(|t: Watched| t@)
}

/// The sessions that are tracked.
pub open spec fn sessions_of(s: Seq<WatchedView>) -> Seq<SessionData> {
    s.map_values(|t: WatchedView| t.session)
}

/// A session that was just begun, or just taken over: not seen dead.
pub open spec fn fresh(s: SessionData) -> WatchedView {
    WatchedView { session: s, dead_since: None }
}

/// No two have the same id.
pub open spec fn distinct(s: Seq<WatchedView>) -> bool {
    forall|i: int, j: int|
        0 <= i < j < s.len() ==> (#[trigger] s[i]).session.id != (#[trigger] s[j]).session.id
}

/// The sessions with another id.
pub open spec fn without(s: Seq<WatchedView>, id: Seq<char>) -> Seq<WatchedView> {
    s.filter(|x: WatchedView| x.session.id != id)
}

/// How long a dead session stays listed.
pub const IDLE_MS: u64 = 3_600_000;

/// A session as it is tracked once it was looked at: the moment at which it was first seen
/// dead is remembered for as long as it is dead.
pub open spec fn looked_at(t: WatchedView, alive: bool, now: u64) -> WatchedView {
    WatchedView {
        session: t.session,
        dead_since: if alive {
            None
        } else {
            match t.dead_since {
                Some(d) => Some(d),
                None => Some(now),
            }
        },
    }
}

/// A session that is dropped: dead, and first seen dead more than an hour ago.
pub open spec fn stale(t: WatchedView, alive: bool, now: u64) -> bool {
    !alive && (t.dead_since matches Some(d) && now - d > IDLE_MS)
}

/// Those of the first `n` sessions that are not stale, as they are tracked from then on, with
/// whether they are alive.
pub open spec fn live(s: Seq<WatchedView>, alive: Seq<bool>, now: u64, n: int) -> Seq<
    (WatchedView, bool),
>
    decreases n,
{
    if n <= 0 || n > s.len() {
        Seq::empty()
    } else if stale(s[n - 1], alive[n - 1], now) {
        live(s, alive, now, n - 1)
    } else {
        live(s, alive, now, n - 1).push((looked_at(s[n - 1], alive[n - 1], now), alive[n - 1]))
    }
}

impl View for SessionStore {
    type V = Seq<WatchedView>;

    closed spec fn view(&self) -> Seq<WatchedView> {
        watched(self.sessions@)
    }
}

impl Default for SessionStore {
    fn default() -> (r: Self)
        ensures
            r@ == Seq::<WatchedView>::empty(),
    {
        let r = SessionStore { sessions: Vec::new() };
        assert(r@ =~= Seq::<WatchedView>::empty());
        r
    }
}

/// What the process table says of a persisted session: whether its process exists and,
/// where it could be asked, whether that runs the command interpreter.
pub struct Check {
    pub alive: bool,
    pub name_match: Option<bool>,
}

/// A persisted session is kept: its process exists and is not known to be another.
pub open spec fn kept_on_restart(c: Check) -> bool {
    c.alive && c.name_match != Some(false)
}

/// The sessions that a restart takes over; of two with the same id the last counts.
pub open spec fn taken_over(s: Seq<SessionData>, checks: Seq<Check>, n: int) -> Seq<WatchedView>
    decreases n,
{
    if n <= 0 || n > s.len() {
        Seq::empty()
    } else if kept_on_restart(checks[n - 1]) {
        without(taken_over(s, checks, n - 1), s[n - 1].id).push(fresh(s[n - 1]))
    } else {
        taken_over(s, checks, n - 1)
    }
}

proof fn lemma_without(s: Seq<WatchedView>, id: Seq<char>)
    requires
        distinct(s),
    ensures
        distinct(without(s, id)),
        forall|i: int| 0 <= i < without(s, id).len() ==> (#[trigger] without(s, id)[i]).session.id != id,
        forall|x: WatchedView| #[trigger] without(s, id).contains(x) ==> s.contains(x),
    decreases s.len(),
{
    let p = |x: WatchedView| x.session.id != id;
    if s.len() > 0 {
        reveal(Seq::filter);
        let t = s.drop_last();
        assert(distinct(t)) by {
            assert forall|i: int, j: int| 0 <= i < j < t.len() implies (#[trigger] t[i]).session.id != (
            #[trigger] t[j]).session.id by {
                assert(t[i] == s[i] && t[j] == s[j]);
            }
        }
        lemma_without(t, id);
        let f = without(t, id);
        assert(without(s, id) == if p(s.last()) {
            f.push(s.last())
        } else {
            f
        });
        assert forall|x: WatchedView| #[trigger] without(s, id).contains(x) implies s.contains(x) by {
            let k = choose|k: int| 0 <= k < without(s, id).len() && without(s, id)[k] == x;
            if k < f.len() {
                assert(f[k] == x);
                assert(without(t, id).contains(x));
                assert(t.contains(x));
                let m = choose|m: int| 0 <= m < t.len() && t[m] == x;
                assert(s[m] == x);
            } else {
                assert(s[s.len() - 1] == x);
            }
        }
        if p(s.last()) {
            assert forall|i: int| 0 <= i < f.len() implies (#[trigger] f[i]).session.id
                != s.last().session.id by {
                assert(without(t, id).contains(f[i]));
                assert(t.contains(f[i]));
                let m = choose|m: int| 0 <= m < t.len() && t[m] == f[i];
                assert(s[m].session.id != s[s.len() - 1].session.id);
            }
        }
    } else {
        reveal(Seq::filter);
    }
}

impl SessionStore {
    #[verifier::type_invariant]
    spec fn type_ok(self) -> bool {
        distinct(watched(self.sessions@))
    }

    /// The tracked sessions never hold two of the same id.
    pub fn pids(&self) -> (r: Vec<u32>)
        ensures
            r@ == self@.map_values(|t: WatchedView| t.session.pid),
            distinct(self@),
    {
        proof {
            use_type_invariant(self);
        }
        let ghost all = self@.map_values(|t: WatchedView| t.session.pid);
        let mut out: Vec<u32> = Vec::new();
        let mut i: usize = 0;
        assert(out@ =~= all.take(0));
        while i < self.sessions.len()
            invariant
                i <= self.sessions@.len(),
                all == watched(self.sessions@).map_values(|t: WatchedView| t.session.pid),
                out@ == all.take(i as int),
            decreases self.sessions@.len() - i,
        {
            out.push(self.sessions[i].session.pid);
            i = i + 1;
            assert(all.take(i as int) =~= all.take(i - 1).push(all[i - 1]));
        }
        assert(all.take(i as int) =~= all);
        out
    }

    /// A copy of the tracked sessions.
    pub fn list(&self) -> (r: Vec<Session>)
        ensures
            data(r@) == sessions_of(self@),
    {
        let ghost all = sessions_of(self@);
        let mut out: Vec<Session> = Vec::new();
        let mut i: usize = 0;
        assert(data(out@) =~= all.take(0));
        while i < self.sessions.len()
            invariant
                i <= self.sessions@.len(),
                all == sessions_of(watched(self.sessions@)),
                data(out@) == all.take(i as int),
            decreases self.sessions@.len() - i,
        {
            let ghost o = out@;
            out.push(self.sessions[i].session.clone());
            assert(data(out@) =~= data(o).push(self.sessions@[i as int].session@));
            i = i + 1;
            assert(all.take(i as int) =~= all.take(i - 1).push(all[i - 1]));
        }
        assert(all.take(i as int) =~= all);
        out
    }

    /// The sessions with another id, in order.
    fn others(&self, id: &str) -> (r: Vec<Watched>)
        ensures
            watched(r@) == without(self@, id@),
    {
        let ghost p = |x: WatchedView| x.session.id != id@;
        let mut out: Vec<Watched> = Vec::new();
        let mut i: usize = 0;
        proof {
            reveal(Seq::filter);
        }
        assert(watched(out@) =~= self@.take(0).filter(p));
        while i < self.sessions.len()
            invariant
                i <= self.sessions@.len(),
                self@ == watched(self.sessions@),
                p == (|x: WatchedView| x.session.id != id@),
                watched(out@) == self@.take(i as int).filter(p),
            decreases self.sessions@.len() - i,
        {
            proof {
                reveal(Seq::filter);
            }
            assert(self@.take(i + 1).drop_last() =~= self@.take(i as int));
            assert(self@.take(i + 1).last() == self.sessions@[i as int]@);
            if !text::same(self.sessions[i].session.id.as_str(), id) {
                let ghost o = out@;
                out.push(self.sessions[i].clone());
                assert(watched(out@) =~= watched(o).push(self.sessions@[i as int]@));
            }
            i = i + 1;
        }
        assert(self@.take(i as int) =~= self@);
        out
    }

    /// Tracks a session; one of the same id gives way to it.
    pub fn insert(&mut self, s: Session)
        ensures
            final(self)@ == without(old(self)@, s.id@).push(fresh(s@)),
    {
        proof {
            use_type_invariant(&*self);
            lemma_without(self@, s.id@);
        }
        let mut sessions = self.others(s.id.as_str());
        let ghost o = sessions@;
        sessions.push(Watched { session: s, dead_since: None });
        assert(watched(sessions@) =~= watched(o).push(fresh(s@)));
        self.sessions = sessions;
    }

    /// The session with that id.
    pub fn get(&self, id: &str) -> (r: Option<Session>)
        ensures
            match r {
                Some(s) => s.id@ == id@ && sessions_of(self@).contains(s@),
                None => unknown(self@, id@),
            },
            distinct(self@),
    {
        proof {
            use_type_invariant(self);
        }
        let mut i: usize = 0;
        while i < self.sessions.len()
            invariant
                i <= self.sessions@.len(),
                self@ == watched(self.sessions@),
                distinct(self@),
                forall|k: int| 0 <= k < i ==> (#[trigger] self@[k]).session.id != id@,
            decreases self.sessions@.len() - i,
        {
            assert(self@[i as int] == self.sessions@[i as int]@);
            if text::same(self.sessions[i].session.id.as_str(), id) {
                assert(sessions_of(self@)[i as int] == self.sessions@[i as int].session@);
                return Some(self.sessions[i].session.clone());
            }
            i = i + 1;
        }
        None
    }

    /// Stops tracking the session with that id.
    pub fn remove(&mut self, id: &str) -> (r: Option<Session>)
        ensures
            final(self)@ == without(old(self)@, id@),
            match r {
                Some(s) => s.id@ == id@ && sessions_of(old(self)@).contains(s@),
                None => unknown(old(self)@, id@),
            },
    {
        proof {
            use_type_invariant(&*self);
            lemma_without(self@, id@);
        }
        let found = self.get(id);
        let sessions = self.others(id);
        self.sessions = sessions;
        found
    }

    /// The sessions that a restart takes over, given what the process table says of each.
    pub fn load_or_default(persisted: &Vec<Session>, checks: &Vec<Check>) -> (r: SessionStore)
        requires
            persisted@.len() == checks@.len(),
        ensures
            r@ == taken_over(data(persisted@), checks@, persisted@.len() as int),
    {
        let mut store = SessionStore::default();
        let ghost all = data(persisted@);
        let mut i: usize = 0;
        while i < persisted.len()
            invariant
                i <= persisted@.len() == checks@.len(),
                all == data(persisted@),
                store@ == taken_over(all, checks@, i as int),
            decreases persisted@.len() - i,
        {
            assert(all[i as int] == persisted@[i as int]@);
            if restore_decision(checks[i].alive, checks[i].name_match) {
                store.insert(persisted[i].clone());
            }
            i = i + 1;
        }
        store
    }

    /// Lists the sessions, the last begun first, given for each whether it is alive. Those
    /// that have been dead for over an hour are dropped from the store and not listed; of the
    /// others that are dead the moment at which they were first seen so is remembered.
    pub fn snapshot_and_prune(&mut self, now_ms: u64, alive: &Vec<bool>) -> (r: Vec<SessionView>)
        requires
            alive@.len() == old(self)@.len(),
        ensures
            final(self)@ == live(
                old(self)@,
                alive@,
                now_ms,
                old(self)@.len() as int,
            ).map_values(|x: (WatchedView, bool)| x.0),
            exists|v: Seq<SessionView>|
                r@ == #[trigger] order::sorted(v) && v.map_values(|x: SessionView| shown(x))
                    == live(old(self)@, alive@, now_ms, old(self)@.len() as int).map_values(
                    |x: (WatchedView, bool)| (x.0.session, x.1),
                ),
    {
        proof {
            use_type_invariant(&*self);
        }
        let ghost all = self@;
        let ghost first = |x: (WatchedView, bool)| x.0;
        let ghost listed = |x: (WatchedView, bool)| (x.0.session, x.1);
        let ghost show = |x: SessionView| shown(x);
        let mut kept: Vec<Watched> = Vec::new();
        let mut views: Vec<SessionView> = Vec::new();
        let mut i: usize = 0;
        assert(watched(kept@) =~= live(all, alive@, now_ms, 0).map_values(first));
        assert(views@.map_values(show) =~= live(all, alive@, now_ms, 0).map_values(listed));
        while i < self.sessions.len()
            invariant
                i <= self.sessions@.len() == alive@.len(),
                all == watched(self.sessions@),
                distinct(all),
                first == (|x: (WatchedView, bool)| x.0),
                listed == (|x: (WatchedView, bool)| (x.0.session, x.1)),
                show == (|x: SessionView| shown(x)),
                watched(kept@) == live(all, alive@, now_ms, i as int).map_values(first),
                views@.map_values(show) == live(all, alive@, now_ms, i as int).map_values(listed),
                distinct(watched(kept@)),
                forall|k: int|
                    0 <= k < kept@.len() ==> exists|m: int|
                        0 <= m < i && #[trigger] all[m].session.id == (#[trigger] watched(
                            kept@,
                        )[k]).session.id,
            decreases self.sessions@.len() - i,
        {
            let t = &self.sessions[i];
            let s = &t.session;
            assert(all[i as int] == t@);
            let is_alive = alive[i];
            let ghost before = live(all, alive@, now_ms, i as int);
            let dead_since: Option<u64> = if is_alive {
                None
            } else {
                match t.dead_since {
                    Some(d) => Some(d),
                    None => Some(now_ms),
                }
            };
            let long_dead = match dead_since {
                Some(d) => now_ms > d && now_ms - d > IDLE_MS,
                None => false,
            };
            assert(long_dead == stale(all[i as int], is_alive, now_ms));
            if !long_dead {
                let ghost k0 = kept@;
                let ghost v0 = views@;
                kept.push(Watched { session: s.clone(), dead_since });
                views.push(
                    SessionView {
                        id: text::owned(s.id.as_str()),
                        pid: s.pid,
                        path: text::owned(s.path.as_str()),
                        name: text::owned(s.name.as_str()),
                        started_at_ms: s.started_at_ms,
                        hidden: s.hidden,
                        alive: is_alive,
                    },
                );
                proof {
                    let entry = (looked_at(t@, is_alive, now_ms), is_alive);
                    assert(watched(kept@) =~= watched(k0).push(entry.0));
                    assert(before.push(entry).map_values(first) =~= before.map_values(first).push(
                        entry.0,
                    ));
                    assert(before.push(entry).map_values(listed) =~= before.map_values(
                        listed,
                    ).push((s@, is_alive)));
                    assert(views@.map_values(show) =~= v0.map_values(show).push((s@, is_alive)));
                    assert forall|a: int, b: int| 0 <= a < b < kept@.len() implies (
                    #[trigger] watched(kept@)[a]).session.id != (#[trigger] watched(
                        kept@,
                    )[b]).session.id by {
                        assert(watched(kept@)[a] == watched(k0)[a]);
                        let m = choose|m: int|
                            0 <= m < i && #[trigger] all[m].session.id == watched(
                                k0,
                            )[a].session.id;
                        if b == k0.len() {
                            assert(all[m].session.id != all[i as int].session.id);
                        } else {
                            assert(watched(kept@)[b] == watched(k0)[b]);
                        }
                    }
                    assert forall|k: int| 0 <= k < kept@.len() implies exists|m: int|
                        0 <= m < i + 1 && #[trigger] all[m].session.id == (#[trigger] watched(
                            kept@,
                        )[k]).session.id by {
                        if k < k0.len() {
                            assert(watched(kept@)[k] == watched(k0)[k]);
                            let m = choose|m: int|
                                0 <= m < i && #[trigger] all[m].session.id == watched(
                                    k0,
                                )[k].session.id;
                            assert(0 <= m < i + 1 && all[m].session.id == watched(
                                kept@,
                            )[k].session.id);
                        } else {
                            assert(all[i as int].session.id == watched(kept@)[k].session.id);
                        }
                    }
                }
            }
            i = i + 1;
        }
        self.sessions = kept;
        order::sort_stable(views)
    }
}

/// Whether a persisted session is kept: its process exists, and is not known to run
/// something else than the command interpreter.
pub fn restore_decision(alive: bool, name_match: Option<bool>) -> (r: bool)
    ensures
        r == (alive && name_match != Some(false)),
{
    if !alive {
        return false;
    }
    match name_match {
        Some(matches) => matches,
        None => true,
    }
}

/// Whether the path of a process image is that of the command interpreter.
pub fn process_name_matches_cmd(image_path: &str) -> (r: bool)
    ensures
        r == text::eq_ignore_case(text::after_last(image_path@, '\\', '/'), "cmd.exe"@),
{
    let chars = text::chars_of(image_path);
    let name = text::string_of(text::suffix_after_last(chars.as_slice(), '\\', '/'));
    text::equals_ignore_case(name.as_str(), "cmd.exe")
}

/// A name without its double quotes.
pub open spec fn unquoted(name: Seq<char>) -> Seq<char> {
    name.filter(|c: char| c != '"')
}

/// The command line that starts a session.
pub open spec fn spawn_line(program: Seq<char>, name: Option<Seq<char>>) -> Seq<char> {
    match name {
        Some(n) => "\""@ + program + "\" --remote-control \""@ + unquoted(n)
            + "\" --permission-mode auto"@,
        None => "\""@ + program + "\" --remote-control --permission-mode auto"@,
    }
}

/// The command line that starts a session. The path and the name stand in quotes of
/// their own; quotes inside the name are dropped.
pub fn build_spawn_cmdline(program: &str, session_name: Option<&str>) -> (r: String)
    ensures
        r@ == spawn_line(program@, text::opt_str(session_name)),
{
    let mut out = text::owned("\"");
    out.append(program);
    match session_name {
        Some(n) => {
            let ghost p = |c: char| c != '"';
            let mut name = String::new();
            assert(name@ =~= n@.take(0).filter(p));
            for c in it: n.chars()
                invariant
                    p == (|c: char| c != '"'),
                    name@ == it.seq().take(it.index() as int).filter(p),
                    it.seq() == n@,
            {
                assert(it.seq().take(it.index() + 1) =~= it.seq().take(it.index() as int).push(c));
                proof {
                    text::lemma_filter_push(it.seq().take(it.index() as int), c, p);
                }
                if c != '"' {
                    name.push(c);
                }
            }
            assert(n@.take(n@.len() as int) =~= n@);
            out.append("\" --remote-control \"");
            out.append(name.as_str());
            out.append("\" --permission-mode auto");
        },
        None => {
            out.append("\" --remote-control --permission-mode auto");
        },
    }
    out
}

/// The name given to a session by hand, trimmed, if there is one.
pub open spec fn custom_name(name: Option<Seq<char>>) -> Option<Seq<char>> {
    match name {
        Some(n) => if text::blank(n) {
            None
        } else {
            Some(text::trimmed(n))
        },
        None => None,
    }
}

/// The name a session is shown under: the one given by hand, else that of its folder, else
/// that of the program.
pub open spec fn display_name(
    name: Option<Seq<char>>,
    folder: Option<Seq<char>>,
    program: Seq<char>,
) -> Seq<char> {
    match custom_name(name) {
        Some(n) => n,
        None => match folder {
            Some(f) => f,
            None => program,
        },
    }
}

/// What a session is started with: the name for the command line, if one was given by
/// hand, and the name it is shown under.
pub fn session_names(name: Option<&str>, folder: Option<&str>, program: &str) -> (r: (
    Option<String>,
    String,
))
    ensures
        text::opt_view(r.0) == custom_name(text::opt_str(name)),
        r.1@ == display_name(text::opt_str(name), text::opt_str(folder), program@),
{
    if let Some(n) = name {
        if !text::is_blank(n) {
            return (Some(text::trim(n)), text::trim(n));
        }
    }
    let shown = match folder {
        Some(f) => text::owned(f),
        None => text::owned(program),
    };
    (None, shown)
}

/// The arguments of the shell that starts a session: it ends with the session if that is
/// hidden, and stays otherwise.
pub fn spawn_args(program: &str, custom: Option<&str>, hidden: bool) -> (r: Vec<String>)
    ensures
        text::views(r@) == seq![
            "/s"@,
            if hidden {
                "/c"@
            } else {
                "/k"@
            },
            "\""@ + spawn_line(program@, text::opt_str(custom)) + "\""@,
        ],
{
    let line = build_spawn_cmdline(program, custom);
    let mut quoted = text::owned("\"");
    quoted.append(line.as_str());
    quoted.append("\"");
    let mut out: Vec<String> = Vec::new();
    out.push(text::owned("/s"));
    out.push(
        if hidden {
            text::owned("/c")
        } else {
            text::owned("/k")
        },
    );
    out.push(quoted);
    assert(text::views(out@) =~= seq![
        "/s"@,
        if hidden {
            "/c"@
        } else {
            "/k"@
        },
        "\""@ + spawn_line(program@, text::opt_str(custom)) + "\""@,
    ]);
    out
}

/// Where and how a session is started.
pub struct Launch {
    pub id: String,
    pub path: String,
    pub shown_name: String,
    pub hidden: bool,
    pub now_ms: u64,
}

/// The session that was started.
pub open spec fn launched(l: Launch, pid: u32) -> SessionData {
    SessionData {
        id: l.id@,
        pid,
        path: l.path@,
        name: l.shown_name@,
        started_at_ms: l.now_ms,
        hidden: l.hidden,
    }
}

/// Tracks the session that was started, given its process or why it could not be started.
pub fn spawn(store: &mut SessionStore, launch: &Launch, started: &Result<u32, String>) -> (r: Result<
    Session,
    String,
>)
    ensures
        match started {
            Ok(pid) => r matches Ok(s) && s@ == launched(*launch, *pid) && final(store)@
                == without(old(store)@, launch.id@).push(fresh(s@)),
            Err(e) => r matches Err(m) && m@ == "failed to spawn: "@ + e@ && final(store)@ == old(
                store,
            )@,
        },
{
    match started {
        Ok(pid) => {
            let s = Session {
                id: text::owned(launch.id.as_str()),
                pid: *pid,
                path: text::owned(launch.path.as_str()),
                name: text::owned(launch.shown_name.as_str()),
                started_at_ms: launch.now_ms,
                hidden: launch.hidden,
            };
            store.insert(s.clone());
            Ok(s)
        },
        Err(e) => {
            let mut m = text::owned("failed to spawn: ");
            m.append(e.as_str());
            Err(m)
        },
    }
}

/// The arguments that end a process and all that it started.
pub fn kill_args(pid: u32) -> (r: Vec<String>)
    ensures
        text::views(r@) == seq!["/PID"@, text::decimal(pid as nat), "/T"@, "/F"@],
{
    let mut out: Vec<String> = Vec::new();
    out.push(text::owned("/PID"));
    out.push(text::decimal_of(pid as u64));
    out.push(text::owned("/T"));
    out.push(text::owned("/F"));
    assert(text::views(out@) =~= seq!["/PID"@, text::decimal(pid as nat), "/T"@, "/F"@]);
    out
}

/// No session has that id.
pub open spec fn unknown(store: Seq<WatchedView>, id: Seq<char>) -> bool {
    forall|i: int| 0 <= i < store.len() ==> (#[trigger] store[i]).session.id != id
}

/// Stops tracking a session, given what came of ending its process. It is no longer
/// tracked even where ending it failed.
pub fn kill(store: &mut SessionStore, id: &str, ended: &Result<(), String>) -> (r: Result<
    (),
    String,
>)
    ensures
        final(store)@ == without(old(store)@, id@),
        if unknown(old(store)@, id@) {
            r matches Err(m) && m@ == "unknown session id"@
        } else {
            match ended {
                Ok(_) => r is Ok,
                Err(e) => r matches Err(m) && m@ == "taskkill failed: "@ + e@,
            }
        },
{
    let ghost before = store@;
    match store.remove(id) {
        None => Err(text::owned("unknown session id")),
        Some(s) => {
            assert(!unknown(before, id@)) by {
                let i = choose|i: int| 0 <= i < before.len() && sessions_of(before)[i] == s@;
                assert(before[i].session.id == id@);
            }
            match ended {
                Ok(_) => Ok(()),
                Err(e) => {
                    let mut m = text::owned("taskkill failed: ");
                    m.append(e.as_str());
                    Err(m)
                },
            }
        },
    }
}

/// The id of a new session: sixteen hexadecimal digits, made of the clock and the process id.
pub fn new_id(nanos: u64, pid: u32) -> (r: String)
    ensures
        r@ == text::hex(config::seed_of(nanos, pid) as nat, 16),
{
    let mixed: u64 = config::seed(nanos, pid);
    let mut out = String::new();
    text::push_hex(&mut out, mixed, 16);
    assert(out@ =~= text::hex(mixed as nat, 16));
    out
}

/// The program that starts a session: the first line of what looking for it wrote, if
/// looking succeeded, else its bare name.
pub fn claude_command(found: Option<&str>, program: &str) -> (r: String)
    ensures
        r@ == command_of(text::opt_str(found), program@),
{
    if let Some(out) = found {
        let chars = text::chars_of(out);
        let lines = text::split_lines(chars.as_slice());
        assert(text::deep(lines@).len() == lines@.len());
        if lines.len() > 0 {
            let first = text::trim_chars(lines[0].as_slice());
            assert(text::deep(lines@)[0] == lines@[0]@);
            if first.len() > 0 {
                return text::string_of(first);
            }
        }
    }
    text::owned(program)
}

/// The program that starts a session.
pub open spec fn command_of(found: Option<Seq<char>>, program: Seq<char>) -> Seq<char> {
    match found {
        Some(out) => if text::lines(out).len() > 0 && !text::blank(text::lines(out)[0]) {
            text::trimmed(text::lines(out)[0])
        } else {
            program
        },
        None => program,
    }
}

// ---------------------------------------------------------------- laws

/// A name cannot end the quotes it stands in.
pub proof fn names_hold_no_quotes(name: Seq<char>)
    ensures
        !unquoted(name).contains('"'),
    decreases name.len(),
{
    reveal(Seq::filter);
    if name.len() > 0 {
        names_hold_no_quotes(name.drop_last());
        let front = unquoted(name.drop_last());
        assert forall|i: int| 0 <= i < unquoted(name).len() implies unquoted(name)[i] != '"' by {
            if i < front.len() {
                assert(front.contains(front[i]));
            }
        }
    }
}

/// Inserting a session and removing it again leaves the others as they were.
pub proof fn removing_undoes_inserting(store: Seq<WatchedView>, s: SessionData)
    requires
        distinct(store),
    ensures
        without(without(store, s.id).push(fresh(s)), s.id) == without(store, s.id),
{
    lemma_without(store, s.id);
    let w = without(store, s.id);
    reveal(Seq::filter);
    assert(w.push(fresh(s)).drop_last() =~= w);
    lemma_filter_all(w, s.id);
}

proof fn lemma_filter_all(s: Seq<WatchedView>, id: Seq<char>)
    requires
        forall|i: int| 0 <= i < s.len() ==> (#[trigger] s[i]).session.id != id,
    ensures
        without(s, id) == s,
    decreases s.len(),
{
    reveal(Seq::filter);
    if s.len() > 0 {
        let t = s.drop_last();
        assert forall|i: int| 0 <= i < t.len() implies (#[trigger] t[i]).session.id != id by {
            assert(t[i] == s[i]);
        }
        lemma_filter_all(t, id);
        assert(s[s.len() - 1].session.id != id);
        assert(t.push(s.last()) =~= s);
    }
}

/// A living session is never dropped, however old; nor is a dead one that was not seen dead
/// more than an hour ago.
pub proof fn living_and_recently_dead_sessions_stay(
    s: Seq<WatchedView>,
    alive: Seq<bool>,
    now: u64,
    n: int,
    k: int,
)
    requires
        0 <= k < n <= s.len() == alive.len(),
        alive[k] || (s[k].dead_since matches Some(d) ==> now - d <= IDLE_MS),
    ensures
        live(s, alive, now, n).contains((looked_at(s[k], alive[k], now), alive[k])),
    decreases n,
{
    let r = live(s, alive, now, n);
    let entry = (looked_at(s[k], alive[k], now), alive[k]);
    if k < n - 1 {
        living_and_recently_dead_sessions_stay(s, alive, now, n - 1, k);
        let p = live(s, alive, now, n - 1);
        let m = choose|m: int| 0 <= m < p.len() && p[m] == entry;
        assert(r[m] == entry);
    } else {
        assert(r[r.len() - 1] == entry);
    }
}

/// The moment at which a session was first seen dead does not move while it stays dead: it is
/// dropped an hour after that, however often it is looked at.
pub proof fn looking_does_not_delay_dropping(t: WatchedView, first: u64, later: u64, last: u64)
    requires
        t.dead_since is None,
    ensures
        looked_at(looked_at(t, false, first), false, later).dead_since == Some(first),
        stale(looked_at(looked_at(t, false, first), false, later), false, last) == (last - first
            > IDLE_MS),
{
}

// ---------------------------------------------------------------- on disk

impl Stored for Session {
    open spec fn written(v: SessionData) -> json::JsonView {
        json::JsonView::Object(
            seq![
                ("id"@, String::written(v.id)),
                ("pid"@, u32::written(v.pid)),
                ("path"@, String::written(v.path)),
                ("name"@, String::written(v.name)),
                ("startedAtMs"@, u64::written(v.started_at_ms)),
                ("hidden"@, bool::written(v.hidden)),
            ],
        )
    }

    open spec fn read(j: json::JsonView) -> Option<SessionData> {
        if !stored::is_record(j, 6) {
            None
        } else {
            match (
                stored::value_or::<String>(stored::part(j, "id"@, 0), None),
                stored::value_or::<u32>(stored::part(j, "pid"@, 1), None),
                stored::value_or::<String>(stored::part(j, "path"@, 2), None),
                stored::value_or::<String>(stored::part(j, "name"@, 3), None),
                stored::value_or::<u64>(stored::part(j, "startedAtMs"@, 4), None),
                stored::value_or::<bool>(stored::part(j, "hidden"@, 5), None),
            ) {
                (Some(id), Some(pid), Some(path), Some(name), Some(started_at_ms), Some(hidden)) => Some(
                    SessionData { id, pid, path, name, started_at_ms, hidden },
                ),
                _ => None,
            }
        }
    }

    fn to_stored(&self) -> (r: Json) {
        let mut f: Vec<(String, Json)> = Vec::new();
        assert(json::fields_view(f@) =~= Seq::empty());
        json::put(&mut f, "id", self.id.to_stored());
        json::put(&mut f, "pid", self.pid.to_stored());
        json::put(&mut f, "path", self.path.to_stored());
        json::put(&mut f, "name", self.name.to_stored());
        json::put(&mut f, "startedAtMs", self.started_at_ms.to_stored());
        json::put(&mut f, "hidden", self.hidden.to_stored());
        assert(json::fields_view(f@) =~= Self::written(self@)->Object_0);
        Json::Object(f)
    }

    fn from_stored(j: &Json) -> (r: Option<Session>) {
        if !stored::record_like(j, 6) {
            return None;
        }
        let id = stored::read_or::<String>(stored::part_of(j, "id", 0), None);
        let pid = stored::read_or::<u32>(stored::part_of(j, "pid", 1), None);
        let path = stored::read_or::<String>(stored::part_of(j, "path", 2), None);
        let name = stored::read_or::<String>(stored::part_of(j, "name", 3), None);
        let started = stored::read_or::<u64>(stored::part_of(j, "startedAtMs", 4), None);
        let hidden = stored::read_or::<bool>(stored::part_of(j, "hidden", 5), None);
        match (id, pid, path, name, started, hidden) {
            (Some(id), Some(pid), Some(path), Some(name), Some(started_at_ms), Some(hidden)) => Some(
                Session { id, pid, path, name, started_at_ms, hidden },
            ),
            _ => None,
        }
    }

    proof fn reads_back(v: SessionData) {
        reveal_strlit("id");
        reveal_strlit("pid");
        reveal_strlit("path");
        reveal_strlit("name");
        reveal_strlit("startedAtMs");
        reveal_strlit("hidden");
        let fields = Self::written(v)->Object_0;
        assert("id"@.len() == 2);
        assert("pid"@.len() == 3);
        assert("path"@.len() == 4);
        assert("name"@.len() == 4);
        assert("startedAtMs"@.len() == 11);
        assert("hidden"@.len() == 6);
        assert("path"@[0] != "name"@[0]);
        stored::lemma_lookup(fields, 0);
        stored::lemma_lookup(fields, 1);
        stored::lemma_lookup(fields, 2);
        stored::lemma_lookup(fields, 3);
        stored::lemma_lookup(fields, 4);
        stored::lemma_lookup(fields, 5);
    }
}

/// The sessions that a text tells of; none if it is not a list of sessions, or if one of them
/// repeats a field.
pub open spec fn sessions_in(text: Seq<char>) -> Seq<SessionData> {
    match fields::every_field(text) {
        Ok(j) => match stored::read_list::<Session>(j) {
            Some(v) => v,
            None => Seq::empty(),
        },
        Err(_) => Seq::empty(),
    }
}

/// The sessions that a text tells of.
pub fn parse_sessions(text: &str) -> (r: Vec<Session>)
    ensures
        data(r@) == sessions_in(text@),
{
    let read = match fields::parse(text) {
        Ok(j) => stored::list_from::<Session>(&j),
        Err(_) => None,
    };
    match read {
        Some(v) => {
            assert(data(v@) =~= stored::views_of(v@));
            v
        },
        None => {
            let none: Vec<Session> = Vec::new();
            assert(data(none@) =~= Seq::empty());
            none
        },
    }
}

/// How sessions are written.
pub fn sessions_json(v: &Vec<Session>) -> (r: Json)
    ensures
        r@ == stored::written_list::<Session>(data(v@)),
{
    assert(data(v@) =~= stored::views_of(v@));
    stored::write_list::<Session>(v)
}

/// Sessions that were written are read back.
pub proof fn sessions_read_back(v: Seq<SessionData>)
    ensures
        stored::read_list::<Session>(stored::written_list::<Session>(v)) == Some(v),
{
    stored::lists_read_back::<Session>(v);
}

/// A session that has not been alive for more than an hour, counted from when it was first found so,
/// is dropped; one that is alive, or not yet seen to be gone, or gone for an hour or less, is not.
pub proof fn sessions_are_dropped_after_an_hour(t: WatchedView, alive: bool, now: u64)
    ensures
        alive ==> !stale(t, alive, now),
        t.dead_since is None ==> !stale(t, alive, now),
        t.dead_since matches Some(d) ==> (!alive ==> stale(t, alive, now) == (now - d > 60 * 60
            * 1000)),
        looked_at(t, alive, now).session == t.session,
        alive ==> looked_at(t, alive, now).dead_since is None,
        !alive && t.dead_since is None ==> looked_at(t, alive, now).dead_since == Some(now),
        !alive && t.dead_since is Some ==> looked_at(t, alive, now).dead_since == t.dead_since,
{
}

/// Whatever is listed is one of the sessions there were, with whether it is alive, and none that is
/// to be dropped; and what is listed first was first.
pub proof fn only_known_sessions_are_listed(
    s: Seq<WatchedView>,
    alive: Seq<bool>,
    now: u64,
    n: int,
    i: int,
) -> (k: int)
    requires
        0 <= n <= s.len() == alive.len(),
        0 <= i < live(s, alive, now, n).len(),
    ensures
        i <= k < n,
        live(s, alive, now, n)[i] == (looked_at(s[k], alive[k], now), alive[k]),
        !stale(s[k], alive[k], now),
    decreases n,
{
    let before = live(s, alive, now, n - 1);
    lemma_live_len(s, alive, now, n - 1);
    if i < before.len() {
        assert(live(s, alive, now, n)[i] == before[i]);
        only_known_sessions_are_listed(s, alive, now, n - 1, i)
    } else {
        n - 1
    }
}

proof fn lemma_live_len(s: Seq<WatchedView>, alive: Seq<bool>, now: u64, n: int)
    ensures
        n >= 0 ==> live(s, alive, now, n).len() <= n,
        n < 0 ==> live(s, alive, now, n).len() == 0,
    decreases n,
{
    if n > 0 && n <= s.len() {
        lemma_live_len(s, alive, now, n - 1);
    }
}

/// After a restart a session is kept that is alive and not known to be another program by now.
pub proof fn restarts_keep_what_is_alive(c: Check)
    ensures
        !c.alive ==> !kept_on_restart(c),
        c.name_match == Some(false) ==> !kept_on_restart(c),
        c.alive && c.name_match == Some(true) ==> kept_on_restart(c),
        c.alive && c.name_match is None ==> kept_on_restart(c),
{
}

/// A session that is kept after a restart, and whose id none behind it has, is known afterwards;
/// what is known afterwards was stored and is kept.
pub proof fn restarts_take_over_what_was_stored(
    s: Seq<SessionData>,
    checks: Seq<Check>,
    n: int,
    k: int,
)
    requires
        0 <= k < n <= s.len() == checks.len(),
        checks[k].alive,
        checks[k].name_match != Some(false),
        forall|j: int| k < j < n ==> (#[trigger] s[j]).id != s[k].id,
    ensures
        taken_over(s, checks, n).contains(fresh(s[k])),
    decreases n,
{
    let all = taken_over(s, checks, n);
    if k == n - 1 {
        assert(all.last() == fresh(s[k]));
    } else {
        restarts_take_over_what_was_stored(s, checks, n - 1, k);
        let before = taken_over(s, checks, n - 1);
        let i = choose|i: int| 0 <= i < before.len() && before[i] == fresh(s[k]);
        assert(s[n - 1].id != s[k].id);
        if kept_on_restart(checks[n - 1]) {
            let p = |x: WatchedView| x.session.id != s[n - 1].id;
            assert(p(before[i]));
            before.lemma_filter_contains(p, i);
            let w = without(before, s[n - 1].id);
            let j = choose|j: int| 0 <= j < w.len() && w[j] == fresh(s[k]);
            assert(all[j] == fresh(s[k]));
        }
    }
}

/// A session that is put in is there; it takes the place of one of the same id, and all others stay.
pub proof fn sessions_take_the_place_of_their_id(store: Seq<WatchedView>, s: SessionData, i: int)
    ensures
        without(store, s.id).push(fresh(s)).contains(fresh(s)),
        0 <= i < store.len() && store[i].session.id != s.id ==> without(store, s.id).contains(
            store[i],
        ),
        fresh(s).session == s,
        fresh(s).dead_since is None,
{
    assert(without(store, s.id).push(fresh(s)).last() == fresh(s));
    if 0 <= i < store.len() && store[i].session.id != s.id {
        store.lemma_filter_contains(|x: WatchedView| x.session.id != s.id, i);
    }
}

/// The command that starts a session names the program, in quotes, lets it be controlled from afar,
/// under the session's name where it has one, and lets it act by itself.
pub proof fn sessions_are_started_under_their_name(program: Seq<char>, name: Seq<char>)
    requires
        !name.contains('"'),
    ensures
        spawn_line(program, None) == seq!['"'] + program
            + "\" --remote-control --permission-mode auto"@,
        spawn_line(program, Some(name)) == seq!['"'] + program + "\" --remote-control \""@ + name
            + "\" --permission-mode auto"@,
{
    reveal_strlit("\"");
    assert("\""@ =~= seq!['"']);
    let p = |c: char| c != '"';
    assert forall|i: int| 0 <= i < name.len() implies p(#[trigger] name[i]) by {
        assert(name.contains(name[i]));
    }
    text::filters_go_piece_by_piece(Seq::empty(), name, p);
}

/// A session goes by the name it was given, trimmed; without one by that of its folder, and without
/// that by the program.
pub proof fn sessions_go_by_their_name(n: Seq<char>, f: Seq<char>, program: Seq<char>)
    ensures
        !text::blank(n) ==> display_name(Some(n), Some(f), program) == text::trimmed(n)
            && display_name(Some(n), None, program) == text::trimmed(n) && custom_name(Some(n))
            == Some(text::trimmed(n)),
        text::blank(n) ==> display_name(Some(n), Some(f), program) == f && custom_name(Some(n)) is None,
        display_name(None, Some(f), program) == f,
        display_name(None, None, program) == program,
        custom_name(None) is None,
{
}

/// A session that was started has the number of its process and is otherwise as it was asked for.
pub proof fn sessions_start_as_asked_for(l: Launch, pid: u32)
    ensures
        launched(l, pid).id == l.id@,
        launched(l, pid).pid == pid,
        launched(l, pid).path == l.path@,
        launched(l, pid).name == l.shown_name@,
        launched(l, pid).started_at_ms == l.now_ms,
        launched(l, pid).hidden == l.hidden,
{
}

/// The program is the first line of what was found, trimmed; where nothing was found, or that line
/// is blank, it is the one that is known.
pub proof fn the_first_line_names_the_program(
    line: Seq<char>,
    rest: Seq<char>,
    program: Seq<char>,
)
    requires
        !line.contains('\n'),
        line.len() == 0 || line.last() != '\r',
    ensures
        !text::blank(line) ==> command_of(Some(line.push('\n') + rest), program) == text::trimmed(
            line,
        ),
        text::blank(line) ==> command_of(Some(line.push('\n') + rest), program) == program,
        command_of(None, program) == program,
        command_of(Some(Seq::empty()), program) == program,
{
    text::line_feeds_end_lines(line, rest);
}

/// A session is stored with each of its parts under its name.
pub proof fn sessions_are_stored_by_name(v: SessionData)
    ensures
        json::has_once(
            Session::written(v),
            "id"@,
            json::JsonView::Text(v.id),
        ),
        json::has_once(
            Session::written(v),
            "pid"@,
            json::JsonView::Number(json::Number::Unsigned(v.pid as u64)),
        ),
        json::has_once(
            Session::written(v),
            "path"@,
            json::JsonView::Text(v.path),
        ),
        json::has_once(
            Session::written(v),
            "name"@,
            json::JsonView::Text(v.name),
        ),
        json::has_once(
            Session::written(v),
            "startedAtMs"@,
            json::JsonView::Number(json::Number::Unsigned(v.started_at_ms)),
        ),
        json::has_once(
            Session::written(v),
            "hidden"@,
            json::JsonView::Bool(v.hidden),
        ),
{
    reveal_strlit("id");
    reveal_strlit("pid");
    reveal_strlit("path");
    reveal_strlit("name");
    reveal_strlit("startedAtMs");
    reveal_strlit("hidden");
    assert("id"@.len() == 2);
    assert("pid"@.len() == 3);
    assert("path"@.len() == 4);
    assert("name"@.len() == 4);
    assert("startedAtMs"@.len() == 11);
    assert("hidden"@.len() == 6);
    assert("path"@[0] != "name"@[0]);
    let fields = Session::written(v)->Object_0;
    assert(fields.len() == 6);
    assert(fields[0] == ("id"@, json::JsonView::Text(v.id)));
    assert(fields[1] == ("pid"@, json::JsonView::Number(json::Number::Unsigned(v.pid as u64))));
    assert(fields[2] == ("path"@, json::JsonView::Text(v.path)));
    assert(fields[3] == ("name"@, json::JsonView::Text(v.name)));
    assert(fields[4] == ("startedAtMs"@, json::JsonView::Number(json::Number::Unsigned(v.started_at_ms))));
    assert(fields[5] == ("hidden"@, json::JsonView::Bool(v.hidden)));
}

} // verus!
