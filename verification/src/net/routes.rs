//! The routes of the server: what is asked for where, and for which of them the PIN is
//! needed.
use super::server::DICTATE_BODY_LIMIT;
use crate::files::api::UPLOAD_BODY_LIMIT;
use crate::text;
use vstd::prelude::*;

verus! {

/// The method of a request.
#[derive(Clone, Copy, Debug, PartialEq, Eq, Structural)]
pub enum Method {
    Get,
    Post,
    Put,
    Delete,
}

/// What answers a request.
#[derive(Clone, Copy, Debug, PartialEq, Eq, Structural)]
pub enum Handler {
    DictateUpload,
    Roots,
    SetScope,
    Ls,
    Gitstatus,
    Mkdir,
    Rename,
    Delete,
    Spawn,
    ListSessions,
    Kill,
    ListTrash,
    RestoreTrash,
    Search,
    Download,
    Gitchanges,
    SessionPeek,
    Zip,
    GetSettings,
    PutSettings,
    SetKey,
    GetHistory,
    ClearHistory,
    DeleteEntry,
    Reprocess,
    GetStats,
    Upload,
    Index,
    ViewportReport,
    AppJs,
    Icon180,
    Icon192,
    Icon512,
    Icon32,
    Manifest,
    WorkletJs,
    MicWorkletJs,
    WsAudio,
    WsMic,
}

/// A route: what answers the requests with that method and path, whether they need the PIN,
/// and the largest body that is taken, where that is not the usual one. A part of a path in
/// braces stands for anything.
pub struct Route {
    pub method: Method,
    pub path: String,
    pub handler: Handler,
    pub pin: bool,
    pub limit: Option<usize>,
}

/// A route, mathematically.
pub struct RouteView {
    pub method: Method,
    pub path: Seq<char>,
    pub handler: Handler,
    pub pin: bool,
    pub limit: Option<usize>,
}

impl View for Route {
    type V = RouteView;

    open spec fn view(&self) -> RouteView {
        RouteView {
            method: self.method,
            path: self.path@,
            handler: self.handler,
            pin: self.pin,
            limit: self.limit,
        }
    }
}

/// A route that needs the PIN.
pub open spec fn gated(
    method: Method,
    path: Seq<char>,
    handler: Handler,
    limit: Option<usize>,
) -> RouteView {
    RouteView { method, path, handler, pin: true, limit }
}

/// A route that anybody may take.
pub open spec fn free(method: Method, path: Seq<char>, handler: Handler) -> RouteView {
    RouteView { method, path, handler, pin: false, limit: None }
}

/// The routes that need the PIN.
pub open spec fn gated_routes() -> Seq<RouteView> {
    seq![
        gated(Method::Post, "/api/dictate"@, Handler::DictateUpload, Some(DICTATE_BODY_LIMIT)),
        gated(Method::Get, "/api/roots"@, Handler::Roots, None),
        gated(Method::Post, "/api/scope"@, Handler::SetScope, None),
        gated(Method::Get, "/api/ls"@, Handler::Ls, None),
        gated(Method::Get, "/api/gitstatus"@, Handler::Gitstatus, None),
        gated(Method::Post, "/api/mkdir"@, Handler::Mkdir, None),
        gated(Method::Post, "/api/rename"@, Handler::Rename, None),
        gated(Method::Post, "/api/delete"@, Handler::Delete, None),
        gated(Method::Post, "/api/spawn"@, Handler::Spawn, None),
        gated(Method::Get, "/api/sessions"@, Handler::ListSessions, None),
        gated(Method::Post, "/api/kill"@, Handler::Kill, None),
        gated(Method::Get, "/api/trash"@, Handler::ListTrash, None),
        gated(Method::Post, "/api/trash/restore"@, Handler::RestoreTrash, None),
        gated(Method::Get, "/api/search"@, Handler::Search, None),
        gated(Method::Get, "/api/download"@, Handler::Download, None),
        gated(Method::Get, "/api/gitchanges"@, Handler::Gitchanges, None),
        gated(Method::Get, "/api/session-peek"@, Handler::SessionPeek, None),
        gated(Method::Get, "/api/zip"@, Handler::Zip, None),
        gated(Method::Get, "/api/voice/settings"@, Handler::GetSettings, None),
        gated(Method::Put, "/api/voice/settings"@, Handler::PutSettings, None),
        gated(Method::Post, "/api/voice/key"@, Handler::SetKey, None),
        gated(Method::Get, "/api/voice/history"@, Handler::GetHistory, None),
        gated(Method::Delete, "/api/voice/history"@, Handler::ClearHistory, None),
        gated(Method::Delete, "/api/voice/history/{id}"@, Handler::DeleteEntry, None),
        gated(Method::Post, "/api/voice/history/{id}/reprocess"@, Handler::Reprocess, None),
        gated(Method::Get, "/api/voice/stats"@, Handler::GetStats, None),
        gated(Method::Post, "/api/upload"@, Handler::Upload, Some(UPLOAD_BODY_LIMIT)),
    ]
}

/// The routes that anybody may take.
pub open spec fn free_routes() -> Seq<RouteView> {
    seq![
        free(Method::Get, "/"@, Handler::Index),
        free(Method::Post, "/api/viewport"@, Handler::ViewportReport),
        free(Method::Get, "/app.js"@, Handler::AppJs),
        free(Method::Get, "/icon-180.png"@, Handler::Icon180),
        free(Method::Get, "/icon-192.png"@, Handler::Icon192),
        free(Method::Get, "/icon-512.png"@, Handler::Icon512),
        free(Method::Get, "/icon-32.png"@, Handler::Icon32),
        free(Method::Get, "/favicon.ico"@, Handler::Icon32),
        free(Method::Get, "/manifest.webmanifest"@, Handler::Manifest),
        free(Method::Get, "/worklet.js"@, Handler::WorkletJs),
        free(Method::Get, "/mic-worklet.js"@, Handler::MicWorkletJs),
        free(Method::Get, "/audio"@, Handler::WsAudio),
        free(Method::Get, "/mic"@, Handler::WsMic),
    ]
}

/// The routes, mathematically.
pub open spec fn views(v: Seq<Route>) -> Seq<RouteView> {
    v.map_values(|r: Route| r@)
}

fn put(
    out: &mut Vec<Route>,
    method: Method,
    path: &str,
    handler: Handler,
    pin: bool,
    limit: Option<usize>,
)
    ensures
        views(final(out)@) == views(old(out)@).push(
            (RouteView { method, path: path@, handler, pin, limit }),
        ),
{
    let ghost before = views(out@);
    out.push(Route { method, path: text::owned(path), handler, pin, limit });
    assert(views(out@) =~= before.push(RouteView { method, path: path@, handler, pin, limit }));
}

fn put_gated(out: &mut Vec<Route>)
    ensures
        views(final(out)@) == views(old(out)@) + gated_routes(),
{
    let ghost before = views(out@);
    put(out, Method::Post, "/api/dictate", Handler::DictateUpload, true, Some(DICTATE_BODY_LIMIT));
    put(out, Method::Get, "/api/roots", Handler::Roots, true, None);
    put(out, Method::Post, "/api/scope", Handler::SetScope, true, None);
    put(out, Method::Get, "/api/ls", Handler::Ls, true, None);
    put(out, Method::Get, "/api/gitstatus", Handler::Gitstatus, true, None);
    put(out, Method::Post, "/api/mkdir", Handler::Mkdir, true, None);
    put(out, Method::Post, "/api/rename", Handler::Rename, true, None);
    put(out, Method::Post, "/api/delete", Handler::Delete, true, None);
    put(out, Method::Post, "/api/spawn", Handler::Spawn, true, None);
    put(out, Method::Get, "/api/sessions", Handler::ListSessions, true, None);
    put(out, Method::Post, "/api/kill", Handler::Kill, true, None);
    put(out, Method::Get, "/api/trash", Handler::ListTrash, true, None);
    put(out, Method::Post, "/api/trash/restore", Handler::RestoreTrash, true, None);
    put(out, Method::Get, "/api/search", Handler::Search, true, None);
    put(out, Method::Get, "/api/download", Handler::Download, true, None);
    put(out, Method::Get, "/api/gitchanges", Handler::Gitchanges, true, None);
    put(out, Method::Get, "/api/session-peek", Handler::SessionPeek, true, None);
    put(out, Method::Get, "/api/zip", Handler::Zip, true, None);
    put(out, Method::Get, "/api/voice/settings", Handler::GetSettings, true, None);
    put(out, Method::Put, "/api/voice/settings", Handler::PutSettings, true, None);
    put(out, Method::Post, "/api/voice/key", Handler::SetKey, true, None);
    put(out, Method::Get, "/api/voice/history", Handler::GetHistory, true, None);
    put(out, Method::Delete, "/api/voice/history", Handler::ClearHistory, true, None);
    put(out, Method::Delete, "/api/voice/history/{id}", Handler::DeleteEntry, true, None);
    put(out, Method::Post, "/api/voice/history/{id}/reprocess", Handler::Reprocess, true, None);
    put(out, Method::Get, "/api/voice/stats", Handler::GetStats, true, None);
    put(out, Method::Post, "/api/upload", Handler::Upload, true, Some(UPLOAD_BODY_LIMIT));
    assert(views(out@) =~= before + gated_routes());
}

fn put_free(out: &mut Vec<Route>)
    ensures
        views(final(out)@) == views(old(out)@) + free_routes(),
{
    let ghost before = views(out@);
    put(out, Method::Get, "/", Handler::Index, false, None);
    put(out, Method::Post, "/api/viewport", Handler::ViewportReport, false, None);
    put(out, Method::Get, "/app.js", Handler::AppJs, false, None);
    put(out, Method::Get, "/icon-180.png", Handler::Icon180, false, None);
    put(out, Method::Get, "/icon-192.png", Handler::Icon192, false, None);
    put(out, Method::Get, "/icon-512.png", Handler::Icon512, false, None);
    put(out, Method::Get, "/icon-32.png", Handler::Icon32, false, None);
    put(out, Method::Get, "/favicon.ico", Handler::Icon32, false, None);
    put(out, Method::Get, "/manifest.webmanifest", Handler::Manifest, false, None);
    put(out, Method::Get, "/worklet.js", Handler::WorkletJs, false, None);
    put(out, Method::Get, "/mic-worklet.js", Handler::MicWorkletJs, false, None);
    put(out, Method::Get, "/audio", Handler::WsAudio, false, None);
    put(out, Method::Get, "/mic", Handler::WsMic, false, None);
    assert(views(out@) =~= before + free_routes());
}

/// The routes of the server.
pub fn router() -> (r: Vec<Route>)
    ensures
        views(r@) == gated_routes() + free_routes(),
{
    let mut out: Vec<Route> = Vec::new();
    assert(views(out@) =~= Seq::empty());
    put_gated(&mut out);
    put_free(&mut out);
    assert(views(out@) =~= gated_routes() + free_routes());
    out
}

/// A path below `/api/`.
pub open spec fn is_api(path: Seq<char>) -> bool {
    text::occurs_at(path, 0, "/api/"@)
}

/// Every route below `/api/` needs the PIN, but for the one that takes the reports of the
/// viewport.
pub proof fn the_interface_needs_the_pin(i: int)
    requires
        0 <= i < (gated_routes() + free_routes()).len(),
        is_api((gated_routes() + free_routes())[i].path),
        (gated_routes() + free_routes())[i].path != "/api/viewport"@,
    ensures
        (gated_routes() + free_routes())[i].pin,
{
    reveal_strlit("/api/");
    reveal_strlit("/");
    reveal_strlit("/app.js");
    reveal_strlit("/icon-180.png");
    reveal_strlit("/icon-192.png");
    reveal_strlit("/icon-512.png");
    reveal_strlit("/icon-32.png");
    reveal_strlit("/favicon.ico");
    reveal_strlit("/manifest.webmanifest");
    reveal_strlit("/worklet.js");
    reveal_strlit("/mic-worklet.js");
    reveal_strlit("/audio");
    reveal_strlit("/mic");
    if i >= gated_routes().len() {
        let p = (gated_routes() + free_routes())[i].path;
        assert(p == free_routes()[i - gated_routes().len()].path);
        assert(p.subrange(0, 5)[1] == 'a' && p.subrange(0, 5)[2] == 'p' && p.subrange(0, 5)[3]
            == 'i');
    }
}

/// What a request is handled by is reached under its own path, with its own method, and under no
/// other.
pub proof fn each_path_leads_to_its_handler(i: int)
    requires
        0 <= i < gated_routes().len() + free_routes().len(),
    ensures
        ({
            let r = (gated_routes() + free_routes())[i];
            &&& r.handler == Handler::DictateUpload ==> r.method == Method::Post && r.path == "/api/dictate"@
            &&& r.handler == Handler::Roots ==> r.method == Method::Get && r.path == "/api/roots"@
            &&& r.handler == Handler::SetScope ==> r.method == Method::Post && r.path == "/api/scope"@
            &&& r.handler == Handler::Ls ==> r.method == Method::Get && r.path == "/api/ls"@
            &&& r.handler == Handler::Gitstatus ==> r.method == Method::Get && r.path == "/api/gitstatus"@
            &&& r.handler == Handler::Mkdir ==> r.method == Method::Post && r.path == "/api/mkdir"@
            &&& r.handler == Handler::Rename ==> r.method == Method::Post && r.path == "/api/rename"@
            &&& r.handler == Handler::Delete ==> r.method == Method::Post && r.path == "/api/delete"@
            &&& r.handler == Handler::Spawn ==> r.method == Method::Post && r.path == "/api/spawn"@
            &&& r.handler == Handler::ListSessions ==> r.method == Method::Get && r.path == "/api/sessions"@
            &&& r.handler == Handler::Kill ==> r.method == Method::Post && r.path == "/api/kill"@
            &&& r.handler == Handler::ListTrash ==> r.method == Method::Get && r.path == "/api/trash"@
            &&& r.handler == Handler::RestoreTrash ==> r.method == Method::Post && r.path == "/api/trash/restore"@
            &&& r.handler == Handler::Search ==> r.method == Method::Get && r.path == "/api/search"@
            &&& r.handler == Handler::Download ==> r.method == Method::Get && r.path == "/api/download"@
            &&& r.handler == Handler::Gitchanges ==> r.method == Method::Get && r.path == "/api/gitchanges"@
            &&& r.handler == Handler::SessionPeek ==> r.method == Method::Get && r.path == "/api/session-peek"@
            &&& r.handler == Handler::Zip ==> r.method == Method::Get && r.path == "/api/zip"@
            &&& r.handler == Handler::GetSettings ==> r.method == Method::Get && r.path == "/api/voice/settings"@
            &&& r.handler == Handler::PutSettings ==> r.method == Method::Put && r.path == "/api/voice/settings"@
            &&& r.handler == Handler::SetKey ==> r.method == Method::Post && r.path == "/api/voice/key"@
            &&& r.handler == Handler::GetHistory ==> r.method == Method::Get && r.path == "/api/voice/history"@
            &&& r.handler == Handler::ClearHistory ==> r.method == Method::Delete && r.path == "/api/voice/history"@
            &&& r.handler == Handler::DeleteEntry ==> r.method == Method::Delete && r.path == "/api/voice/history/{id}"@
            &&& r.handler == Handler::Reprocess ==> r.method == Method::Post && r.path == "/api/voice/history/{id}/reprocess"@
            &&& r.handler == Handler::GetStats ==> r.method == Method::Get && r.path == "/api/voice/stats"@
            &&& r.handler == Handler::Upload ==> r.method == Method::Post && r.path == "/api/upload"@
            &&& r.handler == Handler::Index ==> r.method == Method::Get && r.path == "/"@
            &&& r.handler == Handler::ViewportReport ==> r.method == Method::Post && r.path == "/api/viewport"@
            &&& r.handler == Handler::AppJs ==> r.method == Method::Get && r.path == "/app.js"@
            &&& r.handler == Handler::Icon180 ==> r.method == Method::Get && r.path == "/icon-180.png"@
            &&& r.handler == Handler::Icon192 ==> r.method == Method::Get && r.path == "/icon-192.png"@
            &&& r.handler == Handler::Icon512 ==> r.method == Method::Get && r.path == "/icon-512.png"@
            &&& r.handler == Handler::Icon32 ==> r.method == Method::Get && r.path == "/icon-32.png"@ || r.method == Method::Get && r.path == "/favicon.ico"@
            &&& r.handler == Handler::Manifest ==> r.method == Method::Get && r.path == "/manifest.webmanifest"@
            &&& r.handler == Handler::WorkletJs ==> r.method == Method::Get && r.path == "/worklet.js"@
            &&& r.handler == Handler::MicWorkletJs ==> r.method == Method::Get && r.path == "/mic-worklet.js"@
            &&& r.handler == Handler::WsAudio ==> r.method == Method::Get && r.path == "/audio"@
            &&& r.handler == Handler::WsMic ==> r.method == Method::Get && r.path == "/mic"@
        }),
{
}

/// Everything under a path that is gated needs the key, and nothing else does. Only recordings and
/// uploads may be large: 64 and 200 megabytes.
pub proof fn only_recordings_and_uploads_are_large(i: int)
    requires
        0 <= i < gated_routes().len() + free_routes().len(),
    ensures
        ({
            let r = (gated_routes() + free_routes())[i];
            &&& r.pin == (i < gated_routes().len())
            &&& r.handler == Handler::DictateUpload ==> r.limit == Some((64 * 1024 * 1024) as usize)
            &&& r.handler == Handler::Upload ==> r.limit == Some((200 * 1024 * 1024) as usize)
            &&& r.handler != Handler::DictateUpload && r.handler != Handler::Upload ==> r.limit is None
        }),
{
}

} // verus!
