//! What a request is answered.
use crate::json;
use crate::json::Json;
use vstd::prelude::*;

verus! {

/// An answer: its status and its body.
pub struct Answer {
    pub status: u16,
    pub body: Json,
}

/// An error body.
pub open spec fn error_view(message: Seq<char>) -> json::JsonView {
    json::JsonView::Object(seq![("error"@, json::JsonView::Text(message))])
}

/// An answer that is an error.
pub fn err(status: u16, message: &str) -> (r: Answer)
    ensures
        r.status == status,
        r.body@ == error_view(message@),
{
    let mut f: Vec<(String, Json)> = Vec::new();
    assert(json::fields_view(f@) =~= Seq::empty());
    json::put(&mut f, "error", json::text_json(message));
    assert(json::fields_view(f@) =~= seq![("error"@, json::JsonView::Text(message@))]);
    Answer { status, body: Json::Object(f) }
}

/// An answer that is none.
pub fn ok(body: Json) -> (r: Answer)
    ensures
        r.status == 200,
        r.body@ == body@,
{
    Answer { status: 200, body }
}

/// An answer with a field `ok` that is true.
pub open spec fn done_view() -> json::JsonView {
    json::JsonView::Object(seq![("ok"@, json::JsonView::Bool(true))])
}

/// An answer that says that it is done.
pub fn done() -> (r: Answer)
    ensures
        r.status == 200,
        r.body@ == done_view(),
{
    let mut f: Vec<(String, Json)> = Vec::new();
    assert(json::fields_view(f@) =~= Seq::empty());
    json::put(&mut f, "ok", Json::Bool(true));
    assert(json::fields_view(f@) =~= seq![("ok"@, json::JsonView::Bool(true))]);
    ok(Json::Object(f))
}

/// An error is told in the one field `error`.
pub proof fn errors_are_told_under_their_name(message: Seq<char>)
    ensures
        json::has_once(
            error_view(message),
            "error"@,
            json::JsonView::Text(message),
        ),
{
    reveal_strlit("error");
    assert("error"@.len() == 5);
    let fields = error_view(message)->Object_0;
    assert(fields.len() == 1);
    assert(fields[0] == ("error"@, json::JsonView::Text(message)));
}

/// What is done is said in the one field `ok`.
pub proof fn what_is_done_is_said()
    ensures
        json::has_once(
            done_view(),
            "ok"@,
            json::JsonView::Bool(true),
        ),
{
    reveal_strlit("ok");
    assert("ok"@.len() == 2);
    let fields = done_view()->Object_0;
    assert(fields.len() == 1);
    assert(fields[0] == ("ok"@, json::JsonView::Bool(true)));
}

} // verus!
