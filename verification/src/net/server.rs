//! The answers of the server that belong to neither files nor voice.
use crate::answer;
use crate::answer::{err, ok, Answer};
use crate::json;
use crate::json::Json;
use crate::text;
use crate::dictate::finish_and_deliver;
use crate::files::pshell;
use crate::voice;
use crate::voice::settings::VoiceSettings;
use crate::voice::{Plan, Processed};
use vstd::prelude::*;

verus! {

/// The largest recording that is taken.
pub const DICTATE_BODY_LIMIT: usize = 67_108_864;

/// A character that a log line does not show.
pub open spec fn control(c: char) -> bool {
    (c as u32) < 0x20 || 0x7f <= (c as u32) < 0xa0
}

/// The line that a report of the phone's viewport leaves in the log: the first 400
/// characters, without control characters.
pub open spec fn viewport_line(body: Seq<char>) -> Seq<char> {
    (if body.len() <= 400 {
        body
    } else {
        body.take(400)
    }).filter(|c: char| !control(c))
}

/// The line that a report of the phone's viewport leaves in the log.
pub fn viewport_report(body: &str) -> (r: String)
    ensures
        r@ == viewport_line(body@),
{
    let s = text::chars_of(body);
    let n: usize = if s.len() <= 400 {
        s.len()
    } else {
        400
    };
    let ghost p = |c: char| !control(c);
    let ghost head = s@.take(n as int);
    let mut out = String::new();
    let mut i: usize = 0;
    assert(out@ =~= s@.take(0).filter(p));
    while i < n
        invariant
            i <= n <= s@.len(),
            p == (|c: char| !control(c)),
            out@ == s@.take(i as int).filter(p),
        decreases n - i,
    {
        let c = s[i];
        assert(s@.take(i + 1) =~= s@.take(i as int).push(c));
        proof {
            text::lemma_filter_push(s@.take(i as int), c, p);
        }
        let v: u32 = c as u32;
        if !(v < 0x20 || (0x7f <= v && v < 0xa0)) {
            out.push(c);
        }
        i = i + 1;
    }
    assert(head =~= if body@.len() <= 400 {
        body@
    } else {
        body@.take(400)
    });
    out
}

/// No log line holds a line break.
pub proof fn log_lines_are_single_lines(body: Seq<char>)
    ensures
        !viewport_line(body).contains('\n'),
        !viewport_line(body).contains('\r'),
{
    let cut = if body.len() <= 400 {
        body
    } else {
        body.take(400)
    };
    lemma_filtered(cut);
}

proof fn lemma_filtered(s: Seq<char>)
    ensures
        !s.filter(|c: char| !control(c)).contains('\n'),
        !s.filter(|c: char| !control(c)).contains('\r'),
    decreases s.len(),
{
    reveal(Seq::filter);
    if s.len() > 0 {
        lemma_filtered(s.drop_last());
        let f = s.drop_last().filter(|c: char| !control(c));
        let g = s.filter(|c: char| !control(c));
        assert forall|i: int| 0 <= i < g.len() implies g[i] != '\n' && g[i] != '\r' by {
            if i < f.len() {
                assert(g[i] == f[i]);
                assert(f.contains(f[i]));
            }
        }
    }
}

/// What came of an uploaded recording.
pub enum Dictation {
    /// Nothing was uploaded.
    Empty,
    Done(Processed),
    Failed(String),
    Crashed,
}

/// What comes of a recording, given what was recognised in it, what came of rewriting that,
/// and whether the text could be delivered.
pub fn dictated(
    transcript: &Result<String, String>,
    cfg: &VoiceSettings,
    plan: &Plan,
    rewritten: &Result<String, String>,
    delivered: &Result<(), String>,
) -> (r: Dictation)
    ensures
        match (transcript, delivered) {
            (Err(e), _) => r matches Dictation::Failed(m) && m@ == e@,
            (Ok(_), Err(e)) => r matches Dictation::Failed(m) && m@ == e@,
            (Ok(raw), Ok(_)) => r matches Dictation::Done(p) && p@ == voice::processed(
                raw@,
                cfg@,
                plan.mode@,
                pshell::result_view(*rewritten),
                voice::DELIVERED_RAW@,
            ),
        },
{
    match finish_and_deliver(1, transcript, cfg, plan, rewritten, delivered) {
        Err(e) => Dictation::Failed(e),
        Ok(p) => Dictation::Done(p),
    }
}

/// The answer to an uploaded recording.
pub fn dictate_upload(outcome: &Dictation, mode_name: &str) -> (r: Answer)
    ensures
        match outcome {
            Dictation::Empty => r.status == 400 && r.body@ == answer::error_view(
                "empty recording"@,
            ),
            Dictation::Failed(e) => r.status == 422 && r.body@ == answer::error_view(e@),
            Dictation::Crashed => r.status == 500 && r.body@ == answer::error_view(
                "transcription crashed"@,
            ),
            Dictation::Done(p) => r.status == 200 && r.body@ == json::JsonView::Object(
                seq![
                    ("text"@, json::JsonView::Text(p.text@)),
                    ("raw"@, json::JsonView::Text(p.raw@)),
                    ("mode"@, json::JsonView::Text(mode_name@)),
                    ("warning"@, json::opt_text_view(text::opt_view(p.warning))),
                ],
            ),
        },
{
    match outcome {
        Dictation::Empty => err(400, "empty recording"),
        Dictation::Failed(e) => err(422, e.as_str()),
        Dictation::Crashed => err(500, "transcription crashed"),
        Dictation::Done(p) => {
            let warning = match &p.warning {
                Some(w) => json::text_json(w.as_str()),
                None => Json::Null,
            };
            let mut f: Vec<(String, Json)> = Vec::new();
            assert(json::fields_view(f@) =~= Seq::empty());
            json::put(&mut f, "text", json::text_json(p.text.as_str()));
            json::put(&mut f, "raw", json::text_json(p.raw.as_str()));
            json::put(&mut f, "mode", json::text_json(mode_name));
            json::put(&mut f, "warning", warning);
            assert(json::fields_view(f@) =~= seq![
                ("text"@, json::JsonView::Text(p.text@)),
                ("raw"@, json::JsonView::Text(p.raw@)),
                ("mode"@, json::JsonView::Text(mode_name@)),
                ("warning"@, json::opt_text_view(text::opt_view(p.warning))),
            ]);
            ok(Json::Object(f))
        },
    }
}

/// A report of at most 400 characters without control characters is logged as it is; of a longer one
/// the first 400 count, and control characters are left out.
pub proof fn reports_are_logged_without_control_characters(body: Seq<char>, rest: Seq<char>, c: char)
    requires
        body.len() == 400,
    ensures
        viewport_line(body + rest) == viewport_line(body),
        (forall|i: int| 0 <= i < body.len() ==> !control(#[trigger] body[i])) ==> viewport_line(body)
            == body,
        control(c) <==> (c as u32) < 32 || 127 <= (c as u32) < 160,
{
    assert((body + rest).take(400) =~= body);
    if rest.len() == 0 {
        assert(body + rest =~= body);
    }
    let p = |x: char| !control(x);
    text::filters_go_piece_by_piece(Seq::empty(), body, p);
}

/// A short report loses its control characters and nothing else.
pub proof fn short_reports_lose_only_control_characters(a: Seq<char>, c: char, b: Seq<char>)
    requires
        a.len() + 1 + b.len() <= 400,
    ensures
        control(c) ==> viewport_line(a.push(c) + b) == viewport_line(a + b),
        !control(c) ==> viewport_line(a.push(c) + b) == viewport_line(a).push(c) + viewport_line(b),
{
    let p = |x: char| !control(x);
    text::filters_go_piece_by_piece(a, b, p);
    text::filters_go_piece_by_piece(a.push(c), b, p);
    text::filters_go_piece_by_piece(a, seq![c], p);
    assert(a.push(c) =~= a + seq![c]);
    if control(c) {
        assert(a.push(c).filter(p) =~= a.filter(p));
    } else {
        assert(a.push(c).filter(p) =~= a.filter(p).push(c));
    }
}

} // verus!
