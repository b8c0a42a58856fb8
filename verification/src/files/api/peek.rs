//! A glance at the transcript of a session.
use crate::answer::{ok, Answer};
use crate::dictate;
use crate::dictate::join_path;
use crate::files::features;
use crate::files::features::{PeekCandidate, PeekLine};
use crate::files::sessions::SessionView;
use crate::json;
use crate::json::{Json, JsonView, Shown};
use crate::text;
use vstd::prelude::*;

verus! {

/// How many lines at the end of a transcript are looked at.
pub const PEEK_LINES: usize = 40;

/// A request for a glance at a session.
pub struct SessionPeekQuery {
    pub id: String,
}

/// The first session of that id.
pub open spec fn first_with_id(views: Seq<SessionView>, id: Seq<char>, i: int) -> bool {
    0 <= i < views.len() && views[i].id@ == id && forall|j: int|
        0 <= j < i ==> (#[trigger] views[j]).id@ != id
}

/// Which of the sessions is asked for.
pub fn session_peek(views: &Vec<SessionView>, query: &SessionPeekQuery) -> (r: Option<usize>)
    ensures
        match r {
            Some(i) => first_with_id(views@, query.id@, i as int),
            None => forall|j: int|
                0 <= j < views@.len() ==> (#[trigger] views@[j]).id@ != query.id@,
        },
{
    let mut i: usize = 0;
    while i < views.len()
        invariant
            i <= views@.len(),
            forall|j: int| 0 <= j < i ==> (#[trigger] views@[j]).id@ != query.id@,
        decreases views@.len() - i,
    {
        if text::same(views[i].id.as_str(), query.id.as_str()) {
            return Some(i);
        }
        i = i + 1;
    }
    None
}

/// The folder of the transcripts of a working directory, below the program's own folder in
/// the user's profile.
pub open spec fn transcripts_of(profile: Seq<char>, own: Seq<char>, cwd: Seq<char>) -> Seq<char> {
    dictate::joined_path(
        dictate::joined_path(dictate::joined_path(profile, own), "projects"@),
        features::slug(cwd),
    )
}

/// The folder of the transcripts of a working directory, below the program's own folder in
/// the user's profile.
pub fn transcript_dir(profile: &str, own: &str, cwd: &str) -> (r: String)
    ensures
        r@ == transcripts_of(profile@, own@, cwd@),
{
    let home = join_path(profile, own);
    let projects = join_path(home.as_str(), "projects");
    let slug = features::project_slug(cwd);
    join_path(projects.as_str(), slug.as_str())
}

/// A file in the folder of the transcripts, with its times in milliseconds, as far as they
/// are known.
pub struct TranscriptFile {
    pub name: String,
    pub created_ms: Option<u64>,
    pub modified_ms: Option<u64>,
}

/// A candidate, mathematically: its name and its two times.
pub open spec fn candidate_of(f: TranscriptFile) -> Option<(Seq<char>, u64, u64)> {
    match (features::stem_and_extension(f.name@).1, f.modified_ms) {
        (Some(ext), Some(m)) => if ext == "jsonl"@ {
            Some(
                (
                    f.name@,
                    match f.created_ms {
                        Some(c) => c,
                        None => m,
                    },
                    m,
                ),
            )
        } else {
            None
        },
        _ => None,
    }
}

/// The transcripts among the files of a folder.
pub open spec fn candidates_among(files: Seq<TranscriptFile>) -> Seq<(Seq<char>, u64, u64)>
    decreases files.len(),
{
    if files.len() == 0 {
        Seq::empty()
    } else {
        match candidate_of(files.last()) {
            Some(c) => candidates_among(files.drop_last()).push(c),
            None => candidates_among(files.drop_last()),
        }
    }
}

/// The views of a list of candidates.
pub open spec fn candidates_view(v: Seq<PeekCandidate>) -> Seq<(Seq<char>, u64, u64)> {
    v.map_values(|c: PeekCandidate| (c.name@, c.created_ms, c.modified_ms))
}

/// The transcripts among the files of a folder: those whose name ends in `.jsonl` and whose
/// time is known. One whose birth is not known counts as born when it was last written.
pub fn transcript_candidates(files: &Vec<TranscriptFile>) -> (r: Vec<PeekCandidate>)
    ensures
        candidates_view(r@) == candidates_among(files@),
{
    let mut out: Vec<PeekCandidate> = Vec::new();
    let mut i: usize = 0;
    assert(candidates_view(out@) =~= candidates_among(files@.take(0)));
    while i < files.len()
        invariant
            i <= files@.len(),
            candidates_view(out@) == candidates_among(files@.take(i as int)),
        decreases files@.len() - i,
    {
        assert(files@.take(i + 1).drop_last() =~= files@.take(i as int));
        let (_, ext) = features::split_stem_ext(files[i].name.as_str());
        if let Some(e) = ext {
            if let Some(m) = files[i].modified_ms {
                if text::same(e.as_str(), "jsonl") {
                    let created: u64 = match files[i].created_ms {
                        Some(c) => c,
                        None => m,
                    };
                    let ghost before = candidates_view(out@);
                    out.push(
                        PeekCandidate {
                            name: text::owned(files[i].name.as_str()),
                            created_ms: created,
                            modified_ms: m,
                        },
                    );
                    assert(candidates_view(out@) =~= before.push((files@[i as int].name@, created, m)));
                }
            }
        }
        i = i + 1;
    }
    assert(files@.take(i as int) =~= files@);
    out
}

// ---------------------------------------------------------------- lines

/// The last `n` of a sequence, or all of it if it is shorter.
pub open spec fn last_of<T>(s: Seq<T>, n: int) -> Seq<T> {
    if s.len() <= n {
        s
    } else {
        s.skip(s.len() - n)
    }
}

/// The lines that can be read.
pub open spec fn readable(lines: Seq<Seq<char>>) -> Seq<JsonView>
    decreases lines.len(),
{
    if lines.len() == 0 {
        Seq::empty()
    } else {
        match json::parsed(lines.last()) {
            Ok(v) => readable(lines.drop_last()).push(v),
            Err(_) => readable(lines.drop_last()),
        }
    }
}

/// What is shown of the lines: those that are messages.
pub open spec fn messages(values: Seq<JsonView>) -> Seq<features::PeekView>
    decreases values.len(),
{
    if values.len() == 0 {
        Seq::empty()
    } else {
        match features::peek_line(values.last()) {
            Some(l) => messages(values.drop_last()).push(l),
            None => messages(values.drop_last()),
        }
    }
}

/// The views of a list of lines.
pub open spec fn peeks_view(v: Seq<PeekLine>) -> Seq<features::PeekView> {
    v.map_values(|l: PeekLine| l@)
}

/// What is shown of lines that were read.
pub fn peek_messages(values: &Vec<Json>) -> (r: Vec<PeekLine>)
    ensures
        peeks_view(r@) == messages(json::list_view(values@)),
{
    let mut out: Vec<PeekLine> = Vec::new();
    let ghost all = json::list_view(values@);
    let mut i: usize = 0;
    proof {
        json::lemma_list_view(values@);
    }
    assert(peeks_view(out@) =~= messages(all.take(0)));
    while i < values.len()
        invariant
            i <= values@.len(),
            all == json::list_view(values@),
            all.len() == values@.len(),
            forall|k: int| 0 <= k < values@.len() ==> #[trigger] all[k] == values@[k]@,
            peeks_view(out@) == messages(all.take(i as int)),
        decreases values@.len() - i,
    {
        assert(all.take(i + 1).drop_last() =~= all.take(i as int));
        assert(all.take(i + 1).last() == all[i as int]);
        if let Some(l) = features::peek_line_from_json(&values[i]) {
            let ghost before = peeks_view(out@);
            out.push(l);
            assert(peeks_view(out@) =~= before.push(l@));
        }
        i = i + 1;
    }
    assert(all.take(i as int) =~= all);
    out
}

/// What is shown of a transcript: the messages among its last 40 lines. Lines that cannot be
/// read are passed over.
pub fn peek_transcript(content: &str) -> (r: Vec<PeekLine>)
    ensures
        peeks_view(r@) == messages(
            readable(last_of(text::lines(content@), PEEK_LINES as int)),
        ),
{
    let chars = text::chars_of(content);
    let lines = text::split_lines(chars.as_slice());
    let n: usize = lines.len();
    let from: usize = if n > PEEK_LINES {
        n - PEEK_LINES
    } else {
        0
    };
    let ghost all = text::lines(content@);
    let ghost tail = last_of(all, PEEK_LINES as int);
    let mut values: Vec<Json> = Vec::new();
    let mut i: usize = from;
    assert(json::list_view(values@) =~= readable(tail.take(0)));
    while i < n
        invariant
            from <= i <= n == lines@.len(),
            all == text::deep(lines@),
            tail == all.skip(from as int),
            json::list_view(values@) == readable(tail.take(i - from)),
        decreases n - i,
    {
        assert(tail.take(i + 1 - from).drop_last() =~= tail.take(i - from));
        assert(tail.take(i + 1 - from).last() == lines@[i as int]@);
        let line = text::string_of(lines[i].as_slice());
        if let Ok(v) = json::parse(line.as_str()) {
            proof {
                json::lemma_list_push(values@, v);
            }
            values.push(v);
        }
        i = i + 1;
    }
    assert(tail.take(n - from) =~= tail);
    peek_messages(&values)
}

impl Shown for PeekLine {
    open spec fn shown(self) -> JsonView {
        JsonView::Object(
            seq![("role"@, JsonView::Text(self.role@)), ("text"@, JsonView::Text(self.text@))],
        )
    }

    fn to_json(&self) -> (r: Json) {
        let mut f: Vec<(String, Json)> = Vec::new();
        assert(json::fields_view(f@) =~= Seq::empty());
        json::put(&mut f, "role", json::text_json(self.role.as_str()));
        json::put(&mut f, "text", json::text_json(self.text.as_str()));
        assert(json::fields_view(f@) =~= self.shown()->Object_0);
        Json::Object(f)
    }
}

/// The answer with what is shown of a transcript, and the name of its file.
pub fn peek_answer(lines: &Vec<PeekLine>, file: Option<&str>) -> (r: Answer)
    ensures
        r.status == 200,
        r.body@ == JsonView::Object(
            seq![
                ("lines"@, json::shown_list(lines@)),
                ("file"@, json::opt_text_view(text::opt_str(file))),
            ],
        ),
{
    let mut f: Vec<(String, Json)> = Vec::new();
    assert(json::fields_view(f@) =~= Seq::empty());
    json::put(&mut f, "lines", json::list_json(lines));
    json::put(&mut f, "file", json::opt_text_json(file));
    assert(json::fields_view(f@) =~= seq![
        ("lines"@, json::shown_list(lines@)),
        ("file"@, json::opt_text_view(text::opt_str(file))),
    ]);
    ok(Json::Object(f))
}

/// A transcript is a file whose name ends in `.jsonl` and whose last change is known; where it is not
/// known when it was created, that change counts.
pub proof fn transcripts_are_found_by_their_ending(f: TranscriptFile, stem: Seq<char>, ext: Seq<char>)
    requires
        f.name@ == stem.push('.') + ext,
        stem.len() > 0,
        ext.len() > 0,
        !ext.contains('.'),
    ensures
        ext != "jsonl"@ ==> candidate_of(f) is None,
        f.modified_ms is None ==> candidate_of(f) is None,
        ext == "jsonl"@ ==> (f.modified_ms matches Some(m) ==> (f.created_ms matches Some(c)
            ==> candidate_of(f) == Some((f.name@, c, m)))),
        ext == "jsonl"@ ==> (f.modified_ms matches Some(m) ==> (f.created_ms is None
            ==> candidate_of(f) == Some((f.name@, m, m)))),
{
    features::the_last_dot_begins_the_extension(stem, ext);
}

/// The transcripts among files, one behind the other, are those of the first and then those of the
/// second.
pub proof fn transcripts_keep_their_order(a: Seq<TranscriptFile>, b: Seq<TranscriptFile>, f: TranscriptFile)
    ensures
        candidates_among(a + b) == candidates_among(a) + candidates_among(b),
        candidate_of(f) matches Some(c) ==> candidates_among(seq![f]) == seq![c],
        candidate_of(f) is None ==> candidates_among(seq![f]).len() == 0,
    decreases b.len(),
{
    reveal_with_fuel(candidates_among, 2);
    assert(seq![f].drop_last() =~= Seq::empty());
    if let Some(c) = candidate_of(f) {
        assert(candidates_among(seq![f]) =~= seq![c]);
    }
    if b.len() == 0 {
        assert(a + b =~= a);
        assert(candidates_among(a) + candidates_among(b) =~= candidates_among(a));
    } else {
        transcripts_keep_their_order(a, b.drop_last(), f);
        assert((a + b).drop_last() =~= a + b.drop_last());
        assert(candidates_among(a + b) =~= candidates_among(a) + candidates_among(b));
    }
}

/// Of a transcript the last 40 lines are looked at. Of those each that is JSON and a message is
/// shown, in their order.
pub proof fn messages_keep_their_order(
    a: Seq<JsonView>,
    b: Seq<JsonView>,
    v: JsonView,
    s: Seq<Seq<char>>,
    t: Seq<Seq<char>>,
    line: Seq<char>,
)
    ensures
        messages(a + b) == messages(a) + messages(b),
        features::peek_line(v) matches Some(l) ==> messages(seq![v]) == seq![l],
        features::peek_line(v) is None ==> messages(seq![v]).len() == 0,
        readable(s + t) == readable(s) + readable(t),
        json::parsed(line) matches Ok(j) ==> readable(seq![line]) == seq![j],
        json::parsed(line) is Err ==> readable(seq![line]).len() == 0,
    decreases b.len() + t.len(),
{
    reveal_with_fuel(messages, 2);
    reveal_with_fuel(readable, 2);
    assert(seq![v].drop_last() =~= Seq::empty());
    assert(seq![line].drop_last() =~= Seq::empty());
    if let Some(l) = features::peek_line(v) {
        assert(messages(seq![v]) =~= seq![l]);
    }
    if let Ok(j) = json::parsed(line) {
        assert(readable(seq![line]) =~= seq![j]);
    }
    if b.len() == 0 {
        assert(a + b =~= a);
        assert(messages(a) + messages(b) =~= messages(a));
    } else {
        messages_keep_their_order(a, b.drop_last(), v, s, Seq::empty(), line);
        assert((a + b).drop_last() =~= a + b.drop_last());
        assert(messages(a + b) =~= messages(a) + messages(b));
    }
    if t.len() == 0 {
        assert(s + t =~= s);
        assert(readable(s) + readable(t) =~= readable(s));
    } else {
        messages_keep_their_order(a, Seq::empty(), v, s, t.drop_last(), line);
        assert((s + t).drop_last() =~= s + t.drop_last());
        assert(readable(s + t) =~= readable(s) + readable(t));
    }
}

/// The last lines are the end of them all, as many as asked for or all there are.
pub proof fn the_last_lines_are_the_end<T>(s: Seq<T>, n: int)
    requires
        n >= 0,
    ensures
        last_of(s, n).len() == if s.len() <= n {
            s.len() as int
        } else {
            n
        },
        last_of(s, n) == s.skip(s.len() - last_of(s, n).len()),
        PEEK_LINES == 40,
{
    assert(last_of(s, n) =~= s.skip(s.len() - last_of(s, n).len()));
}

/// The transcripts of a project lie below the profile, in the program's own folder, under `projects`
/// and the project's path as a folder name.
pub proof fn transcripts_lie_below_the_profile(profile: Seq<char>, own: Seq<char>, cwd: Seq<char>)
    requires
        profile.len() > 2,
        profile.last() != '\\',
        profile.last() != '/',
        own.len() > 0,
        own.last() != '\\',
        own.last() != '/',
    ensures
        transcripts_of(profile, own, cwd) == profile + "\\"@ + own + "\\"@ + "projects"@ + "\\"@
            + features::slug(cwd),
{
    reveal_strlit("projects");
    let a = dictate::joined_path(profile, own);
    assert(a == profile + "\\"@ + own);
    assert(a.last() == own.last());
    let b = dictate::joined_path(a, "projects"@);
    assert(b.last() == "projects"@[7]);
    assert("projects"@[7] == 's');
}

/// A line is shown with who said it and what.
pub proof fn lines_are_shown_by_name(l: PeekLine)
    ensures
        json::has_once(
            l.shown(),
            "role"@,
            JsonView::Text(l.role@),
        ),
        json::has_once(
            l.shown(),
            "text"@,
            JsonView::Text(l.text@),
        ),
{
    reveal_strlit("role");
    reveal_strlit("text");
    assert("role"@.len() == 4);
    assert("text"@.len() == 4);
    assert("role"@[0] != "text"@[0]);
    let fields = l.shown()->Object_0;
    assert(fields.len() == 2);
    assert(fields[0] == ("role"@, JsonView::Text(l.role@)));
    assert(fields[1] == ("text"@, JsonView::Text(l.text@)));
}

} // verus!
