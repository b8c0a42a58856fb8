//! What version control says of a folder.
use crate::answer::{ok, Answer};
use crate::files::features;
use crate::files::features::GitChange;
use crate::json;
use crate::json::{Json, JsonView, Shown};
use crate::text;
use vstd::prelude::*;
use vstd::slice::slice_subrange;

verus! {

/// How long the program may take.
pub const GIT_WAIT_SECS: u64 = 5;

/// At most this many changes are shown.
pub const MAX_LINES: usize = 200;

/// What is known of the program while it runs.
pub enum Child {
    Running,
    Ended { success: bool },
    /// Asking failed.
    Broken,
}

/// What is done next.
#[derive(Clone, Copy, Debug, PartialEq, Eq, Structural)]
pub enum Poll {
    /// Read what it wrote.
    Read,
    GiveUp,
    /// End it, then give up.
    Kill,
    /// Ask again in a moment.
    Sleep,
}

/// What is done next, given what is known of the program and whether its time is up.
pub fn poll(child: &Child, late: bool) -> (r: Poll)
    ensures
        r == match child {
            Child::Running => if late {
                Poll::Kill
            } else {
                Poll::Sleep
            },
            Child::Ended { success } => if *success {
                Poll::Read
            } else {
                Poll::GiveUp
            },
            Child::Broken => Poll::GiveUp,
        },
{
    match child {
        Child::Running => if late {
            Poll::Kill
        } else {
            Poll::Sleep
        },
        Child::Ended { success } => if *success {
            Poll::Read
        } else {
            Poll::GiveUp
        },
        Child::Broken => Poll::GiveUp,
    }
}

/// Whether a folder has changes, given what the program wrote, if it succeeded.
pub fn git_dirty(output: Option<&str>) -> (r: bool)
    ensures
        r == match output {
            Some(out) => !text::blank(out@),
            None => false,
        },
{
    match output {
        Some(out) => !text::is_blank(out),
        None => false,
    }
}

/// The answer to the question whether a folder has changes. Of one that may not be seen, the
/// answer is that it has none.
pub fn gitstatus(at: &Result<(String, Vec<String>), String>, output: Option<&str>) -> (r: Answer)
    ensures
        r.status == 200,
        r.body@ == JsonView::Object(
            seq![
                (
                    "dirty"@,
                    JsonView::Bool(
                        at is Ok && match output {
                            Some(out) => !text::blank(out@),
                            None => false,
                        },
                    ),
                ),
            ],
        ),
{
    let dirty = match at {
        Ok(_) => git_dirty(output),
        Err(_) => false,
    };
    let mut f: Vec<(String, Json)> = Vec::new();
    assert(json::fields_view(f@) =~= Seq::empty());
    json::put(&mut f, "dirty", Json::Bool(dirty));
    assert(json::fields_view(f@) =~= seq![("dirty"@, JsonView::Bool(dirty))]);
    ok(Json::Object(f))
}

// ---------------------------------------------------------------- changes

/// The changes that lines tell of, and whether there were too many; none where a line cannot
/// be cut into columns.
pub open spec fn changes_in(lines: Seq<Seq<char>>) -> Option<(Seq<features::GitView>, bool)>
    decreases lines.len(),
{
    if lines.len() == 0 {
        Some((Seq::empty(), false))
    } else {
        match changes_in(lines.drop_last()) {
            None => None,
            Some((files, truncated)) => if truncated {
                Some((files, truncated))
            } else if files.len() >= MAX_LINES {
                Some((files, true))
            } else if !features::has_columns(lines.last()) {
                None
            } else {
                match features::change_of(lines.last()) {
                    Some(c) => Some((files.push(c), false)),
                    None => Some((files, false)),
                }
            },
        }
    }
}

/// The views of a list of changes.
pub open spec fn changes_view(v: Seq<GitChange>) -> Seq<features::GitView> {
    v.map_values(|c: GitChange| c@)
}

/// What is shown: nothing where the program failed or its output makes no sense.
pub open spec fn shown_changes(output: Option<Seq<char>>) -> (Seq<features::GitView>, bool) {
    match output {
        Some(out) => match changes_in(text::lines(out)) {
            Some(c) => c,
            None => (Seq::empty(), false),
        },
        None => (Seq::empty(), false),
    }
}

fn columns_hold(line: &str, chars: &Vec<char>) -> (r: bool)
    requires
        chars@ == line@,
    ensures
        r == features::has_columns(line@),
{
    if line.as_bytes().len() < 4 {
        return true;
    }
    let n: usize = chars.len();
    if n < 2 || (chars[1] as u32) >= 128 {
        return false;
    }
    let first: u32 = chars[0] as u32;
    if first < 128 {
        n >= 3 && (chars[2] as u32) < 128
    } else {
        assert(chars@.subrange(2, n as int) =~= line@.skip(2));
        let behind = slice_subrange(chars.as_slice(), 2, n);
        first < 2048 && text::without_trailing(behind, '\r', '\n').len() == 0
    }
}

/// The changes in a folder, at most 200, and whether there are more, given what the program
/// wrote, if it succeeded.
pub fn git_changes(output: Option<&str>) -> (r: (Vec<GitChange>, bool))
    ensures
        (changes_view(r.0@), r.1) == shown_changes(text::opt_str(output)),
{
    let mut files: Vec<GitChange> = Vec::new();
    assert(changes_view(files@) =~= Seq::empty());
    let out = match output {
        Some(o) => o,
        None => return (files, false),
    };
    let chars = text::chars_of(out);
    let lines = text::split_lines(chars.as_slice());
    let ghost all = text::lines(out@);
    let mut truncated = false;
    let mut i: usize = 0;
    assert(all.take(0) =~= Seq::empty());
    while i < lines.len()
        invariant
            i <= lines@.len(),
            all == text::deep(lines@),
            all == text::lines(out@),
            text::opt_str(output) == Some(out@),
            changes_in(all.take(i as int)) == Some((changes_view(files@), truncated)),
        decreases lines@.len() - i,
    {
        assert(all.take(i + 1).drop_last() =~= all.take(i as int));
        assert(all.take(i + 1).last() == lines@[i as int]@);
        if !truncated {
            if files.len() >= MAX_LINES {
                truncated = true;
            } else {
                let line = text::string_of(lines[i].as_slice());
                if !columns_hold(line.as_str(), &lines[i]) {
                    proof {
                        lemma_broken(all, i + 1);
                    }
                    let nothing: Vec<GitChange> = Vec::new();
                    assert(changes_view(nothing@) =~= Seq::empty());
                    return (nothing, false);
                }
                if let Some(c) = features::parse_porcelain_line(line.as_str()) {
                    let ghost before = changes_view(files@);
                    files.push(c);
                    assert(changes_view(files@) =~= before.push(c@));
                }
            }
        }
        i = i + 1;
    }
    assert(all.take(i as int) =~= all);
    (files, truncated)
}

proof fn lemma_broken(lines: Seq<Seq<char>>, n: int)
    requires
        0 <= n <= lines.len(),
        changes_in(lines.take(n)) is None,
    ensures
        changes_in(lines) is None,
    decreases lines.len() - n,
{
    if n < lines.len() {
        assert(lines.take(n + 1).drop_last() =~= lines.take(n));
        lemma_broken(lines, n + 1);
    } else {
        assert(lines.take(n) =~= lines);
    }
}

/// At most 200 changes are shown, and it is said that there are more only where 200 are
/// shown.
pub proof fn changes_are_capped(output: Option<Seq<char>>)
    ensures
        shown_changes(output).0.len() <= MAX_LINES,
        shown_changes(output).1 ==> shown_changes(output).0.len() == MAX_LINES,
{
    if let Some(out) = output {
        lemma_capped(text::lines(out));
    }
}

proof fn lemma_capped(lines: Seq<Seq<char>>)
    ensures
        changes_in(lines) matches Some(c) ==> c.0.len() <= MAX_LINES && (c.1 ==> c.0.len()
            == MAX_LINES),
    decreases lines.len(),
{
    if lines.len() > 0 {
        lemma_capped(lines.drop_last());
    }
}

impl Shown for GitChange {
    open spec fn shown(self) -> JsonView {
        JsonView::Object(
            seq![("status"@, JsonView::Text(self.status@)), ("path"@, JsonView::Text(self.path@))],
        )
    }

    fn to_json(&self) -> (r: Json) {
        let mut f: Vec<(String, Json)> = Vec::new();
        assert(json::fields_view(f@) =~= Seq::empty());
        json::put(&mut f, "status", json::text_json(self.status.as_str()));
        json::put(&mut f, "path", json::text_json(self.path.as_str()));
        assert(json::fields_view(f@) =~= self.shown()->Object_0);
        Json::Object(f)
    }
}

/// The answer with the changes in a folder. Of one that may not be seen there are none.
pub fn gitchanges(at: &Result<(String, Vec<String>), String>, output: Option<&str>) -> (r: Answer)
    ensures
        r.status == 200,
        exists|files: Seq<GitChange>, truncated: bool|
            (changes_view(files), truncated) == shown_changes(
                if at is Ok {
                    text::opt_str(output)
                } else {
                    None
                },
            ) && r.body@ == #[trigger] gitchanges_view(files, truncated),
{
    let (files, truncated) = git_changes(
        match at {
            Ok(_) => output,
            Err(_) => None,
        },
    );
    let mut f: Vec<(String, Json)> = Vec::new();
    assert(json::fields_view(f@) =~= Seq::empty());
    json::put(&mut f, "files", json::list_json(&files));
    json::put(&mut f, "truncated", Json::Bool(truncated));
    assert(json::fields_view(f@) =~= gitchanges_view(files@, truncated)->Object_0);
    ok(Json::Object(f))
}

/// The answer with changes.
pub open spec fn gitchanges_view(files: Seq<GitChange>, truncated: bool) -> JsonView {
    JsonView::Object(
        seq![("files"@, json::shown_list(files)), ("truncated"@, JsonView::Bool(truncated))],
    )
}

/// The changes of lines, one behind the other, are those of the first and then those of the second,
/// as long as there are fewer than 200 in all. A line that shows a change gives that one.
pub proof fn changes_keep_their_order(
    a: Seq<Seq<char>>,
    b: Seq<Seq<char>>,
    x: Seq<features::GitView>,
    y: Seq<features::GitView>,
    line: Seq<char>,
)
    requires
        changes_in(a) == Some((x, false)),
        changes_in(b) == Some((y, false)),
        x.len() + y.len() < 200,
    ensures
        changes_in(a + b) == Some((x + y, false)),
        features::has_columns(line) && features::change_of(line) is Some ==> changes_in(seq![line])
            == Some((seq![features::change_of(line)->0], false)),
        features::has_columns(line) && features::change_of(line) is None ==> changes_in(seq![line])
            == Some((Seq::<features::GitView>::empty(), false)),
    decreases b.len(),
{
    reveal_with_fuel(changes_in, 2);
    assert(seq![line].drop_last() =~= Seq::empty());
    if let Some(c) = features::change_of(line) {
        assert(Seq::<features::GitView>::empty().push(c) =~= seq![c]);
    }
    if b.len() == 0 {
        assert(a + b =~= a);
        assert(x + y =~= x);
    } else {
        let front = b.drop_last();
        let before = changes_in(front)->0;
        assert(changes_in(front) == Some((before.0, false)));
        changes_keep_their_order(a, front, x, before.0, line);
        assert((a + b).drop_last() =~= a + front);
        if let Some(c) = features::change_of(b.last()) {
            assert(y == before.0.push(c));
            assert((x + before.0).push(c) =~= x + y);
        }
    }
}

/// Once 200 changes are shown, any further line says only that there are more.
pub proof fn after_two_hundred_there_are_more(
    a: Seq<Seq<char>>,
    line: Seq<char>,
    x: Seq<features::GitView>,
    more: bool,
)
    requires
        changes_in(a) == Some((x, more)),
        x.len() >= 200,
    ensures
        changes_in(a.push(line)) == Some((x, true)),
{
    assert(a.push(line).drop_last() =~= a);
}

/// Without output there are no changes; with lines that can be read, they are the changes of its
/// lines.
pub proof fn output_is_read_line_by_line(out: Seq<char>)
    ensures
        shown_changes(None) == (Seq::<features::GitView>::empty(), false),
        changes_in(text::lines(out)) matches Some(c) ==> shown_changes(Some(out)) == c,
        changes_in(text::lines(out)) is None ==> shown_changes(Some(out)) == (
            Seq::<features::GitView>::empty(),
            false,
        ),
{
}

/// A change is shown with its status and its path.
pub proof fn changes_are_shown_by_name(c: GitChange)
    ensures
        json::has_once(
            c.shown(),
            "status"@,
            JsonView::Text(c.status@),
        ),
        json::has_once(
            c.shown(),
            "path"@,
            JsonView::Text(c.path@),
        ),
{
    reveal_strlit("status");
    reveal_strlit("path");
    assert("status"@.len() == 6);
    assert("path"@.len() == 4);
    let fields = c.shown()->Object_0;
    assert(fields.len() == 2);
    assert(fields[0] == ("status"@, JsonView::Text(c.status@)));
    assert(fields[1] == ("path"@, JsonView::Text(c.path@)));
}

/// The changes are shown with whether there are more.
pub proof fn changes_are_shown_with_whether_there_are_more(files: Seq<GitChange>, truncated: bool)
    ensures
        json::has_once(
            gitchanges_view(files, truncated),
            "files"@,
            json::shown_list(files),
        ),
        json::has_once(
            gitchanges_view(files, truncated),
            "truncated"@,
            JsonView::Bool(truncated),
        ),
{
    reveal_strlit("files");
    reveal_strlit("truncated");
    assert("files"@.len() == 5);
    assert("truncated"@.len() == 9);
    let fields = gitchanges_view(files, truncated)->Object_0;
    assert(fields.len() == 2);
    assert(fields[0] == ("files"@, json::shown_list(files)));
    assert(fields[1] == ("truncated"@, JsonView::Bool(truncated)));
}

} // verus!
