//! Taking uploaded files.
use super::is_error;
use crate::answer::{err, ok, Answer};
use crate::files::pathsafe;
use crate::files::pshell;
use crate::json;
use crate::json::{Json, JsonView, Shown};
use crate::text;
use vstd::prelude::*;

verus! {

/// A request to upload into a folder.
pub struct UploadQuery {
    pub dir: String,
}

/// The folder to upload into, given where it is and whether it is one, or the answer.
pub fn upload(at: &Result<(String, Vec<String>), String>, is_dir: bool) -> (r: Result<
    String,
    Answer,
>)
    ensures
        match at {
            Err(e) => r matches Err(a) && is_error(a, 403, e@),
            Ok((p, _)) => if !is_dir {
                r matches Err(a) && is_error(a, 400, "upload target is not a directory"@)
            } else {
                r matches Ok(d) && d@ == p@
            },
        },
{
    match at {
        Err(e) => Err(err(403, e.as_str())),
        Ok((p, _)) => if is_dir {
            Ok(text::owned(p.as_str()))
        } else {
            Err(err(400, "upload target is not a directory"))
        },
    }
}

/// A file that was not taken, and why.
pub struct Rejected {
    pub name: String,
    pub reason: String,
}

/// The contents of a list of rejected files: their names and the reasons.
pub open spec fn rejected_view(v: Seq<Rejected>) -> Seq<(Seq<char>, Seq<char>)> {
    v.map_values(|r: Rejected| (r.name@, r.reason@))
}

/// What is done with a field of the upload.
pub enum FieldStep {
    /// It holds no file.
    Skip,
    /// It is read and thrown away.
    Discard,
    /// It is read and stored, as near to that name as may be.
    Store(String),
}

/// Why a file of that name is not taken, if it is not.
pub open spec fn refusal(client_name: Seq<char>) -> Option<Seq<char>> {
    if client_name.len() == 0 {
        Some("missing filename"@)
    } else {
        pathsafe::name_error(client_name)
    }
}

/// The name that the phone gave a file.
pub open spec fn given_name(file_name: Option<Seq<char>>) -> Seq<char> {
    match file_name {
        Some(n) => n,
        None => ""@,
    }
}

/// What came of an upload so far.
pub struct Upload {
    pub saved: Vec<String>,
    pub rejected: Vec<Rejected>,
}

impl Upload {
    /// Nothing came of it yet.
    pub fn new() -> (r: Upload)
        ensures
            r.saved@.len() == 0,
            r.rejected@.len() == 0,
    {
        Upload { saved: Vec::new(), rejected: Vec::new() }
    }

    fn reject(&mut self, name: &str, reason: &str)
        ensures
            final(self).saved == old(self).saved,
            rejected_view(final(self).rejected@) == rejected_view(old(self).rejected@).push(
                (name@, reason@),
            ),
    {
        let ghost o = rejected_view(self.rejected@);
        self.rejected.push(Rejected { name: text::owned(name), reason: text::owned(reason) });
        assert(rejected_view(self.rejected@) =~= o.push((name@, reason@)));
    }

    /// What is done with the next field, given its name and the name of the file in it.
    pub fn field(&mut self, name: Option<&str>, file_name: Option<&str>) -> (r: FieldStep)
        ensures
            final(self).saved == old(self).saved,
            if text::opt_str(name) != Some("files"@) {
                r is Skip && final(self).rejected == old(self).rejected
            } else {
                let given = given_name(text::opt_str(file_name));
                match refusal(given) {
                    Some(reason) => r is Discard && rejected_view(final(self).rejected@)
                        == rejected_view(old(self).rejected@).push((given, reason)),
                    None => (r matches FieldStep::Store(n) && n@ == given) && final(self).rejected
                        == old(self).rejected,
                }
            },
    {
        let holds_files = match name {
            Some(n) => text::same(n, "files"),
            None => false,
        };
        if !holds_files {
            return FieldStep::Skip;
        }
        let given = match file_name {
            Some(n) => n,
            None => "",
        };
        let chars = text::chars_of(given);
        if chars.len() == 0 {
            self.reject("", "missing filename");
            proof {
                reveal_strlit("");
                assert(given@ =~= ""@);
            }
            return FieldStep::Discard;
        }
        match pathsafe::validate_name(given) {
            Err(reason) => {
                self.reject(given, reason.as_str());
                FieldStep::Discard
            },
            Ok(_) => FieldStep::Store(text::owned(given)),
        }
    }

    /// A file could not be read.
    pub fn read_failed(&mut self, client_name: &str, e: &str)
        ensures
            final(self).saved == old(self).saved,
            rejected_view(final(self).rejected@) == rejected_view(old(self).rejected@).push(
                (client_name@, "read failed: "@ + e@),
            ),
    {
        let reason = pshell::concat("read failed: ", e);
        self.reject(client_name, reason.as_str());
    }

    /// A file was stored under a name, or could not be.
    pub fn written(&mut self, client_name: &str, final_name: &str, outcome: &Result<(), String>)
        ensures
            match outcome {
                Ok(_) => text::views(final(self).saved@) == text::views(old(self).saved@).push(
                    final_name@,
                ) && final(self).rejected == old(self).rejected,
                Err(e) => final(self).saved == old(self).saved && rejected_view(
                    final(self).rejected@,
                ) == rejected_view(old(self).rejected@).push(
                    (client_name@, "write failed: "@ + e@),
                ),
            },
    {
        match outcome {
            Ok(_) => {
                let ghost o = text::views(self.saved@);
                self.saved.push(text::owned(final_name));
                assert(text::views(self.saved@) =~= o.push(final_name@));
            },
            Err(e) => {
                let reason = pshell::concat("write failed: ", e.as_str());
                self.reject(client_name, reason.as_str());
            },
        }
    }

    /// The answer once every field was seen.
    pub fn answer(&self) -> (r: Answer)
        ensures
            r.status == 200,
            r.body@ == JsonView::Object(
                seq![
                    ("saved"@, json::texts_view(text::views(self.saved@))),
                    ("rejected"@, json::shown_list(self.rejected@)),
                ],
            ),
    {
        let mut f: Vec<(String, Json)> = Vec::new();
        assert(json::fields_view(f@) =~= Seq::empty());
        json::put(&mut f, "saved", json::texts_json(&self.saved));
        json::put(&mut f, "rejected", json::list_json(&self.rejected));
        assert(json::fields_view(f@) =~= seq![
            ("saved"@, json::texts_view(text::views(self.saved@))),
            ("rejected"@, json::shown_list(self.rejected@)),
        ]);
        ok(Json::Object(f))
    }
}

/// The answer to an upload that cannot be taken apart.
pub fn malformed(e: &str) -> (r: Answer)
    ensures
        is_error(r, 400, "malformed multipart: "@ + e@),
{
    let m = pshell::concat("malformed multipart: ", e);
    err(400, m.as_str())
}

/// A file is stored only under a name that stays in the folder: one that holds no separator
/// and is not a step upwards.
pub proof fn stored_files_stay_in_the_folder(client_name: Seq<char>)
    requires
        refusal(client_name) is None,
    ensures
        client_name.len() > 0,
        !client_name.contains('/'),
        !client_name.contains('\\'),
        client_name != "."@,
        client_name != ".."@,
{
    pathsafe::valid_names_are_single_components(client_name);
}

impl Shown for Rejected {
    open spec fn shown(self) -> JsonView {
        JsonView::Object(
            seq![
                ("name"@, JsonView::Text(self.name@)),
                ("reason"@, JsonView::Text(self.reason@)),
            ],
        )
    }

    fn to_json(&self) -> (r: Json) {
        let mut f: Vec<(String, Json)> = Vec::new();
        assert(json::fields_view(f@) =~= Seq::empty());
        json::put(&mut f, "name", json::text_json(self.name.as_str()));
        json::put(&mut f, "reason", json::text_json(self.reason.as_str()));
        assert(json::fields_view(f@) =~= self.shown()->Object_0);
        Json::Object(f)
    }
}

/// A file is stored under the name it came with, if that is a safe one; a file without a name, and
/// one whose name is not safe, is refused with the reason.
pub proof fn files_are_refused_for_their_name(name: Seq<char>)
    ensures
        name.len() == 0 ==> refusal(name) == Some("missing filename"@),
        name.len() > 0 ==> refusal(name) == pathsafe::name_error(name),
        given_name(Some(name)) == name,
        given_name(None) == ""@,
{
}

/// A refused file is shown with its name and the reason.
pub proof fn refusals_are_shown_by_name(r: Rejected)
    ensures
        json::has_once(
            r.shown(),
            "name"@,
            JsonView::Text(r.name@),
        ),
        json::has_once(
            r.shown(),
            "reason"@,
            JsonView::Text(r.reason@),
        ),
{
    reveal_strlit("name");
    reveal_strlit("reason");
    assert("name"@.len() == 4);
    assert("reason"@.len() == 6);
    let fields = r.shown()->Object_0;
    assert(fields.len() == 2);
    assert(fields[0] == ("name"@, JsonView::Text(r.name@)));
    assert(fields[1] == ("reason"@, JsonView::Text(r.reason@)));
}

} // verus!
