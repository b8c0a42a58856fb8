//! Listing a folder.
use super::{is_error, to_epoch_ms};
use crate::answer::{err, ok, Answer};
use crate::files::lnk;
use crate::files::lnk::Targets;
use crate::files::pathsafe;
use crate::files::pshell;
use crate::json;
use crate::json::{Json, JsonView, Number, Shown};
use crate::order;
use crate::text;
use vstd::prelude::*;

verus! {

/// An entry of a folder as it is found.
pub struct Found {
    pub name: String,
    pub path: String,
    pub is_dir: bool,
    /// It holds a folder `.git`.
    pub has_git: bool,
    /// When it was last written, in seconds and nanoseconds since the epoch.
    pub modified: Option<(u64, u32)>,
}

/// An entry as it is shown.
#[derive(Debug)]
pub struct Row {
    pub name: String,
    pub path: String,
    pub is_dir: bool,
    pub is_repo: bool,
    pub mtime_ms: u64,
    /// It is a shortcut that leads to the path.
    pub is_shortcut: bool,
}

/// An entry as it is shown, mathematically.
#[verifier::ext_equal]
pub struct RowView {
    pub name: Seq<char>,
    pub path: Seq<char>,
    pub is_dir: bool,
    pub is_repo: bool,
    pub mtime_ms: u64,
    pub is_shortcut: bool,
}

impl View for Row {
    type V = RowView;

    open spec fn view(&self) -> RowView {
        RowView {
            name: self.name@,
            path: self.path@,
            is_dir: self.is_dir,
            is_repo: self.is_repo,
            mtime_ms: self.mtime_ms,
            is_shortcut: self.is_shortcut,
        }
    }
}

/// The views of a list of rows.
pub open spec fn rows_view(rows: Seq<Row>) -> Seq<RowView> {
    rows.map_values(|r: Row| r@)
}

/// A time in milliseconds; 0 where it is not known.
pub open spec fn millis(t: Option<(u64, u32)>) -> u64 {
    match t {
        Some((s, n)) => ((s * 1000 + n as int / 1_000_000) % 0x1_0000_0000_0000_0000) as u64,
        None => 0,
    }
}

/// An entry before shortcuts are followed.
pub open spec fn row_of(f: Found) -> RowView {
    RowView {
        name: f.name@,
        path: f.path@,
        is_dir: f.is_dir,
        is_repo: f.is_dir && f.has_git,
        mtime_ms: millis(f.modified),
        is_shortcut: false,
    }
}

fn row(f: &Found) -> (r: Row)
    ensures
        r@ == row_of(*f),
{
    Row {
        name: text::owned(f.name.as_str()),
        path: text::owned(f.path.as_str()),
        is_dir: f.is_dir,
        is_repo: f.is_dir && f.has_git,
        mtime_ms: to_epoch_ms(f.modified),
        is_shortcut: false,
    }
}

/// The entry is a file that may be a shortcut.
pub open spec fn may_lead_on(f: Found) -> bool {
    !f.is_dir && lnk::lnk_name(f.name@)
}

/// The paths of the entries that may be shortcuts.
pub open spec fn shortcuts_among(found: Seq<Found>) -> Seq<Seq<char>>
    decreases found.len(),
{
    if found.len() == 0 {
        Seq::empty()
    } else if may_lead_on(found.last()) {
        shortcuts_among(found.drop_last()).push(found.last().path@)
    } else {
        shortcuts_among(found.drop_last())
    }
}

/// The paths of the entries that may be shortcuts, in the order in which they are found.
pub fn shortcut_paths(found: &Vec<Found>) -> (r: Vec<String>)
    ensures
        text::views(r@) == shortcuts_among(found@),
{
    let mut out: Vec<String> = Vec::new();
    let mut i: usize = 0;
    assert(text::views(out@) =~= shortcuts_among(found@.take(0)));
    while i < found.len()
        invariant
            i <= found@.len(),
            text::views(out@) == shortcuts_among(found@.take(i as int)),
        decreases found@.len() - i,
    {
        assert(found@.take(i + 1).drop_last() =~= found@.take(i as int));
        if !found[i].is_dir && lnk::is_lnk(found[i].name.as_str()) {
            let ghost before = text::views(out@);
            out.push(text::owned(found[i].path.as_str()));
            assert(text::views(out@) =~= before.push(found@[i as int].path@));
        }
        i = i + 1;
    }
    assert(found@.take(i as int) =~= found@);
    out
}

// ---------------------------------------------------------------- following shortcuts

/// The folder that an entry leads to, given where each shortcut leads by its path in small
/// letters.
pub open spec fn lead_at(
    is_dir: bool,
    targets: Map<Seq<char>, lnk::ResolvedView>,
    key: Seq<char>,
) -> Option<Seq<char>> {
    if is_dir || !targets.dom().contains(key) || !targets[key].is_dir || targets[key].target.len()
        == 0 {
        None
    } else {
        Some(targets[key].target)
    }
}

/// The folder that an entry leads to, given its path in small letters.
pub fn lead(is_dir: bool, targets: &Targets, key: &str) -> (r: Option<String>)
    ensures
        text::opt_view(r) == lead_at(is_dir, targets@, key@),
{
    if is_dir {
        return None;
    }
    match targets.get(key) {
        None => None,
        Some(t) => {
            let chars = text::chars_of(t.target.as_str());
            if !t.is_dir || chars.len() == 0 {
                None
            } else {
                Some(text::owned(t.target.as_str()))
            }
        },
    }
}

/// The folder that each entry leads to, if it leads to one.
pub fn wanted_targets(found: &Vec<Found>, targets: &Targets) -> (r: Vec<Option<String>>)
    ensures
        r@.len() == found@.len(),
        forall|i: int|
            0 <= i < r@.len() ==> text::opt_view(#[trigger] r@[i]) == lead_at(
                found@[i].is_dir,
                targets@,
                text::lowercase(found@[i].path@),
            ),
{
    let mut out: Vec<Option<String>> = Vec::new();
    let mut i: usize = 0;
    while i < found.len()
        invariant
            i <= found@.len(),
            out@.len() == i,
            forall|k: int|
                0 <= k < i ==> text::opt_view(#[trigger] out@[k]) == lead_at(
                    found@[k].is_dir,
                    targets@,
                    text::lowercase(found@[k].path@),
                ),
        decreases found@.len() - i,
    {
        let key = found[i].path.as_str().to_lowercase();
        out.push(lead(found[i].is_dir, targets, key.as_str()));
        i = i + 1;
    }
    out
}

/// The folder that a shortcut leads to, in canonical form.
pub struct Landing {
    pub path: String,
    /// It holds a folder `.git`.
    pub has_git: bool,
}

/// What is known of where an entry leads.
pub open spec fn landing_at(landings: Seq<Option<Landing>>, i: int) -> Option<Landing> {
    if 0 <= i < landings.len() {
        landings[i]
    } else {
        None
    }
}

/// An entry with its shortcut followed, if it leads to a folder that exists and may be
/// browsed; any other entry as it is.
pub open spec fn followed(
    f: Found,
    leads: bool,
    landing: Option<Landing>,
    roots: Seq<Seq<char>>,
) -> RowView {
    match landing {
        Some(l) => if leads && pathsafe::allowed(l.path@, roots) {
            RowView {
                name: lnk::stripped(f.name@),
                path: l.path@,
                is_dir: true,
                is_repo: l.has_git,
                mtime_ms: millis(f.modified),
                is_shortcut: true,
            }
        } else {
            row_of(f)
        },
        None => row_of(f),
    }
}

fn follow(f: &Found, leads: bool, landing: Option<&Landing>, roots: &Vec<String>) -> (r: Row)
    ensures
        r@ == followed(
            *f,
            leads,
            match landing {
                Some(l) => Some(*l),
                None => None,
            },
            text::views(roots@),
        ),
{
    if let Some(l) = landing {
        if leads && pathsafe::is_path_allowed(l.path.as_str(), roots.as_slice()) {
            return Row {
                name: lnk::strip_lnk(f.name.as_str()),
                path: text::owned(l.path.as_str()),
                is_dir: true,
                is_repo: l.has_git,
                mtime_ms: to_epoch_ms(f.modified),
                is_shortcut: true,
            };
        }
    }
    row(f)
}

/// What a folder is shown to hold, before it is put in order.
pub open spec fn shown_rows(
    found: Seq<Found>,
    targets: Map<Seq<char>, lnk::ResolvedView>,
    landings: Seq<Option<Landing>>,
    roots: Seq<Seq<char>>,
) -> Seq<RowView> {
    Seq::new(
        found.len(),
        |i: int|
            followed(
                found[i],
                lead_at(found[i].is_dir, targets, text::lowercase(found[i].path@)) is Some,
                landing_at(landings, i),
                roots,
            ),
    )
}

/// What a folder holds, with the shortcuts followed.
pub fn follow_shortcuts(
    found: &Vec<Found>,
    targets: &Targets,
    landings: &Vec<Option<Landing>>,
    roots: &Vec<String>,
) -> (r: Vec<Row>)
    ensures
        rows_view(r@) == shown_rows(found@, targets@, landings@, text::views(roots@)),
{
    let ghost all = shown_rows(found@, targets@, landings@, text::views(roots@));
    let wanted = wanted_targets(found, targets);
    let mut out: Vec<Row> = Vec::new();
    let mut i: usize = 0;
    assert(rows_view(out@) =~= all.take(0));
    while i < found.len()
        invariant
            i <= found@.len(),
            wanted@.len() == found@.len(),
            forall|k: int|
                0 <= k < wanted@.len() ==> text::opt_view(#[trigger] wanted@[k]) == lead_at(
                    found@[k].is_dir,
                    targets@,
                    text::lowercase(found@[k].path@),
                ),
            all == shown_rows(found@, targets@, landings@, text::views(roots@)),
            rows_view(out@) == all.take(i as int),
        decreases found@.len() - i,
    {
        let landing: Option<&Landing> = if i < landings.len() {
            match &landings[i] {
                Some(l) => Some(l),
                None => None,
            }
        } else {
            None
        };
        assert(text::opt_view(wanted@[i as int]) is Some == wanted@[i as int] is Some);
        let leads = wanted[i].is_some();
        let ghost before = rows_view(out@);
        let row = follow(&found[i], leads, landing, roots);
        out.push(row);
        assert(row@ == all[i as int]);
        assert(rows_view(out@) =~= before.push(all[i as int]));
        assert(all.take(i + 1) =~= all.take(i as int).push(all[i as int]));
        i = i + 1;
    }
    assert(all.take(i as int) =~= all);
    out
}

/// A shortcut never leads out of what may be browsed.
pub proof fn shortcuts_stay_inside(
    found: Seq<Found>,
    targets: Map<Seq<char>, lnk::ResolvedView>,
    landings: Seq<Option<Landing>>,
    roots: Seq<Seq<char>>,
    i: int,
)
    requires
        0 <= i < found.len(),
        shown_rows(found, targets, landings, roots)[i].is_shortcut,
    ensures
        pathsafe::allowed(shown_rows(found, targets, landings, roots)[i].path, roots),
        shown_rows(found, targets, landings, roots)[i].is_dir,
{
}

/// Where no shortcut leads anywhere, every entry is shown as it is found.
pub proof fn without_targets_nothing_changes(
    found: Seq<Found>,
    landings: Seq<Option<Landing>>,
    roots: Seq<Seq<char>>,
)
    ensures
        shown_rows(found, Map::empty(), landings, roots) == Seq::new(
            found.len(),
            |i: int| row_of(found[i]),
        ),
{
    assert(shown_rows(found, Map::empty(), landings, roots) =~= Seq::new(
        found.len(),
        |i: int| row_of(found[i]),
    ));
}

// ---------------------------------------------------------------- order

impl order::Ranked for Row {
    open spec fn before(a: Self, b: Self) -> bool {
        if a.is_dir != b.is_dir {
            a.is_dir
        } else {
            text::no_later(text::lowercase(a.name@), text::lowercase(b.name@))
        }
    }

    fn may_precede(a: &Self, b: &Self) -> (r: bool) {
        if a.is_dir != b.is_dir {
            return a.is_dir;
        }
        let x = a.name.as_str().to_lowercase();
        let y = b.name.as_str().to_lowercase();
        text::is_no_later(x.as_str(), y.as_str())
    }
}

/// A listing holds every row, folders before files, and within each by name in small
/// letters.
pub proof fn listings_are_in_order(rows: Seq<Row>)
    ensures
        order::sorted(rows).to_multiset() == rows.to_multiset(),
        ({
            let s = order::sorted(rows);
            &&& forall|i: int, j: int|
                0 <= i < j < s.len() && (#[trigger] s[j]).is_dir ==> (#[trigger] s[i]).is_dir
            &&& forall|i: int, j: int|
                0 <= i < j < s.len() && (#[trigger] s[i]).is_dir == (#[trigger] s[j]).is_dir
                    ==> text::no_later(text::lowercase(s[i].name@), text::lowercase(s[j].name@))
        }),
{
    order::sorting_keeps_the_items(rows);
    assert forall|a: Row, b: Row| <Row as order::Ranked>::before(a, b)
        || <Row as order::Ranked>::before(b, a) by {
        text::lemma_no_later_total(text::lowercase(a.name@), text::lowercase(b.name@));
    }
    assert forall|a: Row, b: Row, c: Row|
        <Row as order::Ranked>::before(a, b) && <Row as order::Ranked>::before(
            b,
            c,
        ) implies <Row as order::Ranked>::before(a, c) by {
        if a.is_dir == b.is_dir && b.is_dir == c.is_dir {
            text::lemma_no_later_transitive(
                text::lowercase(a.name@),
                text::lowercase(b.name@),
                text::lowercase(c.name@),
            );
        }
    }
    order::sorting_puts_in_order(rows);
    let s = order::sorted(rows);
    assert forall|i: int, j: int|
        0 <= i < j < s.len() && (#[trigger] s[j]).is_dir implies (#[trigger] s[i]).is_dir by {
        assert(<Row as order::Ranked>::before(s[i], s[j]));
    }
    assert forall|i: int, j: int|
        0 <= i < j < s.len() && (#[trigger] s[i]).is_dir == (#[trigger] s[j]).is_dir implies text::no_later(
    text::lowercase(s[i].name@), text::lowercase(s[j].name@)) by {
        assert(<Row as order::Ranked>::before(s[i], s[j]));
    }
}

// ---------------------------------------------------------------- the answer

impl Shown for Row {
    open spec fn shown(self) -> JsonView {
        JsonView::Object(
            seq![
                ("name"@, JsonView::Text(self.name@)),
                ("path"@, JsonView::Text(self.path@)),
                ("isDir"@, JsonView::Bool(self.is_dir)),
                ("isRepo"@, JsonView::Bool(self.is_repo)),
                ("mtimeMs"@, json::number_view(self.mtime_ms)),
                ("isShortcut"@, JsonView::Bool(self.is_shortcut)),
            ],
        )
    }

    fn to_json(&self) -> (r: Json) {
        let mut f: Vec<(String, Json)> = Vec::new();
        assert(json::fields_view(f@) =~= Seq::empty());
        json::put(&mut f, "name", json::text_json(self.name.as_str()));
        json::put(&mut f, "path", json::text_json(self.path.as_str()));
        json::put(&mut f, "isDir", Json::Bool(self.is_dir));
        json::put(&mut f, "isRepo", Json::Bool(self.is_repo));
        json::put(&mut f, "mtimeMs", Json::Number(Number::Unsigned(self.mtime_ms)));
        json::put(&mut f, "isShortcut", Json::Bool(self.is_shortcut));
        assert(json::fields_view(f@) =~= self.shown()->Object_0);
        Json::Object(f)
    }
}

/// The folder above, where one may go up.
pub open spec fn way_up(
    path: Seq<char>,
    roots: Seq<Seq<char>>,
    parent: Option<Seq<char>>,
) -> Option<Seq<char>> {
    match parent {
        Some(p) => if !pathsafe::is_root(path, roots) && pathsafe::allowed(p, roots) {
            Some(p)
        } else {
            None
        },
        None => None,
    }
}

/// The folder above, where one may go up: not from a root, and not out of what may be
/// browsed.
pub fn parent_of(path: &str, roots: &Vec<String>, parent: Option<&str>) -> (r: Option<String>)
    ensures
        text::opt_view(r) == way_up(path@, text::views(roots@), text::opt_str(parent)),
{
    if pathsafe::is_effective_root(path, roots.as_slice()) {
        return None;
    }
    match parent {
        Some(p) => if pathsafe::is_path_allowed(p, roots.as_slice()) {
            Some(text::owned(p))
        } else {
            None
        },
        None => None,
    }
}

/// The answer with what a folder holds.
pub open spec fn listing_view(
    path: Seq<char>,
    parent: Option<Seq<char>>,
    rows: Seq<Row>,
) -> JsonView {
    JsonView::Object(
        seq![
            ("path"@, JsonView::Text(path)),
            ("parent"@, json::opt_text_view(parent)),
            ("entries"@, json::shown_list(rows)),
        ],
    )
}

/// Lists a folder, given where it is, what it holds, where the shortcuts in it lead, and
/// what it lies in.
pub fn ls(
    at: &Result<(String, Vec<String>), String>,
    read: &Result<Vec<Found>, String>,
    targets: &Targets,
    landings: &Vec<Option<Landing>>,
    parent: Option<&str>,
) -> (r: Answer)
    ensures
        match at {
            Err(e) => is_error(r, 403, e@),
            Ok((path, roots)) => match read {
                Err(e) => is_error(r, 400, "cannot read directory: "@ + e@),
                Ok(found) => r.status == 200 && exists|rows: Seq<Row>|
                    rows_view(rows) == shown_rows(
                        found@,
                        targets@,
                        landings@,
                        text::views(roots@),
                    ) && r.body@ == listing_view(
                        path@,
                        way_up(path@, text::views(roots@), text::opt_str(parent)),
                        #[trigger] order::sorted(rows),
                    ),
            },
        },
{
    match at {
        Err(e) => err(403, e.as_str()),
        Ok((path, roots)) => match read {
            Err(e) => {
                let m = pshell::concat("cannot read directory: ", e.as_str());
                err(400, m.as_str())
            },
            Ok(found) => {
                let rows = follow_shortcuts(found, targets, landings, roots);
                let ghost unsorted = rows@;
                let sorted = order::sort_stable(rows);
                let up = parent_of(path.as_str(), roots, parent);
                let up_json = match &up {
                    Some(p) => json::text_json(p.as_str()),
                    None => Json::Null,
                };
                let mut f: Vec<(String, Json)> = Vec::new();
                assert(json::fields_view(f@) =~= Seq::empty());
                json::put(&mut f, "path", json::text_json(path.as_str()));
                json::put(&mut f, "parent", up_json);
                json::put(&mut f, "entries", json::list_json(&sorted));
                assert(json::fields_view(f@) =~= listing_view(
                    path@,
                    text::opt_view(up),
                    order::sorted(unsorted),
                )->Object_0);
                ok(Json::Object(f))
            },
        },
    }
}

/// Times are shown in whole thousandths of a second since the epoch; a time that is not known is
/// shown as zero.
pub proof fn times_are_shown_in_thousandths(s: u64, n: u32)
    ensures
        millis(None) == 0,
        s < 18_000_000_000_000_000 && n < 1_000_000_000 ==> 1_000_000 * (millis(Some((s, n))) - 1000
            * s) <= n < 1_000_000 * (millis(Some((s, n))) - 1000 * s + 1),
{
    if s < 18_000_000_000_000_000 && n < 1_000_000_000 {
        let q = n as int / 1_000_000;
        assert(0 <= q < 1000);
        assert(0 <= s * 1000 + q < 0x1_0000_0000_0000_0000);
        assert(millis(Some((s, n))) == s * 1000 + q);
    }
}

/// A thing that was found is shown as it is; a folder with a folder `.git` in it is a repository.
pub proof fn things_are_shown_as_they_are(f: Found)
    ensures
        row_of(f).name == f.name@,
        row_of(f).path == f.path@,
        row_of(f).is_dir == f.is_dir,
        row_of(f).is_repo <==> f.is_dir && f.has_git,
        row_of(f).mtime_ms == millis(f.modified),
        !row_of(f).is_shortcut,
{
}

/// A shortcut that leads to a folder is shown as that folder, under its own name without the ending
/// and with its own time, if the folder lies below a root; else it is shown as the file it is.
pub proof fn shortcuts_are_shown_as_their_folder(
    f: Found,
    l: Landing,
    roots: Seq<Seq<char>>,
    landing: Option<Landing>,
)
    ensures
        pathsafe::allowed(l.path@, roots) ==> followed(f, true, Some(l), roots) == (RowView {
            name: lnk::stripped(f.name@),
            path: l.path@,
            is_dir: true,
            is_repo: l.has_git,
            mtime_ms: millis(f.modified),
            is_shortcut: true,
        }),
        !pathsafe::allowed(l.path@, roots) ==> followed(f, true, Some(l), roots) == row_of(f),
        followed(f, false, landing, roots) == row_of(f),
        followed(f, true, None, roots) == row_of(f),
{
}

/// A shortcut leads somewhere if it is a file, its target is known, and that is a folder; it leads
/// there.
pub proof fn only_folders_are_led_to(
    is_dir: bool,
    targets: Map<Seq<char>, lnk::ResolvedView>,
    key: Seq<char>,
)
    ensures
        is_dir ==> lead_at(is_dir, targets, key) is None,
        !targets.dom().contains(key) ==> lead_at(is_dir, targets, key) is None,
        targets.dom().contains(key) && !targets[key].is_dir ==> lead_at(is_dir, targets, key) is None,
        !is_dir && targets.dom().contains(key) && targets[key].is_dir && targets[key].target.len() > 0
            ==> lead_at(is_dir, targets, key) == Some(targets[key].target),
{
}

/// The shortcuts among the things found are the files whose name ends as that of one, in their order.
pub proof fn shortcuts_are_found_by_their_ending(a: Seq<Found>, b: Seq<Found>, f: Found)
    ensures
        shortcuts_among(a + b) == shortcuts_among(a) + shortcuts_among(b),
        f.is_dir ==> shortcuts_among(seq![f]).len() == 0,
        !lnk::lnk_name(f.name@) ==> shortcuts_among(seq![f]).len() == 0,
        !f.is_dir && lnk::lnk_name(f.name@) ==> shortcuts_among(seq![f]) == seq![f.path@],
    decreases b.len(),
{
    reveal_with_fuel(shortcuts_among, 2);
    assert(seq![f].drop_last() =~= Seq::empty());
    if may_lead_on(f) {
        assert(shortcuts_among(seq![f]) =~= seq![f.path@]);
    }
    if b.len() == 0 {
        assert(a + b =~= a);
        assert(shortcuts_among(a) + shortcuts_among(b) =~= shortcuts_among(a));
    } else {
        shortcuts_are_found_by_their_ending(a, b.drop_last(), f);
        assert((a + b).drop_last() =~= a + b.drop_last());
        assert(shortcuts_among(a + b) =~= shortcuts_among(a) + shortcuts_among(b));
    }
}

/// Folders come before files; among folders, and among files, the order is that of their names in
/// small letters.
pub proof fn folders_come_first(a: Row, b: Row)
    ensures
        a.is_dir && !b.is_dir ==> <Row as order::Ranked>::before(a, b) && !<Row as order::Ranked>::before(
            b,
            a,
        ),
        a.is_dir == b.is_dir ==> <Row as order::Ranked>::before(a, b) == text::no_later(
            text::lowercase(a.name@),
            text::lowercase(b.name@),
        ),
{
}

/// There is a way up from a folder that is no root, to the folder above it, if that lies below a
/// root; and no other.
pub proof fn the_way_up_ends_at_the_root(
    path: Seq<char>,
    roots: Seq<Seq<char>>,
    parent: Option<Seq<char>>,
)
    ensures
        pathsafe::is_root(path, roots) ==> way_up(path, roots, parent) is None,
        way_up(path, roots, parent) is Some ==> way_up(path, roots, parent) == parent
            && pathsafe::allowed(parent->0, roots),
        parent is Some && !pathsafe::is_root(path, roots) && pathsafe::allowed(parent->0, roots)
            ==> way_up(path, roots, parent) == parent,
{
}

/// A row is shown with each of its parts under its name.
pub proof fn rows_are_shown_by_name(r: Row)
    ensures
        json::has_once(
            r.shown(),
            "name"@,
            JsonView::Text(r.name@),
        ),
        json::has_once(
            r.shown(),
            "path"@,
            JsonView::Text(r.path@),
        ),
        json::has_once(
            r.shown(),
            "isDir"@,
            JsonView::Bool(r.is_dir),
        ),
        json::has_once(
            r.shown(),
            "isRepo"@,
            JsonView::Bool(r.is_repo),
        ),
        json::has_once(
            r.shown(),
            "mtimeMs"@,
            JsonView::Number(Number::Unsigned(r.mtime_ms)),
        ),
        json::has_once(
            r.shown(),
            "isShortcut"@,
            JsonView::Bool(r.is_shortcut),
        ),
{
    reveal_strlit("name");
    reveal_strlit("path");
    reveal_strlit("isDir");
    reveal_strlit("isRepo");
    reveal_strlit("mtimeMs");
    reveal_strlit("isShortcut");
    assert("name"@.len() == 4);
    assert("path"@.len() == 4);
    assert("isDir"@.len() == 5);
    assert("isRepo"@.len() == 6);
    assert("mtimeMs"@.len() == 7);
    assert("isShortcut"@.len() == 10);
    assert("name"@[0] != "path"@[0]);
    let fields = r.shown()->Object_0;
    assert(fields.len() == 6);
    assert(fields[0] == ("name"@, JsonView::Text(r.name@)));
    assert(fields[1] == ("path"@, JsonView::Text(r.path@)));
    assert(fields[2] == ("isDir"@, JsonView::Bool(r.is_dir)));
    assert(fields[3] == ("isRepo"@, JsonView::Bool(r.is_repo)));
    assert(fields[4] == ("mtimeMs"@, JsonView::Number(Number::Unsigned(r.mtime_ms))));
    assert(fields[5] == ("isShortcut"@, JsonView::Bool(r.is_shortcut)));
}

/// A listing is shown with the path, the way up and the rows.
pub proof fn listings_are_shown_by_name(path: Seq<char>, parent: Option<Seq<char>>, rows: Seq<Row>)
    ensures
        json::has_once(
            listing_view(path, parent, rows),
            "path"@,
            JsonView::Text(path),
        ),
        json::has_once(
            listing_view(path, parent, rows),
            "parent"@,
            json::opt_text_view(parent),
        ),
        json::has_once(
            listing_view(path, parent, rows),
            "entries"@,
            json::shown_list(rows),
        ),
{
    reveal_strlit("path");
    reveal_strlit("parent");
    reveal_strlit("entries");
    assert("path"@.len() == 4);
    assert("parent"@.len() == 6);
    assert("entries"@.len() == 7);
    let fields = listing_view(path, parent, rows)->Object_0;
    assert(fields.len() == 3);
    assert(fields[0] == ("path"@, JsonView::Text(path)));
    assert(fields[1] == ("parent"@, json::opt_text_view(parent)));
    assert(fields[2] == ("entries"@, json::shown_list(rows)));
}

} // verus!
