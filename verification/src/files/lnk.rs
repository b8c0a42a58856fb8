//! Shell shortcuts (`.lnk` files) and the folders they lead to.
use super::pshell;
use crate::fields;
use crate::json;
use crate::json::Json;
use crate::stored;
use crate::text;
use vstd::prelude::*;
use vstd::slice::slice_subrange;

verus! {

/// A name that ends in `.lnk`, in whatever case, with something before it.
pub open spec fn lnk_name(name: Seq<char>) -> bool {
    name.len() > 4 && text::eq_ignore_case(name.skip(name.len() - 4), ".lnk"@)
}

/// Whether a name ends in `.lnk` with something before it.
pub fn is_lnk(name: &str) -> (r: bool)
    ensures
        r == lnk_name(name@),
{
    let s = text::chars_of(name);
    let n: usize = s.len();
    if n <= 4 {
        return false;
    }
    assert(s@.subrange(n - 4, n as int) =~= name@.skip(n - 4));
    let tail = text::string_of(slice_subrange(s.as_slice(), n - 4, n));
    text::equals_ignore_case(tail.as_str(), ".lnk")
}

/// The name without a trailing `.lnk`; any other name as it is.
pub open spec fn stripped(name: Seq<char>) -> Seq<char> {
    if lnk_name(name) {
        name.take(name.len() - 4)
    } else {
        name
    }
}

/// The name without a trailing `.lnk`.
pub fn strip_lnk(name: &str) -> (r: String)
    ensures
        r@ == stripped(name@),
{
    if is_lnk(name) {
        let s = text::chars_of(name);
        let n: usize = s.len();
        assert(s@.subrange(0, n - 4) =~= name@.take(n - 4));
        text::string_of(slice_subrange(s.as_slice(), 0, n - 4))
    } else {
        text::owned(name)
    }
}

/// Where a shortcut leads.
#[derive(Debug)]
pub struct Resolved {
    pub lnk: String,
    pub target: String,
    pub is_dir: bool,
}

/// Where a shortcut leads, mathematically.
#[verifier::ext_equal]
pub struct ResolvedView {
    pub lnk: Seq<char>,
    pub target: Seq<char>,
    pub is_dir: bool,
}

impl View for Resolved {
    type V = ResolvedView;

    open spec fn view(&self) -> ResolvedView {
        ResolvedView { lnk: self.lnk@, target: self.target@, is_dir: self.is_dir }
    }
}

/// Where each shortcut leads, by its path in small letters.
pub struct Targets {
    entries: Vec<(String, Resolved)>,
}

/// The key stands at `i`.
pub open spec fn key_at(entries: Seq<(String, Resolved)>, key: Seq<char>, i: int) -> bool {
    0 <= i < entries.len() && entries[i].0@ == key
}

/// The map that a list of entries makes.
pub open spec fn entry_map(entries: Seq<(String, Resolved)>) -> Map<Seq<char>, ResolvedView> {
    Map::new(
        |k: Seq<char>| exists|i: int| key_at(entries, k, i),
        |k: Seq<char>| entries[choose|i: int| key_at(entries, k, i)].1@,
    )
}

/// No key stands twice.
pub open spec fn distinct(entries: Seq<(String, Resolved)>) -> bool {
    forall|i: int, j: int|
        0 <= i < j < entries.len() ==> (#[trigger] entries[i]).0@ != (#[trigger] entries[j]).0@
}

impl View for Targets {
    type V = Map<Seq<char>, ResolvedView>;

    closed spec fn view(&self) -> Map<Seq<char>, ResolvedView> {
        entry_map(self.entries@)
    }
}

proof fn lemma_entry(entries: Seq<(String, Resolved)>, i: int)
    requires
        distinct(entries),
        0 <= i < entries.len(),
    ensures
        entry_map(entries).dom().contains(entries[i].0@),
        entry_map(entries)[entries[i].0@] == entries[i].1@,
{
    assert(key_at(entries, entries[i].0@, i));
    let k = choose|k: int| key_at(entries, entries[i].0@, k);
    assert(key_at(entries, entries[i].0@, k));
    if k != i {
        assert(entries[k].0@ != entries[i].0@);
    }
}

impl Targets {
    #[verifier::type_invariant]
    spec fn type_ok(self) -> bool {
        distinct(self.entries@)
    }

    /// No entries.
    pub fn new() -> (r: Targets)
        ensures
            r@ == Map::<Seq<char>, ResolvedView>::empty(),
    {
        let r = Targets { entries: Vec::new() };
        assert(r@ =~= Map::<Seq<char>, ResolvedView>::empty());
        r
    }

    /// The entry for a key.
    pub fn get(&self, key: &str) -> (r: Option<&Resolved>)
        ensures
            match r {
                Some(v) => self@.dom().contains(key@) && self@[key@] == v@,
                None => !self@.dom().contains(key@),
            },
    {
        proof {
            use_type_invariant(self);
        }
        let mut i: usize = 0;
        while i < self.entries.len()
            invariant
                i <= self.entries@.len(),
                distinct(self.entries@),
                forall|k: int| 0 <= k < i ==> (#[trigger] self.entries@[k]).0@ != key@,
            decreases self.entries@.len() - i,
        {
            if text::same(self.entries[i].0.as_str(), key) {
                proof {
                    lemma_entry(self.entries@, i as int);
                }
                return Some(&self.entries[i].1);
            }
            i = i + 1;
        }
        None
    }

    /// Whether there is no entry.
    pub fn is_empty(&self) -> (r: bool)
        ensures
            r == (self@ == Map::<Seq<char>, ResolvedView>::empty()),
    {
        proof {
            use_type_invariant(self);
            if self.entries@.len() > 0 {
                lemma_entry(self.entries@, 0);
            } else {
                assert(self@ =~= Map::<Seq<char>, ResolvedView>::empty());
            }
        }
        self.entries.len() == 0
    }

    /// How many entries there are.
    pub fn len(&self) -> (r: usize)
        ensures
            r == self@.dom().len(),
    {
        proof {
            use_type_invariant(self);
            lemma_entry_count(self.entries@);
        }
        self.entries.len()
    }

    /// Adds an entry; one with the same key gives way to it.
    pub fn insert(self, key: String, value: Resolved) -> (r: Targets)
        ensures
            r@ == self@.insert(key@, value@),
    {
        proof {
            use_type_invariant(&self);
        }
        let ghost old_map = self@;
        let mut entries = self.entries;
        let ghost before = entries@;
        let mut i: usize = 0;
        while i < entries.len() && !text::same(entries[i].0.as_str(), key.as_str())
            invariant
                i <= entries@.len(),
                entries@ == before,
                forall|k: int| 0 <= k < i ==> (#[trigger] entries@[k]).0@ != key@,
            decreases entries@.len() - i,
        {
            i = i + 1;
        }
        if i < entries.len() {
            entries.remove(i);
        }
        let ghost less = entries@;
        proof {
            assert(distinct(less)) by {
                assert forall|a: int, b: int| 0 <= a < b < less.len() implies (
                #[trigger] less[a]).0@ != (#[trigger] less[b]).0@ by {
                    let x = if i < before.len() && a >= i {
                        a + 1
                    } else {
                        a
                    };
                    let y = if i < before.len() && b >= i {
                        b + 1
                    } else {
                        b
                    };
                    assert(less[a] == before[x] && less[b] == before[y]);
                }
            }
            assert forall|a: int| 0 <= a < less.len() implies (#[trigger] less[a]).0@ != key@ by {
                if i < before.len() && a >= i {
                    assert(less[a] == before[a + 1]);
                    assert(before[i as int].0@ != before[a + 1].0@);
                } else {
                    assert(less[a] == before[a]);
                }
            }
        }
        entries.push((key, value));
        let ghost after = entries@;
        proof {
            assert(distinct(after));
            lemma_entry(after, after.len() - 1);
            assert forall|k: Seq<char>|
                entry_map(after).dom().contains(k) == entry_map(before).insert(
                    key@,
                    value@,
                ).dom().contains(k) by {
                if k != key@ {
                    if entry_map(after).dom().contains(k) {
                        let a = choose|a: int| key_at(after, k, a);
                        assert(key_at(after, k, a));
                        assert(after[a] == less[a]);
                        let x = if i < before.len() && a >= i {
                            a + 1
                        } else {
                            a
                        };
                        assert(less[a] == before[x]);
                        assert(key_at(before, k, x));
                    }
                    if entry_map(before).dom().contains(k) {
                        let x = choose|x: int| key_at(before, k, x);
                        assert(key_at(before, k, x));
                        let a = if i < before.len() && x > i {
                            x - 1
                        } else {
                            x
                        };
                        assert(less[a] == before[x]);
                        assert(after[a] == less[a]);
                        assert(key_at(after, k, a));
                    }
                }
            }
            assert forall|k: Seq<char>|
                entry_map(before).dom().contains(k) && k != key@ implies entry_map(after)[k]
                == entry_map(before)[k] by {
                let x = choose|x: int| key_at(before, k, x);
                assert(key_at(before, k, x));
                let a = if i < before.len() && x > i {
                    x - 1
                } else {
                    x
                };
                assert(less[a] == before[x]);
                assert(after[a] == less[a]);
                lemma_entry(after, a);
                lemma_entry(before, x);
            }
            assert(entry_map(after) =~= entry_map(before).insert(key@, value@));
        }
        Targets { entries }
    }
}

proof fn lemma_entry_count(entries: Seq<(String, Resolved)>)
    requires
        distinct(entries),
    ensures
        entry_map(entries).dom().finite(),
        entry_map(entries).dom().len() == entries.len(),
    decreases entries.len(),
{
    if entries.len() == 0 {
        assert(entry_map(entries).dom() =~= Set::empty());
    } else {
        let front = entries.drop_last();
        assert(distinct(front)) by {
            assert forall|a: int, b: int| 0 <= a < b < front.len() implies (#[trigger] front[a]).0@
                != (#[trigger] front[b]).0@ by {
                assert(front[a] == entries[a] && front[b] == entries[b]);
            }
        }
        lemma_entry_count(front);
        let key = entries.last().0@;
        assert forall|k: Seq<char>|
            entry_map(entries).dom().contains(k) == entry_map(front).dom().insert(
                key,
            ).contains(k) by {
            if entry_map(entries).dom().contains(k) {
                let i = choose|i: int| key_at(entries, k, i);
                assert(key_at(entries, k, i));
                if i < front.len() {
                    assert(key_at(front, k, i));
                }
            }
            if entry_map(front).dom().contains(k) {
                let i = choose|i: int| key_at(front, k, i);
                assert(key_at(front, k, i));
                assert(key_at(entries, k, i));
            }
            if k == key {
                assert(key_at(entries, k, entries.len() - 1));
            }
        }
        assert(entry_map(entries).dom() =~= entry_map(front).dom().insert(key));
        assert(!entry_map(front).dom().contains(key)) by {
            if entry_map(front).dom().contains(key) {
                let i = choose|i: int| key_at(front, key, i);
                assert(key_at(front, key, i));
                assert(entries[i].0@ != entries[entries.len() - 1].0@);
            }
        }
    }
}

// ---------------------------------------------------------------- answers

/// What a value of an answer tells of a shortcut: an object by its fields, a list of no more
/// than three by their order. The path must be there; the others may be left out.
pub open spec fn resolved_of(v: json::JsonView) -> Option<ResolvedView> {
    match (
        stored::value_or::<String>(stored::part(v, "lnk"@, 0), None),
        stored::value_or::<String>(stored::part(v, "target"@, 1), Some(Seq::empty())),
        stored::value_or::<bool>(stored::part(v, "isDir"@, 2), Some(false)),
    ) {
        (Some(lnk), Some(target), Some(is_dir)) => if stored::is_record(v, 3) {
            Some(ResolvedView { lnk, target, is_dir })
        } else {
            None
        },
        _ => None,
    }
}

/// The shortcuts that the values tell of, by path in small letters; of two with the same
/// path the last counts. Nothing if one of the values tells of none.
pub open spec fn keyed(values: Seq<json::JsonView>) -> Option<Map<Seq<char>, ResolvedView>>
    decreases values.len(),
{
    if values.len() == 0 {
        Some(Map::empty())
    } else {
        match (keyed(values.drop_last()), resolved_of(values.last())) {
            (Some(m), Some(r)) => Some(m.insert(text::lowercase(r.lnk), r)),
            _ => None,
        }
    }
}

/// What an answer tells: nothing if it is blank, is not JSON, or is not a list of values that
/// each tell of a shortcut, none of its fields repeated.
pub open spec fn targets_in(answer: Seq<char>) -> Map<Seq<char>, ResolvedView> {
    if text::blank(answer) {
        Map::empty()
    } else {
        match fields::every_field(text::trimmed(answer)) {
            Ok(json::JsonView::List(values)) => match keyed(values) {
                Some(m) => m,
                None => Map::empty(),
            },
            _ => Map::empty(),
        }
    }
}

/// What a value of an answer tells of a shortcut.
fn resolved_from_json(v: &Json) -> (r: Option<Resolved>)
    ensures
        match r {
            Some(x) => resolved_of(v@) == Some(x@),
            None => resolved_of(v@) is None,
        },
{
    if !stored::record_like(v, 3) {
        return None;
    }
    let lnk = stored::read_or::<String>(stored::part_of(v, "lnk", 0), None);
    let target = stored::read_or::<String>(stored::part_of(v, "target", 1), Some(String::new()));
    let is_dir = stored::read_or::<bool>(stored::part_of(v, "isDir", 2), Some(false));
    match (lnk, target, is_dir) {
        (Some(lnk), Some(target), Some(is_dir)) => Some(Resolved { lnk, target, is_dir }),
        _ => None,
    }
}

/// Once a value tells of no shortcut, the whole list does not.
proof fn lemma_keyed_none(values: Seq<json::JsonView>, n: int)
    requires
        0 <= n <= values.len(),
        keyed(values.take(n)) is None,
    ensures
        keyed(values) is None,
    decreases values.len() - n,
{
    if n < values.len() {
        assert(values.take(n + 1).drop_last() =~= values.take(n));
        lemma_keyed_none(values, n + 1);
    } else {
        assert(values.take(n) =~= values);
    }
}

/// What the values of a list tell.
pub fn collect_targets(values: &Vec<Json>) -> (r: Option<Targets>)
    ensures
        match r {
            Some(t) => keyed(json::list_view(values@)) == Some(t@),
            None => keyed(json::list_view(values@)) is None,
        },
{
    let mut out = Targets::new();
    let ghost all = json::list_view(values@);
    proof {
        json::lemma_list_view(values@);
    }
    let mut i: usize = 0;
    assert(keyed(all.take(0)) == Some(out@));
    while i < values.len()
        invariant
            i <= values@.len() == all.len(),
            all == json::list_view(values@),
            forall|k: int|
                0 <= k < values@.len() ==> all[k] == json::json_view(#[trigger] values@[k]),
            keyed(all.take(i as int)) == Some(out@),
        decreases values@.len() - i,
    {
        assert(all.take(i + 1).drop_last() =~= all.take(i as int));
        assert(all.take(i + 1).last() == values@[i as int]@);
        match resolved_from_json(&values[i]) {
            Some(x) => {
                let key = x.lnk.as_str().to_lowercase();
                out = out.insert(key, x);
            },
            None => {
                proof {
                    lemma_keyed_none(all, i + 1);
                }
                return None;
            },
        }
        i = i + 1;
    }
    assert(all.take(i as int) =~= all);
    Some(out)
}

/// What an answer tells.
pub fn parse_resolved(answer: &str) -> (r: Targets)
    ensures
        r@ == targets_in(answer@),
{
    let trimmed = text::trim(answer);
    if trimmed.as_str().is_empty() {
        return Targets::new();
    }
    match fields::parse(trimmed.as_str()) {
        Ok(Json::List(values)) => match collect_targets(&values) {
            Some(t) => t,
            None => Targets::new(),
        },
        _ => Targets::new(),
    }
}

/// What came of asking where shortcuts lead; nothing where asking failed.
pub fn resolve_targets(outcome: &Result<String, String>) -> (r: Targets)
    ensures
        r@ == match outcome {
            Ok(answer) => targets_in(answer@),
            Err(_) => Map::empty(),
        },
{
    match outcome {
        Ok(answer) => parse_resolved(answer.as_str()),
        Err(_) => Targets::new(),
    }
}

// ---------------------------------------------------------------- the question

/// At most this many shortcuts are asked for at a time.
pub const MAX_RESOLVE: usize = 128;

/// Asks where shortcuts lead, up to where their paths stand.
pub const RESOLVE_HEAD: &'static str = r#"
$ErrorActionPreference = 'SilentlyContinue'
$blob = [Text.Encoding]::Unicode.GetString([Convert]::FromBase64String('"#;

/// Asks where shortcuts lead, from where their paths have stood.
pub const RESOLVE_TAIL: &'static str = r#"'))
$paths = $blob -split "`n" | Where-Object { $_ -ne '' }
$sh = New-Object -ComObject WScript.Shell
$parts = foreach ($p in $paths) {
    $target = ''
    $isDir = $false
    try {
        $lnk = $sh.CreateShortcut($p)
        $target = [string]$lnk.TargetPath
        if ($target -and (Test-Path -LiteralPath $target)) {
            $isDir = [bool](Get-Item -LiteralPath $target -Force).PSIsContainer
        }
    } catch {}
    ([pscustomobject]@{ lnk = $p; target = $target; isDir = $isDir } | ConvertTo-Json -Compress)
}
# Always emit a JSON array, even for a single element (ConvertTo-Json would
# otherwise collapse one object to a non-array).
'[' + ($parts -join ',') + ']'
"#;

/// The paths that are asked for, one to a line.
pub open spec fn asked(paths: Seq<Seq<char>>) -> Seq<char> {
    text::join(
        if paths.len() > MAX_RESOLVE {
            paths.take(MAX_RESOLVE as int)
        } else {
            paths
        },
        "\n"@,
    )
}

/// The script that asks where shortcuts lead; none for no shortcuts. The paths stand in
/// it in base64.
pub fn resolve_script(lnk_paths: &[String]) -> (r: Option<String>)
    requires
        pshell::encodable(asked(text::views(lnk_paths@))),
    ensures
        match r {
            Some(s) => lnk_paths@.len() > 0 && s@ == RESOLVE_HEAD@ + pshell::encoded(
                asked(text::views(lnk_paths@)),
            ) + RESOLVE_TAIL@ && pshell::quotable(
                pshell::encoded(asked(text::views(lnk_paths@))),
            ),
            None => lnk_paths@.len() == 0,
        },
{
    if lnk_paths.len() == 0 {
        return None;
    }
    let n: usize = if lnk_paths.len() > MAX_RESOLVE {
        MAX_RESOLVE
    } else {
        lnk_paths.len()
    };
    let slice = slice_subrange(lnk_paths, 0, n);
    let joined = text::join_strings(slice, "\n");
    assert(text::views(slice@) =~= if lnk_paths@.len() > MAX_RESOLVE {
        text::views(lnk_paths@).take(MAX_RESOLVE as int)
    } else {
        text::views(lnk_paths@)
    });
    let b64 = pshell::b64_utf16(joined.as_str());
    let mut out = text::owned(RESOLVE_HEAD);
    out.append(b64.as_str());
    out.append(RESOLVE_TAIL);
    Some(out)
}

/// A shortcut is a name with something before `.lnk`, in whatever capitals; without that ending it
/// is what it is shown as. Any other name is shown as it is.
pub proof fn shortcuts_lose_their_ending(stem: Seq<char>, end: Seq<char>)
    requires
        end.len() == 4,
    ensures
        stem.len() > 0 && text::ascii_lower(end) == ".lnk"@ ==> lnk_name(stem + end) && stripped(
            stem + end,
        ) == stem,
        text::ascii_lower(end) != ".lnk"@ ==> !lnk_name(stem + end) && stripped(stem + end) == stem
            + end,
        !lnk_name(end) && stripped(end) == end,
{
    reveal_strlit(".lnk");
    assert(text::ascii_lower(".lnk"@) =~= ".lnk"@);
    let name = stem + end;
    assert(name.skip(name.len() - 4) =~= end);
    assert(name.take(name.len() - 4) =~= stem);
}

/// Where a shortcut leads is read from the fields of an object, each under its name. Without `lnk`
/// it is nothing; without `target` it leads nowhere, and without `isDir` to no folder.
pub proof fn targets_are_read_by_name(
    v: json::JsonView,
    lnk: Seq<char>,
    target: Seq<char>,
    is_dir: bool,
)
    requires
        v is Object,
    ensures
        json::has_none(v, "lnk"@) ==> resolved_of(v) is None,
        json::has_once(v, "lnk"@, json::JsonView::Text(lnk)) && json::has_once(
            v,
            "target"@,
            json::JsonView::Text(target),
        ) && json::has_once(v, "isDir"@, json::JsonView::Bool(is_dir)) ==> resolved_of(v) == Some(
            ResolvedView { lnk, target, is_dir },
        ),
        json::has_once(v, "lnk"@, json::JsonView::Text(lnk)) && json::has_none(v, "target"@)
            && json::has_none(v, "isDir"@) ==> resolved_of(v) == Some(
            ResolvedView { lnk, target: Seq::empty(), is_dir: false },
        ),
{
    let none = Seq::<json::JsonView>::empty();
    stored::fields_are_read_by_name::<String>(v, "lnk"@, json::JsonView::Text(lnk), 0, None, none);
    stored::fields_are_read_by_name::<String>(
        v,
        "target"@,
        json::JsonView::Text(target),
        1,
        Some(Seq::empty()),
        none,
    );
    stored::fields_are_read_by_name::<bool>(
        v,
        "isDir"@,
        json::JsonView::Bool(is_dir),
        2,
        Some(false),
        none,
    );
}

/// Where shortcuts lead is found by their path in small letters. The last of several of one path
/// counts, those before it and of other paths stay, and one that cannot be read spoils all.
pub proof fn targets_are_found_by_path(
    values: Seq<json::JsonView>,
    v: json::JsonView,
    key: Seq<char>,
)
    ensures
        keyed(Seq::empty()) == Some(Map::<Seq<char>, ResolvedView>::empty()),
        resolved_of(v) is None ==> keyed(values.push(v)) is None,
        keyed(values) is None ==> keyed(values.push(v)) is None,
        keyed(values) matches Some(m) ==> (resolved_of(v) matches Some(r) ==> (keyed(
            values.push(v),
        ) matches Some(n) && {
            &&& n.dom().contains(text::lowercase(r.lnk)) && n[text::lowercase(r.lnk)] == r
            &&& key != text::lowercase(r.lnk) ==> n.dom().contains(key) == m.dom().contains(key)
            &&& key != text::lowercase(r.lnk) && m.dom().contains(key) ==> n[key] == m[key]
        })),
{
    assert(values.push(v).drop_last() =~= values);
}

/// At most the first 128 shortcuts are asked about, one on each line.
pub proof fn shortcuts_are_asked_about_line_by_line(a: Seq<Seq<char>>, b: Seq<Seq<char>>, p: Seq<char>)
    ensures
        asked(seq![p]) == p,
        0 < a.len() < 128 ==> asked(a.push(p)) == asked(a) + "\n"@ + p,
        a.len() == 128 ==> asked(a + b) == asked(a),
{
    assert(a.push(p).drop_last() =~= a);
    if a.len() == 128 {
        assert((a + b).take(128) =~= a);
        if b.len() == 0 {
            assert(a + b =~= a);
        }
    }
}

/// An answer that is blank, no list, or holds one thing that cannot be read, leads nowhere.
pub proof fn broken_answers_lead_nowhere(answer: Seq<char>)
    ensures
        text::blank(answer) ==> targets_in(answer) =~= Map::empty(),
        fields::every_field(text::trimmed(answer)) is Err ==> targets_in(answer) =~= Map::empty(),
        !text::blank(answer) && (fields::every_field(text::trimmed(answer)) matches Ok(v) && v
            matches json::JsonView::List(values) && keyed(values) is Some) ==> targets_in(answer)
            == keyed(
            (fields::every_field(text::trimmed(answer))->Ok_0)->List_0,
        )->0,
{
}

} // verus!
