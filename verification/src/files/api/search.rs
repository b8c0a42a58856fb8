//! Searching a folder by name, the shallow folders first.
use super::is_error;
use crate::answer::{err, ok, Answer};
use crate::files::features;
use crate::json;
use crate::json::{Json, JsonView, Number, Shown};
use crate::text;
use std::collections::VecDeque;
use vstd::prelude::*;

verus! {

/// At most this many entries are found.
pub const MAX_RESULTS: usize = 100;

/// Folders deeper than this are not looked into.
pub const MAX_DEPTH: usize = 12;

/// How long a search may take.
pub const SEARCH_WAIT_SECS: u64 = 10;

/// A request to search.
pub struct SearchQuery {
    pub root: String,
    pub q: String,
}

/// An entry of a folder.
pub struct Entry {
    pub name: String,
    pub path: String,
    /// The path of the folder, or nothing.
    pub parent: String,
    pub is_dir: bool,
}

/// An entry that was found.
pub struct Hit {
    pub name: String,
    pub path: String,
    pub is_dir: bool,
    pub parent: String,
}

/// An entry, mathematically.
#[verifier::ext_equal]
pub struct EntryView {
    pub name: Seq<char>,
    pub path: Seq<char>,
    pub is_dir: bool,
    pub parent: Seq<char>,
}

impl View for Entry {
    type V = EntryView;

    open spec fn view(&self) -> EntryView {
        EntryView {
            name: self.name@,
            path: self.path@,
            is_dir: self.is_dir,
            parent: self.parent@,
        }
    }
}

impl View for Hit {
    type V = EntryView;

    open spec fn view(&self) -> EntryView {
        EntryView {
            name: self.name@,
            path: self.path@,
            is_dir: self.is_dir,
            parent: self.parent@,
        }
    }
}

/// The views of a list of hits.
pub open spec fn hits_view(v: Seq<Hit>) -> Seq<EntryView> {
    v.map_values(|h: Hit| h@)
}

/// The folders that wait, each with its depth.
pub open spec fn waiting_view(v: Seq<(String, usize)>) -> Seq<(Seq<char>, nat)> {
    v.map_values(|p: (String, usize)| (p.0@, p.1 as nat))
}

/// A search under way, mathematically.
#[verifier::ext_equal]
pub struct SearchView {
    pub needle: Seq<char>,
    /// The folders that wait to be looked into.
    pub waiting: Seq<(Seq<char>, nat)>,
    /// The depth of the folder that is looked into.
    pub depth: nat,
    pub found: Seq<EntryView>,
    /// It stopped before it had seen everything.
    pub truncated: bool,
}

/// The name of an entry holds what is looked for, blind to case.
pub open spec fn is_hit(needle: Seq<char>, e: EntryView) -> bool {
    text::contains(text::lowercase(e.name), text::lowercase(needle))
}

/// A folder that is looked into in turn.
pub open spec fn is_entered(depth: nat, e: EntryView) -> bool {
    e.is_dir && depth < MAX_DEPTH && !features::skipped(e.name)
}

impl SearchView {
    /// Not too much was found; no folder waits that is too deep; the folders wait in the order
    /// of their depths, none of them shallower than the one that is looked into and none
    /// deeper by more than one.
    pub open spec fn well_formed(self) -> bool {
        &&& self.found.len() <= MAX_RESULTS
        &&& self.found.len() == MAX_RESULTS ==> self.truncated
        &&& self.depth <= MAX_DEPTH
        &&& forall|i: int|
            0 <= i < self.waiting.len() ==> self.depth <= (#[trigger] self.waiting[i]).1
                <= self.depth + 1 && self.waiting[i].1 <= MAX_DEPTH
        &&& forall|i: int, j: int|
            0 <= i < j < self.waiting.len() ==> (#[trigger] self.waiting[i]).1 <= (
            #[trigger] self.waiting[j]).1
    }

    /// After the time was up.
    pub open spec fn cut_short(self) -> SearchView {
        SearchView { truncated: true, ..self }
    }

    /// After an entry of the folder that is looked into. What comes after the search stopped
    /// is not looked at.
    pub open spec fn seen(self, e: EntryView, late: bool) -> SearchView {
        if self.truncated {
            self
        } else if late {
            self.cut_short()
        } else {
            let found = if is_hit(self.needle, e) {
                self.found.push(e)
            } else {
                self.found
            };
            if found.len() >= MAX_RESULTS {
                SearchView { found, truncated: true, ..self }
            } else {
                SearchView {
                    found,
                    waiting: if is_entered(self.depth, e) {
                        self.waiting.push((e.path, self.depth + 1))
                    } else {
                        self.waiting
                    },
                    ..self
                }
            }
        }
    }

    /// After the next folder was taken up, and that folder; none where the search is over.
    pub open spec fn next(self, late: bool) -> (SearchView, Option<Seq<char>>) {
        if self.truncated || self.waiting.len() == 0 {
            (self, None)
        } else {
            let rest = self.waiting.drop_first();
            if late {
                (SearchView { waiting: rest, truncated: true, ..self }, None)
            } else {
                (
                    SearchView { waiting: rest, depth: self.waiting[0].1, ..self },
                    Some(self.waiting[0].0),
                )
            }
        }
    }
}

/// A search under way.
pub struct Search {
    needle: String,
    waiting: VecDeque<(String, usize)>,
    depth: usize,
    found: Vec<Hit>,
    truncated: bool,
}

impl View for Search {
    type V = SearchView;

    closed spec fn view(&self) -> SearchView {
        SearchView {
            needle: self.needle@,
            waiting: waiting_view(self.waiting@),
            depth: self.depth as nat,
            found: hits_view(self.found@),
            truncated: self.truncated,
        }
    }
}

impl Search {
    #[verifier::type_invariant]
    spec fn holds(self) -> bool {
        self@.well_formed()
    }

    /// Begins to search a folder.
    pub fn new(root: &str, needle: &str) -> (r: Search)
        ensures
            r@ == begun(root@, needle@),
            r@.well_formed(),
    {
        let mut waiting: VecDeque<(String, usize)> = VecDeque::new();
        waiting.push_back((text::owned(root), 0));
        let found: Vec<Hit> = Vec::new();
        assert(waiting_view(waiting@) =~= seq![(root@, 0nat)]);
        assert(hits_view(found@) =~= Seq::empty());
        Search { needle: text::owned(needle), waiting, depth: 0, found, truncated: false }
    }

    /// The next folder to look into; none where the search is over. A search whose time is up
    /// stops.
    pub fn next_folder(&mut self, late: bool) -> (r: Option<String>)
        ensures
            (final(self)@, text::opt_view(r)) == old(self)@.next(late),
            final(self)@.well_formed(),
            r is Some ==> final(self)@.depth >= old(self)@.depth,
    {
        proof {
            use_type_invariant(&*self);
        }
        if self.truncated {
            return None;
        }
        let ghost before = self@;
        proof {
            folders_come_shallow_first(before, late);
        }
        let mut waiting: VecDeque<(String, usize)> = VecDeque::new();
        std::mem::swap(&mut waiting, &mut self.waiting);
        assert(waiting_view(waiting@) == before.waiting);
        match waiting.pop_front() {
            None => {
                self.waiting = waiting;
                None
            },
            Some((folder, depth)) => {
                assert(before.waiting[0] == (folder@, depth as nat));
                assert(waiting_view(waiting@) =~= before.waiting.drop_first());
                if late {
                    self.truncated = true;
                    self.waiting = waiting;
                    None
                } else {
                    self.depth = depth;
                    self.waiting = waiting;
                    Some(folder)
                }
            },
        }
    }

    /// Looks at an entry of the folder that was taken up last; whether the search goes on.
    pub fn see(&mut self, e: &Entry, late: bool) -> (r: bool)
        ensures
            final(self)@ == old(self)@.seen(e@, late),
            final(self)@.well_formed(),
            r == !final(self)@.truncated,
    {
        proof {
            use_type_invariant(&*self);
        }
        if self.truncated {
            return false;
        }
        let ghost before = self@;
        proof {
            searches_stay_in_bounds(before, e@, late);
        }
        if late {
            self.truncated = true;
            return false;
        }
        assert(before.found.len() == self.found@.len());
        if features::name_matches(e.name.as_str(), self.needle.as_str()) {
            let mut found: Vec<Hit> = Vec::new();
            std::mem::swap(&mut found, &mut self.found);
            found.push(
                Hit {
                    name: text::owned(e.name.as_str()),
                    path: text::owned(e.path.as_str()),
                    is_dir: e.is_dir,
                    parent: text::owned(e.parent.as_str()),
                },
            );
            assert(hits_view(found@) =~= before.found.push(e@));
            if found.len() >= MAX_RESULTS {
                self.truncated = true;
                self.found = found;
                return false;
            }
            self.found = found;
        }
        if e.is_dir && self.depth < MAX_DEPTH && !features::is_skipped_dir(e.name.as_str()) {
            let mut waiting: VecDeque<(String, usize)> = VecDeque::new();
            std::mem::swap(&mut waiting, &mut self.waiting);
            waiting.push_back((text::owned(e.path.as_str()), self.depth + 1));
            assert(waiting_view(waiting@) =~= before.seen(e@, late).waiting);
            self.waiting = waiting;
        }
        true
    }

    /// What was found, and whether there may be more.
    pub fn into_results(self) -> (r: (Vec<Hit>, bool))
        ensures
            hits_view(r.0@) == self@.found,
            r.1 == self@.truncated,
            r.0@.len() <= MAX_RESULTS,
    {
        proof {
            use_type_invariant(&self);
        }
        assert(self@.found.len() == self.found@.len());
        (self.found, self.truncated)
    }
}

// ---------------------------------------------------------------- laws

/// After a row of entries, none of them late.
pub open spec fn all_seen(v: SearchView, entries: Seq<EntryView>) -> SearchView
    decreases entries.len(),
{
    if entries.len() == 0 {
        v
    } else {
        all_seen(v, entries.drop_last()).seen(entries.last(), false)
    }
}

/// The entries that hold what is looked for.
pub open spec fn hits_among(needle: Seq<char>, entries: Seq<EntryView>) -> Seq<EntryView>
    decreases entries.len(),
{
    if entries.len() == 0 {
        Seq::empty()
    } else if is_hit(needle, entries.last()) {
        hits_among(needle, entries.drop_last()).push(entries.last())
    } else {
        hits_among(needle, entries.drop_last())
    }
}

/// A search that has not stopped has found exactly the entries that hold what is looked for,
/// in the order in which it saw them.
pub proof fn nothing_is_missed(v: SearchView, entries: Seq<EntryView>)
    requires
        !all_seen(v, entries).truncated,
    ensures
        all_seen(v, entries).found == v.found + hits_among(v.needle, entries),
        all_seen(v, entries).needle == v.needle,
        all_seen(v, entries).depth == v.depth,
    decreases entries.len(),
{
    if entries.len() > 0 {
        let before = all_seen(v, entries.drop_last());
        nothing_is_missed(v, entries.drop_last());
        assert(all_seen(v, entries).found =~= v.found + hits_among(v.needle, entries));
    } else {
        assert(v.found + hits_among(v.needle, entries) =~= v.found);
    }
}

/// What was found holds what is looked for, whatever the search has seen since.
pub proof fn only_hits_are_found(v: SearchView, e: EntryView, late: bool)
    requires
        forall|i: int| 0 <= i < v.found.len() ==> is_hit(v.needle, #[trigger] v.found[i]),
    ensures
        forall|i: int|
            0 <= i < v.seen(e, late).found.len() ==> is_hit(
                v.needle,
                #[trigger] v.seen(e, late).found[i],
            ),
        v.seen(e, late).needle == v.needle,
{
}

/// No search finds too much or goes too deep.
pub proof fn searches_stay_in_bounds(v: SearchView, e: EntryView, late: bool)
    requires
        v.well_formed(),
    ensures
        v.seen(e, late).well_formed(),
{
}

/// No search comes back to a shallower folder.
pub proof fn folders_come_shallow_first(v: SearchView, late: bool)
    requires
        v.well_formed(),
    ensures
        v.next(late).0.well_formed(),
        v.next(late).1 is Some ==> v.next(late).0.depth >= v.depth,
{
    if !v.truncated && v.waiting.len() > 0 {
        let rest = v.waiting.drop_first();
        assert forall|i: int| 0 <= i < rest.len() implies (#[trigger] rest[i]).1
            >= v.waiting[0].1 && rest[i].1 <= v.waiting[0].1 + 1 by {
            assert(rest[i] == v.waiting[i + 1]);
        }
    }
}

/// A search that was not cut short went as one that had all the time.
pub proof fn time_does_not_change_the_search(v: SearchView, e: EntryView, late: bool)
    ensures
        !v.seen(e, late).truncated ==> v.seen(e, late) == v.seen(e, false),
        !v.next(late).0.truncated ==> v.next(late) == v.next(false),
{
}

// ---------------------------------------------------------------- the whole walk

/// After at most so many folders, where `listing` gives the entries of each folder.
pub open spec fn walked(
    v: SearchView,
    listing: spec_fn(Seq<char>) -> Seq<EntryView>,
    folders: nat,
) -> SearchView
    decreases folders,
{
    if folders == 0 {
        v
    } else {
        match v.next(false) {
            (w, Some(folder)) => walked(
                all_seen(w, listing(folder)),
                listing,
                (folders - 1) as nat,
            ),
            (w, None) => w,
        }
    }
}

/// The entries of folders, one folder after the other.
pub open spec fn entries_of(
    listing: spec_fn(Seq<char>) -> Seq<EntryView>,
    folders: Seq<Seq<char>>,
) -> Seq<EntryView>
    decreases folders.len(),
{
    if folders.len() == 0 {
        Seq::empty()
    } else {
        listing(folders[0]) + entries_of(listing, folders.drop_first())
    }
}

/// The folders among entries of that depth which are looked into in turn.
pub open spec fn entered_among(depth: nat, entries: Seq<EntryView>) -> Seq<Seq<char>>
    decreases entries.len(),
{
    if entries.len() == 0 {
        Seq::empty()
    } else if is_entered(depth, entries.last()) {
        entered_among(depth, entries.drop_last()).push(entries.last().path)
    } else {
        entered_among(depth, entries.drop_last())
    }
}

/// The folders directly below those of that depth.
pub open spec fn one_deeper(
    listing: spec_fn(Seq<char>) -> Seq<EntryView>,
    folders: Seq<Seq<char>>,
    depth: nat,
) -> Seq<Seq<char>> {
    entered_among(depth, entries_of(listing, folders))
}

/// What is looked for, in the folders of that depth and then in those below them, each time
/// the whole depth before the next.
pub open spec fn matches_from(
    listing: spec_fn(Seq<char>) -> Seq<EntryView>,
    needle: Seq<char>,
    folders: Seq<Seq<char>>,
    depth: nat,
) -> Seq<EntryView>
    decreases MAX_DEPTH + 1 - depth,
{
    if depth > MAX_DEPTH {
        Seq::empty()
    } else {
        hits_among(needle, entries_of(listing, folders)) + matches_from(
            listing,
            needle,
            one_deeper(listing, folders, depth),
            depth + 1,
        )
    }
}

/// How many folders there are at that depth and below.
pub open spec fn folders_from(
    listing: spec_fn(Seq<char>) -> Seq<EntryView>,
    folders: Seq<Seq<char>>,
    depth: nat,
) -> nat
    decreases MAX_DEPTH + 1 - depth,
{
    if depth > MAX_DEPTH {
        0
    } else {
        folders.len() + folders_from(listing, one_deeper(listing, folders, depth), depth + 1)
    }
}

/// An entry that can be reached from the folders of that depth.
pub open spec fn reachable(
    listing: spec_fn(Seq<char>) -> Seq<EntryView>,
    folders: Seq<Seq<char>>,
    depth: nat,
    e: EntryView,
) -> bool
    decreases MAX_DEPTH + 1 - depth,
{
    depth <= MAX_DEPTH && (entries_of(listing, folders).contains(e) || reachable(
        listing,
        one_deeper(listing, folders, depth),
        depth + 1,
        e,
    ))
}

/// A search of a folder that has only begun.
pub open spec fn begun(root: Seq<char>, needle: Seq<char>) -> SearchView {
    SearchView {
        needle,
        waiting: seq![(root, 0nat)],
        depth: 0,
        found: Seq::empty(),
        truncated: false,
    }
}

/// A search that came to its end without being cut short has found every match that can be
/// reached, once, the shallow ones first.
pub proof fn the_walk_finds_every_match_once(
    listing: spec_fn(Seq<char>) -> Seq<EntryView>,
    root: Seq<char>,
    needle: Seq<char>,
    folders: nat,
)
    requires
        ({
            let end = walked(begun(root, needle), listing, folders);
            end.waiting.len() == 0 && !end.truncated
        }),
    ensures
        walked(begun(root, needle), listing, folders).found == matches_from(
            listing,
            needle,
            seq![root],
            0,
        ),
{
    let v = begun(root, needle);
    let none = Seq::<Seq<char>>::empty();
    assert(v.waiting =~= at_depth(seq![root], 0) + at_depth(none, 1));
    lemma_walk(v, listing, folders, seq![root], none, 0);
    assert(none + one_deeper(listing, seq![root], 0) =~= one_deeper(listing, seq![root], 0));
    assert(v.found + matches_from(listing, needle, seq![root], 0) =~= matches_from(
        listing,
        needle,
        seq![root],
        0,
    ));
}

/// What is among the matches is what can be reached and holds what is looked for.
pub proof fn matches_are_reachable_hits(
    listing: spec_fn(Seq<char>) -> Seq<EntryView>,
    needle: Seq<char>,
    folders: Seq<Seq<char>>,
    depth: nat,
    e: EntryView,
)
    ensures
        matches_from(listing, needle, folders, depth).contains(e) <==> is_hit(needle, e)
            && reachable(listing, folders, depth, e),
    decreases MAX_DEPTH + 1 - depth,
{
    if depth <= MAX_DEPTH {
        let entries = entries_of(listing, folders);
        let here = hits_among(needle, entries);
        let deeper = one_deeper(listing, folders, depth);
        let below = matches_from(listing, needle, deeper, depth + 1);
        lemma_hits_contain(needle, entries, e);
        matches_are_reachable_hits(listing, needle, deeper, depth + 1, e);
        lemma_add_contains(here, below, e);
    }
}

/// Every search comes to an end: after as many folders as can be reached at the latest.
pub proof fn every_walk_ends(
    listing: spec_fn(Seq<char>) -> Seq<EntryView>,
    root: Seq<char>,
    needle: Seq<char>,
    folders: nat,
)
    requires
        folders >= folders_from(listing, seq![root], 0),
    ensures
        ({
            let end = walked(begun(root, needle), listing, folders);
            end.waiting.len() == 0 || end.truncated
        }),
{
    let v = begun(root, needle);
    let none = Seq::<Seq<char>>::empty();
    assert(v.waiting =~= at_depth(seq![root], 0) + at_depth(none, 1));
    assert(none + one_deeper(listing, seq![root], 0) =~= one_deeper(listing, seq![root], 0));
    lemma_walk_ends(v, listing, folders, seq![root], none, 0);
}

/// After a row of entries, given for each whether the time was up.
pub open spec fn all_seen_timed(
    v: SearchView,
    entries: Seq<EntryView>,
    late: spec_fn(int) -> bool,
) -> SearchView
    decreases entries.len(),
{
    if entries.len() == 0 {
        v
    } else {
        all_seen_timed(v, entries.drop_last(), late).seen(
            entries.last(),
            late(entries.len() - 1),
        )
    }
}

/// After at most so many folders. Whether the time was up is given for each folder when it is
/// taken up, and for each of its entries; the folders are counted down.
pub open spec fn walked_timed(
    v: SearchView,
    listing: spec_fn(Seq<char>) -> Seq<EntryView>,
    folders: nat,
    late_folder: spec_fn(nat) -> bool,
    late_entry: spec_fn(nat, int) -> bool,
) -> SearchView
    decreases folders,
{
    if folders == 0 {
        v
    } else {
        match v.next(late_folder(folders)) {
            (w, Some(folder)) => walked_timed(
                all_seen_timed(w, listing(folder), |i: int| late_entry(folders, i)),
                listing,
                (folders - 1) as nat,
                late_folder,
                late_entry,
            ),
            (w, None) => w,
        }
    }
}

/// Whenever a search ends, and also where it was cut short by the time or by the number of its
/// results: what it found is the first of the matches that can be reached, in their order.
pub proof fn searches_find_the_first_matches(
    listing: spec_fn(Seq<char>) -> Seq<EntryView>,
    root: Seq<char>,
    needle: Seq<char>,
    folders: nat,
    late_folder: spec_fn(nat) -> bool,
    late_entry: spec_fn(nat, int) -> bool,
)
    ensures
        walked_timed(
            begun(root, needle),
            listing,
            folders,
            late_folder,
            late_entry,
        ).found.is_prefix_of(matches_from(listing, needle, seq![root], 0)),
        walked(begun(root, needle), listing, folders).found.is_prefix_of(
            matches_from(listing, needle, seq![root], 0),
        ),
{
    let v = begun(root, needle);
    let none = Seq::<Seq<char>>::empty();
    assert(v.waiting =~= at_depth(seq![root], 0) + at_depth(none, 1));
    assert(none + one_deeper(listing, seq![root], 0) =~= one_deeper(listing, seq![root], 0));
    let all = matches_from(listing, needle, seq![root], 0);
    assert(v.found + all =~= all);
    lemma_walk_prefix(v, listing, folders, late_folder, late_entry, seq![root], none, 0);
    let never_folder = |n: nat| false;
    let never_entry = |n: nat, i: int| false;
    lemma_walk_prefix(v, listing, folders, never_folder, never_entry, seq![root], none, 0);
    lemma_never_late(v, listing, folders, never_folder, never_entry);
}

/// Whatever a search found, and also where it was cut short by the time or by the number of its
/// results, holds what is looked for and can be reached.
pub proof fn only_reachable_hits_are_found(
    listing: spec_fn(Seq<char>) -> Seq<EntryView>,
    root: Seq<char>,
    needle: Seq<char>,
    folders: nat,
    late_folder: spec_fn(nat) -> bool,
    late_entry: spec_fn(nat, int) -> bool,
    e: EntryView,
)
    ensures
        walked_timed(
            begun(root, needle),
            listing,
            folders,
            late_folder,
            late_entry,
        ).found.contains(e) ==> is_hit(needle, e) && reachable(listing, seq![root], 0, e),
        walked(begun(root, needle), listing, folders).found.contains(e) ==> is_hit(needle, e)
            && reachable(listing, seq![root], 0, e),
{
    searches_find_the_first_matches(listing, root, needle, folders, late_folder, late_entry);
    matches_are_reachable_hits(listing, needle, seq![root], 0, e);
    let all = matches_from(listing, needle, seq![root], 0);
    let timed = walked_timed(begun(root, needle), listing, folders, late_folder, late_entry).found;
    let free = walked(begun(root, needle), listing, folders).found;
    if timed.contains(e) {
        let i = choose|i: int| 0 <= i < timed.len() && timed[i] == e;
        assert(all[i] == e);
    }
    if free.contains(e) {
        let i = choose|i: int| 0 <= i < free.len() && free[i] == e;
        assert(all[i] == e);
    }
}

proof fn lemma_never_late_row(v: SearchView, entries: Seq<EntryView>, late: spec_fn(int) -> bool)
    requires
        forall|i: int| !#[trigger] late(i),
    ensures
        all_seen_timed(v, entries, late) == all_seen(v, entries),
    decreases entries.len(),
{
    if entries.len() > 0 {
        lemma_never_late_row(v, entries.drop_last(), late);
        assert(!late(entries.len() - 1));
    }
}

proof fn lemma_never_late(
    v: SearchView,
    listing: spec_fn(Seq<char>) -> Seq<EntryView>,
    folders: nat,
    late_folder: spec_fn(nat) -> bool,
    late_entry: spec_fn(nat, int) -> bool,
)
    requires
        forall|n: nat| !#[trigger] late_folder(n),
        forall|n: nat, i: int| !#[trigger] late_entry(n, i),
    ensures
        walked_timed(v, listing, folders, late_folder, late_entry) == walked(v, listing, folders),
    decreases folders,
{
    if folders > 0 {
        assert(!late_folder(folders));
        if let (w, Some(folder)) = v.next(false) {
            let row = |i: int| late_entry(folders, i);
            lemma_never_late_row(w, listing(folder), row);
            lemma_never_late(
                all_seen(w, listing(folder)),
                listing,
                (folders - 1) as nat,
                late_folder,
                late_entry,
            );
        }
    }
}

/// Where a search has not stopped after a row of entries, none of them was late.
proof fn lemma_timed_row(v: SearchView, entries: Seq<EntryView>, late: spec_fn(int) -> bool)
    ensures
        all_seen_timed(v, entries, late).needle == v.needle,
        all_seen_timed(v, entries, late).found.is_prefix_of(
            v.found + hits_among(v.needle, entries),
        ),
        v.truncated ==> all_seen_timed(v, entries, late) == v,
        !all_seen_timed(v, entries, late).truncated ==> all_seen_timed(v, entries, late)
            == all_seen(v, entries),
    decreases entries.len(),
{
    if entries.len() == 0 {
        assert(v.found + hits_among(v.needle, entries) =~= v.found);
    } else {
        let before = all_seen_timed(v, entries.drop_last(), late);
        lemma_timed_row(v, entries.drop_last(), late);
        let hits = hits_among(v.needle, entries.drop_last());
        let after = all_seen_timed(v, entries, late);
        if !before.truncated {
            nothing_is_missed(v, entries.drop_last());
            assert(before.found == v.found + hits);
        }
        assert((v.found + hits).is_prefix_of(v.found + hits_among(v.needle, entries)));
        assert(after.found.is_prefix_of(v.found + hits_among(v.needle, entries)));
    }
}

proof fn lemma_stopped_timed(
    v: SearchView,
    listing: spec_fn(Seq<char>) -> Seq<EntryView>,
    folders: nat,
    late_folder: spec_fn(nat) -> bool,
    late_entry: spec_fn(nat, int) -> bool,
)
    requires
        v.truncated,
    ensures
        walked_timed(v, listing, folders, late_folder, late_entry) == v,
{
}

proof fn lemma_walk_prefix(
    v: SearchView,
    listing: spec_fn(Seq<char>) -> Seq<EntryView>,
    folders: nat,
    late_folder: spec_fn(nat) -> bool,
    late_entry: spec_fn(nat, int) -> bool,
    cur: Seq<Seq<char>>,
    deeper: Seq<Seq<char>>,
    depth: nat,
)
    requires
        v.waiting == at_depth(cur, depth) + at_depth(deeper, depth + 1),
        depth <= MAX_DEPTH,
        deeper.len() > 0 ==> depth < MAX_DEPTH,
    ensures
        walked_timed(v, listing, folders, late_folder, late_entry).found.is_prefix_of(
            v.found + (hits_among(v.needle, entries_of(listing, cur)) + matches_from(
                listing,
                v.needle,
                deeper + one_deeper(listing, cur, depth),
                depth + 1,
            )),
        ),
    decreases folders, (if cur.len() == 0 { 1int } else { 0int }),
{
    let none = Seq::<Seq<char>>::empty();
    if v.truncated {
        lemma_stopped_timed(v, listing, folders, late_folder, late_entry);
    } else if cur.len() == 0 {
        assert(one_deeper(listing, cur, depth) =~= none);
        assert(deeper + one_deeper(listing, cur, depth) =~= deeper);
        let below = matches_from(listing, v.needle, deeper, depth + 1);
        assert(hits_among(v.needle, entries_of(listing, cur)) + below =~= below);
        if deeper.len() == 0 {
            assert(v.waiting.len() == 0);
        } else {
            assert(v.waiting =~= at_depth(deeper, depth + 1) + at_depth(none, depth + 2));
            assert(none + one_deeper(listing, deeper, depth + 1) =~= one_deeper(
                listing,
                deeper,
                depth + 1,
            ));
            lemma_walk_prefix(
                v,
                listing,
                folders,
                late_folder,
                late_entry,
                deeper,
                none,
                depth + 1,
            );
        }
    } else if folders > 0 && !late_folder(folders) {
        let entries = listing(cur[0]);
        let rest = cur.drop_first();
        let n = v.next(false).0;
        let row = |i: int| late_entry(folders, i);
        let w = all_seen_timed(n, entries, row);
        let free = lemma_folder(v, listing, cur, deeper, depth);
        lemma_timed_row(n, entries, row);
        let left = (folders - 1) as nat;
        let more = deeper + entered_among(depth, entries);
        lemma_entered_add(depth, entries, entries_of(listing, rest));
        lemma_hits_add(v.needle, entries, entries_of(listing, rest));
        let here = hits_among(v.needle, entries);
        let later = hits_among(v.needle, entries_of(listing, rest));
        let below = matches_from(
            listing,
            v.needle,
            deeper + one_deeper(listing, cur, depth),
            depth + 1,
        );
        assert(more + one_deeper(listing, rest, depth) =~= deeper + one_deeper(
            listing,
            cur,
            depth,
        ));
        assert(v.found + (hits_among(v.needle, entries_of(listing, cur)) + below) =~= (v.found
            + here) + (later + below));
        if w.truncated {
            lemma_stopped_timed(w, listing, left, late_folder, late_entry);
            assert(w.found.is_prefix_of((v.found + here) + (later + below)));
        } else {
            assert(w == free);
            if depth == MAX_DEPTH {
                lemma_nothing_entered(depth, entries);
            }
            lemma_walk_prefix(w, listing, left, late_folder, late_entry, rest, more, depth);
        }
    }
}

/// Folders of one depth, as they wait.
spec fn at_depth(folders: Seq<Seq<char>>, depth: nat) -> Seq<(Seq<char>, nat)> {
    folders.map_values(|f: Seq<char>| (f, depth))
}

proof fn lemma_add_contains(a: Seq<EntryView>, b: Seq<EntryView>, e: EntryView)
    ensures
        (a + b).contains(e) <==> a.contains(e) || b.contains(e),
{
    let both = a + b;
    if a.contains(e) {
        let i = choose|i: int| 0 <= i < a.len() && a[i] == e;
        assert(both[i] == e);
    }
    if b.contains(e) {
        let i = choose|i: int| 0 <= i < b.len() && b[i] == e;
        assert(both[a.len() + i] == e);
    }
    if both.contains(e) {
        let i = choose|i: int| 0 <= i < both.len() && both[i] == e;
        if i < a.len() {
            assert(a[i] == e);
        } else {
            assert(b[i - a.len()] == e);
        }
    }
}

proof fn lemma_hits_contain(needle: Seq<char>, entries: Seq<EntryView>, e: EntryView)
    ensures
        hits_among(needle, entries).contains(e) <==> is_hit(needle, e) && entries.contains(e),
    decreases entries.len(),
{
    if entries.len() > 0 {
        let before = entries.drop_last();
        let last = seq![entries.last()];
        lemma_hits_contain(needle, before, e);
        assert(entries =~= before + last);
        lemma_add_contains(before, last, e);
        assert(last[0] == entries.last());
        assert(last.contains(e) <==> e == entries.last());
        let hits = hits_among(needle, before);
        assert(hits.push(entries.last()) =~= hits + last);
        lemma_add_contains(hits, last, e);
    }
}

proof fn lemma_hits_add(needle: Seq<char>, a: Seq<EntryView>, b: Seq<EntryView>)
    ensures
        hits_among(needle, a + b) == hits_among(needle, a) + hits_among(needle, b),
    decreases b.len(),
{
    if b.len() == 0 {
        assert(a + b =~= a);
        assert(hits_among(needle, a) + hits_among(needle, b) =~= hits_among(needle, a));
    } else {
        assert((a + b).drop_last() =~= a + b.drop_last());
        lemma_hits_add(needle, a, b.drop_last());
        assert(hits_among(needle, a + b) =~= hits_among(needle, a) + hits_among(needle, b));
    }
}

proof fn lemma_entered_add(depth: nat, a: Seq<EntryView>, b: Seq<EntryView>)
    ensures
        entered_among(depth, a + b) == entered_among(depth, a) + entered_among(depth, b),
    decreases b.len(),
{
    if b.len() == 0 {
        assert(a + b =~= a);
        assert(entered_among(depth, a) + entered_among(depth, b) =~= entered_among(depth, a));
    } else {
        assert((a + b).drop_last() =~= a + b.drop_last());
        lemma_entered_add(depth, a, b.drop_last());
        assert(entered_among(depth, a + b) =~= entered_among(depth, a) + entered_among(depth, b));
    }
}

/// A search that has not stopped after a folder has put the folders in it behind those that
/// waited.
proof fn lemma_waiting(v: SearchView, entries: Seq<EntryView>)
    requires
        !all_seen(v, entries).truncated,
    ensures
        !v.truncated,
        all_seen(v, entries).waiting == v.waiting + at_depth(
            entered_among(v.depth, entries),
            v.depth + 1,
        ),
    decreases entries.len(),
{
    if entries.len() == 0 {
        assert(v.waiting + at_depth(entered_among(v.depth, entries), v.depth + 1) =~= v.waiting);
    } else {
        let before = entries.drop_last();
        lemma_waiting(v, before);
        nothing_is_missed(v, before);
        assert(all_seen(v, entries).waiting =~= v.waiting + at_depth(
            entered_among(v.depth, entries),
            v.depth + 1,
        ));
    }
}

proof fn lemma_stopped(
    v: SearchView,
    listing: spec_fn(Seq<char>) -> Seq<EntryView>,
    folders: nat,
)
    requires
        v.truncated,
    ensures
        walked(v, listing, folders) == v,
{
}

/// One folder of a walk: `cur` are the folders of the present depth that wait, `deeper` those
/// of the next.
proof fn lemma_folder(
    v: SearchView,
    listing: spec_fn(Seq<char>) -> Seq<EntryView>,
    cur: Seq<Seq<char>>,
    deeper: Seq<Seq<char>>,
    depth: nat,
) -> (w: SearchView)
    requires
        !v.truncated,
        cur.len() > 0,
        v.waiting == at_depth(cur, depth) + at_depth(deeper, depth + 1),
    ensures
        v.next(false).1 == Some(cur[0]),
        w == all_seen(v.next(false).0, listing(cur[0])),
        !w.truncated ==> {
            &&& w.needle == v.needle
            &&& w.found == v.found + hits_among(v.needle, listing(cur[0]))
            &&& w.waiting == at_depth(cur.drop_first(), depth) + at_depth(
                deeper + entered_among(depth, listing(cur[0])),
                depth + 1,
            )
        },
{
    let n = v.next(false).0;
    let entries = listing(cur[0]);
    let w = all_seen(n, entries);
    assert(v.waiting[0] == at_depth(cur, depth)[0]);
    if !w.truncated {
        nothing_is_missed(n, entries);
        lemma_waiting(n, entries);
        assert(w.waiting =~= at_depth(cur.drop_first(), depth) + at_depth(
            deeper + entered_among(depth, entries),
            depth + 1,
        ));
    }
    w
}

proof fn lemma_no_folders(listing: spec_fn(Seq<char>) -> Seq<EntryView>, needle: Seq<char>, depth: nat)
    ensures
        matches_from(listing, needle, Seq::empty(), depth) == Seq::<EntryView>::empty(),
        folders_from(listing, Seq::empty(), depth) == 0,
    decreases MAX_DEPTH + 1 - depth,
{
    let none = Seq::<Seq<char>>::empty();
    if depth <= MAX_DEPTH {
        assert(one_deeper(listing, none, depth) =~= none);
        lemma_no_folders(listing, needle, depth + 1);
        assert(matches_from(listing, needle, none, depth) =~= Seq::<EntryView>::empty());
    }
}

proof fn lemma_walk(
    v: SearchView,
    listing: spec_fn(Seq<char>) -> Seq<EntryView>,
    folders: nat,
    cur: Seq<Seq<char>>,
    deeper: Seq<Seq<char>>,
    depth: nat,
)
    requires
        v.waiting == at_depth(cur, depth) + at_depth(deeper, depth + 1),
        depth <= MAX_DEPTH,
        deeper.len() > 0 ==> depth < MAX_DEPTH,
        walked(v, listing, folders).waiting.len() == 0,
        !walked(v, listing, folders).truncated,
    ensures
        walked(v, listing, folders).found == v.found + (hits_among(
            v.needle,
            entries_of(listing, cur),
        ) + matches_from(
            listing,
            v.needle,
            deeper + one_deeper(listing, cur, depth),
            depth + 1,
        )),
    decreases folders, (if cur.len() == 0 { 1int } else { 0int }),
{
    if v.truncated {
        lemma_stopped(v, listing, folders);
    }
    let none = Seq::<Seq<char>>::empty();
    if cur.len() == 0 {
        assert(one_deeper(listing, cur, depth) =~= none);
        assert(deeper + one_deeper(listing, cur, depth) =~= deeper);
        if deeper.len() == 0 {
            assert(v.waiting.len() == 0);
            assert(deeper =~= none);
            lemma_no_folders(listing, v.needle, depth + 1);
            assert(v.found + (hits_among(v.needle, entries_of(listing, cur)) + matches_from(
                listing,
                v.needle,
                deeper,
                depth + 1,
            )) =~= v.found);
        } else {
            assert(v.waiting =~= at_depth(deeper, depth + 1) + at_depth(none, depth + 2));
            lemma_walk(v, listing, folders, deeper, none, depth + 1);
            assert(none + one_deeper(listing, deeper, depth + 1) =~= one_deeper(
                listing,
                deeper,
                depth + 1,
            ));
            assert(hits_among(v.needle, entries_of(listing, cur)) + matches_from(
                listing,
                v.needle,
                deeper,
                depth + 1,
            ) =~= matches_from(listing, v.needle, deeper, depth + 1));
        }
    } else if folders > 0 {
        let entries = listing(cur[0]);
        let rest = cur.drop_first();
        let w = lemma_folder(v, listing, cur, deeper, depth);
        let left = (folders - 1) as nat;
        if w.truncated {
            lemma_stopped(w, listing, left);
        }
        let more = deeper + entered_among(depth, entries);
        lemma_entered_add(depth, entries, entries_of(listing, rest));
        lemma_hits_add(v.needle, entries, entries_of(listing, rest));
        if depth == MAX_DEPTH {
            lemma_nothing_entered(depth, entries);
        }
        lemma_walk(w, listing, left, rest, more, depth);
        assert(more + one_deeper(listing, rest, depth) =~= deeper + one_deeper(
            listing,
            cur,
            depth,
        ));
        let below = matches_from(
            listing,
            v.needle,
            deeper + one_deeper(listing, cur, depth),
            depth + 1,
        );
        assert(walked(v, listing, folders).found =~= v.found + (hits_among(
            v.needle,
            entries_of(listing, cur),
        ) + below));
    }
}

proof fn lemma_nothing_entered(depth: nat, entries: Seq<EntryView>)
    requires
        depth >= MAX_DEPTH,
    ensures
        entered_among(depth, entries) == Seq::<Seq<char>>::empty(),
    decreases entries.len(),
{
    if entries.len() > 0 {
        lemma_nothing_entered(depth, entries.drop_last());
    }
}

proof fn lemma_walk_ends(
    v: SearchView,
    listing: spec_fn(Seq<char>) -> Seq<EntryView>,
    folders: nat,
    cur: Seq<Seq<char>>,
    deeper: Seq<Seq<char>>,
    depth: nat,
)
    requires
        v.waiting == at_depth(cur, depth) + at_depth(deeper, depth + 1),
        depth <= MAX_DEPTH,
        deeper.len() > 0 ==> depth < MAX_DEPTH,
        folders >= cur.len() + folders_from(
            listing,
            deeper + one_deeper(listing, cur, depth),
            depth + 1,
        ),
    ensures
        walked(v, listing, folders).waiting.len() == 0 || walked(v, listing, folders).truncated,
    decreases folders, (if cur.len() == 0 { 1int } else { 0int }),
{
    let none = Seq::<Seq<char>>::empty();
    if v.truncated {
        lemma_stopped(v, listing, folders);
    } else if cur.len() == 0 {
        assert(one_deeper(listing, cur, depth) =~= none);
        assert(deeper + one_deeper(listing, cur, depth) =~= deeper);
        if deeper.len() == 0 {
            assert(v.waiting.len() == 0);
        } else {
            assert(v.waiting =~= at_depth(deeper, depth + 1) + at_depth(none, depth + 2));
            assert(none + one_deeper(listing, deeper, depth + 1) =~= one_deeper(
                listing,
                deeper,
                depth + 1,
            ));
            lemma_walk_ends(v, listing, folders, deeper, none, depth + 1);
        }
    } else {
        let entries = listing(cur[0]);
        let rest = cur.drop_first();
        let w = lemma_folder(v, listing, cur, deeper, depth);
        let left = (folders - 1) as nat;
        if w.truncated {
            lemma_stopped(w, listing, left);
        } else {
            let more = deeper + entered_among(depth, entries);
            lemma_entered_add(depth, entries, entries_of(listing, rest));
            if depth == MAX_DEPTH {
                lemma_nothing_entered(depth, entries);
            }
            assert(more + one_deeper(listing, rest, depth) =~= deeper + one_deeper(
                listing,
                cur,
                depth,
            ));
            lemma_walk_ends(w, listing, left, rest, more, depth);
        }
    }
}

// ---------------------------------------------------------------- the answer

/// The answer to a request that cannot be searched: one for nothing, or in a folder that may
/// not be used.
pub fn search(query: &SearchQuery, at: &Result<(String, Vec<String>), String>) -> (r: Result<
    Search,
    Answer,
>)
    ensures
        if text::blank(query.q@) {
            r matches Err(a) && is_error(a, 400, "query cannot be empty"@)
        } else {
            match at {
                Err(e) => r matches Err(a) && is_error(a, 403, e@),
                Ok((p, _)) => r matches Ok(s) && s@ == begun(p@, query.q@),
            }
        },
{
    if text::is_blank(query.q.as_str()) {
        return Err(err(400, "query cannot be empty"));
    }
    match at {
        Err(e) => Err(err(403, e.as_str())),
        Ok((p, _)) => Ok(Search::new(p.as_str(), query.q.as_str())),
    }
}

impl Shown for Hit {
    open spec fn shown(self) -> JsonView {
        JsonView::Object(
            seq![
                ("name"@, JsonView::Text(self.name@)),
                ("path"@, JsonView::Text(self.path@)),
                ("isDir"@, JsonView::Bool(self.is_dir)),
                ("parent"@, JsonView::Text(self.parent@)),
            ],
        )
    }

    fn to_json(&self) -> (r: Json) {
        let mut f: Vec<(String, Json)> = Vec::new();
        assert(json::fields_view(f@) =~= Seq::empty());
        json::put(&mut f, "name", json::text_json(self.name.as_str()));
        json::put(&mut f, "path", json::text_json(self.path.as_str()));
        json::put(&mut f, "isDir", Json::Bool(self.is_dir));
        json::put(&mut f, "parent", json::text_json(self.parent.as_str()));
        assert(json::fields_view(f@) =~= self.shown()->Object_0);
        Json::Object(f)
    }
}

/// The answer with what was found.
pub fn search_answer(results: &Vec<Hit>, truncated: bool, took_ms: u64) -> (r: Answer)
    ensures
        r.status == 200,
        r.body@ == JsonView::Object(
            seq![
                ("results"@, json::shown_list(results@)),
                ("truncated"@, JsonView::Bool(truncated)),
                ("tookMs"@, json::number_view(took_ms)),
            ],
        ),
{
    let mut f: Vec<(String, Json)> = Vec::new();
    assert(json::fields_view(f@) =~= Seq::empty());
    json::put(&mut f, "results", json::list_json(results));
    json::put(&mut f, "truncated", Json::Bool(truncated));
    json::put(&mut f, "tookMs", Json::Number(Number::Unsigned(took_ms)));
    assert(json::fields_view(f@) =~= seq![
        ("results"@, json::shown_list(results@)),
        ("truncated"@, JsonView::Bool(truncated)),
        ("tookMs"@, json::number_view(took_ms)),
    ]);
    ok(Json::Object(f))
}

/// A hit is kept whole and as the last; a folder that is entered waits as the last, under its own
/// path and one deeper. What is no hit, or is not entered, changes nothing of the one or the other.
pub proof fn hits_are_kept_and_folders_wait(v: SearchView, e: EntryView)
    requires
        !v.truncated,
        v.found.len() < 99,
    ensures
        text::contains(text::lowercase(e.name), text::lowercase(v.needle)) ==> v.seen(e, false).found
            == v.found.push(e),
        !text::contains(text::lowercase(e.name), text::lowercase(v.needle)) ==> v.seen(e, false).found
            == v.found,
        e.is_dir && v.depth < 12 && !features::skipped(e.name) ==> v.seen(e, false).waiting
            == v.waiting.push((e.path, v.depth + 1)),
        !e.is_dir || v.depth >= 12 || features::skipped(e.name) ==> v.seen(e, false).waiting
            == v.waiting,
        !v.seen(e, false).truncated,
        v.seen(e, false).needle == v.needle,
        v.seen(e, false).depth == v.depth,
{
}

/// With the hundredth hit a search ends, and says that there may be more; so does one that is late.
pub proof fn searches_end_with_the_hundredth_hit(v: SearchView, e: EntryView)
    requires
        !v.truncated,
    ensures
        v.found.len() == 99 && is_hit(v.needle, e) ==> v.seen(e, false).truncated && v.seen(
            e,
            false,
        ).found.len() == 100,
        v.seen(e, true).truncated,
        v.seen(e, true).found == v.found,
        v.next(true).1 is None,
{
}

/// The folder that has waited longest is looked into next.
pub proof fn folders_are_looked_into_in_turn(v: SearchView)
    requires
        !v.truncated,
        v.waiting.len() > 0,
    ensures
        v.next(false).1 == Some(v.waiting[0].0),
        v.next(false).0.depth == v.waiting[0].1,
        v.next(false).0.waiting == v.waiting.skip(1),
        v.next(false).0.found == v.found,
{
    assert(v.waiting.drop_first() =~= v.waiting.skip(1));
}

/// A search begins with its folder, at the top, for what is asked, with nothing found.
pub proof fn searches_begin_at_their_folder(root: Seq<char>, needle: Seq<char>)
    ensures
        begun(root, needle).next(false).1 == Some(root),
        begun(root, needle).next(false).0.depth == 0,
        begun(root, needle).next(false).0.waiting.len() == 0,
        begun(root, needle).needle == needle,
        begun(root, needle).found.len() == 0,
        !begun(root, needle).truncated,
{
}

/// A hit is shown with each of its parts under its name.
pub proof fn hits_are_shown_by_name(h: Hit)
    ensures
        json::has_once(
            h.shown(),
            "name"@,
            JsonView::Text(h.name@),
        ),
        json::has_once(
            h.shown(),
            "path"@,
            JsonView::Text(h.path@),
        ),
        json::has_once(
            h.shown(),
            "isDir"@,
            JsonView::Bool(h.is_dir),
        ),
        json::has_once(
            h.shown(),
            "parent"@,
            JsonView::Text(h.parent@),
        ),
{
    reveal_strlit("name");
    reveal_strlit("path");
    reveal_strlit("isDir");
    reveal_strlit("parent");
    assert("name"@.len() == 4);
    assert("path"@.len() == 4);
    assert("isDir"@.len() == 5);
    assert("parent"@.len() == 6);
    assert("name"@[0] != "path"@[0]);
    let fields = h.shown()->Object_0;
    assert(fields.len() == 4);
    assert(fields[0] == ("name"@, JsonView::Text(h.name@)));
    assert(fields[1] == ("path"@, JsonView::Text(h.path@)));
    assert(fields[2] == ("isDir"@, JsonView::Bool(h.is_dir)));
    assert(fields[3] == ("parent"@, JsonView::Text(h.parent@)));
}

} // verus!
