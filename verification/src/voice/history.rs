//! The history of dictations.
use crate::fields;
use crate::json;
use crate::json::{Json, Number};
use crate::order;
use crate::stored;
use crate::stored::Stored;
use crate::text;
use vstd::prelude::*;

verus! {

/// One finished dictation.
#[derive(Debug)]
pub struct Entry {
    /// Unique, and in the order of time.
    pub id: String,
    /// Unix seconds at which it was finished.
    pub at: i64,
    /// The id of the mode it ran under.
    pub mode: String,
    /// The bits of its length in seconds.
    pub seconds: u32,
    /// What was recognised.
    pub raw: String,
    /// What was delivered.
    pub text: String,
}

/// A dictation, mathematically.
#[verifier::ext_equal]
pub struct EntryView {
    pub id: Seq<char>,
    pub at: i64,
    pub mode: Seq<char>,
    pub seconds: u32,
    pub raw: Seq<char>,
    pub text: Seq<char>,
}

impl View for Entry {
    type V = EntryView;

    open spec fn view(&self) -> EntryView {
        EntryView {
            id: self.id@,
            at: self.at,
            mode: self.mode@,
            seconds: self.seconds,
            raw: self.raw@,
            text: self.text@,
        }
    }
}

impl Clone for Entry {
    fn clone(&self) -> (r: Self)
        ensures
            r@ == self@,
    {
        Entry {
            id: text::owned(self.id.as_str()),
            at: self.at,
            mode: text::owned(self.mode.as_str()),
            seconds: self.seconds,
            raw: text::owned(self.raw.as_str()),
            text: text::owned(self.text.as_str()),
        }
    }
}

impl Entry {
    /// An entry with a fresh id, finished at `now`.
    pub fn new(
        mode: &str,
        seconds: u32,
        raw: &str,
        text: &str,
        now: i64,
        fresh_id: String,
    ) -> (r: Entry)
        ensures
            r@ == (EntryView {
                id: fresh_id@,
                at: now,
                mode: mode@,
                seconds,
                raw: raw@,
                text: text@,
            }),
    {
        Entry {
            id: fresh_id,
            at: now,
            mode: text::owned(mode),
            seconds,
            raw: text::owned(raw),
            text: text::owned(text),
        }
    }
}

/// The older of two entries, by time and then by id, may stand first.
pub open spec fn no_newer(a: EntryView, b: EntryView) -> bool {
    a.at < b.at || (a.at == b.at && text::no_later(a.id, b.id))
}

impl order::Ranked for Entry {
    open spec fn before(a: Self, b: Self) -> bool {
        no_newer(a@, b@)
    }

    fn may_precede(a: &Self, b: &Self) -> (r: bool) {
        a.at < b.at || (a.at == b.at && text::is_no_later(a.id.as_str(), b.id.as_str()))
    }
}

/// The order of the entries is total and transitive.
pub proof fn lemma_entry_order()
    ensures
        order::is_total_order::<Entry>(),
{
    assert forall|a: Entry, b: Entry|
        <Entry as order::Ranked>::before(a, b) || <Entry as order::Ranked>::before(b, a) by {
        text::lemma_no_later_total(a@.id, b@.id);
    }
    assert forall|a: Entry, b: Entry, c: Entry|
        <Entry as order::Ranked>::before(a, b) && <Entry as order::Ranked>::before(
            b,
            c,
        ) implies <Entry as order::Ranked>::before(a, c) by {
        if a.at == b.at && b.at == c.at {
            text::lemma_no_later_transitive(a@.id, b@.id, c@.id);
        }
    }
}

/// The last `n` of a sequence, or all of it if it is shorter.
pub open spec fn newest<T>(s: Seq<T>, n: int) -> Seq<T> {
    if s.len() <= n {
        s
    } else {
        s.skip(s.len() - n)
    }
}

/// The history with an entry more, oldest first, pruned to the newest `cap`.
pub open spec fn appended(all: Seq<Entry>, entry: Entry, cap: int) -> Seq<Entry> {
    newest(order::sorted(all.push(entry)), cap)
}

/// Adds a dictation and prunes the history to the newest `cap`. An entry without an id or
/// a time is given the fresh id and the present time.
pub fn append(
    all: Vec<Entry>,
    entry: Entry,
    cap: usize,
    now: i64,
    fresh_id: String,
) -> (r: Vec<Entry>)
    ensures
        exists|e: Entry|
            {
                &&& r@ == #[trigger] appended(all@, e, cap as int)
                &&& e@ == (EntryView {
                    id: if entry.id@.len() == 0 {
                        fresh_id@
                    } else {
                        entry.id@
                    },
                    at: if entry.at == 0 {
                        now
                    } else {
                        entry.at
                    },
                    ..entry@
                })
            },
{
    let mut e = entry;
    if e.id.as_str().is_empty() {
        e.id = fresh_id;
    }
    if e.at == 0 {
        e.at = now;
    }
    let ghost added = e;
    let mut list = all;
    list.push(e);
    let mut sorted = order::sort_stable(list);
    let n: usize = sorted.len();
    if n > cap {
        let rest = sorted.split_off(n - cap);
        assert(rest@ =~= order::sorted(all@.push(added)).skip(n - cap));
        sorted = rest;
    }
    assert(sorted@ == appended(all@, added, cap as int));
    sorted
}

/// The history, newest first.
pub open spec fn newest_first(all: Seq<Entry>) -> Seq<Entry> {
    order::sorted(all).reverse()
}

/// Every dictation, newest first.
pub fn list(all: Vec<Entry>) -> (r: Vec<Entry>)
    ensures
        r@ == newest_first(all@),
{
    let mut sorted = order::sort_stable(all);
    let ghost whole = sorted@;
    let mut out: Vec<Entry> = Vec::new();
    while sorted.len() > 0
        invariant
            sorted@.len() + out@.len() == whole.len(),
            sorted@ == whole.take(sorted@.len() as int),
            out@ == whole.reverse().take(out@.len() as int),
        decreases sorted@.len(),
    {
        let ghost k = sorted@.len();
        let ghost o = out@;
        if let Some(e) = sorted.pop() {
            out.push(e);
            assert(e == whole[k - 1]);
            assert(whole.reverse()[o.len() as int] == whole[k - 1]);
            assert(out@ =~= whole.reverse().take(out@.len() as int));
            assert(sorted@ =~= whole.take(sorted@.len() as int));
        }
    }
    assert(out@ =~= whole.reverse());
    out
}

/// What is searched for: trimmed, in small letters.
pub open spec fn needle_of(query: Seq<char>) -> Seq<char> {
    text::lowercase(text::trimmed(query))
}

/// What was recognised or what was delivered holds the needle, blind to case.
pub open spec fn mentions(e: EntryView, needle: Seq<char>) -> bool {
    text::contains(text::lowercase(e.raw), needle) || text::contains(
        text::lowercase(e.text),
        needle,
    )
}

/// The dictations that mention the query, newest first; all of them for an empty one.
pub fn search(all: Vec<Entry>, query: &str) -> (r: Vec<Entry>)
    ensures
        r@ == if needle_of(query@).len() == 0 {
            newest_first(all@)
        } else {
            newest_first(all@).filter(|e: Entry| mentions(e@, needle_of(query@)))
        },
{
    let trimmed = text::trim(query);
    let needle = trimmed.as_str().to_lowercase();
    let listed = list(all);
    if needle.as_str().is_empty() {
        return listed;
    }
    let ghost whole = listed@;
    let ghost p = |e: Entry| mentions(e@, needle_of(query@));
    let mut out: Vec<Entry> = Vec::new();
    proof {
        reveal(Seq::filter);
    }
    assert(out@ =~= whole.take(0).filter(p));
    for e in it: listed.into_iter()
        invariant
            needle@ == needle_of(query@),
            p == (|e: Entry| mentions(e@, needle_of(query@))),
            it.seq() == whole,
            out@ == whole.take(it.index() as int).filter(p),
    {
        let ghost k: int = it.index() as int;
        assert(e == whole[k]);
        let raw = e.raw.as_str().to_lowercase();
        let delivered = e.text.as_str().to_lowercase();
        proof {
            reveal(Seq::filter);
            assert(whole.take(k + 1).drop_last() =~= whole.take(k));
        }
        if text::contains_str(raw.as_str(), needle.as_str()) || text::contains_str(
            delivered.as_str(),
            needle.as_str(),
        ) {
            out.push(e);
        }
    }
    assert(whole.take(whole.len() as int) =~= whole);
    out
}

/// The first dictation with that id.
pub fn get<'a>(all: &'a Vec<Entry>, id: &str) -> (r: Option<&'a Entry>)
    ensures
        match r {
            Some(e) => order::first_index(all@, |e: Entry| e.id@ == id@, 0) matches Some(i) && 0 <= i
                < all@.len() && *e == all@[i],
            None => order::first_index(all@, |e: Entry| e.id@ == id@, 0) is None,
        },
{
    let ghost p = |e: Entry| e.id@ == id@;
    let mut i: usize = 0;
    while i < all.len()
        invariant
            i <= all@.len(),
            p == (|e: Entry| e.id@ == id@),
            order::first_index(all@, p, 0) == order::first_index(all@, p, i as int),
        decreases all@.len() - i,
    {
        if text::same(all[i].id.as_str(), id) {
            return Some(&all[i]);
        }
        i = i + 1;
    }
    None
}

/// The dictations with another id.
pub open spec fn without_id(all: Seq<Entry>, id: Seq<char>) -> Seq<Entry> {
    all.filter(|e: Entry| e.id@ != id)
}

/// Removes the dictations with that id; whether there was one.
pub fn delete(all: Vec<Entry>, id: &str) -> (r: (Vec<Entry>, bool))
    ensures
        r.0@ == without_id(all@, id@),
        r.1 == (r.0@.len() != all@.len()),
{
    let ghost whole = all@;
    let ghost p = |e: Entry| e.id@ != id@;
    let before: usize = all.len();
    let mut out: Vec<Entry> = Vec::new();
    proof {
        reveal(Seq::filter);
    }
    assert(out@ =~= whole.take(0).filter(p));
    for e in it: all.into_iter()
        invariant
            p == (|e: Entry| e.id@ != id@),
            it.seq() == whole,
            out@ == whole.take(it.index() as int).filter(p),
    {
        let ghost k: int = it.index() as int;
        assert(e == whole[k]);
        proof {
            reveal(Seq::filter);
            assert(whole.take(k + 1).drop_last() =~= whole.take(k));
        }
        if !text::same(e.id.as_str(), id) {
            out.push(e);
        }
    }
    assert(whole.take(whole.len() as int) =~= whole);
    let changed = out.len() != before;
    (out, changed)
}

/// Drops every dictation.
pub fn clear() -> (r: Vec<Entry>)
    ensures
        r@ == Seq::<Entry>::empty(),
{
    Vec::new()
}

/// Counts over the history.
#[derive(Clone, Copy, Debug, PartialEq, Eq)]
pub struct Stats {
    pub total: usize,
    pub total_words: usize,
    pub words_this_week: usize,
}

/// The words delivered since `since`.
pub open spec fn words_since(all: Seq<Entry>, since: Option<int>) -> nat
    decreases all.len(),
{
    if all.len() == 0 {
        0
    } else {
        let counted = match since {
            Some(t) => all.last().at >= t,
            None => true,
        };
        words_since(all.drop_last(), since) + if counted {
            text::words(all.last().text@).len()
        } else {
            0
        }
    }
}

/// What is counted over a part of the history is no more than over the whole.
proof fn lemma_words_monotone(all: Seq<Entry>, n: int)
    requires
        0 <= n <= all.len(),
    ensures
        words_since(all.take(n), None) <= words_since(all, None),
    decreases all.len() - n,
{
    if n < all.len() {
        assert(all.take(n + 1).drop_last() =~= all.take(n));
        lemma_words_monotone(all, n + 1);
    } else {
        assert(all.take(n) =~= all);
    }
}

/// The words of a week are among all the words.
pub proof fn words_of_a_week_are_among_all(all: Seq<Entry>, since: int)
    ensures
        words_since(all, Some(since)) <= words_since(all, None),
    decreases all.len(),
{
    if all.len() > 0 {
        words_of_a_week_are_among_all(all.drop_last(), since);
    }
}

/// A week in seconds.
pub const WEEK: i64 = 604_800;

/// Counts the dictations and their words, all of them and those of the last seven days.
pub fn stats(all: &Vec<Entry>, now: i64) -> (r: Stats)
    requires
        words_since(all@, None) <= usize::MAX,
        now >= i64::MIN + WEEK,
    ensures
        r.total == all@.len(),
        r.total_words == words_since(all@, None),
        r.words_this_week == words_since(all@, Some(now - WEEK)),
{
    let week_start: i64 = now - WEEK;
    let mut total_words: usize = 0;
    let mut words_this_week: usize = 0;
    let mut i: usize = 0;
    assert(all@.take(0) =~= Seq::empty());
    while i < all.len()
        invariant
            i <= all@.len(),
            week_start == now - WEEK,
            words_since(all@, None) <= usize::MAX,
            total_words == words_since(all@.take(i as int), None),
            words_this_week == words_since(all@.take(i as int), Some(now - WEEK)),
        decreases all@.len() - i,
    {
        let chars = text::chars_of(all[i].text.as_str());
        let parts = text::split_words(chars.as_slice());
        let words: usize = parts.len();
        assert(text::deep(parts@).len() == words);
        proof {
            assert(all@.take(i + 1).drop_last() =~= all@.take(i as int));
            lemma_words_monotone(all@, i + 1);
            words_of_a_week_are_among_all(all@.take(i + 1), now - WEEK);
        }
        total_words = total_words + words;
        if all[i].at >= week_start {
            words_this_week = words_this_week + words;
        }
        i = i + 1;
    }
    assert(all@.take(i as int) =~= all@);
    Stats { total: all.len(), total_words, words_this_week }
}

/// An id: the seconds in ten digits, a hyphen, the salt of the process in four
/// hexadecimal digits and the sequence number in twelve.
pub open spec fn id_of(seconds: u64, salt: u16, sequence: u64) -> Seq<char> {
    text::zero_padded(text::decimal(seconds as nat), 10) + "-"@ + text::hex(salt as nat, 4)
        + text::hex(sequence as nat, 12)
}

/// A fresh id.
pub fn new_id(seconds: u64, salt: u16, sequence: u64) -> (r: String)
    ensures
        r@ == id_of(seconds, salt, sequence),
{
    let mut out = text::padded_decimal(seconds, 10);
    out.append("-");
    text::push_hex(&mut out, salt as u64, 4);
    text::push_hex(&mut out, sequence, 12);
    assert(out@ =~= id_of(seconds, salt, sequence));
    out
}

/// The salt of a process: the top bits of a scrambled seed.
pub fn random_u16(seed: u64) -> (r: u16)
    ensures
        r == crate::files::config::scrambled(seed) / 0x1_0000_0000_0000,
{
    (crate::files::config::scramble(seed) / 0x1_0000_0000_0000) as u16
}

// ---------------------------------------------------------------- laws

/// The history never grows beyond the cap, and loses nothing while it is below it.
pub proof fn the_cap_holds(all: Seq<Entry>, entry: Entry, cap: int)
    requires
        cap >= 0,
    ensures
        appended(all, entry, cap).len() <= cap,
        all.len() < cap ==> appended(all, entry, cap).len() == all.len() + 1,
{
    order::sorting_keeps_the_items(all.push(entry));
}

/// What is pruned is never newer than what stays.
pub proof fn pruning_drops_the_oldest(all: Seq<Entry>, entry: Entry, cap: int, i: int, j: int)
    requires
        cap >= 0,
        0 <= i < order::sorted(all.push(entry)).len() - appended(all, entry, cap).len(),
        0 <= j < appended(all, entry, cap).len(),
    ensures
        no_newer(order::sorted(all.push(entry))[i]@, appended(all, entry, cap)[j]@),
{
    lemma_entry_order();
    let s = order::sorted(all.push(entry));
    order::sorting_puts_in_order(all.push(entry));
    let n = appended(all, entry, cap).len();
    assert(appended(all, entry, cap)[j] == s[s.len() - n + j]);
    assert(<Entry as order::Ranked>::before(s[i], s[s.len() - n + j]));
}

/// The list is newest first: no entry is older than one behind it, and it holds the same
/// entries as the history.
pub proof fn listing_is_newest_first(all: Seq<Entry>)
    ensures
        newest_first(all).len() == all.len(),
        newest_first(all).to_multiset() == all.to_multiset(),
        forall|i: int, j: int|
            0 <= i < j < newest_first(all).len() ==> no_newer(
                (#[trigger] newest_first(all)[j])@,
                (#[trigger] newest_first(all)[i])@,
            ),
{
    lemma_entry_order();
    order::sorting_puts_in_order(all);
    order::sorting_keeps_the_items(all);
    let s = order::sorted(all);
    let r = s.reverse();
    assert forall|i: int, j: int| 0 <= i < j < r.len() implies no_newer(
        (#[trigger] r[j])@,
        (#[trigger] r[i])@,
    ) by {
        assert(r[j] == s[s.len() - 1 - j]);
        assert(r[i] == s[s.len() - 1 - i]);
        assert(<Entry as order::Ranked>::before(s[s.len() - 1 - j], s[s.len() - 1 - i]));
    }
    order::lemma_reverse_multiset(s);
}

/// Deleting an id that is not there changes nothing.
pub proof fn deleting_an_unknown_id_changes_nothing(all: Seq<Entry>, id: Seq<char>)
    requires
        forall|i: int| 0 <= i < all.len() ==> (#[trigger] all[i]).id@ != id,
    ensures
        without_id(all, id) == all,
    decreases all.len(),
{
    reveal(Seq::filter);
    if all.len() > 0 {
        let t = all.drop_last();
        assert forall|i: int| 0 <= i < t.len() implies (#[trigger] t[i]).id@ != id by {
            assert(t[i] == all[i]);
        }
        deleting_an_unknown_id_changes_nothing(t, id);
        assert(all[all.len() - 1].id@ != id);
        assert(t.push(all.last()) =~= all);
    }
}

/// After deleting an id no entry has it, and no other entry is lost.
pub proof fn deleting_removes_exactly_that_id(all: Seq<Entry>, id: Seq<char>)
    ensures
        forall|i: int|
            0 <= i < without_id(all, id).len() ==> (#[trigger] without_id(all, id)[i]).id@ != id,
        forall|i: int|
            0 <= i < all.len() && (#[trigger] all[i]).id@ != id ==> without_id(all, id).contains(
                all[i],
            ),
    decreases all.len(),
{
    reveal(Seq::filter);
    if all.len() > 0 {
        let t = all.drop_last();
        deleting_removes_exactly_that_id(t, id);
        let f = without_id(t, id);
        let g = without_id(all, id);
        assert(g == if all.last().id@ != id {
            f.push(all.last())
        } else {
            f
        });
        assert forall|i: int| 0 <= i < all.len() && (#[trigger] all[i]).id@ != id implies g.contains(
            all[i],
        ) by {
            if i < t.len() {
                assert(t[i] == all[i]);
                assert(f.contains(t[i]));
                let k = choose|k: int| 0 <= k < f.len() && f[k] == t[i];
                assert(g[k] == all[i]);
            } else {
                assert(g[f.len() as int] == all[i]);
            }
        }
        assert forall|i: int| 0 <= i < g.len() implies (#[trigger] g[i]).id@ != id by {
            if i < f.len() {
                assert(g[i] == f[i]);
            }
        }
    }
}

/// Two ids made in one process in the same second never agree: their sequence numbers
/// tell them apart.
pub proof fn ids_of_one_process_differ(seconds: u64, salt: u16, a: u64, b: u64)
    requires
        a < 0x1_0000_0000_0000,
        b < 0x1_0000_0000_0000,
        id_of(seconds, salt, a) == id_of(seconds, salt, b),
    ensures
        a == b,
{
    let head = text::zero_padded(text::decimal(seconds as nat), 10) + "-"@ + text::hex(
        salt as nat,
        4,
    );
    text::lemma_hex_len(a as nat, 12);
    text::lemma_hex_len(b as nat, 12);
    let x = id_of(seconds, salt, a);
    let y = id_of(seconds, salt, b);
    assert(x.skip(head.len() as int) =~= text::hex(a as nat, 12));
    assert(y.skip(head.len() as int) =~= text::hex(b as nat, 12));
    assert(text::sixteen_to(12) == 0x1_0000_0000_0000) by {
        reveal_with_fuel(text::sixteen_to, 13);
    }
    text::lemma_hex_injective(a as nat, b as nat, 12);
}

// ---------------------------------------------------------------- on disk

/// A dictation as it is stored: its length is the number that stands in the file.
#[derive(Debug)]
pub struct StoredEntry {
    pub id: String,
    pub at: i64,
    pub mode: String,
    pub seconds: Number,
    pub raw: String,
    pub text: String,
}

/// A stored dictation, mathematically.
#[verifier::ext_equal]
pub struct StoredView {
    pub id: Seq<char>,
    pub at: i64,
    pub mode: Seq<char>,
    pub seconds: Number,
    pub raw: Seq<char>,
    pub text: Seq<char>,
}

impl View for StoredEntry {
    type V = StoredView;

    open spec fn view(&self) -> StoredView {
        StoredView {
            id: self.id@,
            at: self.at,
            mode: self.mode@,
            seconds: self.seconds,
            raw: self.raw@,
            text: self.text@,
        }
    }
}

impl Stored for StoredEntry {
    open spec fn written(v: StoredView) -> json::JsonView {
        json::JsonView::Object(
            seq![
                ("id"@, String::written(v.id)),
                ("at"@, i64::written(v.at)),
                ("mode"@, String::written(v.mode)),
                ("seconds"@, Number::written(v.seconds)),
                ("raw"@, String::written(v.raw)),
                ("text"@, String::written(v.text)),
            ],
        )
    }

    open spec fn read(j: json::JsonView) -> Option<StoredView> {
        if !stored::is_record(j, 6) {
            None
        } else {
            match (
                stored::value_or::<String>(stored::part(j, "id"@, 0), Some(Seq::empty())),
                stored::value_or::<i64>(stored::part(j, "at"@, 1), Some(0i64)),
                stored::value_or::<String>(stored::part(j, "mode"@, 2), Some(Seq::empty())),
                stored::value_or::<Number>(stored::part(j, "seconds"@, 3), Some(Number::Single(0))),
                stored::value_or::<String>(stored::part(j, "raw"@, 4), Some(Seq::empty())),
                stored::value_or::<String>(stored::part(j, "text"@, 5), Some(Seq::empty())),
            ) {
                (
                    Some(id),
                    Some(at),
                    Some(mode),
                    Some(seconds),
                    Some(raw),
                    Some(text),
                ) => Some(StoredView { id, at, mode, seconds, raw, text }),
                _ => None,
            }
        }
    }

    fn to_stored(&self) -> (r: Json) {
        let mut f: Vec<(String, Json)> = Vec::new();
        assert(json::fields_view(f@) =~= Seq::empty());
        json::put(&mut f, "id", self.id.to_stored());
        json::put(&mut f, "at", self.at.to_stored());
        json::put(&mut f, "mode", self.mode.to_stored());
        json::put(&mut f, "seconds", self.seconds.to_stored());
        json::put(&mut f, "raw", self.raw.to_stored());
        json::put(&mut f, "text", self.text.to_stored());
        assert(json::fields_view(f@) =~= Self::written(self@)->Object_0);
        Json::Object(f)
    }

    fn from_stored(j: &Json) -> (r: Option<StoredEntry>) {
        if !stored::record_like(j, 6) {
            return None;
        }
        let id = stored::read_or::<String>(stored::part_of(j, "id", 0), Some(String::new()));
        let at = stored::read_or::<i64>(stored::part_of(j, "at", 1), Some(0));
        let mode = stored::read_or::<String>(stored::part_of(j, "mode", 2), Some(String::new()));
        let seconds = stored::read_or::<Number>(stored::part_of(j, "seconds", 3), Some(Number::Single(0)));
        let raw = stored::read_or::<String>(stored::part_of(j, "raw", 4), Some(String::new()));
        let text = stored::read_or::<String>(stored::part_of(j, "text", 5), Some(String::new()));
        match (id, at, mode, seconds, raw, text) {
            (
                Some(id),
                Some(at),
                Some(mode),
                Some(seconds),
                Some(raw),
                Some(text),
            ) => {
                let r = StoredEntry { id, at, mode, seconds, raw, text };
                Some(r)
            },
            _ => None,
        }
    }

    proof fn reads_back(v: StoredView) {
        reveal_strlit("id");
        reveal_strlit("at");
        reveal_strlit("mode");
        reveal_strlit("seconds");
        reveal_strlit("raw");
        reveal_strlit("text");
        let fields = Self::written(v)->Object_0;
        assert("id"@.len() == 2);
        assert("at"@.len() == 2);
        assert("mode"@.len() == 4);
        assert("seconds"@.len() == 7);
        assert("raw"@.len() == 3);
        assert("text"@.len() == 4);
        assert("id"@[0] != "at"@[0]);
        assert("mode"@[0] != "text"@[0]);
        stored::lemma_lookup(fields, 0);
        stored::lemma_lookup(fields, 1);
        stored::lemma_lookup(fields, 2);
        stored::lemma_lookup(fields, 3);
        stored::lemma_lookup(fields, 4);
        stored::lemma_lookup(fields, 5);
        Number::reads_back(v.seconds);
    }
}

/// How an entry is stored.
pub open spec fn to_be_stored(e: EntryView) -> StoredView {
    StoredView {
        id: e.id,
        at: e.at,
        mode: e.mode,
        seconds: Number::Single(e.seconds),
        raw: e.raw,
        text: e.text,
    }
}

impl Entry {
    /// How the entry is stored.
    pub fn stored(&self) -> (r: StoredEntry)
        ensures
            r@ == to_be_stored(self@),
    {
        StoredEntry {
            id: text::owned(self.id.as_str()),
            at: self.at,
            mode: text::owned(self.mode.as_str()),
            seconds: Number::Single(self.seconds),
            raw: text::owned(self.raw.as_str()),
            text: text::owned(self.text.as_str()),
        }
    }
}

impl StoredEntry {
    /// The entry, given the bits of its length.
    pub fn entry(self, seconds: u32) -> (r: Entry)
        ensures
            r@ == (EntryView {
                id: self.id@,
                at: self.at,
                mode: self.mode@,
                seconds,
                raw: self.raw@,
                text: self.text@,
            }),
    {
        Entry {
            id: self.id,
            at: self.at,
            mode: self.mode,
            seconds,
            raw: self.raw,
            text: self.text,
        }
    }
}

/// The dictations that a text tells of, if it is a list of them and none repeats a field.
pub open spec fn entries_in(text: Seq<char>) -> Option<Seq<StoredView>> {
    match fields::every_field(text) {
        Ok(j) => stored::read_list::<StoredEntry>(j),
        Err(_) => None,
    }
}

/// The dictations that a text tells of, if it is a list of them.
pub fn parse_entries(text: &str) -> (r: Option<Vec<StoredEntry>>)
    ensures
        match r {
            Some(v) => entries_in(text@) == Some(stored::views_of(v@)),
            None => entries_in(text@) is None,
        },
{
    match fields::parse(text) {
        Ok(j) => stored::list_from::<StoredEntry>(&j),
        Err(_) => None,
    }
}

/// How dictations are written.
pub open spec fn written_entries(v: Seq<EntryView>) -> json::JsonView {
    stored::written_list::<StoredEntry>(v.map_values(|e: EntryView| to_be_stored(e)))
}

/// How dictations are written.
pub fn entries_json(v: &Vec<Entry>) -> (r: Json)
    ensures
        r@ == written_entries(stored::views_of(v@)),
{
    let ghost want = stored::views_of(v@).map_values(|e: EntryView| to_be_stored(e));
    let mut out: Vec<StoredEntry> = Vec::new();
    let mut i: usize = 0;
    assert(stored::views_of(out@) =~= want.take(0));
    while i < v.len()
        invariant
            i <= v@.len(),
            want == stored::views_of(v@).map_values(|e: EntryView| to_be_stored(e)),
            stored::views_of(out@) == want.take(i as int),
        decreases v@.len() - i,
    {
        let ghost before = stored::views_of(out@);
        let x = v[i].stored();
        out.push(x);
        assert(stored::views_of(out@) =~= before.push(x@));
        i = i + 1;
        assert(want.take(i as int) =~= before.push(want[i - 1]));
    }
    assert(want.take(i as int) =~= want);
    stored::write_list::<StoredEntry>(&out)
}

/// Dictations that were written are read back, in order and none of them missing.
pub proof fn entries_read_back(v: Seq<EntryView>)
    ensures
        stored::read_list::<StoredEntry>(written_entries(v)) == Some(
            v.map_values(|e: EntryView| to_be_stored(e)),
        ),
{
    stored::lists_read_back::<StoredEntry>(v.map_values(|e: EntryView| to_be_stored(e)));
}

/// What was finished later is newer; of what was finished in the same second, that with the later
/// id.
pub proof fn later_is_newer(a: EntryView, b: EntryView)
    ensures
        a.at < b.at ==> no_newer(a, b) && !no_newer(b, a),
        a.at == b.at && text::no_later(a.id, b.id) ==> no_newer(a, b),
        a.at == b.at && a.id != b.id && no_newer(a, b) ==> !no_newer(b, a),
{
    text::lemma_no_later_total(a.id, b.id);
}

/// Below the limit nothing is lost: all that was there stays, and the new entry joins it.
pub proof fn entries_join_the_history(all: Seq<Entry>, entry: Entry, cap: int)
    requires
        all.len() < cap,
    ensures
        appended(all, entry, cap).to_multiset() == all.to_multiset().insert(entry),
        appended(all, entry, cap).contains(entry),
{
    order::sorting_keeps_the_items(all.push(entry));
    all.to_multiset_ensures();
    all.push(entry).to_multiset_ensures();
    appended(all, entry, cap).to_multiset_ensures();
    assert(all.push(entry).to_multiset() =~= all.to_multiset().insert(entry));
    assert(appended(all, entry, cap).to_multiset().count(entry) > 0);
}

/// What stays is the newer end of all there is, the limit's worth of it.
pub proof fn the_newest_stay<T>(s: Seq<T>, n: int)
    requires
        n >= 0,
    ensures
        newest(s, n).len() == if s.len() <= n {
            s.len() as int
        } else {
            n
        },
        newest(s, n) == s.skip(s.len() - newest(s, n).len()),
{
    assert(newest(s, n) =~= s.skip(s.len() - newest(s, n).len()));
}

/// A search finds the entries in whose recognised or delivered text the words asked for stand,
/// whatever their capitals, and only those.
pub proof fn searches_look_in_both_texts(e: EntryView, query: Seq<char>)
    ensures
        mentions(e, needle_of(query)) <==> text::contains(
            text::lowercase(e.raw),
            text::lowercase(text::trimmed(query)),
        ) || text::contains(text::lowercase(e.text), text::lowercase(text::trimmed(query))),
{
}

/// The words of entries add up: each entry counts the words of its delivered text, if it was
/// finished within the time asked for. A week is seven days of 86400 seconds.
pub proof fn words_add_up(a: Seq<Entry>, b: Seq<Entry>, e: Entry, since: Option<int>, now: i64)
    ensures
        words_since(a + b, since) == words_since(a, since) + words_since(b, since),
        words_since(seq![e], None) == text::words(e.text@).len(),
        words_since(seq![e], Some(now - WEEK)) == if now - e.at <= 7 * 86400 {
            text::words(e.text@).len()
        } else {
            0
        },
    decreases b.len(),
{
    reveal_with_fuel(words_since, 2);
    assert(seq![e].drop_last() =~= Seq::empty());
    if b.len() == 0 {
        assert(a + b =~= a);
    } else {
        words_add_up(a, b.drop_last(), e, since, now);
        assert((a + b).drop_last() =~= a + b.drop_last());
    }
}

/// An id says when it was made and is followed by sixteen digits that tell it from others of that
/// second: ten digits of seconds, a hyphen, four digits of chance and twelve that count.
pub proof fn ids_begin_with_their_time(seconds: u64, salt: u16, sequence: u64)
    requires
        seconds < 10_000_000_000,
    ensures
        id_of(seconds, salt, sequence).len() == 27,
        text::digits_value(id_of(seconds, salt, sequence).take(10)) == seconds,
        id_of(seconds, salt, sequence)[10] == '-',
        id_of(seconds, salt, sequence).subrange(11, 15) == text::hex(salt as nat, 4),
        id_of(seconds, salt, sequence).skip(15) == text::hex(sequence as nat, 12),
{
    reveal_strlit("-");
    let d = text::decimal(seconds as nat);
    let p = text::zero_padded(d, 10);
    text::numerals_read_back(seconds as nat);
    text::short_numerals(seconds as nat);
    text::padding_keeps_the_value(d, 10);
    text::lemma_hex_len(salt as nat, 4);
    text::lemma_hex_len(sequence as nat, 12);
    let id = id_of(seconds, salt, sequence);
    assert(id.take(10) =~= p);
    assert(id.subrange(11, 15) =~= text::hex(salt as nat, 4));
    assert(id.skip(15) =~= text::hex(sequence as nat, 12));
}

/// An entry is stored with each of its parts under its name.
pub proof fn entries_are_stored_by_name(v: StoredView)
    ensures
        json::has_once(
            StoredEntry::written(v),
            "id"@,
            json::JsonView::Text(v.id),
        ),
        json::has_once(
            StoredEntry::written(v),
            "at"@,
            i64::written(v.at),
        ),
        json::has_once(
            StoredEntry::written(v),
            "mode"@,
            json::JsonView::Text(v.mode),
        ),
        json::has_once(
            StoredEntry::written(v),
            "seconds"@,
            json::JsonView::Number(v.seconds),
        ),
        json::has_once(
            StoredEntry::written(v),
            "raw"@,
            json::JsonView::Text(v.raw),
        ),
        json::has_once(
            StoredEntry::written(v),
            "text"@,
            json::JsonView::Text(v.text),
        ),
{
    reveal_strlit("id");
    reveal_strlit("at");
    reveal_strlit("mode");
    reveal_strlit("seconds");
    reveal_strlit("raw");
    reveal_strlit("text");
    assert("id"@.len() == 2);
    assert("at"@.len() == 2);
    assert("mode"@.len() == 4);
    assert("seconds"@.len() == 7);
    assert("raw"@.len() == 3);
    assert("text"@.len() == 4);
    assert("id"@[0] != "at"@[0]);
    assert("mode"@[0] != "text"@[0]);
    let fields = StoredEntry::written(v)->Object_0;
    assert(fields.len() == 6);
    assert(fields[0] == ("id"@, json::JsonView::Text(v.id)));
    assert(fields[1] == ("at"@, i64::written(v.at)));
    assert(fields[2] == ("mode"@, json::JsonView::Text(v.mode)));
    assert(fields[3] == ("seconds"@, json::JsonView::Number(v.seconds)));
    assert(fields[4] == ("raw"@, json::JsonView::Text(v.raw)));
    assert(fields[5] == ("text"@, json::JsonView::Text(v.text)));
}

} // verus!
