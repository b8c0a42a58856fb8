//! The recycle bin: the scripts that list it and restore from it, and what is made of
//! their answers.
use super::pshell;
use crate::json;
use crate::json::Json;
use crate::order;
use crate::text;
use vstd::prelude::*;
use vstd::slice::slice_subrange;

verus! {

/// One item of the recycle bin.
#[derive(Debug, PartialEq)]
pub struct TrashItem {
    pub id: String,
    pub name: String,
    pub original_path: String,
    pub deleted_at_ms: Option<u64>,
    pub size_bytes: Option<u64>,
    pub is_dir: bool,
}

/// An item of the recycle bin, mathematically.
#[verifier::ext_equal]
pub struct TrashView {
    pub id: Seq<char>,
    pub name: Seq<char>,
    pub original_path: Seq<char>,
    pub deleted_at_ms: Option<u64>,
    pub size_bytes: Option<u64>,
    pub is_dir: bool,
}

impl View for TrashItem {
    type V = TrashView;

    open spec fn view(&self) -> TrashView {
        TrashView {
            id: self.id@,
            name: self.name@,
            original_path: self.original_path@,
            deleted_at_ms: self.deleted_at_ms,
            size_bytes: self.size_bytes,
            is_dir: self.is_dir,
        }
    }
}

/// The views of a list of items.
pub open spec fn items_view(items: Seq<TrashItem>) -> Seq<TrashView> {
    items.map_values(|t: TrashItem| t@)
}

// ---------------------------------------------------------------- dates

/// What a date and a time are written with.
pub open spec fn date_char(c: char) -> bool {
    text::ascii_alphanumeric(c) || c == ' ' || c == '/' || c == ':' || c == ',' || c == '-'
}

/// `raw` without the characters that no date is written with, trimmed.
pub open spec fn sanitized(raw: Seq<char>) -> Seq<char> {
    text::trimmed(raw.filter(|c: char| date_char(c)))
}

/// Strips the invisible marks that a localised date carries.
pub fn sanitize_date_string(raw: &str) -> (r: String)
    ensures
        r@ == sanitized(raw@),
{
    let mut kept: Vec<char> = Vec::new();
    let ghost p = |c: char| date_char(c);
    assert(kept@ =~= raw@.take(0).filter(p));
    for c in it: raw.chars()
        invariant
            p == (|c: char| date_char(c)),
            kept@ == it.seq().take(it.index() as int).filter(p),
            it.seq() == raw@,
    {
        assert(it.seq().take(it.index() + 1) =~= it.seq().take(it.index() as int).push(c));
        proof {
            text::lemma_filter_push(it.seq().take(it.index() as int), c, p);
        }
        if text::is_ascii_alphanumeric(c) || c == ' ' || c == '/' || c == ':' || c == ',' || c
            == '-' {
            kept.push(c);
        }
    }
    assert(raw@.take(raw@.len() as int) =~= raw@);
    text::string_of(text::trim_chars(kept.as_slice()))
}

/// The numbers among the pieces.
pub open spec fn numbers(pieces: Seq<Seq<char>>) -> Seq<int>
    decreases pieces.len(),
{
    if pieces.len() == 0 {
        Seq::empty()
    } else {
        match text::parsed_i64(pieces.last()) {
            Some(v) => numbers(pieces.drop_last()).push(v),
            None => numbers(pieces.drop_last()),
        }
    }
}

/// The numbers between the separators.
fn numbers_between(s: &[char], sep: char) -> (r: Vec<i64>)
    ensures
        r@.map_values(|v: i64| v as int) == numbers(text::split(s@, sep)),
{
    let pieces = text::split_chars(s, sep);
    let ghost all = text::deep(pieces@);
    let mut out: Vec<i64> = Vec::new();
    let mut i: usize = 0;
    assert(out@.map_values(|v: i64| v as int) =~= numbers(all.take(0)));
    while i < pieces.len()
        invariant
            i <= pieces@.len(),
            all == text::deep(pieces@),
            out@.map_values(|v: i64| v as int) == numbers(all.take(i as int)),
        decreases pieces@.len() - i,
    {
        assert(all.take(i + 1).drop_last() =~= all.take(i as int));
        assert(all.take(i + 1).last() == pieces@[i as int]@);
        if let Some(v) = text::parse_i64(pieces[i].as_slice()) {
            let ghost o = out@;
            out.push(v);
            assert(out@.map_values(|v: i64| v as int) =~= o.map_values(|v: i64| v as int).push(
                v as int,
            ));
        }
        i = i + 1;
    }
    assert(all.take(i as int) =~= all);
    out
}

/// A leap year of the Gregorian calendar.
pub open spec fn leap(year: int) -> bool {
    year % 4 == 0 && (year % 100 != 0 || year % 400 == 0)
}

/// The leap days of the years up to `year`.
pub open spec fn leap_days(year: int) -> int {
    year / 4 - year / 100 + year / 400
}

/// The days of the year before the month begins.
pub open spec fn days_before_month(year: int, month: int) -> int {
    let common = if month == 1 {
        0int
    } else if month == 2 {
        31int
    } else if month == 3 {
        59int
    } else if month == 4 {
        90int
    } else if month == 5 {
        120int
    } else if month == 6 {
        151int
    } else if month == 7 {
        181int
    } else if month == 8 {
        212int
    } else if month == 9 {
        243int
    } else if month == 10 {
        273int
    } else if month == 11 {
        304int
    } else {
        334int
    };
    if month > 2 && leap(year) {
        common + 1
    } else {
        common
    }
}

/// The days from 1970-01-01 to the date. A day past the end of its month counts on into
/// the next.
pub open spec fn days_since_epoch(year: int, month: int, day: int) -> int {
    365 * (year - 1970) + leap_days(year - 1) - leap_days(1969) + days_before_month(year, month)
        + day - 1
}

/// The milliseconds from the epoch to that moment, if it is a moment of a day, not
/// before the epoch, and `u64` holds the number.
pub open spec fn epoch_ms(
    year: int,
    month: int,
    day: int,
    hour: int,
    minute: int,
    second: int,
) -> Option<u64> {
    let seconds = days_since_epoch(year, month, day) * 86400 + hour * 3600 + minute * 60 + second;
    if 0 <= hour < 24 && 0 <= minute < 60 && 0 <= second < 60 && 0 <= seconds && seconds * 1000
        <= u64::MAX {
        Some((seconds * 1000) as u64)
    } else {
        None
    }
}

/// The days from 1970-01-01, counted in years that begin in March.
#[verifier::spinoff_prover]
proof fn lemma_march_years(year: int, month: int, day: int)
    requires
        1 <= month <= 12,
        year >= 1,
    ensures
        ({
            let y = if month <= 2 {
                year - 1
            } else {
                year
            };
            let mp = (month + 9) % 12;
            let era = y / 400;
            let yoe = y - era * 400;
            let doy = (153 * mp + 2) / 5 + day - 1;
            let doe = yoe * 365 + yoe / 4 - yoe / 100 + doy;
            era * 146097 + doe - 719468 == days_since_epoch(year, month, day)
        }),
{
    let y = if month <= 2 {
        year - 1
    } else {
        year
    };
    let era = y / 400;
    let yoe = y - era * 400;
    assert(y / 4 == era * 100 + yoe / 4);
    assert(y / 100 == era * 4 + yoe / 100);
    assert(era * 146097 + yoe * 365 + yoe / 4 - yoe / 100 == 365 * y + leap_days(y));
    if month > 2 {
        lemma_leap_step(year);
    }
}

/// Going on by one adds one to the quotient exactly when the divisor is reached.
proof fn lemma_quotient_step(y: int, k: int)
    requires
        k > 1,
    ensures
        y / k - (y - 1) / k == if y % k == 0 {
            1int
        } else {
            0int
        },
{
    let q = y / k;
    vstd::arithmetic::div_mod::lemma_fundamental_div_mod(y, k);
    if y % k == 0 {
        assert(y - 1 == (q - 1) * k + (k - 1)) by (nonlinear_arith)
            requires
                y == k * q,
        ;
        vstd::arithmetic::div_mod::lemma_fundamental_div_mod_converse(y - 1, k, q - 1, k - 1);
    } else {
        assert(y - 1 == q * k + (y % k - 1)) by (nonlinear_arith)
            requires
                y == k * q + y % k,
        ;
        vstd::arithmetic::div_mod::lemma_mod_bound(y, k);
        vstd::arithmetic::div_mod::lemma_fundamental_div_mod_converse(y - 1, k, q, y % k - 1);
    }
}

/// A year adds a leap day exactly when it is a leap year.
#[verifier::spinoff_prover]
proof fn lemma_leap_step(year: int)
    requires
        year >= 1,
    ensures
        leap_days(year) - leap_days(year - 1) == if leap(year) {
            1int
        } else {
            0int
        },
{
    lemma_quotient_step(year, 4);
    lemma_quotient_step(year, 100);
    lemma_quotient_step(year, 400);
    assert(year % 100 == 0 ==> year % 4 == 0);
    assert(year % 400 == 0 ==> year % 100 == 0);
}

/// The moment in milliseconds since the epoch.
fn days_and_time_to_epoch_ms(
    year: i64,
    month: i64,
    day: i64,
    hour: i64,
    minute: i64,
    second: i64,
) -> (r: Option<u64>)
    requires
        1 <= month <= 12,
        1 <= day <= 31,
        1970 <= year,
    ensures
        r == epoch_ms(
            year as int,
            month as int,
            day as int,
            hour as int,
            minute as int,
            second as int,
        ),
{
    if hour < 0 || hour >= 24 || minute < 0 || minute >= 60 || second < 0 || second >= 60 {
        return None;
    }
    let y: i128 = if month <= 2 {
        year as i128 - 1
    } else {
        year as i128
    };
    let era: i128 = y / 400;
    let yoe: i128 = y - era * 400;
    let mp: i128 = (month as i128 + 9) % 12;
    let doy: i128 = (153 * mp + 2) / 5 + day as i128 - 1;
    let doe: i128 = yoe * 365 + yoe / 4 - yoe / 100 + doy;
    let days: i128 = era * 146097 + doe - 719468;
    proof {
        lemma_march_years(year as int, month as int, day as int);
    }
    let seconds: i128 = days * 86400 + hour as i128 * 3600 + minute as i128 * 60 + second as i128;
    if seconds < 0 || seconds * 1000 > u64::MAX as i128 {
        return None;
    }
    Some((seconds * 1000) as u64)
}

/// The hour of the day, given whether the time is marked as afternoon or as forenoon.
pub open spec fn hour_of_day(hour: int, pm: bool, am: bool) -> int {
    let shifted = if pm && hour < 12 {
        hour + 12
    } else {
        hour
    };
    if am && shifted == 12 {
        0
    } else {
        shifted
    }
}

/// The part of `s` before the first space, and what follows it, trimmed.
pub open spec fn date_and_time(s: Seq<char>) -> (Seq<char>, Seq<char>) {
    match text::find_from(s, " "@, 0) {
        Some(k) => (s.take(k), text::trimmed(s.skip(k + 1))),
        None => (s, Seq::empty()),
    }
}

/// The month and the day that the first two numbers of a date stand for: in that order,
/// unless the first is no month and the second is one.
pub open spec fn month_and_day(first: int, second: int) -> (int, int) {
    if !(1 <= first <= 12) && 1 <= second <= 12 {
        (second, first)
    } else {
        (first, second)
    }
}

/// The moment that a localised date stands for: `M/D/YYYY`, or `D/M/YYYY` where only that
/// makes a date, and behind a space an optional time `H:MM` or `H:MM:SS`, with AM or PM or
/// without.
pub open spec fn deleted_at(raw: Seq<char>) -> Option<u64> {
    let (date, time) = date_and_time(sanitized(raw));
    let d = numbers(text::split(date, '/'));
    let t = numbers(
        text::split(time.filter(|c: char| text::ascii_digit(c) || c == ':'), ':'),
    );
    let pm = text::contains(text::ascii_lower(time), "pm"@);
    let am = text::contains(text::ascii_lower(time), "am"@);
    let (month, day) = month_and_day(d[0], d[1]);
    if sanitized(raw).len() == 0 || d.len() != 3 || !(1 <= month <= 12) || !(1 <= day <= 31) || d[2]
        < 1970 || t.len() == 1 || t.len() > 3 {
        None
    } else if t.len() == 0 {
        epoch_ms(d[2], month, day, hour_of_day(0, pm, am), 0, 0)
    } else {
        let second = if t.len() == 3 {
            t[2]
        } else {
            0
        };
        epoch_ms(d[2], month, day, hour_of_day(t[0], pm, am), t[1], second)
    }
}

/// The digits and colons.
fn digits_and_colons(s: &[char]) -> (r: Vec<char>)
    ensures
        r@ == s@.filter(|c: char| text::ascii_digit(c) || c == ':'),
{
    let ghost p = |c: char| text::ascii_digit(c) || c == ':';
    let mut out: Vec<char> = Vec::new();
    let mut i: usize = 0;
    assert(out@ =~= s@.take(0).filter(p));
    while i < s.len()
        invariant
            i <= s@.len(),
            p == (|c: char| text::ascii_digit(c) || c == ':'),
            out@ == s@.take(i as int).filter(p),
        decreases s@.len() - i,
    {
        let c = s[i];
        assert(s@.take(i + 1) =~= s@.take(i as int).push(c));
        proof {
            text::lemma_filter_push(s@.take(i as int), c, p);
        }
        if text::is_ascii_digit(c) || c == ':' {
            out.push(c);
        }
        i = i + 1;
    }
    assert(s@.take(i as int) =~= s@);
    out
}

/// Parses a localised date into milliseconds since the epoch; nothing where it is not
/// one that is understood.
pub fn parse_deleted_at_ms(raw: &str) -> (r: Option<u64>)
    ensures
        r == deleted_at(raw@),
{
    let clean = sanitize_date_string(raw);
    let s = text::chars_of(clean.as_str());
    if s.len() == 0 {
        return None;
    }
    let space = text::chars_of(" ");
    proof {
        reveal_strlit(" ");
    }
    let (date, time): (&[char], &[char]) = match text::position_from(
        s.as_slice(),
        space.as_slice(),
        0,
    ) {
        Some(k) => {
            let n: usize = s.len();
            assert(s@.subrange(0, k as int) =~= s@.take(k as int));
            assert(s@.subrange(k + 1, n as int) =~= s@.skip(k + 1));
            (
                slice_subrange(s.as_slice(), 0, k),
                text::trim_chars(slice_subrange(s.as_slice(), k + 1, n)),
            )
        },
        None => {
            let n: usize = s.len();
            assert(s@.subrange(0, n as int) =~= s@);
            assert(s@.subrange(n as int, n as int) =~= Seq::empty());
            (slice_subrange(s.as_slice(), 0, n), slice_subrange(s.as_slice(), n, n))
        },
    };
    assert((date@, time@) == date_and_time(sanitized(raw@)));
    let d = numbers_between(date, '/');
    let ghost dv = numbers(text::split(date@, '/'));
    assert(d@.map_values(|v: i64| v as int).len() == d@.len());
    if d.len() != 3 {
        return None;
    }
    assert(dv[0] == d@[0] && dv[1] == d@[1] && dv[2] == d@[2]);
    let swapped = (d[0] < 1 || d[0] > 12) && 1 <= d[1] && d[1] <= 12;
    let month: i64 = if swapped {
        d[1]
    } else {
        d[0]
    };
    let day: i64 = if swapped {
        d[0]
    } else {
        d[1]
    };
    let year: i64 = d[2];
    if month < 1 || month > 12 || day < 1 || day > 31 || year < 1970 {
        return None;
    }
    let time_text = text::string_of(time);
    let lower = text::to_ascii_lower(time_text.as_str());
    let pm = text::contains_str(lower.as_str(), "pm");
    let am = text::contains_str(lower.as_str(), "am");
    let digits = digits_and_colons(time);
    let t = numbers_between(digits.as_slice(), ':');
    let ghost tv = numbers(text::split(digits@, ':'));
    assert(t@.map_values(|v: i64| v as int).len() == t@.len());
    if t.len() == 1 || t.len() > 3 {
        return None;
    }
    let mut hour: i64 = 0;
    let mut minute: i64 = 0;
    let mut second: i64 = 0;
    if t.len() >= 2 {
        assert(tv[0] == t@[0] && tv[1] == t@[1]);
        hour = t[0];
        minute = t[1];
    }
    if t.len() == 3 {
        assert(tv[2] == t@[2]);
        second = t[2];
    }
    let ghost first = hour;
    if pm && hour < 12 {
        hour = hour + 12;
    }
    if am && hour == 12 {
        hour = 0;
    }
    assert(hour == hour_of_day(first as int, pm, am));
    days_and_time_to_epoch_ms(year, month, day, hour, minute, second)
}

// ---------------------------------------------------------------- items

/// The number in the field `key`, as a whole number that is not negative.
pub open spec fn whole_field(v: json::JsonView, key: Seq<char>) -> Option<u64> {
    match json::field(v, key) {
        Some(json::JsonView::Number(n)) => json::whole_number(n),
        _ => None,
    }
}

/// What an optional string is without a value: empty.
pub open spec fn or_empty(o: Option<Seq<char>>) -> Seq<char> {
    match o {
        Some(s) => s,
        None => Seq::empty(),
    }
}

/// The item that a JSON object describes; nothing for one without a path.
pub open spec fn item_of(v: json::JsonView) -> Option<TrashView> {
    match json::text_field(v, "Path"@) {
        Some(id) => Some(
            TrashView {
                id,
                name: or_empty(json::text_field(v, "Name"@)),
                original_path: or_empty(json::text_field(v, "OriginalPath"@)),
                deleted_at_ms: match json::text_field(v, "DateDeleted"@) {
                    Some(d) => deleted_at(d),
                    None => None,
                },
                size_bytes: whole_field(v, "Size"@),
                is_dir: json::bool_field(v, "IsFolder"@) == Some(true),
            },
        ),
        None => None,
    }
}

/// The view of an optional item.
pub open spec fn opt_item(o: Option<TrashItem>) -> Option<TrashView> {
    match o {
        Some(t) => Some(t@),
        None => None,
    }
}

/// A copy of an optional string, empty where there is none.
fn owned_or_empty(o: Option<&str>) -> (r: String)
    ensures
        r@ == or_empty(text::opt_str(o)),
{
    match o {
        Some(s) => text::owned(s),
        None => String::new(),
    }
}

/// The item that a JSON object describes.
pub fn item_from_json(v: &Json) -> (r: Option<TrashItem>)
    ensures
        opt_item(r) == item_of(v@),
{
    let id = match v.text_field("Path") {
        Some(s) => text::owned(s),
        None => return None,
    };
    let deleted_at_ms: Option<u64> = match v.text_field("DateDeleted") {
        Some(d) => parse_deleted_at_ms(d),
        None => None,
    };
    let size_bytes: Option<u64> = match v.get("Size") {
        Some(Json::Number(n)) => json::to_whole(*n),
        _ => None,
    };
    let is_dir = match v.bool_field("IsFolder") {
        Some(b) => b,
        None => false,
    };
    Some(
        TrashItem {
            id,
            name: owned_or_empty(v.text_field("Name")),
            original_path: owned_or_empty(v.text_field("OriginalPath")),
            deleted_at_ms,
            size_bytes,
            is_dir,
        },
    )
}

/// The items that the values describe, without the values that describe none.
pub open spec fn items_among(values: Seq<json::JsonView>) -> Seq<TrashView>
    decreases values.len(),
{
    if values.len() == 0 {
        Seq::empty()
    } else {
        match item_of(values.last()) {
            Some(t) => items_among(values.drop_last()).push(t),
            None => items_among(values.drop_last()),
        }
    }
}

/// The items of an answer: a list of them, a single one, or null for none.
pub open spec fn items_of(v: json::JsonView) -> Seq<TrashView> {
    match v {
        json::JsonView::List(values) => items_among(values),
        json::JsonView::Null => Seq::empty(),
        _ => match item_of(v) {
            Some(t) => seq![t],
            None => Seq::empty(),
        },
    }
}

/// The items of an answer.
pub fn items_from_json(v: &Json) -> (r: Vec<TrashItem>)
    ensures
        items_view(r@) == items_of(v@),
{
    let mut out: Vec<TrashItem> = Vec::new();
    assert(items_view(out@) =~= Seq::empty());
    match v {
        Json::List(values) => {
            let mut i: usize = 0;
            let ghost all = json::list_view(values@);
            proof {
                json::lemma_list_view(values@);
            }
            assert(items_view(out@) =~= items_among(all.take(0)));
            while i < values.len()
                invariant
                    i <= values@.len() == all.len(),
                    forall|k: int|
                        0 <= k < values@.len() ==> all[k] == json::json_view(
                            #[trigger] values@[k],
                        ),
                    items_view(out@) == items_among(all.take(i as int)),
                decreases values@.len() - i,
            {
                assert(all.take(i + 1).drop_last() =~= all.take(i as int));
                assert(all.take(i + 1).last() == values@[i as int]@);
                if let Some(t) = item_from_json(&values[i]) {
                    let ghost o = out@;
                    out.push(t);
                    assert(items_view(out@) =~= items_view(o).push(t@));
                }
                i = i + 1;
            }
            assert(all.take(i as int) =~= all);
        },
        Json::Null => {},
        _ => {
            if let Some(t) = item_from_json(v) {
                out.push(t);
                assert(items_view(out@) =~= seq![t@]);
            }
        },
    }
    out
}

/// When an item was deleted; the epoch where that is not known.
pub open spec fn deletion_time(t: TrashView) -> u64 {
    match t.deleted_at_ms {
        Some(ms) => ms,
        None => 0,
    }
}

impl order::Ranked for TrashItem {
    open spec fn before(a: Self, b: Self) -> bool {
        deletion_time(a@) >= deletion_time(b@)
    }

    fn may_precede(a: &Self, b: &Self) -> (r: bool) {
        let x: u64 = match a.deleted_at_ms {
            Some(ms) => ms,
            None => 0,
        };
        let y: u64 = match b.deleted_at_ms {
            Some(ms) => ms,
            None => 0,
        };
        x >= y
    }
}

/// At most this many items are listed.
pub const MAX_ITEMS: usize = 200;

/// The first `n` of a sequence, or all of it if it is shorter.
pub open spec fn at_most<T>(s: Seq<T>, n: int) -> Seq<T> {
    if s.len() <= n {
        s
    } else {
        s.take(n)
    }
}

/// The items of the recycle bin, the last deleted first, at most 200, made of the answer
/// to the listing script.
pub fn list(reply: Result<Json, String>) -> (r: Result<Vec<TrashItem>, String>)
    ensures
        match (reply, r) {
            (Err(e), Err(f)) => e@ == f@,
            (Ok(v), Ok(items)) => exists|all: Seq<TrashItem>|
                items_view(all) == items_of(v@) && items@ == at_most(
                    #[trigger] order::sorted(all),
                    MAX_ITEMS as int,
                ),
            _ => false,
        },
{
    match reply {
        Err(e) => Err(e),
        Ok(v) => {
            let all = items_from_json(&v);
            let ghost found = all@;
            let mut items = order::sort_stable(all);
            if items.len() > MAX_ITEMS {
                items.truncate(MAX_ITEMS);
            }
            assert(items@ =~= at_most(order::sorted(found), MAX_ITEMS as int));
            Ok(items)
        },
    }
}

/// The listing holds at most 200 items, each no older than the next.
pub proof fn listing_is_newest_first_and_capped(all: Seq<TrashItem>)
    ensures
        ({
            let shown = at_most(order::sorted(all), MAX_ITEMS as int);
            &&& shown.len() <= MAX_ITEMS
            &&& shown.len() == all.len() || shown.len() == MAX_ITEMS
            &&& forall|i: int, j: int|
                0 <= i < j < shown.len() ==> deletion_time(#[trigger] shown[i]@) >= deletion_time(
                    #[trigger] shown[j]@,
                )
        }),
{
    order::sorting_puts_in_order(all);
    order::sorting_keeps_the_items(all);
    let shown = at_most(order::sorted(all), MAX_ITEMS as int);
    assert forall|i: int, j: int| 0 <= i < j < shown.len() implies deletion_time(
        #[trigger] shown[i]@,
    ) >= deletion_time(#[trigger] shown[j]@) by {
        assert(shown[i] == order::sorted(all)[i]);
        assert(shown[j] == order::sorted(all)[j]);
        assert(<TrashItem as order::Ranked>::before(order::sorted(all)[i], order::sorted(all)[j]));
    }
}

// ---------------------------------------------------------------- scripts

/// Lists the recycle bin.
pub const LIST_SCRIPT: &'static str = r#"
$ErrorActionPreference = 'Stop'
$sh = New-Object -ComObject Shell.Application
$rb = $sh.Namespace(10)

$origIdx = 1
$dateIdx = 2
for ($i = 0; $i -le 10; $i++) {
    $h = $rb.GetDetailsOf($null, $i)
    if ($h -match 'Original Location') { $origIdx = $i }
    if ($h -match 'Date Deleted') { $dateIdx = $i }
}

$results = @()
foreach ($item in $rb.Items()) {
    $results += [PSCustomObject]@{
        Path         = $item.Path
        Name         = $item.Name
        OriginalPath = $rb.GetDetailsOf($item, $origIdx)
        DateDeleted  = $rb.GetDetailsOf($item, $dateIdx)
        Size         = $item.ExtendedProperty('System.Size')
        IsFolder     = $item.IsFolder
    }
}
$results | ConvertTo-Json -Compress
"#;

/// Restores an item, up to where its id stands.
pub const RESTORE_HEAD: &'static str = r#"
$ErrorActionPreference = 'Stop'
$targetId = [Text.Encoding]::Unicode.GetString([Convert]::FromBase64String('"#;

/// Restores an item, from where its id has stood.
pub const RESTORE_TAIL: &'static str = r#"'))

$sh = New-Object -ComObject Shell.Application
$rb = $sh.Namespace(10)

$origIdx = 1
for ($i = 0; $i -le 10; $i++) {
    $h = $rb.GetDetailsOf($null, $i)
    if ($h -match 'Original Location') { $origIdx = $i }
}

$match = $null
foreach ($item in $rb.Items()) {
    if ($item.Path -eq $targetId) { $match = $item; break }
}
if ($null -eq $match) {
    Write-Error "item not found in recycle bin"
    exit 1
}

$originalPath = $rb.GetDetailsOf($match, $origIdx)

$restoreVerb = $null
foreach ($verb in $match.Verbs()) {
    $label = $verb.Name -replace '&', ''
    if ($label -match '(?i)^restore') { $restoreVerb = $verb; break }
}
if ($null -eq $restoreVerb) {
    $all = @($match.Verbs())
    if ($all.Count -gt 0) { $restoreVerb = $all[0] }
}
if ($null -eq $restoreVerb) {
    Write-Error "no restore verb available for this item"
    exit 1
}
$restoreVerb.DoIt()

$deadline = (Get-Date).AddSeconds(3)
$gone = $false
while ((Get-Date) -lt $deadline) {
    $stillThere = $false
    foreach ($item in $rb.Items()) {
        if ($item.Path -eq $targetId) { $stillThere = $true; break }
    }
    if (-not $stillThere) { $gone = $true; break }
    Start-Sleep -Milliseconds 150
}

[PSCustomObject]@{ RestoredTo = $originalPath; Vanished = $gone } | ConvertTo-Json -Compress
"#;

/// The script that restores the item with that id. The id stands in it in base64 and
/// can therefore not end the quotes that it stands in.
pub fn restore_script(id: &str) -> (r: String)
    requires
        pshell::encodable(id@),
    ensures
        r@ == RESTORE_HEAD@ + pshell::encoded(id@) + RESTORE_TAIL@,
        pshell::quotable(pshell::encoded(id@)),
{
    let encoded = pshell::b64_utf16(id);
    let mut out = text::owned(RESTORE_HEAD);
    out.append(encoded.as_str());
    out.append(RESTORE_TAIL);
    out
}

/// Where an item was restored to, made of the answer to the restoring script.
pub fn restore(reply: Result<Json, String>) -> (r: Result<String, String>)
    ensures
        match (reply, r) {
            (Err(e), Err(f)) => e@ == f@,
            (Err(_), Ok(_)) => false,
            (Ok(v), Ok(path)) => path@.len() > 0 && json::text_field(v@, "RestoredTo"@) == Some(
                path@,
            ),
            (Ok(v), Err(f)) => or_empty(json::text_field(v@, "RestoredTo"@)).len() == 0 && f@
                == "restore did not report a destination path"@,
        },
{
    match reply {
        Err(e) => Err(e),
        Ok(v) => {
            if let Some(path) = v.text_field("RestoredTo") {
                if !path.is_empty() {
                    return Ok(text::owned(path));
                }
            }
            Err(text::owned("restore did not report a destination path"))
        },
    }
}

// ---------------------------------------------------------------- the calendar

/// The days of a month.
pub open spec fn month_days(year: int, month: int) -> int {
    if month == 2 {
        if year % 4 == 0 && (year % 100 != 0 || year % 400 == 0) {
            29
        } else {
            28
        }
    } else if month == 4 || month == 6 || month == 9 || month == 11 {
        30
    } else {
        31
    }
}

/// Days are counted as the calendar has them: from the first of January 1970, one after the other,
/// through months of their length and years one after the other.
#[verifier::spinoff_prover]
#[verifier::rlimit(40)]
pub proof fn days_follow_the_calendar(year: int, month: int, day: int)
    requires
        year >= 1970,
        1 <= month <= 12,
    ensures
        days_since_epoch(1970, 1, 1) == 0,
        days_since_epoch(year, month, day + 1) == days_since_epoch(year, month, day) + 1,
        month < 12 ==> days_since_epoch(year, month + 1, 1) == days_since_epoch(year, month, 1)
            + month_days(year, month),
        days_since_epoch(year + 1, 1, 1) == days_since_epoch(year, 12, 31) + 1,
{
    lemma_leap_step(year);
    assert(days_since_epoch(1970, 1, 1) == 0);
    assert(leap(year) == (year % 4 == 0 && (year % 100 != 0 || year % 400 == 0)));
    assert(month < 12 ==> days_before_month(year, month + 1) == days_before_month(year, month)
        + month_days(year, month));
}

/// A moment is its days of 86400 seconds, hours of 3600 and minutes of 60, and its seconds, in
/// thousandths; hours end before 24, minutes and seconds before 60.
pub proof fn moments_are_counted_in_thousandths(
    year: int,
    month: int,
    day: int,
    hour: int,
    minute: int,
    second: int,
)
    ensures
        epoch_ms(year, month, day, hour, minute, second) matches Some(ms) ==> ms == 1000 * (86400
            * days_since_epoch(year, month, day) + 3600 * hour + 60 * minute + second),
        !(0 <= hour <= 23 && 0 <= minute <= 59 && 0 <= second <= 59) ==> epoch_ms(
            year,
            month,
            day,
            hour,
            minute,
            second,
        ) is None,
        1970 <= year <= 9999 && 1 <= month <= 12 && 1 <= day <= 31 && 0 <= hour <= 23 && 0 <= minute
            <= 59 && 0 <= second <= 59 ==> epoch_ms(year, month, day, hour, minute, second) is Some,
{
}

/// In the afternoon twelve hours are added to all but the twelfth; in the morning the twelfth hour
/// is the hour zero. Without either the hour is as it is written.
pub proof fn twelve_comes_before_one(hour: int)
    requires
        0 <= hour,
    ensures
        1 <= hour <= 11 ==> hour_of_day(hour, true, false) == hour + 12,
        hour_of_day(12, true, false) == 12,
        1 <= hour <= 11 ==> hour_of_day(hour, false, true) == hour,
        hour_of_day(12, false, true) == 0,
        hour_of_day(hour, false, false) == hour,
{
}

/// The month comes first, unless only the second number can be one.
pub proof fn the_month_comes_first(a: int, b: int)
    ensures
        1 <= a <= 12 ==> month_and_day(a, b) == (a, b),
        a > 12 && 1 <= b <= 12 ==> month_and_day(a, b) == (b, a),
{
}

/// The numbers of pieces, one behind the other, are those of the first and then those of the second;
/// a numeral is its number, and what is none is left out.
pub proof fn numbers_keep_their_order(a: Seq<Seq<char>>, b: Seq<Seq<char>>, s: Seq<char>, n: nat)
    ensures
        numbers(a + b) == numbers(a) + numbers(b),
        n <= i64::MAX ==> numbers(seq![text::decimal(n)]) == seq![n as int],
        text::parsed_i64(s) is None ==> numbers(seq![s]).len() == 0,
    decreases b.len(),
{
    reveal_with_fuel(numbers, 2);
    text::numerals_read_back(n);
    assert(seq![text::decimal(n)].drop_last() =~= Seq::empty());
    assert(seq![s].drop_last() =~= Seq::empty());
    if n <= i64::MAX {
        assert(numbers(seq![text::decimal(n)]) =~= seq![n as int]);
    }
    if b.len() == 0 {
        assert(a + b =~= a);
        assert(numbers(a) + numbers(b) =~= numbers(a));
    } else {
        numbers_keep_their_order(a, b.drop_last(), s, n);
        assert((a + b).drop_last() =~= a + b.drop_last());
        assert(numbers(a + b) =~= numbers(a) + numbers(b));
    }
}

/// Digits and characters that separate.
pub open spec fn digits_or(s: Seq<char>, c: char) -> bool {
    forall|i: int| 0 <= i < s.len() ==> '0' <= (#[trigger] s[i]) <= '9' || s[i] == c
}

proof fn lemma_three_numbers(a: Seq<char>, b: Seq<char>, c: Seq<char>, sep: char)
    requires
        !a.contains(sep),
        !b.contains(sep),
        !c.contains(sep),
    ensures
        text::split(a.push(sep) + (b.push(sep) + c), sep) == seq![a, b, c],
        text::split(a.push(sep) + b, sep) == seq![a, b],
{
    lemma_no_separator(a, sep);
    lemma_no_separator(b, sep);
    lemma_no_separator(c, sep);
    text::separators_part_the_pieces(a, sep, b.push(sep) + c);
    text::separators_part_the_pieces(b, sep, c);
    text::separators_part_the_pieces(a, sep, b);
    assert(seq![a] + (seq![b] + seq![c]) =~= seq![a, b, c]);
    assert(seq![a] + seq![b] =~= seq![a, b]);
}

proof fn lemma_no_separator(a: Seq<char>, sep: char)
    requires
        !a.contains(sep),
    ensures
        text::split(a, sep) == seq![a],
{
    assert forall|i: int| 0 <= i < a.len() implies a[i] != sep by {
        assert(a.contains(a[i]));
    }
    text::lemma_split_whole(a, sep);
}

/// A numeral of two digits at least.
pub open spec fn two_digits(n: nat) -> Seq<char> {
    text::zero_padded(text::decimal(n), 2)
}

proof fn lemma_digits(n: nat)
    ensures
        digits_or(text::decimal(n), '0'),
        text::decimal(n).len() > 0,
        digits_or(two_digits(n), '0'),
        two_digits(n).len() >= 2,
        n <= i64::MAX ==> text::parsed_i64(two_digits(n)) == Some(n as int),
{
    text::numerals_read_back(n);
    text::padding_puts_zeros_in_front(text::decimal(n), 2);
    text::padding_keeps_the_value(text::decimal(n), 2);
    let d = text::decimal(n);
    let t = two_digits(n);
    assert forall|i: int| 0 <= i < d.len() implies '0' <= (#[trigger] d[i]) <= '9' by {
        assert(48 <= d[i] as int <= 57);
    }
    assert forall|i: int| 0 <= i < t.len() implies '0' <= (#[trigger] t[i]) <= '9' by {
        if i >= t.len() - d.len() {
            assert(t.skip(t.len() - d.len())[i - (t.len() - d.len())] == t[i]);
        }
    }
    assert(text::is_numeral(t));
    assert(t[0] != '-' && t[0] != '+');
}

/// The time of a date that is written with digits, and a word for the half of the day or none.
pub open spec fn written_time(hour: nat, minute: nat, half: Seq<char>) -> Seq<char> {
    text::decimal(hour).push(':') + two_digits(minute) + half
}

/// The date that is written with digits and slashes.
pub open spec fn written_date(first: nat, second: nat, year: nat) -> Seq<char> {
    text::decimal(first).push('/') + (text::decimal(second).push('/') + text::decimal(year))
}

proof fn lemma_written_date(first: nat, second: nat, year: nat)
    requires
        first <= i64::MAX,
        second <= i64::MAX,
        year <= i64::MAX,
    ensures
        digits_or(written_date(first, second, year), '/'),
        written_date(first, second, year).len() > 0,
        numbers(text::split(written_date(first, second, year), '/')) == seq![
            first as int,
            second as int,
            year as int,
        ],
{
    let a = text::decimal(first);
    let b = text::decimal(second);
    let c = text::decimal(year);
    lemma_digits(first);
    lemma_digits(second);
    lemma_digits(year);
    let w = written_date(first, second, year);
    let rest = b.push('/') + c;
    assert forall|i: int| 0 <= i < w.len() implies '0' <= (#[trigger] w[i]) <= '9' || w[i] == '/' by {
        if i < a.len() {
            assert(w[i] == a[i]);
        } else if i > a.len() {
            let k = i - a.len() - 1;
            assert(w[i] == rest[k]);
            if k < b.len() {
                assert(rest[k] == b[k]);
            } else if k > b.len() {
                assert(rest[k] == c[k - b.len() - 1]);
            }
        }
    }
    lemma_three_numbers(a, b, c, '/');
    numbers_keep_their_order(seq![a], seq![b], a, first);
    numbers_keep_their_order(seq![a] + seq![b], seq![c], b, second);
    numbers_keep_their_order(seq![a], seq![b], c, year);
    assert(seq![a] + seq![b] + seq![c] =~= seq![a, b, c]);
    assert(numbers(seq![a, b, c]) =~= seq![first as int, second as int, year as int]);
}

proof fn lemma_half(half: Seq<char>)
    requires
        half == ""@ || half == " AM"@ || half == " PM"@,
    ensures
        half.len() == 0 || half.len() == 3 && half[0] == ' ' && half[2] == 'M' && (half[1] == 'A'
            || half[1] == 'P'),
        half == " AM"@ ==> half.len() == 3 && half[1] == 'A',
        half == " PM"@ ==> half.len() == 3 && half[1] == 'P',
        half == ""@ ==> half.len() == 0,
        "pm"@.len() == 2 && "pm"@[0] == 'p' && "pm"@[1] == 'm',
        "am"@.len() == 2 && "am"@[0] == 'a' && "am"@[1] == 'm',
        " PM"@ != " AM"@,
{
    reveal_strlit("");
    reveal_strlit(" AM");
    reveal_strlit(" PM");
    reveal_strlit("am");
    reveal_strlit("pm");
    assert(" PM"@[1] == 'P' && " AM"@[1] == 'A');
}

proof fn lemma_time_front(hour: nat, minute: nat)
    requires
        hour <= i64::MAX,
        minute <= i64::MAX,
    ensures
        ({
            let front = text::decimal(hour).push(':') + two_digits(minute);
            &&& digits_or(front, ':')
            &&& front.len() > 0
            &&& numbers(text::split(front, ':')) == seq![hour as int, minute as int]
        }),
{
    let a = text::decimal(hour);
    let b = two_digits(minute);
    let front = a.push(':') + b;
    lemma_digits(hour);
    lemma_digits(minute);
    assert forall|i: int| 0 <= i < front.len() implies '0' <= (#[trigger] front[i]) <= '9'
        || front[i] == ':' by {
        if i < a.len() {
            assert(front[i] == a[i]);
        } else if i > a.len() {
            assert(front[i] == b[i - a.len() - 1]);
        }
    }
    assert(!a.contains(':') && !b.contains(':'));
    lemma_three_numbers(a, b, b, ':');
    numbers_keep_their_order(seq![a], seq![b], a, hour);
    reveal_with_fuel(numbers, 2);
    assert(seq![b].drop_last() =~= Seq::empty());
    assert(numbers(seq![b]) =~= seq![minute as int]);
    assert(seq![a] + seq![b] =~= seq![a, b]);
    assert(numbers(seq![a, b]) =~= seq![hour as int, minute as int]);
}

proof fn lemma_half_is_dropped(front: Seq<char>, half: Seq<char>)
    requires
        digits_or(front, ':'),
        half == ""@ || half == " AM"@ || half == " PM"@,
    ensures
        (front + half).filter(|c: char| text::ascii_digit(c) || c == ':') == front,
{
    let p = |c: char| text::ascii_digit(c) || c == ':';
    lemma_half(half);
    assert forall|i: int| 0 <= i < front.len() implies p(#[trigger] front[i]) by {}
    assert forall|i: int| 0 <= i < half.len() implies !p(#[trigger] half[i]) by {}
    text::filters_go_piece_by_piece(Seq::empty(), front, p);
    text::filters_go_piece_by_piece(front, half, p);
    assert((front + half).filter(p) =~= front);
}

proof fn lemma_half_is_seen(front: Seq<char>, half: Seq<char>)
    requires
        digits_or(front, ':'),
        half == ""@ || half == " AM"@ || half == " PM"@,
    ensures
        text::contains(text::ascii_lower(front + half), "pm"@) == (half == " PM"@),
        text::contains(text::ascii_lower(front + half), "am"@) == (half == " AM"@),
{
    let time = front + half;
    let low = text::ascii_lower(time);
    let n = front.len() as int;
    lemma_half(half);
    assert forall|i: int| 0 <= i < n implies '0' <= (#[trigger] low[i]) <= '9' || low[i] == ':' by {
        assert(time[i] == front[i]);
    }
    if half.len() == 3 {
        assert(time[n] == half[0] && time[n + 1] == half[1] && time[n + 2] == half[2]);
        assert(low[n] == ' ' && low[n + 2] == 'm');
        if half[1] == 'P' {
            assert(low[n + 1] == 'p');
            assert(low.subrange(n + 1, n + 3) =~= "pm"@);
            assert(text::occurs_at(low, n + 1, "pm"@));
            lemma_no_half(low, n, half, 'a', "am"@);
        } else {
            assert(low[n + 1] == 'a');
            assert(low.subrange(n + 1, n + 3) =~= "am"@);
            assert(text::occurs_at(low, n + 1, "am"@));
            lemma_no_half(low, n, half, 'p', "pm"@);
        }
    } else {
        lemma_no_half(low, n, half, 'a', "am"@);
        lemma_no_half(low, n, half, 'p', "pm"@);
    }
}

proof fn lemma_no_half(low: Seq<char>, n: int, half: Seq<char>, c: char, word: Seq<char>)
    requires
        word.len() == 2,
        word[0] == c,
        c == 'a' || c == 'p',
        0 <= n,
        low.len() == n + half.len(),
        half.len() == 0 || half.len() == 3,
        forall|i: int| 0 <= i < n ==> '0' <= (#[trigger] low[i]) <= '9' || low[i] == ':',
        half.len() == 3 ==> low[n] == ' ' && low[n + 1] != c && low[n + 2] == 'm',
    ensures
        !text::contains(low, word),
{
    if text::contains(low, word) {
        let i = choose|i: int| text::occurs_at(low, i, word);
        assert(low.subrange(i, i + 2)[0] == low[i]);
        assert(low[i] == c);
    }
}

/// A date as the recycle bin shows it, month, day and year with slashes between, a space, and hour
/// and minute with a colon between, with or without the half of the day behind, is that moment.
#[verifier::spinoff_prover]
#[verifier::rlimit(40)]
pub proof fn dates_are_read_as_they_are_shown(
    month: nat,
    day: nat,
    year: nat,
    hour: nat,
    minute: nat,
    half: Seq<char>,
)
    requires
        1 <= month <= 12,
        1 <= day <= 31,
        1970 <= year <= 9999,
        hour <= 23,
        minute <= 59,
        half == ""@ || half == " AM"@ || half == " PM"@,
    ensures
        deleted_at(written_date(month, day, year).push(' ') + written_time(hour, minute, half))
            == epoch_ms(
            year as int,
            month as int,
            day as int,
            if half == " PM"@ && hour < 12 {
                hour as int + 12
            } else if half == " AM"@ && hour == 12 {
                0
            } else {
                hour as int
            },
            minute as int,
            0,
        ),
{
    let date = written_date(month, day, year);
    let front = text::decimal(hour).push(':') + two_digits(minute);
    let time = written_time(hour, minute, half);
    let raw = date.push(' ') + time;
    assert(time == front + half);
    lemma_digits(month);
    lemma_digits(hour);
    assert(date[0] == text::decimal(month)[0]);
    assert(front[0] == text::decimal(hour)[0]);
    lemma_written_date(month, day, year);
    lemma_time_front(hour, minute);
    lemma_shown_date_is_clean(date, front, half);
    lemma_first_space(date, time);
    assert(date_and_time(raw) == (date, time));
    lemma_half_is_dropped(front, half);
    lemma_half_is_seen(front, half);
    lemma_half(half);
    lemma_from_parts(
        raw,
        date,
        front,
        half,
        month as int,
        day as int,
        year as int,
        hour as int,
        minute as int,
    );
}

#[verifier::spinoff_prover]
#[verifier::rlimit(60)]
proof fn lemma_from_parts(
    raw: Seq<char>,
    date: Seq<char>,
    front: Seq<char>,
    half: Seq<char>,
    month: int,
    day: int,
    year: int,
    hour: int,
    minute: int,
)
    requires
        1 <= month <= 12,
        1 <= day <= 31,
        1970 <= year,
        0 <= hour <= 23,
        raw.len() > 0,
        sanitized(raw) == raw,
        date_and_time(raw) == (date, front + half),
        numbers(text::split(date, '/')) == seq![month, day, year],
        (front + half).filter(|c: char| text::ascii_digit(c) || c == ':') == front,
        numbers(text::split(front, ':')) == seq![hour, minute],
        text::contains(text::ascii_lower(front + half), "pm"@) == (half == " PM"@),
        text::contains(text::ascii_lower(front + half), "am"@) == (half == " AM"@),
        " PM"@ != " AM"@,
    ensures
        deleted_at(raw) == epoch_ms(
            year,
            month,
            day,
            if half == " PM"@ && hour < 12 {
                hour + 12
            } else if half == " AM"@ && hour == 12 {
                0
            } else {
                hour
            },
            minute,
            0,
        ),
{
    let d = numbers(text::split(date, '/'));
    let t = numbers(text::split(front, ':'));
    assert(d.len() == 3 && d[0] == month && d[1] == day && d[2] == year);
    assert(t.len() == 2 && t[0] == hour && t[1] == minute);
}

proof fn lemma_date_chars(date: Seq<char>, front: Seq<char>, half: Seq<char>, i: int)
    requires
        digits_or(date, '/'),
        digits_or(front, ':'),
        half == ""@ || half == " AM"@ || half == " PM"@,
        0 <= i < (date.push(' ') + (front + half)).len(),
    ensures
        date_char((date.push(' ') + (front + half))[i]),
{
    let time = front + half;
    let raw = date.push(' ') + time;
    let n = date.len() as int;
    lemma_half(half);
    if i < n {
        assert(raw[i] == date[i]);
    } else if i > n {
        let k = i - n - 1;
        assert(raw[i] == time[k]);
        if k < front.len() {
            assert(time[k] == front[k]);
        } else {
            assert(time[k] == half[k - front.len()]);
        }
    }
}

proof fn lemma_clean_ends(s: Seq<char>)
    requires
        s.len() > 0,
        '0' <= s[0] <= '9',
        '0' <= s.last() <= '9' || s.last() == ':' || s.last() == 'M',
    ensures
        text::trimmed(s) == s,
{
    text::ascii_white_space(s[0]);
    text::ascii_white_space(s.last());
    text::lemma_trim_identity(s);
}

proof fn lemma_shown_date_is_clean(date: Seq<char>, front: Seq<char>, half: Seq<char>)
    requires
        digits_or(date, '/'),
        date.len() > 0,
        date[0] != '/',
        digits_or(front, ':'),
        front.len() > 0,
        front[0] != ':',
        half == ""@ || half == " AM"@ || half == " PM"@,
    ensures
        sanitized(date.push(' ') + (front + half)) == date.push(' ') + (front + half),
        text::trimmed(front + half) == front + half,
{
    let time = front + half;
    let raw = date.push(' ') + time;
    assert forall|i: int| 0 <= i < raw.len() implies date_char(#[trigger] raw[i]) by {
        lemma_date_chars(date, front, half, i);
    }
    lemma_shown_ends(date, front, half);
    lemma_clean_ends(raw);
    lemma_clean_ends(time);
    lemma_clean_text(raw);
}

proof fn lemma_clean_text(raw: Seq<char>)
    requires
        forall|i: int| 0 <= i < raw.len() ==> date_char(#[trigger] raw[i]),
        text::trimmed(raw) == raw,
    ensures
        sanitized(raw) == raw,
{
    let p = |c: char| date_char(c);
    assert forall|i: int| 0 <= i < raw.len() implies p(#[trigger] raw[i]) by {}
    text::filters_go_piece_by_piece(Seq::empty(), raw, p);
}

proof fn lemma_shown_ends(date: Seq<char>, front: Seq<char>, half: Seq<char>)
    requires
        digits_or(date, '/'),
        date.len() > 0,
        date[0] != '/',
        digits_or(front, ':'),
        front.len() > 0,
        front[0] != ':',
        half == ""@ || half == " AM"@ || half == " PM"@,
    ensures
        ({
            let time = front + half;
            let raw = date.push(' ') + time;
            &&& raw.len() > 0 && '0' <= raw[0] <= '9'
            &&& time.len() > 0 && '0' <= time[0] <= '9'
            &&& raw.last() == time.last()
            &&& '0' <= time.last() <= '9' || time.last() == ':' || time.last() == 'M'
        }),
{
    let time = front + half;
    let raw = date.push(' ') + time;
    lemma_half(half);
    assert(raw[0] == date[0]);
    assert(time[0] == front[0]);
    if half.len() == 3 {
        assert(time.last() == half[2]);
    } else {
        assert(time.last() == front[front.len() - 1]);
    }
}

proof fn lemma_first_space(date: Seq<char>, time: Seq<char>)
    requires
        digits_or(date, '/'),
    ensures
        text::find_from(date.push(' ') + time, " "@, 0) == Some(date.len() as int),
        (date.push(' ') + time).take(date.len() as int) == date,
        (date.push(' ') + time).skip(date.len() as int + 1) == time,
{
    reveal_strlit(" ");
    let raw = date.push(' ') + time;
    let n = date.len() as int;
    assert(raw.take(n) =~= date);
    assert(raw.skip(n + 1) =~= time);
    text::lemma_find_from(raw, " "@, 0);
    assert(raw.subrange(n, n + 1) =~= " "@);
    assert(text::occurs_at(raw, n, " "@));
    if let Some(k) = text::find_from(raw, " "@, 0) {
        if k < n {
            assert(raw.subrange(k, k + 1)[0] == raw[k]);
            assert(raw[k] == date[k]);
        }
    }
}

/// Of a date only ASCII letters, digits and its punctuation count; marks that are not seen, and white
/// space at its ends, make no difference.
pub proof fn unseen_marks_make_no_difference(a: Seq<char>, c: char, b: Seq<char>)
    requires
        c as u32 >= 128,
    ensures
        deleted_at(a.push(c) + b) == deleted_at(a + b),
{
    let p = |x: char| date_char(x);
    text::filters_go_piece_by_piece(a, b, p);
    text::filters_go_piece_by_piece(a.push(c), b, p);
    text::filters_go_piece_by_piece(a, seq![c], p);
    assert(a.push(c) =~= a + seq![c]);
    assert(a.push(c).filter(p) =~= a.filter(p));
    assert(sanitized(a.push(c) + b) == sanitized(a + b));
}

// ---------------------------------------------------------------- the items

/// An item is what its fields say, each under its name. Without a path it is none; any other field
/// may be missing.
pub proof fn items_are_read_by_name(
    v: json::JsonView,
    id: Seq<char>,
    name: Seq<char>,
    from: Seq<char>,
    date: Seq<char>,
    folder: bool,
    size: u64,
)
    ensures
        json::has_none(v, "Path"@) ==> item_of(v) is None,
        json::has_once(v, "Path"@, json::JsonView::Text(id)) ==> (item_of(v) matches Some(t) && {
            &&& t.id == id
            &&& json::has_once(v, "Name"@, json::JsonView::Text(name)) ==> t.name == name
            &&& json::has_none(v, "Name"@) ==> t.name.len() == 0
            &&& json::has_once(v, "OriginalPath"@, json::JsonView::Text(from)) ==> t.original_path
                == from
            &&& json::has_none(v, "OriginalPath"@) ==> t.original_path.len() == 0
            &&& json::has_once(v, "DateDeleted"@, json::JsonView::Text(date)) ==> t.deleted_at_ms
                == deleted_at(date)
            &&& json::has_none(v, "DateDeleted"@) ==> t.deleted_at_ms is None
            &&& json::has_once(v, "IsFolder"@, json::JsonView::Bool(folder)) ==> t.is_dir == folder
            &&& json::has_none(v, "IsFolder"@) ==> !t.is_dir
            &&& json::has_once(
                v,
                "Size"@,
                json::JsonView::Number(json::Number::Unsigned(size)),
            ) ==> t.size_bytes == Some(size)
            &&& json::has_none(v, "Size"@) ==> t.size_bytes is None
        }),
{
    if json::has_once(v, "Path"@, json::JsonView::Text(id)) {
        json::fields_are_found_by_name(v, "Path"@, json::JsonView::Text(id));
    }
    if json::has_none(v, "Path"@) {
        json::missing_fields_are_not_found(v, "Path"@);
    }
    if json::has_once(v, "Name"@, json::JsonView::Text(name)) {
        json::fields_are_found_by_name(v, "Name"@, json::JsonView::Text(name));
    }
    if json::has_none(v, "Name"@) {
        json::missing_fields_are_not_found(v, "Name"@);
    }
    if json::has_once(v, "OriginalPath"@, json::JsonView::Text(from)) {
        json::fields_are_found_by_name(v, "OriginalPath"@, json::JsonView::Text(from));
    }
    if json::has_none(v, "OriginalPath"@) {
        json::missing_fields_are_not_found(v, "OriginalPath"@);
    }
    if json::has_once(v, "DateDeleted"@, json::JsonView::Text(date)) {
        json::fields_are_found_by_name(v, "DateDeleted"@, json::JsonView::Text(date));
    }
    if json::has_none(v, "DateDeleted"@) {
        json::missing_fields_are_not_found(v, "DateDeleted"@);
    }
    if json::has_once(v, "IsFolder"@, json::JsonView::Bool(folder)) {
        json::fields_are_found_by_name(v, "IsFolder"@, json::JsonView::Bool(folder));
    }
    if json::has_none(v, "IsFolder"@) {
        json::missing_fields_are_not_found(v, "IsFolder"@);
    }
    if json::has_once(v, "Size"@, json::JsonView::Number(json::Number::Unsigned(size))) {
        json::fields_are_found_by_name(v, "Size"@, json::JsonView::Number(json::Number::Unsigned(size)));
    }
    if json::has_none(v, "Size"@) {
        json::missing_fields_are_not_found(v, "Size"@);
    }
}

/// A list gives the items in it, in their order, and one object by itself gives one; nothing, or
/// null, gives none.
pub proof fn lists_give_their_items(
    a: Seq<json::JsonView>,
    b: Seq<json::JsonView>,
    x: json::JsonView,
)
    ensures
        items_of(json::JsonView::List(a + b)) == items_of(json::JsonView::List(a)) + items_of(
            json::JsonView::List(b),
        ),
        items_of(json::JsonView::Null).len() == 0,
        x is Object ==> items_of(x) == items_of(json::JsonView::List(seq![x])),
        item_of(x) matches Some(t) && x is Object ==> items_of(x).len() == 1,
    decreases b.len(),
{
    reveal_with_fuel(items_among, 2);
    assert(seq![x].drop_last() =~= Seq::empty());
    if x is Object {
        assert(items_of(x) =~= items_among(seq![x]));
    }
    if b.len() == 0 {
        assert(a + b =~= a);
        assert(items_among(a) + items_among(b) =~= items_among(a));
    } else {
        lists_give_their_items(a, b.drop_last(), x);
        assert((a + b).drop_last() =~= a + b.drop_last());
        assert(items_among(a + b) =~= items_among(a) + items_among(b));
    }
}

/// What is cut off at a limit is its beginning, and it is cut off only where it is longer.
pub proof fn limits_keep_the_beginning<T>(s: Seq<T>, n: int)
    requires
        n >= 0,
    ensures
        s.len() <= n ==> at_most(s, n) == s,
        s.len() > n ==> at_most(s, n) == s.take(n),
{
}

/// All deleted items are listed up to 200; of more, the 200 that were deleted last.
pub proof fn two_hundred_items_are_listed(all: Seq<TrashItem>)
    ensures
        all.len() <= 200 ==> at_most(order::sorted(all), MAX_ITEMS as int).to_multiset()
            == all.to_multiset(),
        all.len() > 200 ==> at_most(order::sorted(all), MAX_ITEMS as int) == order::sorted(all).take(
            200,
        ),
{
    order::sorting_keeps_the_items(all);
    order::sorted(all).to_multiset_ensures();
    all.to_multiset_ensures();
}

} // verus!
