//! What is stored as JSON: how a value is written, and how it is read back.
//!
//! A record is written as an object. It is read from an object, whatever the order of its
//! fields and whatever other fields there are, or from a list of its fields in order. An
//! object that repeats a field of the record is refused; other fields may be repeated.
use crate::json;
use crate::json::{Json, Number};
use crate::text;
use vstd::prelude::*;

verus! {

/// A type whose values are stored as JSON.
pub trait Stored: Sized + View {
    /// How a value is written.
    spec fn written(v: Self::V) -> json::JsonView;

    /// The value that is read, if what is read stands for one.
    spec fn read(j: json::JsonView) -> Option<Self::V>;

    /// How the value is written.
    fn to_stored(&self) -> (r: Json)
        ensures
            r@ == Self::written(self@),
    ;

    /// The value that is read, if what is read stands for one.
    fn from_stored(j: &Json) -> (r: Option<Self>)
        ensures
            seen(r) == Self::read(j@),
    ;

    /// What was written is read back.
    proof fn reads_back(v: Self::V)
        ensures
            Self::read(Self::written(v)) == Some(v),
    ;
}

/// What an optional value stands for.
pub open spec fn seen<T: View>(o: Option<T>) -> Option<T::V> {
    match o {
        Some(x) => Some(x@),
        None => None,
    }
}

// ---------------------------------------------------------------- single values

impl Stored for String {
    open spec fn written(v: Seq<char>) -> json::JsonView {
        json::JsonView::Text(v)
    }

    open spec fn read(j: json::JsonView) -> Option<Seq<char>> {
        json::text_in(j)
    }

    fn to_stored(&self) -> (r: Json) {
        json::text_json(self.as_str())
    }

    fn from_stored(j: &Json) -> (r: Option<String>) {
        match j {
            Json::Text(s) => Some(text::owned(s.as_str())),
            _ => None,
        }
    }

    proof fn reads_back(v: Seq<char>) {
    }
}

impl Stored for bool {
    open spec fn written(v: bool) -> json::JsonView {
        json::JsonView::Bool(v)
    }

    open spec fn read(j: json::JsonView) -> Option<bool> {
        match j {
            json::JsonView::Bool(b) => Some(b),
            _ => None,
        }
    }

    fn to_stored(&self) -> (r: Json) {
        Json::Bool(*self)
    }

    fn from_stored(j: &Json) -> (r: Option<bool>) {
        match j {
            Json::Bool(b) => Some(*b),
            _ => None,
        }
    }

    proof fn reads_back(v: bool) {
    }
}

/// The whole number that a value is.
pub open spec fn whole(j: json::JsonView) -> Option<int> {
    match j {
        json::JsonView::Number(Number::Unsigned(u)) => Some(u as int),
        json::JsonView::Number(Number::Signed(i)) => Some(i as int),
        _ => None,
    }
}

/// The whole number that a value is.
pub fn whole_of(j: &Json) -> (r: Option<i128>)
    ensures
        match r {
            Some(n) => whole(j@) == Some(n as int) && -0x8000_0000_0000_0000 <= n
                <= 0xffff_ffff_ffff_ffff,
            None => whole(j@) is None,
        },
{
    match j {
        Json::Number(Number::Unsigned(u)) => Some(*u as i128),
        Json::Number(Number::Signed(i)) => Some(*i as i128),
        _ => None,
    }
}

impl Stored for u32 {
    open spec fn written(v: u32) -> json::JsonView {
        json::number_view(v as u64)
    }

    open spec fn read(j: json::JsonView) -> Option<u32> {
        match whole(j) {
            Some(n) => if 0 <= n <= u32::MAX {
                Some(n as u32)
            } else {
                None
            },
            None => None,
        }
    }

    fn to_stored(&self) -> (r: Json) {
        Json::Number(Number::Unsigned(*self as u64))
    }

    fn from_stored(j: &Json) -> (r: Option<u32>) {
        match whole_of(j) {
            Some(n) => if 0 <= n && n <= 0xffff_ffff {
                Some(n as u32)
            } else {
                None
            },
            None => None,
        }
    }

    proof fn reads_back(v: u32) {
    }
}

impl Stored for u64 {
    open spec fn written(v: u64) -> json::JsonView {
        json::number_view(v)
    }

    open spec fn read(j: json::JsonView) -> Option<u64> {
        match whole(j) {
            Some(n) => if 0 <= n {
                Some(n as u64)
            } else {
                None
            },
            None => None,
        }
    }

    fn to_stored(&self) -> (r: Json) {
        Json::Number(Number::Unsigned(*self))
    }

    fn from_stored(j: &Json) -> (r: Option<u64>) {
        match whole_of(j) {
            Some(n) => if 0 <= n {
                Some(n as u64)
            } else {
                None
            },
            None => None,
        }
    }

    proof fn reads_back(v: u64) {
    }
}

impl Stored for usize {
    open spec fn written(v: usize) -> json::JsonView {
        json::number_view(v as u64)
    }

    open spec fn read(j: json::JsonView) -> Option<usize> {
        match whole(j) {
            Some(n) => if 0 <= n <= usize::MAX {
                Some(n as usize)
            } else {
                None
            },
            None => None,
        }
    }

    fn to_stored(&self) -> (r: Json) {
        Json::Number(Number::Unsigned(*self as u64))
    }

    fn from_stored(j: &Json) -> (r: Option<usize>) {
        match whole_of(j) {
            Some(n) => if 0 <= n && n <= usize::MAX as i128 {
                Some(n as usize)
            } else {
                None
            },
            None => None,
        }
    }

    proof fn reads_back(v: usize) {
    }
}

impl Stored for i64 {
    open spec fn written(v: i64) -> json::JsonView {
        json::JsonView::Number(
            if v >= 0 {
                Number::Unsigned(v as u64)
            } else {
                Number::Signed(v)
            },
        )
    }

    open spec fn read(j: json::JsonView) -> Option<i64> {
        match whole(j) {
            Some(n) => if n <= i64::MAX {
                Some(n as i64)
            } else {
                None
            },
            None => None,
        }
    }

    fn to_stored(&self) -> (r: Json) {
        if *self >= 0 {
            Json::Number(Number::Unsigned(*self as u64))
        } else {
            Json::Number(Number::Signed(*self))
        }
    }

    fn from_stored(j: &Json) -> (r: Option<i64>) {
        match whole_of(j) {
            Some(n) => if n <= 0x7fff_ffff_ffff_ffff {
                Some(n as i64)
            } else {
                None
            },
            None => None,
        }
    }

    proof fn reads_back(v: i64) {
    }
}

impl View for Number {
    type V = Number;

    open spec fn view(&self) -> Number {
        *self
    }
}

impl Stored for Number {
    open spec fn written(v: Number) -> json::JsonView {
        json::JsonView::Number(v)
    }

    open spec fn read(j: json::JsonView) -> Option<Number> {
        match j {
            json::JsonView::Number(n) => Some(n),
            _ => None,
        }
    }

    fn to_stored(&self) -> (r: Json) {
        Json::Number(*self)
    }

    fn from_stored(j: &Json) -> (r: Option<Number>) {
        match j {
            Json::Number(n) => Some(*n),
            _ => None,
        }
    }

    proof fn reads_back(v: Number) {
    }
}

/// The word that a value is: a string, or the name of the only field of an object, if there
/// is nothing in that.
pub open spec fn word_in(j: json::JsonView) -> Option<Seq<char>> {
    match j {
        json::JsonView::Text(s) => Some(s),
        json::JsonView::Object(fields) => if fields.len() == 1 && fields[0].1 is Null {
            Some(fields[0].0)
        } else {
            None
        },
        _ => None,
    }
}

/// The word that a value is.
pub fn word_of(j: &Json) -> (r: Option<&str>)
    ensures
        text::opt_str(r) == word_in(j@),
{
    match j {
        Json::Text(s) => Some(s.as_str()),
        Json::Object(fields) => {
            proof {
                json::lemma_fields_view(fields@);
            }
            if fields.len() == 1 {
                assert(json::fields_view(fields@)[0] == (
                    fields@[0].0@,
                    json::json_view(fields@[0].1),
                ));
                match &fields[0].1 {
                    Json::Null => Some(fields[0].0.as_str()),
                    _ => None,
                }
            } else {
                None
            }
        },
        _ => None,
    }
}

// ---------------------------------------------------------------- records

/// What a record has of a field.
pub enum Part<'a> {
    Missing,
    Once(&'a Json),
    /// The field stands there more than once.
    Repeated,
}

/// What a record has of a field, mathematically.
pub enum PartView {
    Missing,
    Once(json::JsonView),
    Repeated,
}

impl<'a> View for Part<'a> {
    type V = PartView;

    open spec fn view(&self) -> PartView {
        match self {
            Part::Missing => PartView::Missing,
            Part::Once(j) => PartView::Once(j@),
            Part::Repeated => PartView::Repeated,
        }
    }
}

/// How many fields have that name.
pub open spec fn occurrences(fields: Seq<(Seq<char>, json::JsonView)>, key: Seq<char>) -> nat
    decreases fields.len(),
{
    if fields.len() == 0 {
        0
    } else if fields.last().0 == key {
        occurrences(fields.drop_last(), key) + 1
    } else {
        occurrences(fields.drop_last(), key)
    }
}

/// The field of a record: by name in an object, by place in a list.
pub open spec fn part(j: json::JsonView, key: Seq<char>, i: int) -> PartView {
    match j {
        json::JsonView::Object(fields) => if occurrences(fields, key) > 1 {
            PartView::Repeated
        } else {
            match json::lookup(fields, key) {
                Some(v) => PartView::Once(v),
                None => PartView::Missing,
            }
        },
        json::JsonView::List(items) => if 0 <= i < items.len() {
            PartView::Once(items[i])
        } else {
            PartView::Missing
        },
        _ => PartView::Missing,
    }
}

/// A record of `n` fields: an object, or a list of no more than that.
pub open spec fn is_record(j: json::JsonView, n: nat) -> bool {
    match j {
        json::JsonView::Object(_) => true,
        json::JsonView::List(items) => items.len() <= n,
        _ => false,
    }
}

fn is_repeated(fields: &Vec<(String, Json)>, key: &str) -> (r: bool)
    ensures
        r == (occurrences(json::fields_view(fields@), key@) > 1),
{
    let ghost all = json::fields_view(fields@);
    proof {
        json::lemma_fields_view(fields@);
    }
    let mut n: usize = 0;
    let mut i: usize = 0;
    assert(all.take(0) =~= Seq::empty());
    while i < fields.len()
        invariant
            i <= fields@.len() == all.len(),
            n <= i,
            forall|k: int|
                0 <= k < fields@.len() ==> all[k] == (
                    (#[trigger] fields@[k]).0@,
                    json::json_view(fields@[k].1),
                ),
            n == occurrences(all.take(i as int), key@),
        decreases fields@.len() - i,
    {
        assert(all.take(i + 1).drop_last() =~= all.take(i as int));
        assert(all.take(i + 1).last() == all[i as int]);
        assert(all[i as int].0 == fields@[i as int].0@);
        if text::same(fields[i].0.as_str(), key) {
            n = n + 1;
        }
        i = i + 1;
    }
    assert(all.take(i as int) =~= all);
    n > 1
}

/// The field of a record.
pub fn part_of<'a>(j: &'a Json, key: &str, i: usize) -> (r: Part<'a>)
    ensures
        r@ == part(j@, key@, i as int),
{
    match j {
        Json::Object(fields) => if is_repeated(fields, key) {
            Part::Repeated
        } else {
            match j.get(key) {
                Some(v) => Part::Once(v),
                None => Part::Missing,
            }
        },
        Json::List(items) => {
            proof {
                json::lemma_list_view(items@);
            }
            if i < items.len() {
                assert(json::list_view(items@)[i as int] == json::json_view(items@[i as int]));
                Part::Once(&items[i])
            } else {
                Part::Missing
            }
        },
        _ => Part::Missing,
    }
}

/// Whether a value can be a record of `n` fields.
pub fn record_like(j: &Json, n: usize) -> (r: bool)
    ensures
        r == is_record(j@, n as nat),
{
    match j {
        Json::Object(_) => true,
        Json::List(items) => {
            proof {
                json::lemma_list_view(items@);
            }
            items.len() <= n
        },
        _ => false,
    }
}

/// What a field holds, or the default where it is left out; nothing where it is repeated.
pub open spec fn value_or<T: Stored>(p: PartView, default: Option<T::V>) -> Option<T::V> {
    match p {
        PartView::Once(j) => T::read(j),
        PartView::Missing => default,
        PartView::Repeated => None,
    }
}

/// What a field holds, or the default where it is left out.
pub fn read_or<T: Stored>(p: Part<'_>, default: Option<T>) -> (r: Option<T>)
    ensures
        seen(r) == value_or::<T>(p@, seen(default)),
{
    match p {
        Part::Once(j) => T::from_stored(j),
        Part::Missing => default,
        Part::Repeated => None,
    }
}

/// A record that repeats a field is refused: neither what the field holds nor a default is read.
pub proof fn repeated_fields_are_refused<T: Stored>(
    fields: Seq<(Seq<char>, json::JsonView)>,
    i: int,
    j: int,
    place: int,
    default: Option<T::V>,
)
    requires
        0 <= i < j < fields.len(),
        fields[i].0 == fields[j].0,
    ensures
        value_or::<T>(part(json::JsonView::Object(fields), fields[i].0, place), default) is None,
        list_in::<T>(part(json::JsonView::Object(fields), fields[i].0, place)) is None,
{
    lemma_occurs(fields, i, j);
}

proof fn lemma_occurs(fields: Seq<(Seq<char>, json::JsonView)>, i: int, j: int)
    requires
        0 <= i <= j < fields.len(),
        fields[i].0 == fields[j].0,
    ensures
        occurrences(fields, fields[i].0) >= (if i == j {
            1nat
        } else {
            2nat
        }),
    decreases fields.len(),
{
    let front = fields.drop_last();
    if j < fields.len() - 1 {
        assert(front[i] == fields[i] && front[j] == fields[j]);
        lemma_occurs(front, i, j);
    } else if i < j {
        assert(front[i] == fields[i]);
        lemma_occurs(front, i, i);
    }
}

proof fn lemma_occurs_not(fields: Seq<(Seq<char>, json::JsonView)>, key: Seq<char>)
    requires
        forall|j: int| 0 <= j < fields.len() ==> (#[trigger] fields[j]).0 != key,
    ensures
        occurrences(fields, key) == 0,
    decreases fields.len(),
{
    if fields.len() > 0 {
        let front = fields.drop_last();
        assert forall|j: int| 0 <= j < front.len() implies (#[trigger] front[j]).0 != key by {
            assert(front[j] == fields[j]);
        }
        lemma_occurs_not(front, key);
        assert(fields.last() == fields[fields.len() - 1]);
    }
}

/// A name that stands in an object once is found where it stands.
pub proof fn lemma_lookup(fields: Seq<(Seq<char>, json::JsonView)>, i: int)
    requires
        0 <= i < fields.len(),
        forall|j: int|
            0 <= j < fields.len() && j != i ==> (#[trigger] fields[j]).0 != fields[i].0,
    ensures
        json::lookup(fields, fields[i].0) == Some(fields[i].1),
        occurrences(fields, fields[i].0) == 1,
    decreases fields.len(),
{
    if i < fields.len() - 1 {
        assert(fields.last() == fields[fields.len() - 1]);
        assert(fields.drop_last()[i] == fields[i]);
        assert forall|j: int| 0 <= j < fields.drop_last().len() && j != i implies (
        #[trigger] fields.drop_last()[j]).0 != fields.drop_last()[i].0 by {
            assert(fields.drop_last()[j] == fields[j]);
        }
        lemma_lookup(fields.drop_last(), i);
    } else {
        let front = fields.drop_last();
        assert forall|j: int| 0 <= j < front.len() implies (#[trigger] front[j]).0
            != fields[i].0 by {
            assert(front[j] == fields[j]);
        }
        lemma_occurs_not(front, fields[i].0);
    }
}

// ---------------------------------------------------------------- lists

/// What the values of a list stand for.
pub open spec fn views_of<T: View>(v: Seq<T>) -> Seq<T::V> {
    v.map_values(|x: T| x@)
}

/// How a list is written.
pub open spec fn written_list<T: Stored>(v: Seq<T::V>) -> json::JsonView {
    json::JsonView::List(v.map_values(|x: T::V| T::written(x)))
}

/// The values that are read, if each item stands for one.
pub open spec fn read_items<T: Stored>(items: Seq<json::JsonView>) -> Option<Seq<T::V>>
    decreases items.len(),
{
    if items.len() == 0 {
        Some(Seq::empty())
    } else {
        match (read_items::<T>(items.drop_last()), T::read(items.last())) {
            (Some(front), Some(x)) => Some(front.push(x)),
            _ => None,
        }
    }
}

/// The list that is read.
pub open spec fn read_list<T: Stored>(j: json::JsonView) -> Option<Seq<T::V>> {
    match j {
        json::JsonView::List(items) => read_items::<T>(items),
        _ => None,
    }
}

/// The list in a field; an empty one where the field is left out, and nothing where it is
/// repeated.
pub open spec fn list_in<T: Stored>(p: PartView) -> Option<Seq<T::V>> {
    match p {
        PartView::Once(j) => read_list::<T>(j),
        PartView::Missing => Some(Seq::empty()),
        PartView::Repeated => None,
    }
}

/// How a list is written.
pub fn write_list<T: Stored>(v: &Vec<T>) -> (r: Json)
    ensures
        r@ == written_list::<T>(views_of(v@)),
{
    let ghost all = views_of(v@).map_values(|x: T::V| T::written(x));
    let mut items: Vec<Json> = Vec::new();
    let mut i: usize = 0;
    assert(json::list_view(items@) =~= all.take(0));
    while i < v.len()
        invariant
            i <= v@.len(),
            all == views_of(v@).map_values(|x: T::V| T::written(x)),
            json::list_view(items@) == all.take(i as int),
        decreases v@.len() - i,
    {
        let j = v[i].to_stored();
        proof {
            json::lemma_list_push(items@, j);
        }
        items.push(j);
        i = i + 1;
        assert(all.take(i as int) =~= all.take(i - 1).push(all[i - 1]));
    }
    assert(all.take(i as int) =~= all);
    Json::List(items)
}

/// Once an item stands for no value, the list does not.
proof fn lemma_read_none<T: Stored>(items: Seq<json::JsonView>, n: int)
    requires
        0 <= n <= items.len(),
        read_items::<T>(items.take(n)) is None,
    ensures
        read_items::<T>(items) is None,
    decreases items.len() - n,
{
    if n < items.len() {
        assert(items.take(n + 1).drop_last() =~= items.take(n));
        lemma_read_none::<T>(items, n + 1);
    } else {
        assert(items.take(n) =~= items);
    }
}

/// The list that is read.
pub fn list_from<T: Stored>(j: &Json) -> (r: Option<Vec<T>>)
    ensures
        match r {
            Some(v) => read_list::<T>(j@) == Some(views_of(v@)),
            None => read_list::<T>(j@) is None,
        },
{
    let values = match j {
        Json::List(items) => items,
        _ => return None,
    };
    let ghost all = json::list_view(values@);
    proof {
        json::lemma_list_view(values@);
    }
    let mut out: Vec<T> = Vec::new();
    let mut i: usize = 0;
    assert(views_of(out@) =~= Seq::empty());
    while i < values.len()
        invariant
            i <= values@.len() == all.len(),
            j@ == json::JsonView::List(all),
            forall|k: int|
                0 <= k < values@.len() ==> all[k] == json::json_view(#[trigger] values@[k]),
            read_items::<T>(all.take(i as int)) == Some(views_of(out@)),
        decreases values@.len() - i,
    {
        assert(all.take(i + 1).drop_last() =~= all.take(i as int));
        assert(all.take(i + 1).last() == values@[i as int]@);
        match T::from_stored(&values[i]) {
            Some(x) => {
                let ghost before = views_of(out@);
                out.push(x);
                assert(views_of(out@) =~= before.push(x@));
            },
            None => {
                proof {
                    lemma_read_none::<T>(all, i + 1);
                }
                return None;
            },
        }
        i = i + 1;
    }
    assert(all.take(i as int) =~= all);
    Some(out)
}

/// The list in a field; an empty one where the field is left out.
pub fn list_or_empty<T: Stored>(p: Part<'_>) -> (r: Option<Vec<T>>)
    ensures
        match r {
            Some(v) => list_in::<T>(p@) == Some(views_of(v@)),
            None => list_in::<T>(p@) is None,
        },
{
    match p {
        Part::Once(j) => list_from::<T>(j),
        Part::Repeated => None,
        Part::Missing => {
            let out: Vec<T> = Vec::new();
            assert(views_of(out@) =~= Seq::empty());
            Some(out)
        },
    }
}

/// A list that was written is read back.
pub proof fn lists_read_back<T: Stored>(v: Seq<T::V>)
    ensures
        read_list::<T>(written_list::<T>(v)) == Some(v),
    decreases v.len(),
{
    let items = v.map_values(|x: T::V| T::written(x));
    if v.len() == 0 {
        assert(v =~= Seq::empty());
    } else {
        let front = v.drop_last();
        lists_read_back::<T>(front);
        T::reads_back(v.last());
        assert(items.drop_last() =~= front.map_values(|x: T::V| T::written(x)));
        assert(front.push(v.last()) =~= v);
    }
}

/// A field that an object has once is read where it stands, whatever its place would be in a list;
/// one that it does not have gets the default; in a list the place counts.
pub proof fn fields_are_read_by_name<T: Stored>(
    v: json::JsonView,
    name: Seq<char>,
    value: json::JsonView,
    i: int,
    default: Option<T::V>,
    items: Seq<json::JsonView>,
)
    ensures
        json::has_once(v, name, value) ==> value_or::<T>(part(v, name, i), default) == T::read(
            value,
        ),
        v is Object && json::has_none(v, name) ==> value_or::<T>(part(v, name, i), default)
            == default,
        0 <= i < items.len() ==> value_or::<T>(part(json::JsonView::List(items), name, i), default)
            == T::read(items[i]),
        i >= items.len() ==> value_or::<T>(part(json::JsonView::List(items), name, i), default)
            == default,
{
    if json::has_once(v, name, value) {
        let fields = v->Object_0;
        let k = choose|k: int|
            0 <= k < fields.len() && #[trigger] fields[k] == (name, value) && (forall|j: int|
                0 <= j < fields.len() && j != k ==> (#[trigger] fields[j]).0 != name);
        lemma_lookup(fields, k);
    }
    if v is Object && json::has_none(v, name) {
        json::missing_fields_are_not_found(v, name);
        lemma_occurs_not(v->Object_0, name);
    }
}

} // verus!
