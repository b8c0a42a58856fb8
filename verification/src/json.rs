//! JSON values, as the parser hands them out and as responses are built.
use vstd::arithmetic::power2;
use vstd::prelude::*;
use crate::text;
use crate::text::same;

verus! {

/// A number: an unsigned or a negative integer, or the bits of a double or of a single.
#[derive(Clone, Copy, Debug, PartialEq, Eq, Structural)]
pub enum Number {
    Unsigned(u64),
    Signed(i64),
    Double(u64),
    Single(u32),
}

/// A JSON value.
#[derive(Debug)]
pub enum Json {
    Null,
    Bool(bool),
    Number(Number),
    Text(String),
    List(Vec<Json>),
    Object(Vec<(String, Json)>),
}

/// A JSON value, mathematically.
pub enum JsonView {
    Null,
    Bool(bool),
    Number(Number),
    Text(Seq<char>),
    List(Seq<JsonView>),
    Object(Seq<(Seq<char>, JsonView)>),
}

pub open spec fn json_view(j: Json) -> JsonView
    decreases j,
{
    match j {
        Json::Null => JsonView::Null,
        Json::Bool(b) => JsonView::Bool(b),
        Json::Number(n) => JsonView::Number(n),
        Json::Text(s) => JsonView::Text(s@),
        Json::List(items) => JsonView::List(list_view(items@)),
        Json::Object(fields) => JsonView::Object(fields_view(fields@)),
    }
}

pub open spec fn list_view(items: Seq<Json>) -> Seq<JsonView>
    decreases items,
{
    if items.len() == 0 {
        Seq::empty()
    } else {
        list_view(items.drop_last()).push(json_view(items.last()))
    }
}

pub open spec fn fields_view(fields: Seq<(String, Json)>) -> Seq<(Seq<char>, JsonView)>
    decreases fields,
{
    if fields.len() == 0 {
        Seq::empty()
    } else {
        fields_view(fields.drop_last()).push((fields.last().0@, json_view(fields.last().1)))
    }
}

impl View for Json {
    type V = JsonView;

    open spec fn view(&self) -> JsonView {
        json_view(*self)
    }
}

/// The view of a list holds the views of its items.
pub proof fn lemma_list_view(items: Seq<Json>)
    ensures
        list_view(items).len() == items.len(),
        forall|i: int| 0 <= i < items.len() ==> list_view(items)[i] == json_view(#[trigger] items[i]),
    decreases items.len(),
{
    if items.len() > 0 {
        lemma_list_view(items.drop_last());
        assert forall|i: int| 0 <= i < items.len() implies list_view(items)[i] == json_view(
            #[trigger] items[i],
        ) by {
            if i < items.len() - 1 {
                assert(items.drop_last()[i] == items[i]);
            }
        }
    }
}

/// The view of an object holds the names and the views of its fields.
pub proof fn lemma_fields_view(fields: Seq<(String, Json)>)
    ensures
        fields_view(fields).len() == fields.len(),
        forall|i: int|
            0 <= i < fields.len() ==> fields_view(fields)[i] == (
                (#[trigger] fields[i]).0@,
                json_view(fields[i].1),
            ),
    decreases fields.len(),
{
    if fields.len() > 0 {
        lemma_fields_view(fields.drop_last());
        assert forall|i: int| 0 <= i < fields.len() implies fields_view(fields)[i] == (
            (#[trigger] fields[i]).0@,
            json_view(fields[i].1),
        ) by {
            if i < fields.len() - 1 {
                assert(fields.drop_last()[i] == fields[i]);
            }
        }
    }
}

/// The view of a list with one more item.
pub proof fn lemma_list_push(items: Seq<Json>, x: Json)
    ensures
        list_view(items.push(x)) == list_view(items).push(json_view(x)),
{
    assert(items.push(x).drop_last() =~= items);
}

// ---------------------------------------------------------------- reading

/// The value of the last field of that name.
pub open spec fn lookup(fields: Seq<(Seq<char>, JsonView)>, key: Seq<char>) -> Option<JsonView>
    decreases fields.len(),
{
    if fields.len() == 0 {
        None
    } else if fields.last().0 == key {
        Some(fields.last().1)
    } else {
        lookup(fields.drop_last(), key)
    }
}

/// The field `key` of an object; nothing for any other value.
pub open spec fn field(v: JsonView, key: Seq<char>) -> Option<JsonView> {
    match v {
        JsonView::Object(fields) => lookup(fields, key),
        _ => None,
    }
}

/// The contents of a string; nothing for any other value.
pub open spec fn text_in(v: JsonView) -> Option<Seq<char>> {
    match v {
        JsonView::Text(s) => Some(s),
        _ => None,
    }
}

/// The string in the field `key`.
pub open spec fn text_field(v: JsonView, key: Seq<char>) -> Option<Seq<char>> {
    match field(v, key) {
        Some(f) => text_in(f),
        None => None,
    }
}

/// The truth value in the field `key`.
pub open spec fn bool_field(v: JsonView, key: Seq<char>) -> Option<bool> {
    match field(v, key) {
        Some(JsonView::Bool(b)) => Some(b),
        _ => None,
    }
}

/// The items of the list in the field `key`.
pub open spec fn list_field(v: JsonView, key: Seq<char>) -> Option<Seq<JsonView>> {
    match field(v, key) {
        Some(JsonView::List(items)) => Some(items),
        _ => None,
    }
}

/// An object that has a field of that name once, with that value.
pub open spec fn has_once(v: JsonView, name: Seq<char>, value: JsonView) -> bool {
    v matches JsonView::Object(fields) && exists|i: int|
        0 <= i < fields.len() && #[trigger] fields[i] == (name, value) && (forall|j: int|
            0 <= j < fields.len() && j != i ==> (#[trigger] fields[j]).0 != name)
}

/// An object without a field of that name, or no object.
pub open spec fn has_none(v: JsonView, name: Seq<char>) -> bool {
    match v {
        JsonView::Object(fields) => forall|j: int|
            0 <= j < fields.len() ==> (#[trigger] fields[j]).0 != name,
        _ => true,
    }
}

proof fn lemma_not_found(fields: Seq<(Seq<char>, JsonView)>, name: Seq<char>)
    requires
        forall|j: int| 0 <= j < fields.len() ==> (#[trigger] fields[j]).0 != name,
    ensures
        lookup(fields, name) is None,
    decreases fields.len(),
{
    if fields.len() > 0 {
        assert(fields[fields.len() - 1] == fields.last());
        let front = fields.drop_last();
        assert forall|j: int| 0 <= j < front.len() implies (#[trigger] front[j]).0 != name by {
            assert(front[j] == fields[j]);
        }
        lemma_not_found(front, name);
    }
}

proof fn lemma_found(fields: Seq<(Seq<char>, JsonView)>, i: int)
    requires
        0 <= i < fields.len(),
        forall|j: int| i < j < fields.len() ==> (#[trigger] fields[j]).0 != fields[i].0,
    ensures
        lookup(fields, fields[i].0) == Some(fields[i].1),
    decreases fields.len(),
{
    if i < fields.len() - 1 {
        assert(fields[fields.len() - 1] == fields.last());
        let front = fields.drop_last();
        assert(front[i] == fields[i]);
        assert forall|j: int| i < j < front.len() implies (#[trigger] front[j]).0
            != front[i].0 by {
            assert(front[j] == fields[j]);
        }
        lemma_found(front, i);
    }
}

/// A field is found by its name, wherever it stands among the others, and what it holds comes
/// out unchanged: a string, a truth value or a list of the kind asked for, and nothing of
/// another kind.
pub proof fn fields_are_found_by_name(v: JsonView, name: Seq<char>, value: JsonView)
    requires
        has_once(v, name, value),
    ensures
        field(v, name) == Some(value),
        value matches JsonView::Text(t) ==> text_field(v, name) == Some(t) && list_field(
            v,
            name,
        ) is None && bool_field(v, name) is None,
        value matches JsonView::Bool(b) ==> bool_field(v, name) == Some(b) && text_field(
            v,
            name,
        ) is None && list_field(v, name) is None,
        value matches JsonView::List(items) ==> list_field(v, name) == Some(items) && text_field(
            v,
            name,
        ) is None && bool_field(v, name) is None,
        value is Null || value is Number || value is Object ==> text_field(v, name) is None
            && list_field(v, name) is None && bool_field(v, name) is None,
{
    let fields = v->Object_0;
    let i = choose|i: int|
        0 <= i < fields.len() && #[trigger] fields[i] == (name, value) && (forall|j: int|
            0 <= j < fields.len() && j != i ==> (#[trigger] fields[j]).0 != name);
    lemma_found(fields, i);
}

/// A field that is not there is not found, in any value.
pub proof fn missing_fields_are_not_found(v: JsonView, name: Seq<char>)
    requires
        has_none(v, name),
    ensures
        field(v, name) is None,
        text_field(v, name) is None,
        list_field(v, name) is None,
        bool_field(v, name) is None,
{
    match v {
        JsonView::Object(fields) => {
            lemma_not_found(fields, name);
        },
        _ => {},
    }
}

/// Of several fields of one name the last counts.
pub proof fn the_last_of_several_fields_counts(
    before: Seq<(Seq<char>, JsonView)>,
    name: Seq<char>,
    value: JsonView,
    behind: Seq<(Seq<char>, JsonView)>,
)
    requires
        has_none(JsonView::Object(behind), name),
    ensures
        field(JsonView::Object(before.push((name, value)) + behind), name) == Some(value),
{
    let fields = before.push((name, value)) + behind;
    let i = before.len() as int;
    let rest = JsonView::Object(behind);
    assert(rest->Object_0 == behind);
    assert(has_none(rest, name));
    assert(fields[i] == (name, value));
    assert forall|j: int| i < j < fields.len() implies (#[trigger] fields[j]).0
        != fields[i].0 by {
        assert(fields[j] == behind[j - i - 1]);
        assert(behind[j - i - 1].0 != name);
    }
    lemma_found(fields, i);
}

/// The views of an optional reference.
pub open spec fn opt_json(o: Option<&Json>) -> Option<JsonView> {
    match o {
        Some(j) => Some(j@),
        None => None,
    }
}

impl Json {
    /// The field `key` of an object.
    pub fn get(&self, key: &str) -> (r: Option<&Json>)
        ensures
            opt_json(r) == field(self@, key@),
    {
        match self {
            Json::Object(fields) => {
                let mut i: usize = fields.len();
                let ghost all = fields_view(fields@);
                proof {
                    lemma_fields_view(fields@);
                }
                assert(all.take(i as int) =~= all);
                while i > 0
                    invariant
                        i <= fields@.len() == all.len(),
                        forall|k: int|
                            0 <= k < fields@.len() ==> all[k] == (
                                (#[trigger] fields@[k]).0@,
                                json_view(fields@[k].1),
                            ),
                        lookup(all, key@) == lookup(all.take(i as int), key@),
                        self@ == JsonView::Object(all),
                    decreases i,
                {
                    assert(all.take(i as int).drop_last() =~= all.take(i - 1));
                    assert(all.take(i as int).last() == all[i - 1]);
                    if same(fields[i - 1].0.as_str(), key) {
                        return Some(&fields[i - 1].1);
                    }
                    i = i - 1;
                }
                None
            },
            _ => None,
        }
    }

    /// The contents of a string.
    pub fn as_text(&self) -> (r: Option<&str>)
        ensures
            text::opt_str(r) == text_in(self@),
    {
        match self {
            Json::Text(s) => Some(s.as_str()),
            _ => None,
        }
    }

    /// The string in the field `key`.
    pub fn text_field(&self, key: &str) -> (r: Option<&str>)
        ensures
            text::opt_str(r) == text_field(self@, key@),
    {
        match self.get(key) {
            Some(v) => v.as_text(),
            None => None,
        }
    }

    /// The truth value in the field `key`.
    pub fn bool_field(&self, key: &str) -> (r: Option<bool>)
        ensures
            r == bool_field(self@, key@),
    {
        match self.get(key) {
            Some(Json::Bool(b)) => Some(*b),
            _ => None,
        }
    }

    /// The items of the list in the field `key`.
    pub fn list_field(&self, key: &str) -> (r: Option<&Vec<Json>>)
        ensures
            match r {
                Some(items) => list_field(self@, key@) == Some(list_view(items@)),
                None => list_field(self@, key@) is None,
            },
    {
        match self.get(key) {
            Some(Json::List(items)) => Some(items),
            _ => None,
        }
    }
}

// ---------------------------------------------------------------- numbers

/// The bits of a double after the point where the fraction begins.
pub const FRACTION: u64 = 4503599627370496;

/// A double that is not negative, cut to a whole number and to the range of `u64`.
/// Nothing for a negative number and for what is not a number.
pub open spec fn double_to_whole(bits: u64) -> Option<u64> {
    let negative = bits >= 0x8000_0000_0000_0000;
    let exponent = ((bits / FRACTION) % 2048) as int;
    let fraction = (bits % FRACTION) as int;
    if negative {
        if bits == 0x8000_0000_0000_0000 {
            Some(0u64)
        } else {
            None
        }
    } else if exponent == 2047 {
        if fraction == 0 {
            Some(u64::MAX)
        } else {
            None
        }
    } else if exponent < 1023 {
        Some(0u64)
    } else if exponent >= 1087 {
        Some(u64::MAX)
    } else if exponent >= 1075 {
        Some(((FRACTION + fraction) * power2::pow2((exponent - 1075) as nat)) as u64)
    } else {
        Some(((FRACTION + fraction) / (power2::pow2((1075 - exponent) as nat) as int)) as u64)
    }
}

/// A number as a whole number that is not negative, as far as it has that form.
pub open spec fn whole_number(n: Number) -> Option<u64> {
    match n {
        Number::Unsigned(u) => Some(u),
        Number::Signed(i) => if i >= 0 {
            Some(i as u64)
        } else {
            None
        },
        Number::Double(bits) => double_to_whole(bits),
        Number::Single(_) => None,
    }
}

/// Two to the power `k`.
fn power_of_two(k: u64) -> (r: u64)
    requires
        k < 64,
    ensures
        r == power2::pow2(k as nat),
{
    let mut p: u64 = 1;
    let mut i: u64 = 0;
    proof {
        power2::lemma2_to64();
    }
    while i < k
        invariant
            i <= k < 64,
            p == power2::pow2(i as nat),
        decreases k - i,
    {
        proof {
            power2::lemma_pow2_unfold((i + 1) as nat);
            power2::lemma2_to64_rest();
            if i + 1 < 63 {
                power2::lemma_pow2_strictly_increases((i + 1) as nat, 63);
            }
        }
        p = p * 2;
        i = i + 1;
    }
    p
}

/// A double, cut to a whole number.
fn cut_double(bits: u64) -> (r: Option<u64>)
    ensures
        r == double_to_whole(bits),
{
    let exponent: u64 = (bits / FRACTION) % 2048;
    let fraction: u64 = bits % FRACTION;
    if bits >= 0x8000_0000_0000_0000 {
        if bits == 0x8000_0000_0000_0000 {
            Some(0)
        } else {
            None
        }
    } else if exponent == 2047 {
        if fraction == 0 {
            Some(u64::MAX)
        } else {
            None
        }
    } else if exponent < 1023 {
        Some(0)
    } else if exponent >= 1087 {
        Some(u64::MAX)
    } else if exponent >= 1075 {
        let p: u64 = power_of_two(exponent - 1075);
        proof {
            power2::lemma2_to64();
            if exponent - 1075 < 11 {
                power2::lemma_pow2_strictly_increases((exponent - 1075) as nat, 11);
            }
            assert((FRACTION + fraction) * p < 0x1_0000_0000_0000_0000) by (nonlinear_arith)
                requires
                    FRACTION + fraction < 9007199254740992,
                    0 <= p <= 2048,
            ;
        }
        Some((FRACTION + fraction) * p)
    } else {
        let p: u64 = power_of_two(1075 - exponent);
        proof {
            power2::lemma_pow2_pos((1075 - exponent) as nat);
            assert(0 <= (FRACTION + fraction) / (p as int) <= FRACTION + fraction) by (nonlinear_arith)
                requires
                    p > 0,
                    fraction >= 0,
            ;
        }
        Some((FRACTION + fraction) / p)
    }
}

/// A number as a whole number that is not negative.
pub fn to_whole(n: Number) -> (r: Option<u64>)
    ensures
        r == whole_number(n),
{
    match n {
        Number::Unsigned(u) => Some(u),
        Number::Signed(i) => if i >= 0 {
            Some(i as u64)
        } else {
            None
        },
        Number::Double(bits) => cut_double(bits),
        Number::Single(_) => None,
    }
}

// ---------------------------------------------------------------- building

/// Adds a field to the fields of an object.
pub fn put(fields: &mut Vec<(String, Json)>, name: &str, value: Json)
    ensures
        fields_view(final(fields)@) == fields_view(old(fields)@).push((name@, value@)),
{
    let key = text::owned(name);
    fields.push((key, value));
    assert(fields@.drop_last() =~= old(fields)@);
}

/// A JSON string.
pub fn text_json(s: &str) -> (r: Json)
    ensures
        r@ == JsonView::Text(s@),
{
    Json::Text(text::owned(s))
}

/// A list of JSON strings.
pub fn texts_json(v: &Vec<String>) -> (r: Json)
    ensures
        r@ == texts_view(text::views(v@)),
{
    let mut items: Vec<Json> = Vec::new();
    let mut i: usize = 0;
    let ghost all = text::views(v@);
    assert(list_view(items@) =~= all.take(0).map_values(|s: Seq<char>| JsonView::Text(s)));
    while i < v.len()
        invariant
            i <= v@.len(),
            all == text::views(v@),
            list_view(items@) == all.take(i as int).map_values(|s: Seq<char>| JsonView::Text(s)),
        decreases v@.len() - i,
    {
        let x = text_json(v[i].as_str());
        proof {
            lemma_list_push(items@, x);
        }
        items.push(x);
        i = i + 1;
        assert(list_view(items@) =~= all.take(i as int).map_values(
            |s: Seq<char>| JsonView::Text(s),
        ));
    }
    assert(all.take(i as int) =~= all);
    Json::List(items)
}

/// The JSON list of the strings.
pub open spec fn texts_view(v: Seq<Seq<char>>) -> JsonView {
    JsonView::List(v.map_values(|s: Seq<char>| JsonView::Text(s)))
}

/// A JSON string, or null where there is none.
pub open spec fn opt_text_view(o: Option<Seq<char>>) -> JsonView {
    match o {
        Some(s) => JsonView::Text(s),
        None => JsonView::Null,
    }
}

/// A JSON string, or null where there is none.
pub fn opt_text_json(o: Option<&str>) -> (r: Json)
    ensures
        r@ == opt_text_view(text::opt_str(o)),
{
    match o {
        Some(s) => text_json(s),
        None => Json::Null,
    }
}

/// A JSON number, or null where there is none.
pub open spec fn opt_number_view(o: Option<u64>) -> JsonView {
    match o {
        Some(n) => JsonView::Number(Number::Unsigned(n)),
        None => JsonView::Null,
    }
}

/// A JSON number, or null where there is none.
pub fn opt_number_json(o: Option<u64>) -> (r: Json)
    ensures
        r@ == opt_number_view(o),
{
    match o {
        Some(n) => Json::Number(Number::Unsigned(n)),
        None => Json::Null,
    }
}

/// A JSON number.
pub open spec fn number_view(n: u64) -> JsonView {
    JsonView::Number(Number::Unsigned(n))
}

/// A type whose values are sent as JSON.
pub trait Shown: Sized {
    /// What is sent.
    spec fn shown(self) -> JsonView;

    /// What is sent.
    fn to_json(&self) -> (r: Json)
        ensures
            r@ == self.shown(),
    ;
}

/// A list of values that are sent.
pub open spec fn shown_list<T: Shown>(v: Seq<T>) -> JsonView {
    JsonView::List(v.map_values(|x: T| x.shown()))
}

/// A JSON list of values.
pub fn list_json<T: Shown>(v: &Vec<T>) -> (r: Json)
    ensures
        r@ == shown_list(v@),
{
    let ghost f = |x: T| x.shown();
    let ghost all = v@.map_values(f);
    let mut items: Vec<Json> = Vec::new();
    let mut i: usize = 0;
    assert(list_view(items@) =~= all.take(0));
    while i < v.len()
        invariant
            i <= v@.len(),
            f == (|x: T| x.shown()),
            all == v@.map_values(f),
            list_view(items@) == all.take(i as int),
        decreases v@.len() - i,
    {
        let j = v[i].to_json();
        proof {
            lemma_list_push(items@, j);
        }
        items.push(j);
        i = i + 1;
        assert(all.take(i as int) =~= all.take(i - 1).push(all[i - 1]));
    }
    assert(all.take(i as int) =~= all);
    Json::List(items)
}

// ---------------------------------------------------------------- parsing

/// The parser's own value type.
#[verifier::external_type_specification]
#[verifier::external_body]
pub struct ExValue(serde_json::Value);

/// What a `serde_json::Value` holds.
pub uninterp spec fn contents(v: serde_json::Value) -> JsonView;

/// What `serde_json::from_str` makes of a text: the value that it holds, or the
/// message of the error. Of a field that an object repeats, the value holds the last.
pub uninterp spec fn parsed(text: Seq<char>) -> Result<JsonView, Seq<char>>;

/// One level of a parsed value.
pub enum Level {
    Null,
    Bool(bool),
    Number(Number),
    Text(String),
    List(Vec<serde_json::Value>),
    Object(Vec<(String, serde_json::Value)>),
}

/// The JSON value that one level and the values below it make.
pub open spec fn level_view(l: Level) -> JsonView {
    match l {
        Level::Null => JsonView::Null,
        Level::Bool(b) => JsonView::Bool(b),
        Level::Number(n) => JsonView::Number(n),
        Level::Text(s) => JsonView::Text(s@),
        Level::List(items) => JsonView::List(
            items@.map_values(|v: serde_json::Value| contents(v)),
        ),
        Level::Object(fields) => JsonView::Object(
            fields@.map_values(|f: (String, serde_json::Value)| (f.0@, contents(f.1))),
        ),
    }
}

/// Opens a `serde_json::Value` one level deep: its variant and the values below it,
/// in order, numbers as the integer or the bits of the double that they hold.
#[verifier::external_body]
fn open_value(v: serde_json::Value) -> (r: Level)
    ensures
        level_view(r) == contents(v),
{
    match v {
        serde_json::Value::Null => Level::Null,
        serde_json::Value::Bool(b) => Level::Bool(b),
        serde_json::Value::Number(n) => Level::Number(match (n.as_u64(), n.as_i64()) {
            (Some(u), _) => Number::Unsigned(u),
            (_, Some(i)) => Number::Signed(i),
            _ => Number::Double(n.as_f64().map_or(0, |d| d.to_bits())),
        }),
        serde_json::Value::String(s) => Level::Text(s),
        serde_json::Value::Array(items) => Level::List(items),
        serde_json::Value::Object(fields) => Level::Object(fields.into_iter().collect()),
    }
}

/// Parses `text` with `serde_json::from_str`; an error is given by its message.
#[verifier::external_body]
fn parse_value(text: &str) -> (r: Result<serde_json::Value, String>)
    ensures
        match r {
            Ok(v) => parsed(text@) == Ok::<JsonView, Seq<char>>(contents(v)),
            Err(e) => parsed(text@) == Err::<JsonView, Seq<char>>(e@),
        },
{
    serde_json::from_str::<serde_json::Value>(text).map_err(|e| e.to_string())
}

/// The JSON value that the parser's value holds.
fn json_of(v: serde_json::Value) -> (r: Json)
    ensures
        r@ == contents(v),
    decreases contents(v),
{
    let ghost whole = contents(v);
    match open_value(v) {
        Level::Null => Json::Null,
        Level::Bool(b) => Json::Bool(b),
        Level::Number(n) => Json::Number(n),
        Level::Text(s) => Json::Text(s),
        Level::List(items) => {
            let ghost values = items@;
            let ghost all = values.map_values(|v: serde_json::Value| contents(v));
            let mut out: Vec<Json> = Vec::new();
            assert(list_view(out@) =~= all.take(0));
            for x in it: items.into_iter()
                invariant
                    whole == contents(v),
                    whole == JsonView::List(all),
                    it.seq() == values,
                    all == values.map_values(|v: serde_json::Value| contents(v)),
                    list_view(out@) == all.take(it.index() as int),
            {
                let ghost k: int = it.index() as int;
                assert(all[k] == contents(x));
                assert(decreases_to!(whole => whole->List_0));
                assert(decreases_to!(all => all[k]));
                let j = json_of(x);
                proof {
                    lemma_list_push(out@, j);
                }
                out.push(j);
                assert(list_view(out@) =~= all.take(k + 1));
            }
            assert(all.take(all.len() as int) =~= all);
            Json::List(out)
        },
        Level::Object(fields) => {
            let ghost pairs = fields@;
            let ghost all = pairs.map_values(
                |f: (String, serde_json::Value)| (f.0@, contents(f.1)),
            );
            let mut out: Vec<(String, Json)> = Vec::new();
            assert(fields_view(out@) =~= all.take(0));
            for field in it: fields.into_iter()
                invariant
                    whole == contents(v),
                    whole == JsonView::Object(all),
                    it.seq() == pairs,
                    all == pairs.map_values(
                        |f: (String, serde_json::Value)| (f.0@, contents(f.1)),
                    ),
                    fields_view(out@) == all.take(it.index() as int),
            {
                let ghost k: int = it.index() as int;
                let (name, x) = field;
                assert(all[k] == (name@, contents(x)));
                assert(decreases_to!(whole => whole->Object_0));
                assert(decreases_to!(all => all[k]));
                assert(decreases_to!(all[k] => all[k].1));
                let j = json_of(x);
                put(&mut out, name.as_str(), j);
                assert(fields_view(out@) =~= all.take(k + 1));
            }
            assert(all.take(all.len() as int) =~= all);
            Json::Object(out)
        },
    }
}

/// Parses a JSON text.
pub fn parse(text: &str) -> (r: Result<Json, String>)
    ensures
        match r {
            Ok(j) => parsed(text@) == Ok::<JsonView, Seq<char>>(j@),
            Err(e) => parsed(text@) == Err::<JsonView, Seq<char>>(e@),
        },
{
    match parse_value(text) {
        Ok(v) => Ok(json_of(v)),
        Err(e) => Err(e),
    }
}

/// A whole number that is written without a sign, or with one, is that number, unless it is
/// negative. One written with a fraction or an exponent counts as the whole number below it: the
/// bits of its fraction, with the leading one before them, stand for between that number and the
/// next, each times the power of two that its exponent leaves. What is below one is zero, what is
/// too large is the largest there is, and what is negative is none.
pub proof fn numbers_are_cut_to_whole_ones(u: u64, i: i64, bits: u64)
    ensures
        whole_number(Number::Unsigned(u)) == Some(u),
        i >= 0 ==> whole_number(Number::Signed(i)) == Some(i as u64),
        i < 0 ==> whole_number(Number::Signed(i)) is None,
        bits > 0x8000_0000_0000_0000 ==> whole_number(Number::Double(bits)) is None,
        bits < 1023 * 0x10_0000_0000_0000 ==> whole_number(Number::Double(bits)) == Some(0u64),
        1023 * 0x10_0000_0000_0000 <= bits < 1075 * 0x10_0000_0000_0000 ==> ({
            let whole = whole_number(Number::Double(bits))->0 as int;
            let exponent = bits as int / 0x10_0000_0000_0000;
            let digits = 0x10_0000_0000_0000 + bits as int % 0x10_0000_0000_0000;
            let unit = power2::pow2((1075 - exponent) as nat) as int;
            whole_number(Number::Double(bits)) is Some && whole * unit <= digits < (whole + 1) * unit
        }),
        1087 * 0x10_0000_0000_0000 <= bits <= 2047 * 0x10_0000_0000_0000 ==> whole_number(
            Number::Double(bits),
        ) == Some(u64::MAX),
{
    if 1023 * 0x10_0000_0000_0000 <= bits < 1075 * 0x10_0000_0000_0000 {
        let exponent = bits as int / 0x10_0000_0000_0000;
        let digits = 0x10_0000_0000_0000 + bits as int % 0x10_0000_0000_0000;
        let unit = power2::pow2((1075 - exponent) as nat) as int;
        assert(1023 <= exponent < 1075);
        assert((bits / FRACTION) % 2048 == exponent);
        power2::lemma_pow2_pos((1075 - exponent) as nat);
        vstd::arithmetic::div_mod::lemma_fundamental_div_mod(digits, unit);
        vstd::arithmetic::div_mod::lemma_mod_bound(digits, unit);
        vstd::arithmetic::div_mod::lemma_div_is_ordered_by_denominator(digits, 1, unit);
        let whole = digits / unit;
        assert(0 <= whole <= digits) by (nonlinear_arith)
            requires
                whole == digits / unit,
                unit > 0,
                digits >= 0,
        ;
        assert(whole * unit <= digits < (whole + 1) * unit) by (nonlinear_arith)
            requires
                digits == unit * whole + digits % unit,
                0 <= digits % unit < unit,
        ;
    }
}

/// Optional values are shown as what they hold, or as null; lists item by item.
pub proof fn values_are_shown_as_they_are(n: u64, s: Seq<char>, v: Seq<Seq<char>>, i: int)
    requires
        0 <= i < v.len(),
    ensures
        number_view(n) == JsonView::Number(Number::Unsigned(n)),
        opt_number_view(Some(n)) == number_view(n),
        opt_number_view(None) == JsonView::Null,
        opt_text_view(Some(s)) == JsonView::Text(s),
        opt_text_view(None) == JsonView::Null,
        texts_view(v) matches JsonView::List(items) && items.len() == v.len() && items[i]
            == JsonView::Text(v[i]),
{
}

/// A list of things is shown thing by thing, in their order.
pub proof fn lists_are_shown_in_order<T: Shown>(v: Seq<T>, i: int)
    requires
        0 <= i < v.len(),
    ensures
        shown_list(v) matches JsonView::List(items) && items.len() == v.len() && items[i]
            == v[i].shown(),
{
}

} // verus!
