//! Reading JSON with every field of an object, also those that it repeats.
//!
//! The parser keeps one field of each name. So each string of the text is numbered before it is
//! parsed, by which no two names are the same, and the numbers are taken off what was parsed.
use crate::json;
use crate::json::Json;
use crate::text;
use vstd::prelude::*;
use vstd::slice::slice_subrange;

verus! {

/// How many characters a number has.
pub const WIDTH: usize = 16;

/// A text up to some place: with its strings numbered, and whether that place is inside a
/// string, there behind a backslash.
#[verifier::ext_equal]
pub struct Numbered {
    pub text: Seq<char>,
    pub inside: bool,
    pub escaped: bool,
}

/// A text with each of its strings numbered: behind the quote that opens a string stands the
/// place of that quote.
pub open spec fn numbered(s: Seq<char>) -> Numbered
    decreases s.len(),
{
    if s.len() == 0 {
        Numbered { text: Seq::empty(), inside: false, escaped: false }
    } else {
        let before = numbered(s.drop_last());
        let c = s.last();
        if before.inside {
            Numbered {
                text: before.text.push(c),
                inside: before.escaped || c != '"',
                escaped: !before.escaped && c == '\\',
            }
        } else if c == '"' {
            Numbered {
                text: before.text.push(c) + text::hex((s.len() - 1) as nat, WIDTH as nat),
                inside: true,
                escaped: false,
            }
        } else {
            Numbered { text: before.text.push(c), inside: false, escaped: false }
        }
    }
}

/// A text with each of its strings numbered.
fn number(s: &str) -> (r: String)
    ensures
        r@ == numbered(s@).text,
{
    let chars = text::chars_of(s);
    let ghost all = s@;
    let mut out = String::new();
    let mut inside = false;
    let mut escaped = false;
    let mut i: usize = 0;
    assert(all.take(0) =~= Seq::empty());
    assert(out@ =~= Seq::empty());
    while i < chars.len()
        invariant
            i <= chars@.len(),
            chars@ == all,
            (Numbered { text: out@, inside, escaped }) == numbered(all.take(i as int)),
        decreases chars@.len() - i,
    {
        assert(all.take(i + 1).drop_last() =~= all.take(i as int));
        assert(all.take(i + 1).last() == all[i as int]);
        let c = chars[i];
        out.push(c);
        if inside {
            inside = escaped || c != '"';
            escaped = !escaped && c == '\\';
        } else if c == '"' {
            text::push_hex(&mut out, i as u64, WIDTH);
            inside = true;
        }
        i = i + 1;
    }
    assert(all.take(i as int) =~= all);
    out
}

/// A string without its number.
pub open spec fn bare_text(s: Seq<char>) -> Seq<char> {
    if s.len() >= WIDTH {
        s.skip(WIDTH as int)
    } else {
        Seq::empty()
    }
}

/// A value without the numbers of its strings.
pub open spec fn bare(v: json::JsonView) -> json::JsonView
    decreases v,
{
    match v {
        json::JsonView::Text(s) => json::JsonView::Text(bare_text(s)),
        json::JsonView::List(items) => json::JsonView::List(bare_items(items)),
        json::JsonView::Object(fields) => json::JsonView::Object(bare_fields(fields)),
        _ => v,
    }
}

/// Values without the numbers of their strings.
pub open spec fn bare_items(items: Seq<json::JsonView>) -> Seq<json::JsonView>
    decreases items,
{
    if items.len() == 0 {
        Seq::empty()
    } else {
        bare_items(items.drop_last()).push(bare(items.last()))
    }
}

/// Fields without the numbers of their strings.
pub open spec fn bare_fields(fields: Seq<(Seq<char>, json::JsonView)>) -> Seq<
    (Seq<char>, json::JsonView),
>
    decreases fields,
{
    if fields.len() == 0 {
        Seq::empty()
    } else {
        bare_fields(fields.drop_last()).push((bare_text(fields.last().0), bare(fields.last().1)))
    }
}

fn strip_text(s: &str) -> (r: String)
    ensures
        r@ == bare_text(s@),
{
    let chars = text::chars_of(s);
    let n: usize = chars.len();
    if n < WIDTH {
        return String::new();
    }
    assert(chars@.subrange(WIDTH as int, n as int) =~= s@.skip(WIDTH as int));
    text::string_of(slice_subrange(chars.as_slice(), WIDTH, n))
}

/// A value without the numbers of its strings.
fn strip(v: &Json) -> (r: Json)
    ensures
        r@ == bare(v@),
    decreases *v,
{
    match v {
        Json::Null => Json::Null,
        Json::Bool(b) => Json::Bool(*b),
        Json::Number(n) => Json::Number(*n),
        Json::Text(s) => Json::Text(strip_text(s.as_str())),
        Json::List(items) => {
            let ghost all = json::list_view(items@);
            let mut out: Vec<Json> = Vec::new();
            let mut i: usize = 0;
            proof {
                json::lemma_list_view(items@);
            }
            assert(all.take(0) =~= Seq::empty());
            while i < items.len()
                invariant
                    i <= items@.len() == all.len(),
                    *v == Json::List(*items),
                    forall|k: int|
                        0 <= k < items@.len() ==> all[k] == json::json_view(#[trigger] items@[k]),
                    json::list_view(out@) == bare_items(all.take(i as int)),
                decreases items@.len() - i,
            {
                assert(all.take(i + 1).drop_last() =~= all.take(i as int));
                assert(all.take(i + 1).last() == items@[i as int]@);
                assert(decreases_to!(*v => v->List_0));
                assert(decreases_to!(items@ => items@[i as int]));
                let j = strip(&items[i]);
                proof {
                    json::lemma_list_push(out@, j);
                }
                out.push(j);
                i = i + 1;
            }
            assert(all.take(i as int) =~= all);
            Json::List(out)
        },
        Json::Object(fields) => {
            let ghost all = json::fields_view(fields@);
            let mut out: Vec<(String, Json)> = Vec::new();
            let mut i: usize = 0;
            proof {
                json::lemma_fields_view(fields@);
            }
            assert(all.take(0) =~= Seq::empty());
            while i < fields.len()
                invariant
                    i <= fields@.len() == all.len(),
                    *v == Json::Object(*fields),
                    forall|k: int|
                        0 <= k < fields@.len() ==> all[k] == (
                            (#[trigger] fields@[k]).0@,
                            json::json_view(fields@[k].1),
                        ),
                    json::fields_view(out@) == bare_fields(all.take(i as int)),
                decreases fields@.len() - i,
            {
                assert(all.take(i + 1).drop_last() =~= all.take(i as int));
                assert(all.take(i + 1).last() == all[i as int]);
                assert(fields@[i as int].1@ == all[i as int].1);
                assert(decreases_to!(*v => v->Object_0));
                assert(decreases_to!(fields@ => fields@[i as int]));
                assert(decreases_to!(fields@[i as int] => fields@[i as int].1));
                let name = strip_text(fields[i].0.as_str());
                let j = strip(&fields[i].1);
                json::put(&mut out, name.as_str(), j);
                i = i + 1;
            }
            assert(all.take(i as int) =~= all);
            Json::Object(out)
        },
    }
}

/// Two strings with different numbers differ, whatever is in them.
pub proof fn numbered_names_differ(a: u64, b: u64, s: Seq<char>, t: Seq<char>)
    requires
        a != b,
    ensures
        text::hex(a as nat, WIDTH as nat) + s != text::hex(b as nat, WIDTH as nat) + t,
{
    let x = text::hex(a as nat, WIDTH as nat);
    let y = text::hex(b as nat, WIDTH as nat);
    text::lemma_hex_len(a as nat, WIDTH as nat);
    text::lemma_hex_len(b as nat, WIDTH as nat);
    if x + s == y + t {
        assert((x + s).take(WIDTH as int) =~= x);
        assert((y + t).take(WIDTH as int) =~= y);
        reveal_with_fuel(text::sixteen_to, 17);
        assert(text::sixteen_to(WIDTH as nat) == 0x1_0000_0000_0000_0000);
        text::lemma_hex_injective(a as nat, b as nat, WIDTH as nat);
    }
}

/// Taking the number off a string leaves what was in it.
pub proof fn numbers_come_off(n: u64, s: Seq<char>)
    ensures
        bare_text(text::hex(n as nat, WIDTH as nat) + s) == s,
{
    text::lemma_hex_len(n as nat, WIDTH as nat);
    assert(bare_text(text::hex(n as nat, WIDTH as nat) + s) =~= s);
}

/// What a text holds, with every field of its objects; or the message of the error. What the
/// parser cannot hold (a number too large for a double, half of a surrogate pair, too deep a
/// nesting) is an error wherever it stands, also in a field that nothing reads.
pub open spec fn every_field(s: Seq<char>) -> Result<json::JsonView, Seq<char>> {
    match json::parsed(s) {
        Ok(_) => match json::parsed(numbered(s).text) {
            Ok(v) => Ok(bare(v)),
            Err(e) => Err(e),
        },
        Err(e) => Err(e),
    }
}

/// Parses a JSON text, and keeps every field of its objects.
pub fn parse(s: &str) -> (r: Result<Json, String>)
    ensures
        match r {
            Ok(j) => every_field(s@) == Ok::<json::JsonView, Seq<char>>(j@),
            Err(e) => every_field(s@) == Err::<json::JsonView, Seq<char>>(e@),
        },
{
    match json::parse(s) {
        Ok(_) => {
            let all = number(s);
            match json::parse(all.as_str()) {
                Ok(v) => Ok(strip(&v)),
                Err(e) => Err(e),
            }
        },
        Err(e) => Err(e),
    }
}

/// Outside of strings nothing is changed: a text without a quotation mark stays as it is.
pub proof fn only_strings_are_numbered(s: Seq<char>)
    requires
        !s.contains('"'),
    ensures
        numbered(s).text == s,
        !numbered(s).inside,
    decreases s.len(),
{
    if s.len() > 0 {
        let front = s.drop_last();
        assert(s.contains(s.last()));
        assert forall|c: char| front.contains(c) implies s.contains(c) by {
            let k = choose|k: int| 0 <= k < front.len() && front[k] == c;
            assert(s[k] == c);
        }
        only_strings_are_numbered(front);
        assert(numbered(s).text =~= s);
    } else {
        assert(s =~= Seq::empty());
    }
}

/// A string gets its number right behind its opening quotation mark, and its contents stay as they
/// are; behind its closing quotation mark the text goes on as before.
pub proof fn strings_keep_their_contents(before: Seq<char>, inner: Seq<char>)
    requires
        !before.contains('"'),
        !inner.contains('"'),
        !inner.contains('\\'),
    ensures
        numbered(before.push('"') + inner).text == before.push('"') + text::hex(
            before.len(),
            16,
        ) + inner,
        numbered(before.push('"') + inner).inside,
        !numbered((before.push('"') + inner).push('"')).inside,
    decreases inner.len(),
{
    let s = before.push('"') + inner;
    assert(s.push('"').drop_last() =~= s);
    if inner.len() == 0 {
        assert(s =~= before.push('"'));
        assert(s.drop_last() =~= before);
        only_strings_are_numbered(before);
        assert(numbered(s).text =~= before.push('"') + text::hex(before.len(), 16) + inner);
    } else {
        let front = inner.drop_last();
        assert(inner.contains(inner.last()));
        assert forall|c: char| front.contains(c) implies inner.contains(c) by {
            let k = choose|k: int| 0 <= k < front.len() && front[k] == c;
            assert(inner[k] == c);
        }
        strings_keep_their_contents(before, front);
        lemma_not_escaped(before, front);
        assert(s.drop_last() =~= before.push('"') + front);
        assert(numbered(s).text =~= before.push('"') + text::hex(before.len(), 16) + inner);
    }
    lemma_not_escaped(before, inner);
}

proof fn lemma_not_escaped(before: Seq<char>, inner: Seq<char>)
    requires
        !before.contains('"'),
        !inner.contains('"'),
        !inner.contains('\\'),
    ensures
        !numbered(before.push('"') + inner).escaped,
        numbered(before.push('"') + inner).inside,
    decreases inner.len(),
{
    let s = before.push('"') + inner;
    if inner.len() == 0 {
        assert(s =~= before.push('"'));
        assert(s.drop_last() =~= before);
        only_strings_are_numbered(before);
    } else {
        let front = inner.drop_last();
        assert(inner.contains(inner.last()));
        assert forall|c: char| front.contains(c) implies inner.contains(c) by {
            let k = choose|k: int| 0 <= k < front.len() && front[k] == c;
            assert(inner[k] == c);
        }
        lemma_not_escaped(before, front);
        assert(s.drop_last() =~= before.push('"') + front);
    }
}

} // verus!
