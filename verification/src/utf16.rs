//! UTF-16: code units of a string, and the string of code units.
use vstd::prelude::*;

verus! {

/// `char::from_u32` gives the character with that scalar value, where there is one.
pub assume_specification[ char::from_u32 ](v: u32) -> (r: Option<char>)
    ensures
        match r {
            Some(c) => c as u32 == v && c == v as char,
            None => 0xD800 <= v < 0xE000 || v > 0x10FFFF,
        },
;

/// The code units of one character.
pub open spec fn units_of_char(c: char) -> Seq<u16> {
    let v = c as int;
    if v < 0x10000 {
        seq![v as u16]
    } else {
        seq![(0xD800 + (v - 0x10000) / 0x400) as u16, (0xDC00 + (v - 0x10000) % 0x400) as u16]
    }
}

/// The code units of a string.
pub open spec fn encoded(s: Seq<char>) -> Seq<u16>
    decreases s.len(),
{
    if s.len() == 0 {
        Seq::empty()
    } else {
        encoded(s.drop_last()) + units_of_char(s.last())
    }
}

pub open spec fn is_high(u: u16) -> bool {
    0xD800 <= u < 0xDC00
}

pub open spec fn is_low(u: u16) -> bool {
    0xDC00 <= u < 0xE000
}

/// The character that a surrogate pair stands for.
pub open spec fn pair(high: u16, low: u16) -> char {
    (0x10000 + (high - 0xD800) * 0x400 + (low - 0xDC00)) as char
}

/// The string of code units; a surrogate without its partner becomes U+FFFD.
pub open spec fn decoded(u: Seq<u16>) -> Seq<char>
    decreases u.len(),
{
    if u.len() == 0 {
        Seq::empty()
    } else if !is_high(u[0]) && !is_low(u[0]) {
        seq![u[0] as char] + decoded(u.skip(1))
    } else if is_high(u[0]) && u.len() > 1 && is_low(u[1]) {
        seq![pair(u[0], u[1])] + decoded(u.skip(2))
    } else {
        seq!['\u{fffd}'] + decoded(u.skip(1))
    }
}

/// Appends the code units of `c`.
pub fn push_units(out: &mut Vec<u16>, c: char)
    ensures
        final(out)@ == old(out)@ + units_of_char(c),
{
    let v: u32 = c as u32;
    if v < 0x10000 {
        out.push(v as u16);
    } else {
        out.push((0xD800 + (v - 0x10000) / 0x400) as u16);
        out.push((0xDC00 + (v - 0x10000) % 0x400) as u16);
    }
    assert(out@ =~= old(out)@ + units_of_char(c));
}

/// The code units of `s`.
pub fn encode(s: &str) -> (r: Vec<u16>)
    ensures
        r@ == encoded(s@),
{
    let mut out: Vec<u16> = Vec::new();
    for c in it: s.chars()
        invariant
            out@ == encoded(it.seq().take(it.index() as int)),
            it.seq() == s@,
    {
        push_units(&mut out, c);
        assert(it.seq().take(it.index() + 1).drop_last() =~= it.seq().take(it.index() as int));
    }
    assert(s@.take(s@.len() as int) =~= s@);
    out
}

/// The string of code units.
pub fn decode(u: &[u16]) -> (r: String)
    ensures
        r@ == decoded(u@),
{
    let mut out = String::new();
    let mut i: usize = 0;
    assert(u@.skip(0) =~= u@);
    while i < u.len()
        invariant
            i <= u@.len(),
            decoded(u@) == out@ + decoded(u@.skip(i as int)),
        decreases u@.len() - i,
    {
        let ghost before = out@;
        let ghost rest = u@.skip(i as int);
        let a: u16 = u[i];
        if a < 0xD800 || a >= 0xE000 {
            let c: Option<char> = char::from_u32(a as u32);
            assert(rest.skip(1) =~= u@.skip(i + 1));
            match c {
                Some(c) => {
                    assert(c == rest[0] as char);
                    out.push(c);
                },
                None => {},
            }
            assert(out@ + decoded(u@.skip(i + 1)) =~= before + decoded(rest));
            i = i + 1;
        } else if a < 0xDC00 && i + 1 < u.len() && 0xDC00 <= u[i + 1] && u[i + 1] < 0xE000 {
            let v: u32 = 0x10000 + (a as u32 - 0xD800) * 0x400 + (u[i + 1] as u32 - 0xDC00);
            assert(rest.skip(2) =~= u@.skip(i + 2));
            match char::from_u32(v) {
                Some(c) => {
                    assert(c == pair(rest[0], rest[1]));
                    out.push(c);
                },
                None => {},
            }
            assert(out@ + decoded(u@.skip(i + 2)) =~= before + decoded(rest));
            i = i + 2;
        } else {
            assert(rest.skip(1) =~= u@.skip(i + 1));
            out.push('\u{fffd}');
            assert(out@ + decoded(u@.skip(i + 1)) =~= before + decoded(rest));
            i = i + 1;
        }
    }
    assert(u@.skip(i as int) =~= Seq::empty());
    out
}

/// Every character is a Unicode scalar value.
pub proof fn lemma_scalar_value(c: char)
    ensures
        0 <= (c as int) <= 0x10FFFF,
        !(0xD800 <= (c as int) < 0xE000),
{
}

/// The code units of the first character come first.
proof fn lemma_encoded_front(s: Seq<char>)
    requires
        s.len() > 0,
    ensures
        encoded(s) == units_of_char(s[0]) + encoded(s.drop_first()),
    decreases s.len(),
{
    let t = s.drop_first();
    if s.len() == 1 {
        assert(encoded(s.drop_last()) =~= Seq::empty());
        assert(encoded(t) =~= Seq::empty());
        assert(encoded(s) =~= units_of_char(s[0]) + encoded(t));
    } else {
        lemma_encoded_front(s.drop_last());
        assert(s.drop_last().drop_first() =~= t.drop_last());
        assert(encoded(s) =~= units_of_char(s[0]) + (encoded(t.drop_last()) + units_of_char(
            t.last(),
        )));
    }
}

/// Decoding the code units of a string gives the string back.
pub proof fn decoding_undoes_encoding(s: Seq<char>)
    ensures
        decoded(encoded(s)) == s,
    decreases s.len(),
{
    if s.len() > 0 {
        let c = s[0];
        let rest = encoded(s.drop_first());
        lemma_encoded_front(s);
        decoding_undoes_encoding(s.drop_first());
        let u = units_of_char(c) + rest;
        let v = c as int;
        lemma_scalar_value(c);
        if v < 0x10000 {
            assert(u[0] == v as u16);
            assert(u.skip(1) =~= rest);
            assert(decoded(u) == seq![u[0] as char] + decoded(rest));
        } else {
            assert(u[0] == (0xD800 + (v - 0x10000) / 0x400) as u16);
            assert(u[1] == (0xDC00 + (v - 0x10000) % 0x400) as u16);
            assert(u.skip(2) =~= rest);
            assert(u[0] - 0xD800 == (v - 0x10000) / 0x400);
            assert(u[1] - 0xDC00 == (v - 0x10000) % 0x400);
            assert(pair(u[0], u[1]) == c);
        }
        assert(decoded(u) =~= seq![c] + s.drop_first());
        assert(seq![c] + s.drop_first() =~= s);
    }
}

/// The code units of two texts, one behind the other, are those of the first and then those of
/// the second.
pub proof fn units_follow_the_text(s: Seq<char>, t: Seq<char>)
    ensures
        encoded(Seq::empty()).len() == 0,
        encoded(s + t) == encoded(s) + encoded(t),
    decreases t.len(),
{
    if t.len() == 0 {
        assert(s + t =~= s);
        assert(encoded(s) + encoded(t) =~= encoded(s));
    } else {
        units_follow_the_text(s, t.drop_last());
        assert((s + t).drop_last() =~= s + t.drop_last());
        assert(encoded(s + t) =~= encoded(s) + encoded(t));
    }
}

/// A text whose characters all lie below 0x10000 has one code unit for each, the character's
/// own number. A character above has two: the first lies from 0xD800 and holds what is above
/// the lowest ten bits of what exceeds 0x10000, the second lies from 0xDC00 and holds those.
pub proof fn units_are_the_numbers_of_the_characters(s: Seq<char>, c: char)
    ensures
        (forall|i: int| 0 <= i < s.len() ==> (#[trigger] s[i]) as int <= 0xFFFF) ==> encoded(
            s,
        ).len() == s.len() && (forall|i: int|
            0 <= i < s.len() ==> (#[trigger] encoded(s)[i]) as int == s[i] as int),
        c as int >= 0x10000 ==> encoded(seq![c]).len() == 2 && 0xD800 <= encoded(seq![c])[0]
            < 0xDC00 && 0xDC00 <= encoded(seq![c])[1] < 0xE000 && c as int == 0x10000 + 0x400 * (
        encoded(seq![c])[0] - 0xD800) + (encoded(seq![c])[1] - 0xDC00),
    decreases s.len(),
{
    lemma_scalar_value(c);
    reveal_with_fuel(encoded, 2);
    assert(seq![c].drop_last() =~= Seq::empty());
    assert(encoded(seq![c]) =~= units_of_char(c));
    if s.len() > 0 {
        let front = s.drop_last();
        units_are_the_numbers_of_the_characters(front, c);
        if forall|i: int| 0 <= i < s.len() ==> (#[trigger] s[i]) as int <= 0xFFFF {
            assert forall|i: int| 0 <= i < front.len() implies (#[trigger] front[i]) as int
                <= 0xFFFF by {
                assert(front[i] == s[i]);
            }
            assert(s[s.len() - 1] == s.last());
            assert(s.last() as int <= 0xFFFF);
            assert(encoded(front).len() == front.len());
            assert forall|i: int| 0 <= i < s.len() implies (#[trigger] encoded(s)[i]) as int
                == s[i] as int by {
                if i < front.len() {
                    assert(encoded(s)[i] == encoded(front)[i]);
                    assert(front[i] == s[i]);
                } else {
                    lemma_scalar_value(s[i]);
                    assert(units_of_char(s[i]) =~= seq![s[i] as int as u16]);
                    assert(encoded(s)[i] == units_of_char(s[i])[0]);
                }
            }
        }
    }
}

/// A unit that is no surrogate stands for the character of its number; a surrogate without its
/// partner stands for U+FFFD, and what follows is read on its own.
pub proof fn lone_surrogates_are_replaced(u: u16, rest: Seq<u16>)
    requires
        rest.len() == 0 || !(0xDC00 <= rest[0] <= 0xDFFF),
    ensures
        0xD800 <= u <= 0xDFFF ==> decoded(seq![u] + rest) == seq![0xFFFDu32 as char] + decoded(rest),
        !(0xD800 <= u <= 0xDFFF) ==> decoded(seq![u] + rest) == seq![u as char] + decoded(rest),
{
    let all = seq![u] + rest;
    assert(all.skip(1) =~= rest);
    assert(all[0] == u);
    if rest.len() > 0 {
        assert(all[1] == rest[0]);
    }
}

} // verus!
