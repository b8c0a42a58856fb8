//! Strings as sequences of characters: trimming, case, searching, splitting,
//! joining and numerals, each stated over `Seq<char>`.
use vstd::prelude::*;
use vstd::slice::slice_subrange;

verus! {

// ---------------------------------------------------------------- trusted std

/// `String::push` appends the one character that it is given.
pub assume_specification[ String::push ](s: &mut String, c: char)
    ensures
        final(s)@ == old(s)@.push(c),
;

/// What `char::is_alphanumeric` answers: the Unicode `Alphabetic` property or a
/// numeric general category.
pub uninterp spec fn alphanumeric(c: char) -> bool;

/// `char::is_alphanumeric`. The answer is named; for ASCII characters it is
/// spelled out: letters and digits only.
pub assume_specification[ char::is_alphanumeric ](c: char) -> (r: bool)
    ensures
        r == alphanumeric(c),
        (c as u32) < 128 ==> r == ascii_alphanumeric(c),
;

/// What `str::to_lowercase` makes of a string: the Unicode lowercase mapping.
pub uninterp spec fn lowercase(s: Seq<char>) -> Seq<char>;

/// `str::to_lowercase`. The result is named; on an ASCII string it is the ASCII
/// lowercase mapping, character by character.
pub assume_specification[ str::to_lowercase ](s: &str) -> (r: String)
    ensures
        r@ == lowercase(s@),
        (forall|i: int| 0 <= i < s@.len() ==> (#[trigger] s@[i] as u32) < 128) ==> r@ == ascii_lower(
            s@,
        ),
;

// ---------------------------------------------------------------- views

/// The contents of each string.
pub open spec fn views(v: Seq<String>) -> Seq<Seq<char>> {
    v.map_values(|s: String| s@)
}

/// The contents of each vector of characters.
pub open spec fn deep(v: Seq<Vec<char>>) -> Seq<Seq<char>> {
    v.map_values(|s: Vec<char>| s@)
}

/// The contents of an optional string.
pub open spec fn opt_view(o: Option<String>) -> Option<Seq<char>> {
    match o {
        Some(s) => Some(s@),
        None => None,
    }
}

/// The contents of an optional string slice.
pub open spec fn opt_str(o: Option<&str>) -> Option<Seq<char>> {
    match o {
        Some(s) => Some(s@),
        None => None,
    }
}

/// The characters of `s`.
pub fn chars_of(s: &str) -> (r: Vec<char>)
    ensures
        r@ == s@,
{
    let mut out: Vec<char> = Vec::new();
    for c in it: s.chars()
        invariant
            out@ == it.seq().take(it.index() as int),
            it.seq() == s@,
    {
        out.push(c);
    }
    out
}

/// The string made of `chars`.
pub fn string_of(chars: &[char]) -> (r: String)
    ensures
        r@ == chars@,
{
    let mut out = String::new();
    let mut i: usize = 0;
    while i < chars.len()
        invariant
            i <= chars@.len(),
            out@ == chars@.take(i as int),
        decreases chars@.len() - i,
    {
        out.push(chars[i]);
        i = i + 1;
        assert(chars@.take(i as int) == chars@.take(i - 1).push(chars@[i - 1]));
    }
    assert(chars@.take(i as int) == chars@);
    out
}

/// An owned copy of `s`.
pub fn owned(s: &str) -> (r: String)
    ensures
        r@ == s@,
{
    s.to_owned()
}

/// An owned copy of each string.
pub fn clone_strings(v: &Vec<String>) -> (r: Vec<String>)
    ensures
        views(r@) == views(v@),
{
    let mut out: Vec<String> = Vec::new();
    let mut i: usize = 0;
    while i < v.len()
        invariant
            i <= v@.len(),
            views(out@) == views(v@).take(i as int),
        decreases v@.len() - i,
    {
        let ghost o = out@;
        out.push(owned(v[i].as_str()));
        assert(views(out@) =~= views(o).push(v@[i as int]@));
        i = i + 1;
        assert(views(v@).take(i as int) =~= views(v@).take(i - 1).push(v@[i - 1]@));
    }
    assert(views(v@).take(i as int) =~= views(v@));
    out
}

/// Appends every character of `tail`.
pub fn extend(out: &mut Vec<char>, tail: &[char])
    ensures
        final(out)@ == old(out)@ + tail@,
{
    let mut i: usize = 0;
    while i < tail.len()
        invariant
            i <= tail@.len(),
            out@ == old(out)@ + tail@.take(i as int),
        decreases tail@.len() - i,
    {
        out.push(tail[i]);
        i = i + 1;
        assert(tail@.take(i as int) == tail@.take(i - 1).push(tail@[i - 1]));
        assert(out@ =~= old(out)@ + tail@.take(i as int));
    }
    assert(tail@.take(i as int) == tail@);
}

/// Whether two character sequences are equal.
pub fn same_chars(a: &[char], b: &[char]) -> (r: bool)
    ensures
        r == (a@ == b@),
{
    if a.len() != b.len() {
        return false;
    }
    let mut i: usize = 0;
    while i < a.len()
        invariant
            i <= a@.len() == b@.len(),
            forall|k: int| 0 <= k < i ==> a@[k] == b@[k],
        decreases a@.len() - i,
    {
        if a[i] != b[i] {
            return false;
        }
        i = i + 1;
    }
    assert(a@ =~= b@);
    true
}

/// Whether two strings are equal.
pub fn same(a: &str, b: &str) -> (r: bool)
    ensures
        r == (a@ == b@),
{
    let x = chars_of(a);
    let y = chars_of(b);
    same_chars(x.as_slice(), y.as_slice())
}

// ---------------------------------------------------------------- white space

/// The Unicode `White_Space` property.
pub open spec fn white_space(c: char) -> bool {
    ||| '\u{9}' <= c <= '\u{d}'
    ||| c == ' '
    ||| c == '\u{85}'
    ||| c == '\u{a0}'
    ||| c == '\u{1680}'
    ||| '\u{2000}' <= c <= '\u{200a}'
    ||| c == '\u{2028}'
    ||| c == '\u{2029}'
    ||| c == '\u{202f}'
    ||| c == '\u{205f}'
    ||| c == '\u{3000}'
}

/// Whether `c` is white space.
pub fn is_white_space(c: char) -> (r: bool)
    ensures
        r == white_space(c),
{
    ('\u{9}' <= c && c <= '\u{d}') || c == ' ' || c == '\u{85}' || c == '\u{a0}' || c == '\u{1680}'
        || ('\u{2000}' <= c && c <= '\u{200a}') || c == '\u{2028}' || c == '\u{2029}' || c
        == '\u{202f}' || c == '\u{205f}' || c == '\u{3000}'
}

/// `s` without its leading white space.
pub open spec fn trim_start(s: Seq<char>) -> Seq<char>
    decreases s.len(),
{
    if s.len() > 0 && white_space(s[0]) {
        trim_start(s.drop_first())
    } else {
        s
    }
}

/// `s` without its trailing white space.
pub open spec fn trim_end(s: Seq<char>) -> Seq<char>
    decreases s.len(),
{
    if s.len() > 0 && white_space(s.last()) {
        trim_end(s.drop_last())
    } else {
        s
    }
}

/// `s` without white space at either end.
pub open spec fn trimmed(s: Seq<char>) -> Seq<char> {
    trim_end(trim_start(s))
}

/// Nothing but white space.
pub open spec fn blank(s: Seq<char>) -> bool {
    trimmed(s).len() == 0
}

/// Trimming the end keeps a prefix that does not end in white space.
pub proof fn lemma_trim_end(s: Seq<char>)
    ensures
        trim_end(s).len() <= s.len(),
        trim_end(s) == s.take(trim_end(s).len() as int),
        trim_end(s).len() > 0 ==> !white_space(trim_end(s).last()),
        forall|i: int| trim_end(s).len() <= i < s.len() ==> white_space(#[trigger] s[i]),
    decreases s.len(),
{
    if s.len() > 0 && white_space(s.last()) {
        lemma_trim_end(s.drop_last());
        assert(trim_end(s) =~= s.take(trim_end(s).len() as int));
        assert forall|i: int| trim_end(s).len() <= i < s.len() implies white_space(
            #[trigger] s[i],
        ) by {
            if i < s.len() - 1 {
                assert(s.drop_last()[i] == s[i]);
            }
        }
    } else {
        assert(s =~= s.take(s.len() as int));
    }
}

/// Trimming the start keeps a suffix that does not begin with white space.
pub proof fn lemma_trim_start(s: Seq<char>)
    ensures
        trim_start(s).len() <= s.len(),
        trim_start(s) == s.skip(s.len() - trim_start(s).len()),
        trim_start(s).len() > 0 ==> !white_space(trim_start(s)[0]),
        forall|i: int| 0 <= i < s.len() - trim_start(s).len() ==> white_space(#[trigger] s[i]),
    decreases s.len(),
{
    if s.len() > 0 && white_space(s[0]) {
        lemma_trim_start(s.drop_first());
        assert(trim_start(s) =~= s.skip(s.len() - trim_start(s).len()));
        assert forall|i: int| 0 <= i < s.len() - trim_start(s).len() implies white_space(
            #[trigger] s[i],
        ) by {
            if i > 0 {
                assert(s.drop_first()[i - 1] == s[i]);
            }
        }
    } else {
        assert(s =~= s.skip(0));
    }
}

/// A trimmed string is a piece of the original that neither begins nor ends with
/// white space, and all that was cut off is white space.
pub proof fn trim_removes_only_outer_white_space(s: Seq<char>)
    ensures
        exists|a: int|
            {
                &&& 0 <= a
                &&& a + trimmed(s).len() <= s.len()
                &&& trimmed(s) == #[trigger] s.subrange(a, a + trimmed(s).len())
                &&& forall|i: int| 0 <= i < a ==> white_space(#[trigger] s[i])
                &&& forall|i: int|
                    a + trimmed(s).len() <= i < s.len() ==> white_space(#[trigger] s[i])
            },
        trimmed(s).len() > 0 ==> !white_space(trimmed(s)[0]) && !white_space(trimmed(s).last()),
{
    lemma_trim_start(s);
    let t = trim_start(s);
    lemma_trim_end(t);
    let a = s.len() - t.len();
    assert(trimmed(s) =~= s.subrange(a, a + trimmed(s).len()));
    assert forall|i: int| a + trimmed(s).len() <= i < s.len() implies white_space(
        #[trigger] s[i],
    ) by {
        assert(t[i - a] == s[i]);
    }
}

/// A string that neither begins nor ends with white space is left as it is.
pub proof fn lemma_trim_identity(s: Seq<char>)
    requires
        s.len() > 0 ==> !white_space(s[0]) && !white_space(s.last()),
    ensures
        trimmed(s) == s,
{
}

/// Trimming twice is trimming once.
pub proof fn trim_is_idempotent(s: Seq<char>)
    ensures
        trimmed(trimmed(s)) == trimmed(s),
{
    trim_removes_only_outer_white_space(s);
    lemma_trim_identity(trimmed(s));
}

/// A string is blank exactly when each of its characters is white space.
pub proof fn lemma_blank(s: Seq<char>)
    ensures
        blank(s) == forall|i: int| 0 <= i < s.len() ==> white_space(#[trigger] s[i]),
{
    trim_removes_only_outer_white_space(s);
    let a = choose|a: int|
        {
            &&& 0 <= a
            &&& a + trimmed(s).len() <= s.len()
            &&& trimmed(s) == #[trigger] s.subrange(a, a + trimmed(s).len())
            &&& forall|i: int| 0 <= i < a ==> white_space(#[trigger] s[i])
            &&& forall|i: int| a + trimmed(s).len() <= i < s.len() ==> white_space(#[trigger] s[i])
        };
    if trimmed(s).len() > 0 {
        assert(trimmed(s)[0] == s[a]);
    }
}

/// The characters of `v` without white space at either end.
pub fn trim_chars(v: &[char]) -> (r: &[char])
    ensures
        r@ == trimmed(v@),
{
    let n: usize = v.len();
    let mut a: usize = 0;
    assert(v@.skip(0) =~= v@);
    while a < n && is_white_space(v[a])
        invariant
            a <= n == v@.len(),
            trim_start(v@) == trim_start(v@.skip(a as int)),
        decreases n - a,
    {
        assert(v@.skip(a as int).drop_first() =~= v@.skip(a + 1));
        a = a + 1;
    }
    let mut b: usize = n;
    assert(v@.subrange(a as int, n as int) =~= v@.skip(a as int));
    while b > a && is_white_space(v[b - 1])
        invariant
            a <= b <= n == v@.len(),
            trim_end(v@.skip(a as int)) == trim_end(v@.subrange(a as int, b as int)),
        decreases b,
    {
        assert(v@.subrange(a as int, b as int).drop_last() =~= v@.subrange(a as int, b - 1));
        b = b - 1;
    }
    slice_subrange(v, a, b)
}

/// `s` without white space at either end.
pub fn trim(s: &str) -> (r: String)
    ensures
        r@ == trimmed(s@),
{
    let v = chars_of(s);
    string_of(trim_chars(v.as_slice()))
}

/// Whether `s` holds nothing but white space.
pub fn is_blank(s: &str) -> (r: bool)
    ensures
        r == blank(s@),
{
    let v = chars_of(s);
    trim_chars(v.as_slice()).len() == 0
}

// ---------------------------------------------------------------- ASCII case

/// The lowercase form of an ASCII capital; any other character as it is.
pub open spec fn ascii_lower_char(c: char) -> char {
    if 'A' <= c <= 'Z' {
        (c as u32 + 32) as char
    } else {
        c
    }
}

/// Every character in its ASCII lowercase form.
pub open spec fn ascii_lower(s: Seq<char>) -> Seq<char> {
    s.map_values(|c: char| ascii_lower_char(c))
}

/// Equality that does not tell ASCII capitals from small letters.
pub open spec fn eq_ignore_case(a: Seq<char>, b: Seq<char>) -> bool {
    ascii_lower(a) == ascii_lower(b)
}

/// Small letters are made of capitals one by one: `A` to `Z`, from 65 to 90, move up by 32, and
/// every other character stays. Doing it twice changes nothing more.
pub proof fn small_letters_are_made_one_by_one(s: Seq<char>, i: int)
    requires
        0 <= i < s.len(),
    ensures
        ascii_lower(s).len() == s.len(),
        65 <= s[i] as int <= 90 ==> ascii_lower(s)[i] as int == s[i] as int + 32,
        !(65 <= s[i] as int <= 90) ==> ascii_lower(s)[i] == s[i],
        ascii_lower(ascii_lower(s)) == ascii_lower(s),
{
    assert(ascii_lower(ascii_lower(s)) =~= ascii_lower(s));
}

pub open spec fn ascii_digit(c: char) -> bool {
    '0' <= c <= '9'
}

pub open spec fn ascii_alphabetic(c: char) -> bool {
    ('a' <= c <= 'z') || ('A' <= c <= 'Z')
}

pub open spec fn ascii_alphanumeric(c: char) -> bool {
    ascii_digit(c) || ascii_alphabetic(c)
}

pub fn is_ascii_digit(c: char) -> (r: bool)
    ensures
        r == ascii_digit(c),
{
    '0' <= c && c <= '9'
}

pub fn is_ascii_alphabetic(c: char) -> (r: bool)
    ensures
        r == ascii_alphabetic(c),
{
    ('a' <= c && c <= 'z') || ('A' <= c && c <= 'Z')
}

pub fn is_ascii_alphanumeric(c: char) -> (r: bool)
    ensures
        r == ascii_alphanumeric(c),
{
    is_ascii_digit(c) || is_ascii_alphabetic(c)
}

pub fn to_ascii_lower_char(c: char) -> (r: char)
    ensures
        r == ascii_lower_char(c),
{
    if 'A' <= c && c <= 'Z' {
        (c as u8 + 32) as char
    } else {
        c
    }
}

/// The ASCII lowercase form of `s`.
pub fn to_ascii_lower(s: &str) -> (r: String)
    ensures
        r@ == ascii_lower(s@),
{
    let mut out = String::new();
    for c in it: s.chars()
        invariant
            out@ == ascii_lower(it.seq().take(it.index() as int)),
            it.seq() == s@,
    {
        out.push(to_ascii_lower_char(c));
        assert(out@ =~= ascii_lower(it.seq().take(it.index() + 1)));
    }
    assert(s@.take(s@.len() as int) =~= s@);
    out
}

/// Whether `a` and `b` are equal but for ASCII case.
pub fn equals_ignore_case(a: &str, b: &str) -> (r: bool)
    ensures
        r == eq_ignore_case(a@, b@),
{
    let x = to_ascii_lower(a);
    let y = to_ascii_lower(b);
    same(x.as_str(), y.as_str())
}

/// Whether one of `list` equals `s` but for ASCII case.
pub fn any_equals_ignore_case(list: &Vec<String>, s: &str) -> (r: bool)
    ensures
        r == exists|k: int| 0 <= k < list@.len() && #[trigger] eq_ignore_case(list@[k]@, s@),
{
    let mut i: usize = 0;
    while i < list.len()
        invariant
            i <= list@.len(),
            forall|k: int| 0 <= k < i ==> !#[trigger] eq_ignore_case(list@[k]@, s@),
        decreases list@.len() - i,
    {
        if equals_ignore_case(list[i].as_str(), s) {
            return true;
        }
        i = i + 1;
    }
    false
}

// ---------------------------------------------------------------- searching

/// `needle` stands in `s` at position `i`.
pub open spec fn occurs_at(s: Seq<char>, i: int, needle: Seq<char>) -> bool {
    0 <= i && i + needle.len() <= s.len() && s.subrange(i, i + needle.len()) == needle
}

/// The first position from `i` on at which `needle` stands in `s`.
pub open spec fn find_from(s: Seq<char>, needle: Seq<char>, i: int) -> Option<int>
    decreases s.len() + 1 - i,
{
    if i < 0 || i + needle.len() > s.len() {
        None
    } else if occurs_at(s, i, needle) {
        Some(i)
    } else {
        find_from(s, needle, i + 1)
    }
}

/// `needle` stands somewhere in `s`.
pub open spec fn contains(s: Seq<char>, needle: Seq<char>) -> bool {
    exists|i: int| occurs_at(s, i, needle)
}

/// What `find_from` finds is an occurrence, and the first one.
pub proof fn lemma_find_from(s: Seq<char>, needle: Seq<char>, i: int)
    requires
        0 <= i,
    ensures
        match find_from(s, needle, i) {
            Some(k) => i <= k && occurs_at(s, k, needle) && forall|j: int|
                i <= j < k ==> !occurs_at(s, j, needle),
            None => forall|j: int| i <= j ==> !occurs_at(s, j, needle),
        },
    decreases s.len() + 1 - i,
{
    if i + needle.len() <= s.len() && !occurs_at(s, i, needle) {
        lemma_find_from(s, needle, i + 1);
    }
}

/// A search finds what it looks for at the first place where it stands: if it stands at `k` and
/// nowhere between the start and `k`, it is found there.
pub proof fn the_first_place_is_found(s: Seq<char>, needle: Seq<char>, from: int, k: int)
    requires
        0 <= from <= k,
        occurs_at(s, k, needle),
        forall|j: int| from <= j < k ==> !#[trigger] occurs_at(s, j, needle),
    ensures
        find_from(s, needle, from) == Some(k),
{
    lemma_find_from(s, needle, from);
    if let Some(i) = find_from(s, needle, from) {
        if i > k {
            assert(!occurs_at(s, k, needle));
        }
    }
}

/// One character is found at the first place that holds it.
pub proof fn the_first_character_is_found(s: Seq<char>, c: char, from: int, k: int)
    requires
        0 <= from <= k < s.len(),
        s[k] == c,
        forall|j: int| from <= j < k ==> (#[trigger] s[j]) != c,
    ensures
        find_from(s, seq![c], from) == Some(k),
{
    assert(s.subrange(k, k + 1) =~= seq![c]);
    assert forall|j: int| from <= j < k implies !#[trigger] occurs_at(s, j, seq![c]) by {
        assert(s.subrange(j, j + 1)[0] == s[j]);
        assert(s[j] != c);
    }
    the_first_place_is_found(s, seq![c], from, k);
}

/// Whether `needle` stands in `s` at position `i`.
pub fn stands_at(s: &[char], i: usize, needle: &[char]) -> (r: bool)
    ensures
        r == occurs_at(s@, i as int, needle@),
{
    if i > s.len() || needle.len() > s.len() - i {
        return false;
    }
    same_chars(slice_subrange(s, i, i + needle.len()), needle)
}

/// The first position from `from` on at which `needle` stands in `s`.
pub fn position_from(s: &[char], needle: &[char], from: usize) -> (r: Option<usize>)
    ensures
        match r {
            Some(k) => find_from(s@, needle@, from as int) == Some(k as int),
            None => find_from(s@, needle@, from as int) is None,
        },
        r matches Some(k) ==> from <= k && k + needle@.len() <= s@.len(),
{
    if from > s.len() {
        return None;
    }
    let mut i: usize = from;
    while needle.len() <= s.len() - i
        invariant
            from <= i,
            find_from(s@, needle@, from as int) == find_from(s@, needle@, i as int),
            i <= s@.len(),
        decreases s@.len() - i,
    {
        if stands_at(s, i, needle) {
            return Some(i);
        }
        if i == s.len() {
            assert(find_from(s@, needle@, i + 1) is None);
            return None;
        }
        i = i + 1;
    }
    None
}

/// Whether `needle` stands anywhere in `s`.
pub fn contains_str(s: &str, needle: &str) -> (r: bool)
    ensures
        r == contains(s@, needle@),
{
    let v = chars_of(s);
    let n = chars_of(needle);
    proof {
        lemma_find_from(s@, needle@, 0);
    }
    position_from(v.as_slice(), n.as_slice(), 0).is_some()
}

/// Whether `c` is one of the characters.
pub fn contains_char(s: &[char], c: char) -> (r: bool)
    ensures
        r == s@.contains(c),
{
    let mut i: usize = 0;
    while i < s.len()
        invariant
            i <= s@.len(),
            forall|k: int| 0 <= k < i ==> s@[k] != c,
        decreases s@.len() - i,
    {
        if s[i] == c {
            return true;
        }
        i = i + 1;
    }
    false
}

/// Whether `s` begins with `prefix`.
pub fn begins_with(s: &str, prefix: &str) -> (r: bool)
    ensures
        r == occurs_at(s@, 0, prefix@),
{
    let v = chars_of(s);
    let p = chars_of(prefix);
    stands_at(v.as_slice(), 0, p.as_slice())
}

/// What follows the last character that is `a` or `b`; all of `s` if there is none.
pub open spec fn after_last(s: Seq<char>, a: char, b: char) -> Seq<char>
    decreases s.len(),
{
    if s.len() == 0 {
        s
    } else if s.last() == a || s.last() == b {
        Seq::empty()
    } else {
        after_last(s.drop_last(), a, b).push(s.last())
    }
}

/// What `after_last` leaves is a suffix without a separator, preceded by one.
pub proof fn lemma_after_last(s: Seq<char>, a: char, b: char)
    ensures
        after_last(s, a, b).len() <= s.len(),
        after_last(s, a, b) == s.skip(s.len() - after_last(s, a, b).len()),
        !after_last(s, a, b).contains(a),
        !after_last(s, a, b).contains(b),
        after_last(s, a, b).len() < s.len() ==> {
            let c = s[s.len() - after_last(s, a, b).len() - 1];
            c == a || c == b
        },
    decreases s.len(),
{
    if s.len() > 0 && s.last() != a && s.last() != b {
        lemma_after_last(s.drop_last(), a, b);
        let t = after_last(s.drop_last(), a, b);
        assert(after_last(s, a, b) =~= s.skip(s.len() - after_last(s, a, b).len()));
        assert forall|c: char| after_last(s, a, b).contains(c) implies c == s.last() || t.contains(
            c,
        ) by {
            let k = choose|k: int| 0 <= k < after_last(s, a, b).len() && after_last(s, a, b)[k] == c;
            if k < t.len() {
                assert(t[k] == c);
            }
        }
    } else {
        assert(after_last(s, a, b) =~= s.skip(s.len() - after_last(s, a, b).len()));
    }
}

/// What stands behind a separator, and holds none itself, is what follows the last one; a text
/// without separators is all of it.
pub proof fn what_stands_behind_a_separator(front: Seq<char>, c: char, name: Seq<char>, a: char, b: char)
    requires
        c == a || c == b,
        !name.contains(a),
        !name.contains(b),
    ensures
        after_last(front.push(c) + name, a, b) == name,
        after_last(name, a, b) == name,
    decreases name.len(),
{
    let s = front.push(c) + name;
    if name.len() == 0 {
        assert(s =~= front.push(c));
        assert(after_last(s, a, b) =~= name);
    } else {
        let n = name.drop_last();
        assert(name.contains(name.last()));
        assert forall|x: char| n.contains(x) implies name.contains(x) by {
            let k = choose|k: int| 0 <= k < n.len() && n[k] == x;
            assert(name[k] == x);
        }
        what_stands_behind_a_separator(front, c, n, a, b);
        assert(s.drop_last() =~= front.push(c) + n);
        assert(after_last(s, a, b) =~= name);
        assert(after_last(name, a, b) =~= name);
    }
}

/// The characters that follow the last `a` or `b`.
pub fn suffix_after_last(s: &[char], a: char, b: char) -> (r: &[char])
    ensures
        r@ == after_last(s@, a, b),
{
    let n: usize = s.len();
    let mut i: usize = n;
    assert(s@.take(n as int) =~= s@);
    assert(s@.skip(n as int) =~= Seq::<char>::empty());
    while i > 0 && s[i - 1] != a && s[i - 1] != b
        invariant
            i <= n == s@.len(),
            after_last(s@, a, b) == after_last(s@.take(i as int), a, b) + s@.skip(i as int),
        decreases i,
    {
        assert(s@.take(i as int).drop_last() =~= s@.take(i - 1));
        assert(after_last(s@.take(i - 1), a, b).push(s@[i - 1]) + s@.skip(i as int) =~= after_last(
            s@.take(i - 1),
            a,
            b,
        ) + s@.skip(i - 1));
        i = i - 1;
    }
    assert(s@.subrange(i as int, n as int) =~= s@.skip(i as int));
    assert(after_last(s@.take(i as int), a, b) =~= Seq::<char>::empty());
    slice_subrange(s, i, n)
}

/// `s` without the trailing characters that are `a` or `b`.
pub open spec fn trim_end_of(s: Seq<char>, a: char, b: char) -> Seq<char>
    decreases s.len(),
{
    if s.len() > 0 && (s.last() == a || s.last() == b) {
        trim_end_of(s.drop_last(), a, b)
    } else {
        s
    }
}

/// What is cut off the end is made of `a` and `b` alone, and what is left ends in neither.
pub proof fn only_trailing_characters_are_cut(s: Seq<char>, a: char, b: char)
    ensures
        trim_end_of(s, a, b).len() <= s.len(),
        trim_end_of(s, a, b) == s.take(trim_end_of(s, a, b).len() as int),
        trim_end_of(s, a, b).len() > 0 ==> trim_end_of(s, a, b).last() != a && trim_end_of(
            s,
            a,
            b,
        ).last() != b,
        forall|i: int|
            trim_end_of(s, a, b).len() <= i < s.len() ==> (#[trigger] s[i]) == a || s[i] == b,
    decreases s.len(),
{
    if s.len() > 0 && (s.last() == a || s.last() == b) {
        let front = s.drop_last();
        only_trailing_characters_are_cut(front, a, b);
        assert(trim_end_of(s, a, b) =~= s.take(trim_end_of(s, a, b).len() as int));
        assert forall|i: int| trim_end_of(s, a, b).len() <= i < s.len() implies (#[trigger] s[i])
            == a || s[i] == b by {
            if i < front.len() {
                assert(front[i] == s[i]);
            }
        }
    } else {
        assert(s =~= s.take(s.len() as int));
    }
}

/// The characters without trailing `a` or `b`.
pub fn without_trailing(s: &[char], a: char, b: char) -> (r: &[char])
    ensures
        r@ == trim_end_of(s@, a, b),
{
    let mut i: usize = s.len();
    assert(s@.subrange(0, i as int) =~= s@);
    while i > 0 && (s[i - 1] == a || s[i - 1] == b)
        invariant
            i <= s@.len(),
            trim_end_of(s@, a, b) == trim_end_of(s@.subrange(0, i as int), a, b),
        decreases i,
    {
        assert(s@.subrange(0, i as int).drop_last() =~= s@.subrange(0, i - 1));
        i = i - 1;
    }
    slice_subrange(s, 0, i)
}

/// Filtering a sequence with one more item.
pub proof fn lemma_filter_push(s: Seq<char>, c: char, p: spec_fn(char) -> bool)
    ensures
        s.push(c).filter(p) == if p(c) {
            s.filter(p).push(c)
        } else {
            s.filter(p)
        },
{
    reveal(Seq::filter);
    assert(s.push(c).drop_last() =~= s);
}

/// Filtering leaves alone what passes as a whole, and nothing of what does not pass at all; of two
/// sequences, one behind the other, it leaves what it leaves of each.
pub proof fn filters_go_piece_by_piece<T>(a: Seq<T>, b: Seq<T>, p: spec_fn(T) -> bool)
    ensures
        (forall|i: int| 0 <= i < b.len() ==> p(#[trigger] b[i])) ==> b.filter(p) == b,
        (forall|i: int| 0 <= i < b.len() ==> !p(#[trigger] b[i])) ==> b.filter(p).len() == 0,
        (a + b).filter(p) == a.filter(p) + b.filter(p),
    decreases b.len(),
{
    reveal(Seq::filter);
    if b.len() == 0 {
        assert(a + b =~= a);
        assert(a.filter(p) + b.filter(p) =~= a.filter(p));
        assert(b.filter(p) =~= b);
    } else {
        let front = b.drop_last();
        filters_go_piece_by_piece(a, front, p);
        assert((a + b).drop_last() =~= a + front);
        assert(b.last() == b[b.len() - 1]);
        assert forall|i: int| 0 <= i < front.len() implies front[i] == b[i] by {}
        assert((a + b).filter(p) =~= a.filter(p) + b.filter(p));
        if forall|i: int| 0 <= i < b.len() ==> p(#[trigger] b[i]) {
            assert forall|i: int| 0 <= i < front.len() implies p(#[trigger] front[i]) by {
                assert(front[i] == b[i]);
            }
            assert(b.filter(p) =~= b);
        }
        if forall|i: int| 0 <= i < b.len() ==> !p(#[trigger] b[i]) {
            assert forall|i: int| 0 <= i < front.len() implies !p(#[trigger] front[i]) by {
                assert(front[i] == b[i]);
            }
        }
    }
}

// ---------------------------------------------------------------- splitting

/// The pieces of `s` between the occurrences of `sep`.
pub open spec fn split(s: Seq<char>, sep: char) -> Seq<Seq<char>>
    decreases s.len(),
{
    if s.len() == 0 {
        seq![Seq::empty()]
    } else {
        let before = split(s.drop_last(), sep);
        if s.last() == sep {
            before.push(Seq::empty())
        } else {
            before.update(before.len() - 1, before.last().push(s.last()))
        }
    }
}

/// Splitting always gives at least one piece.
pub proof fn lemma_split_nonempty(s: Seq<char>, sep: char)
    ensures
        split(s, sep).len() >= 1,
    decreases s.len(),
{
    if s.len() > 0 {
        lemma_split_nonempty(s.drop_last(), sep);
    }
}

/// Without the separator there is one piece.
pub proof fn lemma_split_whole(s: Seq<char>, sep: char)
    requires
        forall|i: int| 0 <= i < s.len() ==> s[i] != sep,
    ensures
        split(s, sep) == seq![s],
    decreases s.len(),
{
    if s.len() > 0 {
        lemma_split_whole(s.drop_last(), sep);
        assert(s.drop_last().push(s.last()) =~= s);
        assert(split(s, sep) =~= seq![s]);
    } else {
        assert(s =~= Seq::empty());
    }
}

/// Splitting undoes putting a separator between two texts: the pieces are those of the first
/// and then those of the second.
pub proof fn separators_part_the_pieces(a: Seq<char>, sep: char, b: Seq<char>)
    ensures
        split(a.push(sep) + b, sep) == split(a, sep) + split(b, sep),
    decreases b.len(),
{
    lemma_split_nonempty(a, sep);
    lemma_split_nonempty(b, sep);
    let whole = a.push(sep) + b;
    if b.len() == 0 {
        assert(whole =~= a.push(sep));
        assert(whole.drop_last() =~= a);
        assert(split(whole, sep) =~= split(a, sep) + split(b, sep));
    } else {
        let front = b.drop_last();
        separators_part_the_pieces(a, sep, front);
        lemma_split_nonempty(front, sep);
        assert(whole.drop_last() =~= a.push(sep) + front);
        assert(whole.last() == b.last());
        assert(split(whole, sep) =~= split(a, sep) + split(b, sep));
    }
}

/// No piece holds the separator, and the pieces with the separator between each two are the text
/// itself: nothing is lost, added or moved.
pub proof fn pieces_make_up_the_text(s: Seq<char>, sep: char)
    ensures
        forall|i: int| 0 <= i < split(s, sep).len() ==> !(#[trigger] split(s, sep)[i]).contains(sep),
        join(split(s, sep), seq![sep]) == s,
    decreases s.len(),
{
    lemma_split_nonempty(s, sep);
    if s.len() > 0 {
        let front = s.drop_last();
        pieces_make_up_the_text(front, sep);
        lemma_split_nonempty(front, sep);
        let before = split(front, sep);
        let all = split(s, sep);
        if s.last() == sep {
            assert(all.drop_last() =~= before);
            assert(join(all, seq![sep]) =~= s);
            assert forall|i: int| 0 <= i < all.len() implies !(#[trigger] all[i]).contains(sep) by {
                if i < before.len() {
                    assert(all[i] == before[i]);
                }
            }
        } else {
            assert(all.drop_last() =~= before.drop_last());
            assert(all.last() =~= before.last().push(s.last()));
            if before.len() == 1 {
                assert(before[0] == before.last());
                assert(join(all, seq![sep]) =~= s);
            } else {
                assert(join(all, seq![sep]) =~= join(before, seq![sep]).push(s.last()));
                assert(join(all, seq![sep]) =~= s);
            }
            assert forall|i: int| 0 <= i < all.len() implies !(#[trigger] all[i]).contains(sep) by {
                if i < before.len() - 1 {
                    assert(all[i] == before[i]);
                } else {
                    assert(all[i] == before[before.len() - 1].push(s.last()));
                    assert(!before[before.len() - 1].contains(sep));
                    assert forall|k: int| 0 <= k < all[i].len() implies all[i][k] != sep by {
                        if k < before[before.len() - 1].len() {
                            assert(before[before.len() - 1][k] == all[i][k]);
                        }
                    }
                }
            }
        }
    } else {
        assert(s =~= Seq::empty());
    }
}

/// The pieces of `s` between the occurrences of `sep`.
pub fn split_chars(s: &[char], sep: char) -> (r: Vec<Vec<char>>)
    ensures
        deep(r@) == split(s@, sep),
        r@.len() >= 1,
{
    let mut done: Vec<Vec<char>> = Vec::new();
    let mut cur: Vec<char> = Vec::new();
    let mut i: usize = 0;
    assert(deep(done@).push(cur@) =~= split(s@.take(0), sep));
    while i < s.len()
        invariant
            i <= s@.len(),
            deep(done@).push(cur@) == split(s@.take(i as int), sep),
        decreases s@.len() - i,
    {
        let ghost before = deep(done@).push(cur@);
        let c = s[i];
        assert(s@.take(i + 1).drop_last() =~= s@.take(i as int));
        if c == sep {
            let ghost d = done@;
            let ghost k = cur@;
            done.push(cur);
            cur = Vec::new();
            assert(deep(done@) =~= deep(d).push(k));
            assert(deep(done@).push(cur@) =~= before.push(Seq::empty()));
        } else {
            cur.push(c);
            assert(deep(done@).push(cur@) =~= before.update(
                before.len() - 1,
                before.last().push(c),
            ));
        }
        i = i + 1;
    }
    assert(s@.take(i as int) =~= s@);
    let ghost d = done@;
    let ghost k = cur@;
    done.push(cur);
    assert(deep(done@) =~= deep(d).push(k));
    done
}

/// The words completed so far and the one still open, after reading `s`.
pub open spec fn scan_words(s: Seq<char>) -> (Seq<Seq<char>>, Seq<char>)
    decreases s.len(),
{
    if s.len() == 0 {
        (Seq::empty(), Seq::empty())
    } else {
        let (done, open) = scan_words(s.drop_last());
        if white_space(s.last()) {
            (with_word(done, open), Seq::empty())
        } else {
            (done, open.push(s.last()))
        }
    }
}

/// `done` with `word` behind it, unless that word is empty.
pub open spec fn with_word(done: Seq<Seq<char>>, word: Seq<char>) -> Seq<Seq<char>> {
    if word.len() > 0 {
        done.push(word)
    } else {
        done
    }
}

/// The maximal runs of `s` without white space, in order.
pub open spec fn words(s: Seq<char>) -> Seq<Seq<char>> {
    let (done, open) = scan_words(s);
    with_word(done, open)
}

/// A word: not empty, no white space in it.
pub open spec fn is_word(w: Seq<char>) -> bool {
    w.len() > 0 && forall|i: int| 0 <= i < w.len() ==> !white_space(#[trigger] w[i])
}

/// No word is empty or holds white space.
pub proof fn words_hold_no_white_space(s: Seq<char>)
    ensures
        forall|i: int| 0 <= i < words(s).len() ==> is_word(#[trigger] words(s)[i]),
        forall|i: int| 0 <= i < scan_words(s).0.len() ==> is_word(#[trigger] scan_words(s).0[i]),
        scan_words(s).1.len() > 0 ==> is_word(scan_words(s).1),
    decreases s.len(),
{
    if s.len() > 0 {
        words_hold_no_white_space(s.drop_last());
    }
}

/// The words of `s`.
pub fn split_words(s: &[char]) -> (r: Vec<Vec<char>>)
    ensures
        deep(r@) == words(s@),
{
    let mut done: Vec<Vec<char>> = Vec::new();
    let mut cur: Vec<char> = Vec::new();
    let mut i: usize = 0;
    assert(deep(done@) =~= Seq::empty());
    while i < s.len()
        invariant
            i <= s@.len(),
            (deep(done@), cur@) == scan_words(s@.take(i as int)),
        decreases s@.len() - i,
    {
        let c = s[i];
        assert(s@.take(i + 1).drop_last() =~= s@.take(i as int));
        if is_white_space(c) {
            if cur.len() > 0 {
                let ghost d = done@;
                let ghost k = cur@;
                done.push(cur);
                assert(deep(done@) =~= deep(d).push(k));
                cur = Vec::new();
            }
            assert(cur@ =~= Seq::empty());
        } else {
            cur.push(c);
        }
        i = i + 1;
    }
    assert(s@.take(i as int) =~= s@);
    if cur.len() > 0 {
        let ghost d = done@;
        let ghost k = cur@;
        done.push(cur);
        assert(deep(done@) =~= deep(d).push(k));
    }
    done
}

/// A line that was ended by a line feed, without the carriage return before it.
pub open spec fn without_carriage_return(line: Seq<char>) -> Seq<char> {
    if line.len() > 0 && line.last() == '\r' {
        line.drop_last()
    } else {
        line
    }
}

/// The lines of `s`: ended by a line feed or by a carriage return and a line feed;
/// the last line need not be ended, and is then kept as it is.
pub open spec fn lines(s: Seq<char>) -> Seq<Seq<char>> {
    let pieces = split(s, '\n');
    let ended = pieces.drop_last().map_values(|p: Seq<char>| without_carriage_return(p));
    if pieces.last().len() > 0 {
        ended.push(pieces.last())
    } else {
        ended
    }
}

/// A line ended by a line feed comes out without it, and without one carriage return before it;
/// the lines behind it come out as they would alone. What is not ended comes out as it is, and
/// nothing is no line.
pub proof fn line_feeds_end_lines(line: Seq<char>, rest: Seq<char>)
    requires
        !line.contains('\n'),
    ensures
        lines(line.push('\n') + rest) == seq![
            if line.len() > 0 && line.last() == '\r' {
                line.drop_last()
            } else {
                line
            },
        ] + lines(rest),
        line.len() > 0 ==> lines(line) == seq![line],
        lines(Seq::empty()).len() == 0,
{
    assert forall|i: int| 0 <= i < line.len() implies line[i] != '\n' by {
        assert(line.contains(line[i]));
    }
    lemma_split_whole(line, '\n');
    separators_part_the_pieces(line, '\n', rest);
    lemma_split_nonempty(rest, '\n');
    let all = split(line.push('\n') + rest, '\n');
    assert(all =~= seq![line] + split(rest, '\n'));
    assert(all.drop_last() =~= seq![line] + split(rest, '\n').drop_last());
    assert(lines(line.push('\n') + rest) =~= seq![without_carriage_return(line)] + lines(rest));
    assert(lines(line) =~= if line.len() > 0 {
        seq![line]
    } else {
        Seq::empty()
    });
    assert(lines(Seq::empty()) =~= Seq::empty());
}

/// The lines of `s`.
pub fn split_lines(s: &[char]) -> (r: Vec<Vec<char>>)
    ensures
        deep(r@) == lines(s@),
{
    let mut pieces = split_chars(s, '\n');
    let ghost all = deep(pieces@);
    let ghost whole = pieces@;
    let last: Option<Vec<char>> = pieces.pop();
    let mut out: Vec<Vec<char>> = Vec::new();
    let mut i: usize = 0;
    let ghost ended = all.drop_last().map_values(|p: Seq<char>| without_carriage_return(p));
    assert(deep(pieces@) =~= all.drop_last());
    while i < pieces.len()
        invariant
            i <= pieces@.len(),
            deep(pieces@) == all.drop_last(),
            ended == all.drop_last().map_values(|p: Seq<char>| without_carriage_return(p)),
            deep(out@) == ended.take(i as int),
        decreases pieces@.len() - i,
    {
        let ghost piece = pieces@[i as int]@;
        assert(piece == all.drop_last()[i as int]);
        let mut line: Vec<char> = Vec::new();
        extend(&mut line, pieces[i].as_slice());
        if line.len() > 0 && line[line.len() - 1] == '\r' {
            line.pop();
        }
        assert(line@ =~= without_carriage_return(piece));
        let ghost o = out@;
        out.push(line);
        assert(deep(out@) =~= deep(o).push(without_carriage_return(piece)));
        i = i + 1;
        assert(ended.take(i as int) =~= ended.take(i - 1).push(ended[i - 1]));
    }
    assert(ended.take(i as int) =~= ended);
    if let Some(l) = last {
        assert(l@ == all.last());
        if l.len() > 0 {
            let ghost o = out@;
            out.push(l);
            assert(deep(out@) =~= deep(o).push(all.last()));
        }
    }
    out
}

// ---------------------------------------------------------------- joining

/// The parts with `sep` between each two.
pub open spec fn join(parts: Seq<Seq<char>>, sep: Seq<char>) -> Seq<char>
    decreases parts.len(),
{
    if parts.len() == 0 {
        Seq::empty()
    } else if parts.len() == 1 {
        parts[0]
    } else {
        join(parts.drop_last(), sep) + sep + parts.last()
    }
}

/// The parts with `sep` between each two.
pub fn join_chars(parts: &Vec<Vec<char>>, sep: &str) -> (r: Vec<char>)
    ensures
        r@ == join(deep(parts@), sep@),
{
    let sep_chars = chars_of(sep);
    let mut out: Vec<char> = Vec::new();
    let mut i: usize = 0;
    let ghost all = deep(parts@);
    assert(out@ =~= join(all.take(0), sep@));
    while i < parts.len()
        invariant
            i <= parts@.len(),
            all == deep(parts@),
            sep_chars@ == sep@,
            out@ == join(all.take(i as int), sep@),
        decreases parts@.len() - i,
    {
        assert(all.take(i + 1).drop_last() =~= all.take(i as int));
        if i > 0 {
            extend(&mut out, sep_chars.as_slice());
        }
        extend(&mut out, parts[i].as_slice());
        assert(all.take(i + 1).last() == parts@[i as int]@);
        assert(out@ =~= join(all.take(i + 1), sep@));
        i = i + 1;
    }
    assert(all.take(i as int) =~= all);
    out
}

/// The strings with `sep` between each two.
pub fn join_strings(parts: &[String], sep: &str) -> (r: String)
    ensures
        r@ == join(views(parts@), sep@),
{
    let mut out = String::new();
    let mut i: usize = 0;
    let ghost all = views(parts@);
    assert(out@ =~= join(all.take(0), sep@));
    while i < parts.len()
        invariant
            i <= parts@.len(),
            all == views(parts@),
            out@ == join(all.take(i as int), sep@),
        decreases parts@.len() - i,
    {
        assert(all.take(i + 1).drop_last() =~= all.take(i as int));
        if i > 0 {
            out.append(sep);
        }
        out.append(parts[i].as_str());
        assert(all.take(i + 1).last() == parts@[i as int]@);
        assert(out@ =~= join(all.take(i + 1), sep@));
        i = i + 1;
    }
    assert(all.take(i as int) =~= all);
    out
}

/// Reading on without white space only makes the open word longer.
proof fn lemma_scan_word(s: Seq<char>, t: Seq<char>)
    requires
        forall|i: int| 0 <= i < t.len() ==> !white_space(#[trigger] t[i]),
    ensures
        scan_words(s + t) == (scan_words(s).0, scan_words(s).1 + t),
    decreases t.len(),
{
    if t.len() == 0 {
        assert(s + t =~= s);
        assert(scan_words(s).1 + t =~= scan_words(s).1);
    } else {
        let u = t.drop_last();
        assert forall|i: int| 0 <= i < u.len() implies !white_space(#[trigger] u[i]) by {
            assert(u[i] == t[i]);
        }
        lemma_scan_word(s, u);
        assert((s + t).drop_last() =~= s + u);
        assert(!white_space(t[t.len() - 1]));
        assert((scan_words(s).1 + u).push(t.last()) =~= scan_words(s).1 + t);
    }
}

/// Words joined with single spaces are split into the same words again.
pub proof fn words_of_joined_words(ws: Seq<Seq<char>>)
    requires
        forall|i: int| 0 <= i < ws.len() ==> is_word(#[trigger] ws[i]),
    ensures
        words(join(ws, " "@)) == ws,
        ws.len() > 0 ==> scan_words(join(ws, " "@)) == (ws.drop_last(), ws.last()),
    decreases ws.len(),
{
    reveal_strlit(" ");
    if ws.len() == 0 {
        assert(words(join(ws, " "@)) =~= ws);
    } else if ws.len() == 1 {
        assert(is_word(ws[0]));
        lemma_scan_word(Seq::empty(), ws[0]);
        assert(Seq::<char>::empty() + ws[0] =~= ws[0]);
        assert(scan_words(ws[0]).0 =~= ws.drop_last());
        assert(words(join(ws, " "@)) =~= ws);
    } else {
        let front = ws.drop_last();
        assert forall|i: int| 0 <= i < front.len() implies is_word(#[trigger] front[i]) by {
            assert(front[i] == ws[i]);
        }
        words_of_joined_words(front);
        let j = join(front, " "@);
        let spaced = j + " "@;
        assert(spaced.drop_last() =~= j);
        assert(is_word(front[front.len() - 1]));
        assert(front.drop_last().push(front.last()) =~= front);
        assert(scan_words(spaced) == (front, Seq::<char>::empty()));
        assert(is_word(ws[ws.len() - 1]));
        lemma_scan_word(spaced, ws.last());
        assert(Seq::<char>::empty() + ws.last() =~= ws.last());
        assert(front.push(ws.last()) =~= ws);
    }
}

/// White space ends a word: what stands before it and what stands behind it is split into words
/// on its own.
pub proof fn white_space_separates_words(a: Seq<char>, c: char, b: Seq<char>)
    requires
        white_space(c),
    ensures
        words(a.push(c) + b) == words(a) + words(b),
        scan_words(a.push(c) + b) == (words(a) + scan_words(b).0, scan_words(b).1),
    decreases b.len(),
{
    if b.len() == 0 {
        assert(a.push(c) + b =~= a.push(c));
        assert(a.push(c).drop_last() =~= a);
        assert(words(a) + scan_words(b).0 =~= words(a));
        assert(words(a) + words(b) =~= words(a));
    } else {
        white_space_separates_words(a, c, b.drop_last());
        assert((a.push(c) + b).drop_last() =~= a.push(c) + b.drop_last());
        let (done, open) = scan_words(b.drop_last());
        assert(with_word(words(a) + done, open) =~= words(a) + with_word(done, open));
        let (d, o) = scan_words(b);
        assert(with_word(words(a) + d, o) =~= words(a) + with_word(d, o));
    }
}

/// A text without white space is one word, and a text that is not empty and has none at its ends
/// but some within is more than one.
pub proof fn words_are_what_stands_between_white_space(s: Seq<char>)
    ensures
        is_word(s) ==> words(s) == seq![s],
        words(s).len() == 0 <==> forall|i: int| 0 <= i < s.len() ==> white_space(#[trigger] s[i]),
        words(s).len() == 1 && !white_space(s[0]) && !white_space(s.last()) ==> words(s)[0] == s,
    decreases s.len(),
{
    if is_word(s) {
        lemma_scan_word(Seq::empty(), s);
        assert(Seq::<char>::empty() + s =~= s);
        assert(words(s) =~= seq![s]);
    }
    if s.len() > 0 {
        let front = s.drop_last();
        words_are_what_stands_between_white_space(front);
        if words(s).len() == 0 {
            assert forall|i: int| 0 <= i < s.len() implies white_space(#[trigger] s[i]) by {
                if i < front.len() {
                    assert(front[i] == s[i]);
                }
            }
        }
        if forall|i: int| 0 <= i < s.len() ==> white_space(#[trigger] s[i]) {
            assert forall|i: int| 0 <= i < front.len() implies white_space(#[trigger] front[i]) by {
                assert(front[i] == s[i]);
            }
            assert(white_space(s[s.len() - 1]));
        }
        if !is_word(s) && words(s).len() == 1 && !white_space(s[0]) && !white_space(s.last()) {
            let k = choose|k: int| 0 <= k < s.len() && white_space(#[trigger] s[k]);
            let x = s.take(k);
            let y = s.skip(k + 1);
            assert(x.push(s[k]) + y =~= s);
            white_space_separates_words(x, s[k], y);
            words_are_what_stands_between_white_space(x);
            words_are_what_stands_between_white_space(y);
            assert(x[0] == s[0]);
            assert(y[y.len() - 1] == s.last());
            assert(words(x).len() > 0 && words(y).len() > 0);
        }
    }
}

/// White space around a text makes no difference to its words.
pub proof fn outer_white_space_holds_no_words(s: Seq<char>)
    ensures
        words(trimmed(s)) == words(s),
{
    trim_removes_only_outer_white_space(s);
    let n = trimmed(s).len() as int;
    let a = choose|a: int|
        {
            &&& 0 <= a
            &&& a + n <= s.len()
            &&& trimmed(s) == #[trigger] s.subrange(a, a + n)
            &&& forall|i: int| 0 <= i < a ==> white_space(#[trigger] s[i])
            &&& forall|i: int| a + n <= i < s.len() ==> white_space(#[trigger] s[i])
        };
    let front = s.take(a);
    let back = s.skip(a + n);
    let t = trimmed(s);
    assert forall|i: int| 0 <= i < front.len() implies white_space(#[trigger] front[i]) by {
        assert(front[i] == s[i]);
    }
    assert forall|i: int| 0 <= i < back.len() implies white_space(#[trigger] back[i]) by {
        assert(back[i] == s[a + n + i]);
    }
    words_are_what_stands_between_white_space(front);
    words_are_what_stands_between_white_space(back);
    let head = front + t;
    if a > 0 {
        assert(front.drop_last().push(s[a - 1]) + t =~= head);
        white_space_separates_words(front.drop_last(), s[a - 1], t);
        let most = front.drop_last();
        assert forall|i: int| 0 <= i < most.len() implies white_space(#[trigger] most[i]) by {
            assert(most[i] == s[i]);
        }
        words_are_what_stands_between_white_space(most);
        assert(words(head) =~= words(t));
    } else {
        assert(head =~= t);
    }
    assert(head + back =~= s);
    if back.len() > 0 {
        let rest = back.drop_first();
        assert(head.push(back[0]) + rest =~= s);
        white_space_separates_words(head, back[0], rest);
        assert forall|i: int| 0 <= i < rest.len() implies white_space(#[trigger] rest[i]) by {
            assert(rest[i] == back[i + 1]);
        }
        words_are_what_stands_between_white_space(rest);
        assert(words(s) =~= words(head));
    } else {
        assert(head =~= s);
    }
}

/// Among the ASCII characters the space and the five from the tab to the carriage return are
/// white space, and no others.
pub proof fn ascii_white_space(c: char)
    requires
        (c as u32) < 128,
    ensures
        white_space(c) == ((c as u32) == 32 || 9 <= (c as u32) <= 13),
{
}

/// Joining puts the separator once between each two parts: the lengths add up, and the text of
/// two rows of parts is that of the first, the separator and that of the second.
pub proof fn joining_puts_one_separator_between(
    a: Seq<Seq<char>>,
    b: Seq<Seq<char>>,
    sep: Seq<char>,
)
    requires
        a.len() > 0,
        b.len() > 0,
    ensures
        join(a + b, sep) == join(a, sep) + sep + join(b, sep),
        forall|w: Seq<char>| #[trigger] join(seq![w], sep) == w,
    decreases b.len(),
{
    if b.len() == 1 {
        assert((a + b).drop_last() =~= a);
        assert((a + b).last() == b[0]);
    } else {
        joining_puts_one_separator_between(a, b.drop_last(), sep);
        assert((a + b).drop_last() =~= a + b.drop_last());
        assert(join(a + b, sep) =~= join(a, sep) + sep + join(b, sep));
    }
}

// ---------------------------------------------------------------- numerals

/// The decimal digit for `d`.
pub open spec fn digit(d: int) -> char {
    (48 + d) as char
}

/// `n` in decimal, without leading zeros.
pub open spec fn decimal(n: nat) -> Seq<char>
    decreases n,
{
    if n < 10 {
        seq![digit(n as int)]
    } else {
        decimal(n / 10).push(digit((n % 10) as int))
    }
}

/// Appends `n` in decimal.
pub fn push_decimal(out: &mut String, n: u64)
    ensures
        final(out)@ == old(out)@ + decimal(n as nat),
    decreases n,
{
    if n >= 10 {
        push_decimal(out, n / 10);
    }
    let d: u8 = (n % 10) as u8;
    out.push((48 + d) as char);
    assert(out@ =~= old(out)@ + decimal(n as nat));
}

/// `n` in decimal.
pub fn decimal_of(n: u64) -> (r: String)
    ensures
        r@ == decimal(n as nat),
{
    let mut out = String::new();
    push_decimal(&mut out, n);
    assert(out@ =~= decimal(n as nat));
    out
}

/// A numeral is made of digits, begins with no zero unless it is the zero, and reads back as the
/// number.
pub proof fn numerals_read_back(n: nat)
    ensures
        decimal(n).len() > 0,
        forall|i: int| 0 <= i < decimal(n).len() ==> 48 <= (#[trigger] decimal(n)[i]) as int <= 57,
        decimal(n).len() > 1 ==> decimal(n)[0] != '0',
        n == 0 ==> decimal(n) == seq!['0'],
        digits_value(decimal(n)) == n,
        n <= i64::MAX ==> parsed_i64(decimal(n)) == Some(n as int),
    decreases n,
{
    if n >= 10 {
        numerals_read_back(n / 10);
        assert(decimal(n).drop_last() =~= decimal(n / 10));
        if n / 10 < 10 {
            assert(decimal(n / 10).len() == 1);
            assert(decimal(n / 10)[0] == digit((n / 10) as int));
            assert(digit((n / 10) as int) != '0');
        } else {
            lemma_decimal_nonempty(n / 10 / 10);
            assert(decimal(n / 10).len() >= 2);
        }
        assert(decimal(n)[0] == decimal(n / 10)[0]);
    } else {
        reveal_with_fuel(digits_value, 2);
        assert(decimal(n) =~= seq![digit(n as int)]);
        assert(decimal(n).drop_last() =~= Seq::empty());
    }
    assert forall|i: int| 0 <= i < decimal(n).len() implies ascii_digit(
        #[trigger] decimal(n)[i],
    ) by {}
    assert(decimal(n)[0] != '-' && decimal(n)[0] != '+');
}

/// The tens of a numeral come before its ones: a numeral with one more digit behind it is ten
/// times the number, and that digit.
pub proof fn one_more_digit_makes_ten_times_as_much(n: nat, d: nat)
    requires
        n > 0,
        d < 10,
    ensures
        decimal(10 * n + d) == decimal(n).push((48 + d) as char),
{
    assert((10 * n + d) / 10 == n);
    assert((10 * n + d) % 10 == d);
}

/// The numeral of a number below a million has one to six digits.
pub proof fn lemma_short_decimal(n: nat)
    requires
        n < 1_000_000,
    ensures
        0 < decimal(n).len() <= 6,
        forall|i: int| 0 <= i < decimal(n).len() ==> ascii_digit(#[trigger] decimal(n)[i]),
{
    reveal_with_fuel(decimal, 7);
}

/// Numbers of the same digits are equal.
pub proof fn lemma_decimal_injective(a: nat, b: nat)
    requires
        decimal(a) == decimal(b),
    ensures
        a == b,
    decreases a,
{
    lemma_decimal_nonempty(a);
    lemma_decimal_nonempty(b);
    assert(decimal(a).last() == digit((a % 10) as int));
    assert(decimal(b).last() == digit((b % 10) as int));
    if a >= 10 && b >= 10 {
        assert(decimal(a).drop_last() =~= decimal(a / 10));
        assert(decimal(b).drop_last() =~= decimal(b / 10));
        lemma_decimal_injective(a / 10, b / 10);
    } else if a >= 10 {
        lemma_decimal_nonempty(a / 10);
        assert(decimal(a).len() >= 2);
    } else if b >= 10 {
        lemma_decimal_nonempty(b / 10);
        assert(decimal(b).len() >= 2);
    }
}

proof fn lemma_decimal_nonempty(n: nat)
    ensures
        decimal(n).len() > 0,
{
}

/// A hexadecimal digit, in capitals or in small letters.
pub open spec fn hex_digit(d: int, capital: bool) -> char {
    if d < 10 {
        (48 + d) as char
    } else if capital {
        (55 + d) as char
    } else {
        (87 + d) as char
    }
}

/// The hexadecimal digit for `d`.
pub fn hex_digit_of(d: u8, capital: bool) -> (r: char)
    requires
        d < 16,
    ensures
        r == hex_digit(d as int, capital),
{
    if d < 10 {
        (48 + d) as char
    } else if capital {
        (55 + d) as char
    } else {
        (87 + d) as char
    }
}

/// The last `width` hexadecimal digits of `n`, in small letters.
pub open spec fn hex(n: nat, width: nat) -> Seq<char>
    decreases width,
{
    if width == 0 {
        Seq::empty()
    } else {
        hex(n / 16, (width - 1) as nat).push(hex_digit((n % 16) as int, false))
    }
}

/// Sixteen to the power `k`.
pub open spec fn sixteen_to(k: nat) -> nat
    decreases k,
{
    if k == 0 {
        1
    } else {
        16 * sixteen_to((k - 1) as nat)
    }
}

/// As many digits as asked for.
pub proof fn lemma_hex_len(n: nat, width: nat)
    ensures
        hex(n, width).len() == width,
    decreases width,
{
    if width > 0 {
        lemma_hex_len(n / 16, (width - 1) as nat);
    }
}

/// The digit that a character stands for in a hexadecimal numeral in small letters.
pub open spec fn hex_value(c: char) -> int {
    if '0' <= c <= '9' {
        c as int - 48
    } else {
        c as int - 97 + 10
    }
}

/// Each digit of a hexadecimal numeral is one of `0` to `9` and `a` to `f`. The last one is what
/// the number leaves over of sixteens; those before it are the digits of the sixteens.
pub proof fn hexadecimal_digits_count_sixteens(n: nat, width: nat, i: int)
    requires
        0 <= i < width,
    ensures
        hex(n, width).len() == width,
        '0' <= hex(n, width)[i] <= '9' || 'a' <= hex(n, width)[i] <= 'f',
        hex_value(hex(n, width).last()) == n % 16,
        hex(n, width).drop_last() == hex(n / 16, (width - 1) as nat),
    decreases width,
{
    let w = (width - 1) as nat;
    lemma_hex_len(n, width);
    lemma_hex_len(n / 16, w);
    assert(hex(n, width).drop_last() =~= hex(n / 16, w));
    if i < w {
        hexadecimal_digits_count_sixteens(n / 16, w, i);
        assert(hex(n, width)[i] == hex(n / 16, w)[i]);
    }
}

/// Numbers that the digits can hold are told apart by them.
pub proof fn lemma_hex_injective(a: nat, b: nat, width: nat)
    requires
        a < sixteen_to(width),
        b < sixteen_to(width),
        hex(a, width) == hex(b, width),
    ensures
        a == b,
    decreases width,
{
    if width > 0 {
        let w = (width - 1) as nat;
        lemma_hex_len(a / 16, w);
        lemma_hex_len(b / 16, w);
        assert(hex(a, width).last() == hex(b, width).last());
        assert(hex(a, width).drop_last() =~= hex(a / 16, w));
        assert(hex(b, width).drop_last() =~= hex(b / 16, w));
        let x = (a % 16) as int;
        let y = (b % 16) as int;
        assert(hex_digit(x, false) as int == if x < 10 {
            48 + x
        } else {
            87 + x
        });
        assert(hex_digit(y, false) as int == if y < 10 {
            48 + y
        } else {
            87 + y
        });
        assert(hex(a, width).last() == hex_digit(x, false));
        assert(hex(b, width).last() == hex_digit(y, false));
        assert(x == y);
        lemma_hex_injective(a / 16, b / 16, w);
    }
}

/// Appends the last `width` hexadecimal digits of `n`.
pub fn push_hex(out: &mut String, n: u64, width: usize)
    ensures
        final(out)@ == old(out)@ + hex(n as nat, width as nat),
    decreases width,
{
    if width > 0 {
        push_hex(out, n / 16, width - 1);
        out.push(hex_digit_of((n % 16) as u8, false));
    }
    assert(out@ =~= old(out)@ + hex(n as nat, width as nat));
}

/// `s` with zeros before it, up to `width` characters.
pub open spec fn zero_padded(s: Seq<char>, width: nat) -> Seq<char> {
    if s.len() >= width {
        s
    } else {
        Seq::new((width - s.len()) as nat, |i: int| '0') + s
    }
}

/// Zeros before a numeral do not change what it says.
pub proof fn padding_keeps_the_value(s: Seq<char>, width: nat)
    ensures
        digits_value(zero_padded(s, width)) == digits_value(s),
    decreases s.len(),
{
    let n = if s.len() >= width {
        0
    } else {
        (width - s.len()) as nat
    };
    let zeros = Seq::new(n, |i: int| '0');
    lemma_zeros_say_nothing(n, s);
    assert(zero_padded(s, width) =~= zeros + s);
}

proof fn lemma_zeros_say_nothing(n: nat, s: Seq<char>)
    ensures
        digits_value(Seq::new(n, |i: int| '0') + s) == digits_value(s),
    decreases n + s.len(),
{
    let zeros = Seq::new(n, |i: int| '0');
    if s.len() > 0 {
        lemma_zeros_say_nothing(n, s.drop_last());
        assert((zeros + s).drop_last() =~= zeros + s.drop_last());
    } else if n > 0 {
        let m = (n - 1) as nat;
        lemma_zeros_say_nothing(m, s);
        assert((zeros + s).drop_last() =~= Seq::new(m, |i: int| '0') + s);
    } else {
        assert(zeros + s =~= s);
    }
}

/// Ten to the power `k`.
pub open spec fn ten_to(k: nat) -> nat
    decreases k,
{
    if k == 0 {
        1
    } else {
        10 * ten_to((k - 1) as nat)
    }
}

proof fn lemma_numeral_length(n: nat, k: nat)
    requires
        n < ten_to(k),
        k > 0,
    ensures
        decimal(n).len() <= k,
    decreases k,
{
    if n >= 10 {
        assert(k > 1) by {
            if k == 1 {
                reveal_with_fuel(ten_to, 2);
            }
        }
        lemma_numeral_length(n / 10, (k - 1) as nat);
    }
}

/// A number below ten billion has at most ten digits.
pub proof fn short_numerals(n: nat)
    requires
        n < 10_000_000_000,
    ensures
        decimal(n).len() <= 10,
{
    reveal_with_fuel(ten_to, 11);
    lemma_numeral_length(n, 10);
}

/// Padding puts only zeros before a text, as many as are missing, and never cuts it.
pub proof fn padding_puts_zeros_in_front(s: Seq<char>, width: nat)
    ensures
        zero_padded(s, width).len() == if s.len() < width {
            width
        } else {
            s.len()
        },
        zero_padded(s, width).skip(zero_padded(s, width).len() - s.len()) == s,
        forall|i: int|
            0 <= i < zero_padded(s, width).len() - s.len() ==> (#[trigger] zero_padded(s, width)[i])
                == '0',
{
    assert(zero_padded(s, width).skip(zero_padded(s, width).len() - s.len()) =~= s);
}

/// `n` in decimal, with zeros before it up to `width` characters.
pub fn padded_decimal(n: u64, width: usize) -> (r: String)
    ensures
        r@ == zero_padded(decimal(n as nat), width as nat),
{
    let digits = decimal_of(n);
    let len: usize = digits.as_str().unicode_len();
    let mut out = String::new();
    let mut i: usize = len;
    while i < width
        invariant
            len == decimal(n as nat).len(),
            len <= i,
            i <= width || i == len,
            out@ == Seq::new((i - len) as nat, |k: int| '0'),
        decreases width - i,
    {
        out.push('0');
        i = i + 1;
        assert(out@ =~= Seq::new((i - len) as nat, |k: int| '0'));
    }
    out.append(digits.as_str());
    assert(out@ =~= zero_padded(decimal(n as nat), width as nat));
    out
}

/// The value of a string of decimal digits.
pub open spec fn digits_value(s: Seq<char>) -> nat
    decreases s.len(),
{
    if s.len() == 0 {
        0
    } else {
        digits_value(s.drop_last()) * 10 + (s.last() as nat - 48) as nat
    }
}

/// At least one character, and decimal digits only.
pub open spec fn is_numeral(s: Seq<char>) -> bool {
    s.len() > 0 && forall|i: int| 0 <= i < s.len() ==> ascii_digit(#[trigger] s[i])
}

/// The number that `s` writes, an optional sign and decimal digits, if there is one
/// and it lies in the range of `i64`.
pub open spec fn parsed_i64(s: Seq<char>) -> Option<int> {
    let signed = s.len() > 0 && (s[0] == '-' || s[0] == '+');
    let body = if signed {
        s.drop_first()
    } else {
        s
    };
    let value = if signed && s[0] == '-' {
        -(digits_value(body) as int)
    } else {
        digits_value(body) as int
    };
    if is_numeral(body) && i64::MIN <= value <= i64::MAX {
        Some(value)
    } else {
        None
    }
}

/// The number that `s` writes, if it is an `i64`.
pub fn parse_i64(s: &[char]) -> (r: Option<i64>)
    ensures
        match r {
            Some(v) => parsed_i64(s@) == Some(v as int),
            None => parsed_i64(s@) is None,
        },
{
    let n: usize = s.len();
    let signed = n > 0 && (s[0] == '-' || s[0] == '+');
    let negative = n > 0 && s[0] == '-';
    let start: usize = if signed {
        1
    } else {
        0
    };
    let ghost body = s@.skip(start as int);
    assert(body =~= if signed {
        s@.drop_first()
    } else {
        s@
    });
    if start == n {
        return None;
    }
    let mut value: u128 = 0;
    let mut big = false;
    let mut i: usize = start;
    assert(body.take(0) =~= Seq::empty());
    while i < n
        invariant
            start <= i <= n == s@.len(),
            body == s@.skip(start as int),
            signed == (n > 0 && (s@[0] == '-' || s@[0] == '+')),
            body == (if signed {
                s@.drop_first()
            } else {
                s@
            }),
            forall|k: int| 0 <= k < i - start ==> ascii_digit(#[trigger] body[k]),
            big ==> digits_value(body.take(i - start)) > 9223372036854775808,
            !big ==> value == digits_value(body.take(i - start)) && value <= 9223372036854775808,
        decreases n - i,
    {
        let c = s[i];
        assert(body[i - start] == c);
        if !is_ascii_digit(c) {
            assert(!is_numeral(body));
            return None;
        }
        let d: u128 = (c as u8 - 48) as u128;
        assert(body.take(i - start + 1).drop_last() =~= body.take(i - start));
        if !big {
            value = value * 10 + d;
            if value > 9223372036854775808 {
                big = true;
            }
        }
        i = i + 1;
    }
    assert(body.take(n - start) =~= body);
    if big {
        return None;
    }
    if negative {
        Some((0 - value as i128) as i64)
    } else if value == 9223372036854775808 {
        None
    } else {
        Some(value as i64)
    }
}

// ---------------------------------------------------------------- order

/// `a` comes no later than `b` in the order of code points.
pub open spec fn no_later(a: Seq<char>, b: Seq<char>) -> bool
    decreases a.len(),
{
    ||| a.len() == 0
    ||| b.len() > 0 && (a[0] < b[0] || (a[0] == b[0] && no_later(a.drop_first(), b.drop_first())))
}

/// The order is total.
pub proof fn lemma_no_later_total(a: Seq<char>, b: Seq<char>)
    ensures
        no_later(a, b) || no_later(b, a),
        no_later(a, b) && no_later(b, a) ==> a == b,
    decreases a.len(),
{
    if a.len() > 0 && b.len() > 0 {
        lemma_no_later_total(a.drop_first(), b.drop_first());
        if no_later(a, b) && no_later(b, a) {
            assert(a =~= seq![a[0]] + a.drop_first());
            assert(b =~= seq![b[0]] + b.drop_first());
        }
    } else if a.len() == 0 && b.len() == 0 {
        assert(a =~= b);
    }
}

/// The order is transitive.
pub proof fn lemma_no_later_transitive(a: Seq<char>, b: Seq<char>, c: Seq<char>)
    requires
        no_later(a, b),
        no_later(b, c),
    ensures
        no_later(a, c),
    decreases a.len(),
{
    if a.len() > 0 && b.len() > 0 && c.len() > 0 {
        if a[0] == b[0] && b[0] == c[0] {
            lemma_no_later_transitive(a.drop_first(), b.drop_first(), c.drop_first());
        }
    }
}

/// Whether `a` comes no later than `b`.
pub fn is_no_later(a: &str, b: &str) -> (r: bool)
    ensures
        r == no_later(a@, b@),
{
    let x = chars_of(a);
    let y = chars_of(b);
    let mut i: usize = 0;
    assert(x@.skip(0) =~= x@);
    assert(y@.skip(0) =~= y@);
    while i < x.len() && i < y.len()
        invariant
            i <= x@.len(),
            i <= y@.len(),
            x@ == a@,
            y@ == b@,
            no_later(x@, y@) == no_later(x@.skip(i as int), y@.skip(i as int)),
        decreases x@.len() - i,
    {
        if x[i] < y[i] {
            return true;
        }
        if y[i] < x[i] {
            return false;
        }
        assert(x@.skip(i as int).drop_first() =~= x@.skip(i + 1));
        assert(y@.skip(i as int).drop_first() =~= y@.skip(i + 1));
        i = i + 1;
    }
    i == x.len()
}

/// Where two texts first differ, the smaller character comes first; where one ends first, it
/// does.
pub proof fn the_first_difference_decides(p: Seq<char>, a: Seq<char>, b: Seq<char>)
    ensures
        a.len() > 0 && b.len() > 0 && (a[0] as int) < (b[0] as int) ==> no_later(p + a, p + b)
            && !no_later(p + b, p + a),
        no_later(p, p + b),
        b.len() > 0 ==> !no_later(p + b, p),
    decreases p.len(),
{
    if p.len() > 0 {
        the_first_difference_decides(p.drop_first(), a, b);
        assert((p + a).drop_first() =~= p.drop_first() + a);
        assert((p + b).drop_first() =~= p.drop_first() + b);
    } else {
        assert(p + a =~= a);
        assert(p + b =~= b);
    }
}

} // verus!
