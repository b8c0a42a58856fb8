//! Which paths may be touched, and which names may be given.
//!
//! The comparisons are made on paths that are canonical already: absolute, with `..`,
//! short names and links resolved.
use crate::order;
use crate::text;
use vstd::prelude::*;
use vstd::slice::slice_subrange;

verus! {

// ---------------------------------------------------------------- names

/// A name of a device, which no file can have.
pub open spec fn reserved(stem: Seq<char>) -> bool {
    ||| text::eq_ignore_case("CON"@, stem)
    ||| text::eq_ignore_case("PRN"@, stem)
    ||| text::eq_ignore_case("AUX"@, stem)
    ||| text::eq_ignore_case("NUL"@, stem)
    ||| text::eq_ignore_case("COM1"@, stem)
    ||| text::eq_ignore_case("COM2"@, stem)
    ||| text::eq_ignore_case("COM3"@, stem)
    ||| text::eq_ignore_case("COM4"@, stem)
    ||| text::eq_ignore_case("COM5"@, stem)
    ||| text::eq_ignore_case("COM6"@, stem)
    ||| text::eq_ignore_case("COM7"@, stem)
    ||| text::eq_ignore_case("COM8"@, stem)
    ||| text::eq_ignore_case("COM9"@, stem)
    ||| text::eq_ignore_case("LPT1"@, stem)
    ||| text::eq_ignore_case("LPT2"@, stem)
    ||| text::eq_ignore_case("LPT3"@, stem)
    ||| text::eq_ignore_case("LPT4"@, stem)
    ||| text::eq_ignore_case("LPT5"@, stem)
    ||| text::eq_ignore_case("LPT6"@, stem)
    ||| text::eq_ignore_case("LPT7"@, stem)
    ||| text::eq_ignore_case("LPT8"@, stem)
    ||| text::eq_ignore_case("LPT9"@, stem)
}

/// A character that no name may hold besides the control characters.
pub open spec fn illegal_char(c: char) -> bool {
    c == '<' || c == '>' || c == ':' || c == '"' || c == '/' || c == '\\' || c == '|' || c == '?' || c == '*'
}

/// A character that no name may hold.
pub open spec fn forbidden(c: char) -> bool {
    (c as u32) < 0x20 || illegal_char(c)
}

/// The character in single quotes, a backslash doubled.
pub open spec fn quoted(c: char) -> Seq<char> {
    if c == '\\' {
        "'\\\\'"@
    } else {
        seq!['\'', c, '\'']
    }
}

/// What stands before the first dot.
pub open spec fn before_dot(name: Seq<char>) -> Seq<char> {
    match order::first_index(name, |c: char| c == '.', 0) {
        Some(i) => name.take(i),
        None => name,
    }
}

/// What is wrong with a name, if anything is.
pub open spec fn name_error(name: Seq<char>) -> Option<Seq<char>> {
    if name.len() == 0 {
        Some("name cannot be empty"@)
    } else if vstd::utf8::encode_utf8(name).len() > 255 {
        Some("name too long"@)
    } else if name == "."@ || name == ".."@ {
        Some("name cannot be '.' or '..'"@)
    } else {
        match order::first_index(name, |c: char| forbidden(c), 0) {
            Some(i) => if (name[i] as u32) < 0x20 {
                Some("name contains a control character"@)
            } else {
                Some("name contains an illegal character: "@ + quoted(name[i]))
            },
            None => if name.last() == ' ' || name.last() == '.' {
                Some("name cannot end with a space or dot"@)
            } else if reserved(before_dot(name)) {
                Some("'"@ + name + "' is a reserved device name"@)
            } else {
                None
            },
        }
    }
}

fn is_reserved(stem: &str) -> (r: bool)
    ensures
        r == reserved(stem@),
{
    text::equals_ignore_case("CON", stem)
        || text::equals_ignore_case("PRN", stem)
        || text::equals_ignore_case("AUX", stem)
        || text::equals_ignore_case("NUL", stem)
        || text::equals_ignore_case("COM1", stem)
        || text::equals_ignore_case("COM2", stem)
        || text::equals_ignore_case("COM3", stem)
        || text::equals_ignore_case("COM4", stem)
        || text::equals_ignore_case("COM5", stem)
        || text::equals_ignore_case("COM6", stem)
        || text::equals_ignore_case("COM7", stem)
        || text::equals_ignore_case("COM8", stem)
        || text::equals_ignore_case("COM9", stem)
        || text::equals_ignore_case("LPT1", stem)
        || text::equals_ignore_case("LPT2", stem)
        || text::equals_ignore_case("LPT3", stem)
        || text::equals_ignore_case("LPT4", stem)
        || text::equals_ignore_case("LPT5", stem)
        || text::equals_ignore_case("LPT6", stem)
        || text::equals_ignore_case("LPT7", stem)
        || text::equals_ignore_case("LPT8", stem)
        || text::equals_ignore_case("LPT9", stem)
}

fn is_illegal_char(c: char) -> (r: bool)
    ensures
        r == illegal_char(c),
{
    c == '<' || c == '>' || c == ':' || c == '"' || c == '/' || c == '\\' || c == '|' || c == '?' || c == '*'
}

/// Whether a name may be given to a file or a folder; if not, why.
pub fn validate_name(name: &str) -> (r: Result<(), String>)
    ensures
        match r {
            Ok(_) => name_error(name@) is None,
            Err(e) => name_error(name@) == Some(e@),
        },
{
    if name.is_empty() {
        return Err(text::owned("name cannot be empty"));
    }
    if name.as_bytes().len() > 255 {
        return Err(text::owned("name too long"));
    }
    if text::same(name, ".") || text::same(name, "..") {
        return Err(text::owned("name cannot be '.' or '..'"));
    }
    let s = text::chars_of(name);
    let ghost p = |c: char| forbidden(c);
    let mut i: usize = 0;
    while i < s.len()
        invariant
            i <= s@.len(),
            s@ == name@,
            p == (|c: char| forbidden(c)),
            order::first_index(name@, p, 0) == order::first_index(name@, p, i as int),
            name@.len() > 0,
            vstd::utf8::encode_utf8(name@).len() <= 255,
            name@ != "."@,
            name@ != ".."@,
        decreases s@.len() - i,
    {
        let c = s[i];
        if (c as u32) < 0x20 {
            return Err(text::owned("name contains a control character"));
        }
        if is_illegal_char(c) {
            let mut e = text::owned("name contains an illegal character: ");
            if c == '\\' {
                e.append("'\\\\'");
            } else {
                e.push('\'');
                e.push(c);
                e.push('\'');
                assert(e@ =~= "name contains an illegal character: "@ + quoted(c));
            }
            return Err(e);
        }
        i = i + 1;
    }
    let n: usize = s.len();
    let last = s[n - 1];
    if last == ' ' || last == '.' {
        return Err(text::owned("name cannot end with a space or dot"));
    }
    let ghost d = |c: char| c == '.';
    let mut k: usize = 0;
    while k < n && s[k] != '.'
        invariant
            k <= n == s@.len(),
            s@ == name@,
            d == (|c: char| c == '.'),
            order::first_index(name@, d, 0) == order::first_index(name@, d, k as int),
        decreases n - k,
    {
        k = k + 1;
    }
    assert(s@.subrange(0, k as int) =~= before_dot(name@));
    let stem = text::string_of(slice_subrange(s.as_slice(), 0, k));
    if is_reserved(stem.as_str()) {
        let mut e = text::owned("'");
        e.append(name);
        e.append("' is a reserved device name");
        return Err(e);
    }
    Ok(())
}

/// A valid name is a single component: it holds no separator and is neither the folder
/// itself nor the one above.
pub proof fn valid_names_are_single_components(name: Seq<char>)
    requires
        name_error(name) is None,
    ensures
        !name.contains('/'),
        !name.contains('\\'),
        !name.contains(':'),
        name != "."@,
        name != ".."@,
        0 < name.len(),
{
    order::lemma_first_index(name, |c: char| forbidden(c), 0);
    assert forall|i: int| 0 <= i < name.len() implies !illegal_char(#[trigger] name[i]) by {
        assert(!(|c: char| forbidden(c))(name[i]));
    }
}

// ---------------------------------------------------------------- paths

/// Slashes turned into backslashes.
pub open spec fn backslashed(p: Seq<char>) -> Seq<char> {
    p.map_values(
        |c: char|
            if c == '/' {
                '\\'
            } else {
                c
            },
    )
}

/// The form in which paths are compared: backslashes, none at the end, small letters.
pub open spec fn normal_form(p: Seq<char>) -> Seq<char> {
    text::lowercase(text::trim_end_of(backslashed(p), '\\', '\\'))
}

/// A path in normal form is the other, or lies below it.
pub open spec fn at_or_below(candidate: Seq<char>, root: Seq<char>) -> bool {
    candidate == root || text::occurs_at(candidate, 0, root + "\\"@)
}

/// A path is the other, or lies below it.
pub open spec fn within(candidate: Seq<char>, root: Seq<char>) -> bool {
    at_or_below(normal_form(candidate), normal_form(root))
}

/// A path is one of the roots, or lies below one.
pub open spec fn allowed(candidate: Seq<char>, roots: Seq<Seq<char>>) -> bool {
    exists|k: int| 0 <= k < roots.len() && within(candidate, #[trigger] roots[k])
}

/// A path is one of the roots.
pub open spec fn is_root(candidate: Seq<char>, roots: Seq<Seq<char>>) -> bool {
    exists|k: int|
        0 <= k < roots.len() && normal_form(#[trigger] roots[k]) == normal_form(candidate)
}

/// The form in which paths are compared.
pub fn normalize_for_compare(p: &str) -> (r: String)
    ensures
        r@ == normal_form(p@),
{
    let mut v: Vec<char> = Vec::new();
    for c in it: p.chars()
        invariant
            v@ == backslashed(it.seq().take(it.index() as int)),
            it.seq() == p@,
    {
        v.push(
            if c == '/' {
                '\\'
            } else {
                c
            },
        );
        assert(v@ =~= backslashed(it.seq().take(it.index() + 1)));
    }
    assert(p@.take(p@.len() as int) =~= p@);
    let trimmed = text::string_of(text::without_trailing(v.as_slice(), '\\', '\\'));
    trimmed.as_str().to_lowercase()
}

/// Whether a path is the other, or lies below it.
pub fn is_within(candidate: &str, root: &str) -> (r: bool)
    ensures
        r == within(candidate@, root@),
{
    let cand = normalize_for_compare(candidate);
    let mut base = normalize_for_compare(root);
    if text::same(cand.as_str(), base.as_str()) {
        return true;
    }
    base.append("\\");
    text::begins_with(cand.as_str(), base.as_str())
}

/// Whether a canonical path is one of the canonical roots, or lies below one.
pub fn is_path_allowed(candidate: &str, effective_roots: &[String]) -> (r: bool)
    ensures
        r == allowed(candidate@, text::views(effective_roots@)),
{
    let ghost all = text::views(effective_roots@);
    let mut i: usize = 0;
    while i < effective_roots.len()
        invariant
            i <= effective_roots@.len(),
            all == text::views(effective_roots@),
            forall|k: int| 0 <= k < i ==> !within(candidate@, #[trigger] all[k]),
        decreases effective_roots@.len() - i,
    {
        assert(all[i as int] == effective_roots@[i as int]@);
        if is_within(candidate, effective_roots[i].as_str()) {
            return true;
        }
        i = i + 1;
    }
    false
}

/// Whether a canonical path is one of the canonical roots.
pub fn is_effective_root(candidate: &str, canon_roots: &[String]) -> (r: bool)
    ensures
        r == is_root(candidate@, text::views(canon_roots@)),
{
    let ghost all = text::views(canon_roots@);
    let cand = normalize_for_compare(candidate);
    let mut i: usize = 0;
    while i < canon_roots.len()
        invariant
            i <= canon_roots@.len(),
            all == text::views(canon_roots@),
            cand@ == normal_form(candidate@),
            forall|k: int| 0 <= k < i ==> normal_form(#[trigger] all[k]) != cand@,
        decreases canon_roots@.len() - i,
    {
        assert(all[i as int] == canon_roots@[i as int]@);
        let root = normalize_for_compare(canon_roots[i].as_str());
        if text::same(root.as_str(), cand.as_str()) {
            return true;
        }
        i = i + 1;
    }
    false
}

/// The roots that could be made canonical.
pub open spec fn resolved_roots(outcomes: Seq<Option<String>>) -> Seq<Seq<char>>
    decreases outcomes.len(),
{
    if outcomes.len() == 0 {
        Seq::empty()
    } else {
        match outcomes.last() {
            Some(s) => resolved_roots(outcomes.drop_last()).push(s@),
            None => resolved_roots(outcomes.drop_last()),
        }
    }
}

/// The canonical roots, given what came of making each root canonical; those that do
/// not exist are left out.
pub fn canonicalize_roots(outcomes: &Vec<Option<String>>) -> (r: Vec<String>)
    ensures
        text::views(r@) == resolved_roots(outcomes@),
{
    let mut out: Vec<String> = Vec::new();
    let mut i: usize = 0;
    assert(text::views(out@) =~= resolved_roots(outcomes@.take(0)));
    while i < outcomes.len()
        invariant
            i <= outcomes@.len(),
            text::views(out@) == resolved_roots(outcomes@.take(i as int)),
        decreases outcomes@.len() - i,
    {
        assert(outcomes@.take(i + 1).drop_last() =~= outcomes@.take(i as int));
        if let Some(s) = &outcomes[i] {
            let ghost o = out@;
            out.push(text::owned(s.as_str()));
            assert(text::views(out@) =~= text::views(o).push(s@));
        }
        i = i + 1;
    }
    assert(outcomes@.take(i as int) =~= outcomes@);
    out
}

/// A path for the current scope, given its canonical form, if it exists, and what came
/// of making the roots canonical.
pub fn resolve_allowed(canon: Option<String>, root_outcomes: &Vec<Option<String>>) -> (r: Result<
    String,
    String,
>)
    ensures
        match (canon, r) {
            (None, Err(e)) => e@ == "path does not exist"@,
            (None, Ok(_)) => false,
            (Some(c), Ok(p)) => p@ == c@ && allowed(c@, resolved_roots(root_outcomes@)),
            (Some(c), Err(e)) => !allowed(c@, resolved_roots(root_outcomes@)) && e@
                == "path is outside the allowed folders"@,
        },
{
    match canon {
        None => Err(text::owned("path does not exist")),
        Some(c) => {
            let roots = canonicalize_roots(root_outcomes);
            if is_path_allowed(c.as_str(), roots.as_slice()) {
                Ok(c)
            } else {
                Err(text::owned("path is outside the allowed folders"))
            }
        },
    }
}

// ---------------------------------------------------------------- laws

/// A root itself is allowed.
pub proof fn roots_are_allowed(candidate: Seq<char>, roots: Seq<Seq<char>>)
    requires
        is_root(candidate, roots),
    ensures
        allowed(candidate, roots),
{
    let k = choose|k: int|
        0 <= k < roots.len() && normal_form(#[trigger] roots[k]) == normal_form(candidate);
    assert(within(candidate, roots[k]));
}

/// Without roots nothing is allowed.
pub proof fn without_roots_nothing_is_allowed(candidate: Seq<char>)
    ensures
        !allowed(candidate, Seq::empty()),
{
}

/// Sharing a prefix is not lying below: a path that goes on behind the root with
/// anything but a separator is outside of it.
pub proof fn shared_prefix_is_not_containment(candidate: Seq<char>, root: Seq<char>)
    requires
        normal_form(candidate).len() > normal_form(root).len(),
        normal_form(candidate)[normal_form(root).len() as int] != '\\',
    ensures
        !within(candidate, root),
{
    reveal_strlit("\\");
    let c = normal_form(candidate);
    let n = normal_form(root).len();
    if text::occurs_at(c, 0, normal_form(root) + "\\"@) {
        assert(c.subrange(0, (n + 1) as int)[n as int] == c[n as int]);
        assert((normal_form(root) + "\\"@)[n as int] == '\\');
    }
}

/// What lies below a path is longer than it: nothing above a root is allowed by it.
pub proof fn nothing_above_a_root_lies_below_it(candidate: Seq<char>, root: Seq<char>)
    requires
        normal_form(candidate).len() < normal_form(root).len(),
    ensures
        !within(candidate, root),
{
    reveal_strlit("\\");
}

/// What lies below something that lies below a root lies below the root.
pub proof fn containment_is_transitive(a: Seq<char>, b: Seq<char>, c: Seq<char>)
    requires
        within(a, b),
        within(b, c),
    ensures
        within(a, c),
{
    reveal_strlit("\\");
    let x = normal_form(a);
    let y = normal_form(b);
    let z = normal_form(c);
    if x != y && y != z {
        let zs = z + "\\"@;
        assert(x.subrange(0, zs.len() as int) =~= zs) by {
            assert forall|i: int| 0 <= i < zs.len() implies x[i] == zs[i] by {
                assert((y + "\\"@)[i] == y[i]);
                assert(x.subrange(0, (y + "\\"@).len() as int)[i] == x[i]);
                assert(y.subrange(0, zs.len() as int)[i] == y[i]);
            }
        }
    }
}

/// The direction of the slashes and separators at the end do not matter.
pub proof fn separators_do_not_matter(a: Seq<char>, b: Seq<char>, root: Seq<char>)
    requires
        text::trim_end_of(backslashed(a), '\\', '\\') == text::trim_end_of(
            backslashed(b),
            '\\',
            '\\',
        ),
    ensures
        within(a, root) == within(b, root),
        within(root, a) == within(root, b),
{
}

#[verifier::spinoff_prover]
proof fn lemma_lower_devices()
    ensures
        text::ascii_lower("CON"@) == "con"@,
        text::ascii_lower("PRN"@) == "prn"@,
        text::ascii_lower("AUX"@) == "aux"@,
        text::ascii_lower("NUL"@) == "nul"@,
        text::ascii_lower("COM1"@) == "com1"@,
        text::ascii_lower("COM2"@) == "com2"@,
        text::ascii_lower("COM3"@) == "com3"@,
        text::ascii_lower("COM4"@) == "com4"@,
        text::ascii_lower("COM5"@) == "com5"@,
        text::ascii_lower("COM6"@) == "com6"@,
        text::ascii_lower("COM7"@) == "com7"@,
        text::ascii_lower("COM8"@) == "com8"@,
        text::ascii_lower("COM9"@) == "com9"@,
        text::ascii_lower("LPT1"@) == "lpt1"@,
        text::ascii_lower("LPT2"@) == "lpt2"@,
        text::ascii_lower("LPT3"@) == "lpt3"@,
        text::ascii_lower("LPT4"@) == "lpt4"@,
        text::ascii_lower("LPT5"@) == "lpt5"@,
        text::ascii_lower("LPT6"@) == "lpt6"@,
        text::ascii_lower("LPT7"@) == "lpt7"@,
        text::ascii_lower("LPT8"@) == "lpt8"@,
        text::ascii_lower("LPT9"@) == "lpt9"@,
{
    reveal_strlit("CON");
    reveal_strlit("con");
    assert(text::ascii_lower("CON"@) =~= "con"@);
    reveal_strlit("PRN");
    reveal_strlit("prn");
    assert(text::ascii_lower("PRN"@) =~= "prn"@);
    reveal_strlit("AUX");
    reveal_strlit("aux");
    assert(text::ascii_lower("AUX"@) =~= "aux"@);
    reveal_strlit("NUL");
    reveal_strlit("nul");
    assert(text::ascii_lower("NUL"@) =~= "nul"@);
    reveal_strlit("COM1");
    reveal_strlit("com1");
    assert(text::ascii_lower("COM1"@) =~= "com1"@);
    reveal_strlit("COM2");
    reveal_strlit("com2");
    assert(text::ascii_lower("COM2"@) =~= "com2"@);
    reveal_strlit("COM3");
    reveal_strlit("com3");
    assert(text::ascii_lower("COM3"@) =~= "com3"@);
    reveal_strlit("COM4");
    reveal_strlit("com4");
    assert(text::ascii_lower("COM4"@) =~= "com4"@);
    reveal_strlit("COM5");
    reveal_strlit("com5");
    assert(text::ascii_lower("COM5"@) =~= "com5"@);
    reveal_strlit("COM6");
    reveal_strlit("com6");
    assert(text::ascii_lower("COM6"@) =~= "com6"@);
    reveal_strlit("COM7");
    reveal_strlit("com7");
    assert(text::ascii_lower("COM7"@) =~= "com7"@);
    reveal_strlit("COM8");
    reveal_strlit("com8");
    assert(text::ascii_lower("COM8"@) =~= "com8"@);
    reveal_strlit("COM9");
    reveal_strlit("com9");
    assert(text::ascii_lower("COM9"@) =~= "com9"@);
    reveal_strlit("LPT1");
    reveal_strlit("lpt1");
    assert(text::ascii_lower("LPT1"@) =~= "lpt1"@);
    reveal_strlit("LPT2");
    reveal_strlit("lpt2");
    assert(text::ascii_lower("LPT2"@) =~= "lpt2"@);
    reveal_strlit("LPT3");
    reveal_strlit("lpt3");
    assert(text::ascii_lower("LPT3"@) =~= "lpt3"@);
    reveal_strlit("LPT4");
    reveal_strlit("lpt4");
    assert(text::ascii_lower("LPT4"@) =~= "lpt4"@);
    reveal_strlit("LPT5");
    reveal_strlit("lpt5");
    assert(text::ascii_lower("LPT5"@) =~= "lpt5"@);
    reveal_strlit("LPT6");
    reveal_strlit("lpt6");
    assert(text::ascii_lower("LPT6"@) =~= "lpt6"@);
    reveal_strlit("LPT7");
    reveal_strlit("lpt7");
    assert(text::ascii_lower("LPT7"@) =~= "lpt7"@);
    reveal_strlit("LPT8");
    reveal_strlit("lpt8");
    assert(text::ascii_lower("LPT8"@) =~= "lpt8"@);
    reveal_strlit("LPT9");
    reveal_strlit("lpt9");
    assert(text::ascii_lower("LPT9"@) =~= "lpt9"@);
}

proof fn lemma_numbered_device(w: Seq<char>)
    ensures
        w.len() == 4 && w[0] == 'c' && w[1] == 'o' && w[2] == 'm' && '1' <= w[3] <= '9' <==> (
            w == "com1"@
            || w == "com2"@
            || w == "com3"@
            || w == "com4"@
            || w == "com5"@
            || w == "com6"@
            || w == "com7"@
            || w == "com8"@
            || w == "com9"@),
        w.len() == 4 && w[0] == 'l' && w[1] == 'p' && w[2] == 't' && '1' <= w[3] <= '9' <==> (
            w == "lpt1"@
            || w == "lpt2"@
            || w == "lpt3"@
            || w == "lpt4"@
            || w == "lpt5"@
            || w == "lpt6"@
            || w == "lpt7"@
            || w == "lpt8"@
            || w == "lpt9"@),
{
    reveal_strlit("com1");
    reveal_strlit("lpt1");
    reveal_strlit("com2");
    reveal_strlit("lpt2");
    reveal_strlit("com3");
    reveal_strlit("lpt3");
    reveal_strlit("com4");
    reveal_strlit("lpt4");
    reveal_strlit("com5");
    reveal_strlit("lpt5");
    reveal_strlit("com6");
    reveal_strlit("lpt6");
    reveal_strlit("com7");
    reveal_strlit("lpt7");
    reveal_strlit("com8");
    reveal_strlit("lpt8");
    reveal_strlit("com9");
    reveal_strlit("lpt9");
    if w.len() == 4 && w[0] == 'c' && w[1] == 'o' && w[2] == 'm' && '1' <= w[3] <= '9' {
        if w[3] == '1' {
            assert(w =~= "com1"@);
        }
        if w[3] == '2' {
            assert(w =~= "com2"@);
        }
        if w[3] == '3' {
            assert(w =~= "com3"@);
        }
        if w[3] == '4' {
            assert(w =~= "com4"@);
        }
        if w[3] == '5' {
            assert(w =~= "com5"@);
        }
        if w[3] == '6' {
            assert(w =~= "com6"@);
        }
        if w[3] == '7' {
            assert(w =~= "com7"@);
        }
        if w[3] == '8' {
            assert(w =~= "com8"@);
        }
        if w[3] == '9' {
            assert(w =~= "com9"@);
        }
    }
    if w.len() == 4 && w[0] == 'l' && w[1] == 'p' && w[2] == 't' && '1' <= w[3] <= '9' {
        if w[3] == '1' {
            assert(w =~= "lpt1"@);
        }
        if w[3] == '2' {
            assert(w =~= "lpt2"@);
        }
        if w[3] == '3' {
            assert(w =~= "lpt3"@);
        }
        if w[3] == '4' {
            assert(w =~= "lpt4"@);
        }
        if w[3] == '5' {
            assert(w =~= "lpt5"@);
        }
        if w[3] == '6' {
            assert(w =~= "lpt6"@);
        }
        if w[3] == '7' {
            assert(w =~= "lpt7"@);
        }
        if w[3] == '8' {
            assert(w =~= "lpt8"@);
        }
        if w[3] == '9' {
            assert(w =~= "lpt9"@);
        }
    }
}

/// The reserved names are those of the four devices without a number, and `com` and `lpt` with one
/// digit that is not zero; capitals make no difference.
pub proof fn devices_are_reserved(stem: Seq<char>)
    ensures
        ({
            let w = text::ascii_lower(stem);
            reserved(stem) <==> ({
                ||| w == "con"@ || w == "prn"@ || w == "aux"@ || w == "nul"@
                ||| w.len() == 4 && w[0] == 'c' && w[1] == 'o' && w[2] == 'm' && '1' <= w[3] <= '9'
                ||| w.len() == 4 && w[0] == 'l' && w[1] == 'p' && w[2] == 't' && '1' <= w[3] <= '9'
            })
        }),
{
    lemma_lower_devices();
    lemma_numbered_device(text::ascii_lower(stem));
}

/// A name is accepted exactly when it is not empty, at most 255 bytes long, neither `.` nor `..`,
/// free of control characters and of the characters that separate or stand for others, ends in
/// neither a space nor a dot, and is not reserved up to its first dot.
pub proof fn names_are_accepted_if_and_only_if_they_are_safe(name: Seq<char>)
    ensures
        name_error(name) is None <==> ({
            &&& 0 < name.len()
            &&& vstd::utf8::encode_utf8(name).len() <= 255
            &&& name != "."@ && name != ".."@
            &&& forall|i: int|
                0 <= i < name.len() ==> {
                    let c = #[trigger] name[i];
                    &&& c as u32 >= 32
                    &&& c != '<' && c != '>' && c != ':' && c != '"' && c != '/' && c != '\\' && c
                        != '|' && c != '?' && c != '*'
                }
            &&& name.last() != ' ' && name.last() != '.'
            &&& !reserved(before_dot(name))
        }),
{
    order::lemma_first_index(name, |c: char| forbidden(c), 0);
    if order::first_index(name, |c: char| forbidden(c), 0) is None {
        assert forall|i: int| 0 <= i < name.len() implies !forbidden(#[trigger] name[i]) by {
            assert(!(|c: char| forbidden(c))(name[i]));
        }
    }
}

/// What counts for a reserved name is what stands before the first dot, or all of it.
pub proof fn the_first_dot_ends_the_stem(stem: Seq<char>, rest: Seq<char>)
    requires
        !stem.contains('.'),
    ensures
        before_dot(stem.push('.') + rest) == stem,
        before_dot(stem) == stem,
{
    let whole = stem.push('.') + rest;
    assert forall|i: int| 0 <= i < stem.len() implies stem[i] != '.' by {
        assert(stem.contains(stem[i]));
    }
    order::lemma_first_index(whole, |c: char| c == '.', 0);
    order::lemma_first_index(stem, |c: char| c == '.', 0);
    assert(whole[stem.len() as int] == '.');
    match order::first_index(whole, |c: char| c == '.', 0) {
        Some(i) => {
            if i < stem.len() {
                assert(whole[i] == stem[i]);
            }
            if i > stem.len() {
                assert(!(|c: char| c == '.')(whole[stem.len() as int]));
            }
            assert(whole.take(i) =~= stem);
        },
        None => {
            assert(!(|c: char| c == '.')(whole[stem.len() as int]));
        },
    }
}

/// What is written as a root, a separator and anything behind it lies below the root, as the root
/// itself does.
pub proof fn what_follows_a_root_lies_below_it(
    candidate: Seq<char>,
    root: Seq<char>,
    rest: Seq<char>,
)
    requires
        normal_form(candidate) == normal_form(root).push('\\') + rest || normal_form(candidate)
            == normal_form(root),
    ensures
        within(candidate, root),
{
    reveal_strlit("\\");
    let c = normal_form(candidate);
    let head = normal_form(root) + "\\"@;
    if c != normal_form(root) {
        assert(c.subrange(0, head.len() as int) =~= head);
    }
}

/// Paths are compared without regard to the kind of separator, to separators at their end, and to
/// capitals: slashes become backslashes, those at the end go, and the rest is put in small letters.
pub proof fn paths_are_compared_in_one_form(p: Seq<char>, i: int)
    ensures
        backslashed(p).len() == p.len(),
        0 <= i < p.len() && p[i] == '/' ==> backslashed(p)[i] == '\\',
        0 <= i < p.len() && p[i] != '/' ==> backslashed(p)[i] == p[i],
        normal_form(p) == text::lowercase(text::trim_end_of(backslashed(p), '\\', '\\')),
        p.len() > 0 && p.last() == '\\' ==> normal_form(p) == normal_form(p.drop_last()),
        p.len() > 0 && p.last() == '/' ==> normal_form(p) == normal_form(p.drop_last()),
{
    if p.len() > 0 {
        assert(backslashed(p).drop_last() =~= backslashed(p.drop_last()));
    }
}

/// A path is allowed exactly when it lies below one of the roots.
pub proof fn one_root_is_enough(candidate: Seq<char>, a: Seq<Seq<char>>, b: Seq<Seq<char>>, root: Seq<char>)
    ensures
        allowed(candidate, seq![root]) == within(candidate, root),
        allowed(candidate, a + b) == (allowed(candidate, a) || allowed(candidate, b)),
{
    if within(candidate, root) {
        assert(within(candidate, seq![root][0]));
    }
    if allowed(candidate, a) {
        let k = choose|k: int| 0 <= k < a.len() && within(candidate, #[trigger] a[k]);
        assert(within(candidate, (a + b)[k]));
    }
    if allowed(candidate, b) {
        let k = choose|k: int| 0 <= k < b.len() && within(candidate, #[trigger] b[k]);
        assert((a + b)[a.len() + k] == b[k]);
        assert(within(candidate, (a + b)[a.len() + k]));
    }
    if allowed(candidate, a + b) {
        let k = choose|k: int| 0 <= k < (a + b).len() && within(candidate, #[trigger] (a + b)[k]);
        if k < a.len() {
            assert(within(candidate, a[k]));
        } else {
            assert(within(candidate, b[k - a.len()]));
        }
    }
}

/// Of the roots those count that could be found, in their order.
pub proof fn found_roots_count(a: Seq<Option<String>>, b: Seq<Option<String>>, s: String)
    ensures
        resolved_roots(a + b) == resolved_roots(a) + resolved_roots(b),
        resolved_roots(seq![Some(s)]) == seq![s@],
        resolved_roots(seq![None]).len() == 0,
    decreases b.len(),
{
    reveal_with_fuel(resolved_roots, 2);
    let one: Seq<Option<String>> = seq![Some(s)];
    let none: Seq<Option<String>> = seq![None];
    assert(one.drop_last() =~= Seq::empty());
    assert(none.drop_last() =~= Seq::empty());
    assert(resolved_roots(one) =~= seq![s@]);
    if b.len() == 0 {
        assert(a + b =~= a);
        assert(resolved_roots(a) + resolved_roots(b) =~= resolved_roots(a));
    } else {
        found_roots_count(a, b.drop_last(), s);
        assert((a + b).drop_last() =~= a + b.drop_last());
        assert(resolved_roots(a + b) =~= resolved_roots(a) + resolved_roots(b));
    }
}

/// What is wrong with a name is told: the first character that may not stand in it, or what else it
/// is.
pub proof fn names_are_refused_with_the_reason(front: Seq<char>, c: char, rest: Seq<char>)
    requires
        vstd::utf8::encode_utf8(front.push(c) + rest).len() <= 255,
        forall|i: int| 0 <= i < front.len() ==> !forbidden(#[trigger] front[i]),
        forbidden(c),
        c != '\\',
    ensures
        name_error(Seq::empty()) == Some("name cannot be empty"@),
        name_error(front.push(c) + rest) == if (c as u32) < 32 {
            Some("name contains a control character"@)
        } else {
            Some("name contains an illegal character: "@ + seq!['\'', c, '\''])
        },
{
    let name = front.push(c) + rest;
    let k = front.len() as int;
    assert(name[k] == c);
    reveal_strlit(".");
    reveal_strlit("..");
    order::lemma_first_index(name, |x: char| forbidden(x), 0);
    match order::first_index(name, |x: char| forbidden(x), 0) {
        Some(i) => {
            if i < k {
                assert(name[i] == front[i]);
            }
            if i > k {
                assert(!(|x: char| forbidden(x))(name[k]));
            }
        },
        None => {
            assert(!(|x: char| forbidden(x))(name[k]));
        },
    }
    if name == "."@ {
        assert(name[k] == '.');
    }
    if name == ".."@ {
        assert(name[k] == '.');
    }
}

} // verus!
