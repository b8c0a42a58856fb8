//! What has the focus.
use crate::text;
use crate::utf16;
use vstd::prelude::*;
use vstd::slice::slice_subrange;

verus! {

/// The focused window: the file name of its program in small letters, and its title.
/// Either may be unknown.
#[derive(Debug, PartialEq, Eq)]
pub struct AppContext {
    pub exe: Option<String>,
    pub title: Option<String>,
}

/// The last component of a path, in small letters.
pub open spec fn file_name(path: Seq<char>) -> Seq<char> {
    text::lowercase(text::after_last(path, '\\', '/'))
}

/// The last component of the path of a program, in small letters.
pub fn exe_file_name(full_path: &str) -> (r: String)
    ensures
        r@ == file_name(full_path@),
{
    let chars = text::chars_of(full_path);
    let name = text::string_of(text::suffix_after_last(chars.as_slice(), '\\', '/'));
    name.as_str().to_lowercase()
}

/// The code units before the first zero.
pub open spec fn until_zero(buf: Seq<u16>) -> Seq<u16>
    decreases buf.len(),
{
    if buf.len() == 0 || buf[0] == 0 {
        Seq::empty()
    } else {
        seq![buf[0]] + until_zero(buf.skip(1))
    }
}

/// Decodes code units up to the first zero.
pub fn utf16_to_string(buf: &[u16]) -> (r: String)
    ensures
        r@ == utf16::decoded(until_zero(buf@)),
{
    let mut i: usize = 0;
    assert(buf@.skip(0) =~= buf@);
    assert(buf@.take(0) =~= Seq::empty());
    while i < buf.len() && buf[i] != 0
        invariant
            i <= buf@.len(),
            until_zero(buf@) =~= buf@.take(i as int) + until_zero(buf@.skip(i as int)),
        decreases buf@.len() - i,
    {
        assert(buf@.skip(i as int).skip(1) =~= buf@.skip(i + 1));
        assert(buf@.take(i + 1) =~= buf@.take(i as int).push(buf@[i as int]));
        i = i + 1;
    }
    assert(buf@.subrange(0, i as int) =~= until_zero(buf@));
    utf16::decode(slice_subrange(buf, 0, i))
}

/// A buffer ended by a zero decodes as the same buffer without it.
pub proof fn the_terminator_does_not_matter(buf: Seq<u16>)
    requires
        forall|i: int| 0 <= i < buf.len() ==> buf[i] != 0,
    ensures
        until_zero(buf) == buf,
        until_zero(buf.push(0)) == buf,
    decreases buf.len(),
{
    if buf.len() == 0 {
        assert(until_zero(buf) =~= buf);
        assert(until_zero(buf.push(0)) =~= buf);
    } else {
        let rest = buf.skip(1);
        assert forall|i: int| 0 <= i < rest.len() implies rest[i] != 0 by {
            assert(rest[i] == buf[i + 1]);
        }
        the_terminator_does_not_matter(rest);
        assert(buf.push(0).skip(1) =~= rest.push(0));
        assert(seq![buf[0]] + rest =~= buf);
        assert(until_zero(buf) =~= buf);
        assert(until_zero(buf.push(0)) =~= buf);
    }
}

/// A string, unless it is empty.
pub open spec fn non_empty(s: Seq<char>) -> Option<Seq<char>> {
    if s.len() == 0 {
        None
    } else {
        Some(s)
    }
}

/// What the buffers of the focused window hold, as far as they could be read.
pub open spec fn context_of(exe: Option<Seq<u16>>, title: Option<Seq<u16>>) -> (
    Option<Seq<char>>,
    Option<Seq<char>>,
) {
    (
        match exe {
            Some(b) => non_empty(file_name(utf16::decoded(until_zero(b)))),
            None => None,
        },
        match title {
            Some(b) => non_empty(utf16::decoded(until_zero(b))),
            None => None,
        },
    )
}

/// The contents of an optional buffer.
pub open spec fn opt_units(o: Option<&Vec<u16>>) -> Option<Seq<u16>> {
    match o {
        Some(v) => Some(v@),
        None => None,
    }
}

/// The focused window, given the path of its program and its title in UTF-16.
pub fn foreground(exe: Option<&Vec<u16>>, title: Option<&Vec<u16>>) -> (r: AppContext)
    ensures
        (text::opt_view(r.exe), text::opt_view(r.title)) == context_of(
            opt_units(exe),
            opt_units(title),
        ),
{
    let exe = match exe {
        Some(b) => {
            let path = utf16_to_string(b.as_slice());
            let name = exe_file_name(path.as_str());
            if name.as_str().is_empty() {
                None
            } else {
                Some(name)
            }
        },
        None => None,
    };
    let title = match title {
        Some(b) => {
            let t = utf16_to_string(b.as_slice());
            if t.as_str().is_empty() {
                None
            } else {
                Some(t)
            }
        },
        None => None,
    };
    AppContext { exe, title }
}

/// The program of the focused window.
pub open spec fn exe_in(fg: Option<&AppContext>) -> Option<Seq<char>> {
    match fg {
        Some(c) => text::opt_view(c.exe),
        None => None,
    }
}

/// The title of the focused window.
pub open spec fn title_in(fg: Option<&AppContext>) -> Option<Seq<char>> {
    match fg {
        Some(c) => text::opt_view(c.title),
        None => None,
    }
}

/// The program of the focused window.
pub fn foreground_exe(fg: Option<&AppContext>) -> (r: Option<&str>)
    ensures
        text::opt_str(r) == exe_in(fg),
{
    match fg {
        Some(c) => match &c.exe {
            Some(e) => Some(e.as_str()),
            None => None,
        },
        None => None,
    }
}

/// The title of the focused window.
pub fn foreground_title(fg: Option<&AppContext>) -> (r: Option<&str>)
    ensures
        text::opt_str(r) == title_in(fg),
{
    match fg {
        Some(c) => match &c.title {
            Some(t) => Some(t.as_str()),
            None => None,
        },
        None => None,
    }
}

/// What comes before the first zero is taken, and nothing behind it; without a zero it is all.
pub proof fn text_ends_at_the_first_zero(buf: Seq<u16>, rest: Seq<u16>)
    requires
        forall|i: int| 0 <= i < buf.len() ==> buf[i] != 0,
    ensures
        until_zero(buf) == buf,
        until_zero(buf.push(0) + rest) == buf,
    decreases buf.len(),
{
    let whole = buf.push(0) + rest;
    if buf.len() > 0 {
        let tail = buf.skip(1);
        assert forall|i: int| 0 <= i < tail.len() implies tail[i] != 0 by {
            assert(tail[i] == buf[i + 1]);
        }
        text_ends_at_the_first_zero(tail, rest);
        assert(whole.skip(1) =~= tail.push(0) + rest);
        assert(until_zero(buf) =~= buf);
        assert(until_zero(whole) =~= buf);
    } else {
        assert(buf =~= Seq::empty());
    }
}

/// The name of a program is what follows the last separator of its path, whichever of the two
/// separators that is, in small letters.
pub proof fn programs_go_by_their_file_name(folder: Seq<char>, name: Seq<char>)
    requires
        !name.contains('\\'),
        !name.contains('/'),
    ensures
        file_name(folder.push('\\') + name) == text::lowercase(name),
        file_name(folder.push('/') + name) == text::lowercase(name),
        file_name(name) == text::lowercase(name),
{
    text::what_stands_behind_a_separator(folder, '\\', name, '\\', '/');
    text::what_stands_behind_a_separator(folder, '/', name, '\\', '/');
}

/// The program and the title are read each from its own buffer; an empty one is none.
pub proof fn program_and_title_are_told_apart(exe: Option<Seq<u16>>, title: Option<Seq<u16>>)
    ensures
        exe is None ==> context_of(exe, title).0 is None,
        title is None ==> context_of(exe, title).1 is None,
        exe matches Some(b) ==> ({
            let name = text::lowercase(
                text::after_last(utf16::decoded(until_zero(b)), '\\', '/'),
            );
            context_of(exe, title).0 == if name.len() == 0 {
                None
            } else {
                Some(name)
            }
        }),
        title matches Some(b) ==> ({
            let words = utf16::decoded(until_zero(b));
            context_of(exe, title).1 == if words.len() == 0 {
                None
            } else {
                Some(words)
            }
        }),
{
}

} // verus!
