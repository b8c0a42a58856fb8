//! The logic behind searching, downloading, uploading, listing changes, peeking at a
//! session and spawning one.
use crate::json;
use crate::json::Json;
use crate::text;
use vstd::prelude::*;
use vstd::slice::slice_subrange;

verus! {

// ---------------------------------------------------------------- searching

/// A folder that a search does not descend into.
pub open spec fn skipped(name: Seq<char>) -> bool {
    ||| text::eq_ignore_case("node_modules"@, name)
    ||| text::eq_ignore_case(".git"@, name)
    ||| text::eq_ignore_case("target"@, name)
    ||| text::eq_ignore_case("__pycache__"@, name)
    ||| text::eq_ignore_case("venv"@, name)
    ||| text::eq_ignore_case(".venv"@, name)
    ||| text::eq_ignore_case("$RECYCLE.BIN"@, name)
    ||| text::eq_ignore_case("System Volume Information"@, name)
    ||| text::eq_ignore_case("Windows"@, name)
    ||| text::eq_ignore_case("Program Files"@, name)
    ||| text::eq_ignore_case("Program Files (x86)"@, name)
    ||| text::eq_ignore_case("ProgramData"@, name)
    ||| text::eq_ignore_case("AppData"@, name)
}

/// Whether a search leaves out the folder of that name.
pub fn is_skipped_dir(name: &str) -> (r: bool)
    ensures
        r == skipped(name@),
{
    text::equals_ignore_case("node_modules", name)
        || text::equals_ignore_case(".git", name)
        || text::equals_ignore_case("target", name)
        || text::equals_ignore_case("__pycache__", name)
        || text::equals_ignore_case("venv", name)
        || text::equals_ignore_case(".venv", name)
        || text::equals_ignore_case("$RECYCLE.BIN", name)
        || text::equals_ignore_case("System Volume Information", name)
        || text::equals_ignore_case("Windows", name)
        || text::equals_ignore_case("Program Files", name)
        || text::equals_ignore_case("Program Files (x86)", name)
        || text::equals_ignore_case("ProgramData", name)
        || text::equals_ignore_case("AppData", name)
}

/// Whether the entry's name holds the query, blind to case.
pub fn name_matches(entry_name: &str, query: &str) -> (r: bool)
    ensures
        r == text::contains(text::lowercase(entry_name@), text::lowercase(query@)),
{
    let name = entry_name.to_lowercase();
    let needle = query.to_lowercase();
    text::contains_str(name.as_str(), needle.as_str())
}

// ---------------------------------------------------------------- downloading

/// The content type for an extension in small letters.
pub open spec fn content_type(ext: Seq<char>) -> Seq<char> {
    if ext == "json"@ {
        "application/json"@
    } else if ext == "html"@ || ext == "htm"@ {
        "text/html; charset=utf-8"@
    } else if ext == "txt"@ || ext == "md"@ || ext == "log"@ || ext == "js"@ || ext == "mjs"@ || ext == "ts"@ || ext == "rs"@ || ext == "py"@ || ext == "toml"@ || ext == "yaml"@ || ext == "yml"@ || ext == "css"@ || ext == "csv"@ || ext == "sql"@ || ext == "sh"@ || ext == "ps1"@ || ext == "bat"@ || ext == "xml"@ || ext == "ini"@ || ext == "cfg"@ || ext == "conf"@ || ext == "lock"@ || ext == "gitignore"@ {
        "text/plain; charset=utf-8"@
    } else if ext == "png"@ {
        "image/png"@
    } else if ext == "jpg"@ || ext == "jpeg"@ {
        "image/jpeg"@
    } else if ext == "gif"@ {
        "image/gif"@
    } else if ext == "webp"@ {
        "image/webp"@
    } else if ext == "svg"@ {
        "image/svg+xml"@
    } else if ext == "ico"@ {
        "image/x-icon"@
    } else if ext == "bmp"@ {
        "image/bmp"@
    } else if ext == "pdf"@ {
        "application/pdf"@
    } else {
        "application/octet-stream"@
    }
}

/// The content type of a file, guessed from what follows the last dot of its name.
pub fn content_type_for(name: &str) -> (r: &'static str)
    ensures
        r@ == content_type(text::ascii_lower(text::after_last(name@, '.', '.'))),
{
    let chars = text::chars_of(name);
    let tail = text::string_of(text::suffix_after_last(chars.as_slice(), '.', '.'));
    let ext = text::to_ascii_lower(tail.as_str());
    let e = ext.as_str();
    if text::same(e, "json") {
        return "application/json";
    }
    if text::same(e, "html") || text::same(e, "htm") {
        return "text/html; charset=utf-8";
    }
    if text::same(e, "txt") || text::same(e, "md") || text::same(e, "log") || text::same(e, "js") || text::same(e, "mjs") || text::same(e, "ts") || text::same(e, "rs") || text::same(e, "py") || text::same(e, "toml") || text::same(e, "yaml") || text::same(e, "yml") || text::same(e, "css") || text::same(e, "csv") || text::same(e, "sql") || text::same(e, "sh") || text::same(e, "ps1") || text::same(e, "bat") || text::same(e, "xml") || text::same(e, "ini") || text::same(e, "cfg") || text::same(e, "conf") || text::same(e, "lock") || text::same(e, "gitignore") {
        return "text/plain; charset=utf-8";
    }
    if text::same(e, "png") {
        return "image/png";
    }
    if text::same(e, "jpg") || text::same(e, "jpeg") {
        return "image/jpeg";
    }
    if text::same(e, "gif") {
        return "image/gif";
    }
    if text::same(e, "webp") {
        return "image/webp";
    }
    if text::same(e, "svg") {
        return "image/svg+xml";
    }
    if text::same(e, "ico") {
        return "image/x-icon";
    }
    if text::same(e, "bmp") {
        return "image/bmp";
    }
    if text::same(e, "pdf") {
        return "application/pdf";
    }
    "application/octet-stream"
}

/// Every character is ASCII.
pub open spec fn all_ascii(s: Seq<char>) -> bool {
    forall|i: int| 0 <= i < s.len() ==> (#[trigger] s[i] as u32) < 128
}

/// The name can stand between double quotes in a header as it is.
pub open spec fn plain_name(s: Seq<char>) -> bool {
    all_ascii(s) && !s.contains('"') && !s.contains('\\')
}

/// A character that can stand between double quotes in a header, or an underscore.
pub open spec fn header_char(c: char) -> char {
    if (c as u32) < 128 && c != '"' && c != '\\' {
        c
    } else {
        '_'
    }
}

/// A byte that stands for itself in an extended header value.
pub open spec fn attr_byte(b: u8) -> bool {
    ||| text::ascii_alphanumeric(b as char)
    ||| b == 33
    ||| b == 35
    ||| b == 36
    ||| b == 38
    ||| b == 43
    ||| b == 45
    ||| b == 46
    ||| b == 94
    ||| b == 95
    ||| b == 96
    ||| b == 124
    ||| b == 126
}

/// A byte in an extended header value: itself, or a percent sign and two hexadecimal
/// digits.
pub open spec fn percent_byte(b: u8) -> Seq<char> {
    if attr_byte(b) {
        seq![b as char]
    } else {
        seq!['%', text::hex_digit((b / 16) as int, true), text::hex_digit((b % 16) as int, true)]
    }
}

/// Bytes in an extended header value.
pub open spec fn percent_encoded(b: Seq<u8>) -> Seq<char>
    decreases b.len(),
{
    if b.len() == 0 {
        Seq::empty()
    } else {
        percent_encoded(b.drop_last()) + percent_byte(b.last())
    }
}

/// Percent-encodes the UTF-8 bytes of `s`.
pub fn rfc5987_encode(s: &str) -> (r: String)
    ensures
        r@ == percent_encoded(vstd::utf8::encode_utf8(s@)),
{
    let data = s.as_bytes();
    let mut out = String::new();
    let mut i: usize = 0;
    assert(out@ =~= percent_encoded(data@.take(0)));
    while i < data.len()
        invariant
            i <= data@.len(),
            out@ == percent_encoded(data@.take(i as int)),
        decreases data@.len() - i,
    {
        let b: u8 = data[i];
        let ghost o = out@;
        assert(data@.take(i + 1).drop_last() =~= data@.take(i as int));
        let keep = text::is_ascii_alphanumeric(b as char) || b == 33 || b == 35 || b == 36 || b
            == 38 || b == 43 || b == 45 || b == 46 || b == 94 || b == 95 || b == 96 || b == 124 || b
            == 126;
        if keep {
            out.push(b as char);
        } else {
            out.push('%');
            out.push(text::hex_digit_of(b / 16, true));
            out.push(text::hex_digit_of(b % 16, true));
        }
        assert(out@ =~= o + percent_byte(b));
        i = i + 1;
    }
    assert(data@.take(i as int) =~= data@);
    out
}

/// The value of a hexadecimal digit in capitals.
pub open spec fn hex_value(c: char) -> int {
    if '0' <= c <= '9' {
        c as int - 48
    } else {
        c as int - 55
    }
}

/// The bytes that an extended header value stands for.
pub open spec fn percent_decoded(s: Seq<char>) -> Seq<u8>
    decreases s.len(),
{
    if s.len() == 0 {
        Seq::empty()
    } else if s[0] == '%' && s.len() >= 3 {
        seq![(hex_value(s[1]) * 16 + hex_value(s[2])) as u8] + percent_decoded(s.skip(3))
    } else {
        seq![s[0] as u8] + percent_decoded(s.skip(1))
    }
}

proof fn lemma_percent_front(b: Seq<u8>)
    requires
        b.len() > 0,
    ensures
        percent_encoded(b) == percent_byte(b[0]) + percent_encoded(b.drop_first()),
    decreases b.len(),
{
    let t = b.drop_first();
    if b.len() == 1 {
        assert(percent_encoded(b.drop_last()) =~= Seq::empty());
        assert(percent_encoded(t) =~= Seq::empty());
        assert(percent_encoded(b) =~= percent_byte(b[0]) + percent_encoded(t));
    } else {
        lemma_percent_front(b.drop_last());
        assert(b.drop_last().drop_first() =~= t.drop_last());
        assert(percent_encoded(b) =~= percent_byte(b[0]) + (percent_encoded(t.drop_last())
            + percent_byte(t.last())));
    }
}

/// An extended header value gives back the bytes it was made of.
pub proof fn percent_encoding_can_be_undone(b: Seq<u8>)
    ensures
        percent_decoded(percent_encoded(b)) == b,
    decreases b.len(),
{
    if b.len() > 0 {
        lemma_percent_front(b);
        percent_encoding_can_be_undone(b.drop_first());
        let x = b[0];
        let rest = percent_encoded(b.drop_first());
        let e = percent_byte(x) + rest;
        if attr_byte(x) {
            assert(e[0] == x as char);
            assert(e.skip(1) =~= rest);
            assert(percent_decoded(e) =~= seq![x] + b.drop_first());
        } else {
            assert(e[1] == text::hex_digit((x / 16) as int, true));
            assert(e[2] == text::hex_digit((x % 16) as int, true));
            assert(hex_value(e[1]) == x / 16);
            assert(hex_value(e[2]) == x % 16);
            assert(e.skip(3) =~= rest);
            assert(percent_decoded(e) =~= seq![x] + b.drop_first());
        }
        assert(seq![x] + b.drop_first() =~= b);
    }
}

/// An extended header value is ASCII and holds neither quotes, spaces nor semicolons.
pub proof fn percent_encoding_is_header_safe(b: Seq<u8>)
    ensures
        all_ascii(percent_encoded(b)),
        !percent_encoded(b).contains('"'),
        !percent_encoded(b).contains(' '),
        !percent_encoded(b).contains(';'),
    decreases b.len(),
{
    if b.len() > 0 {
        let front = percent_encoded(b.drop_last());
        percent_encoding_is_header_safe(b.drop_last());
        let e = percent_encoded(b);
        let tail = percent_byte(b.last());
        assert forall|i: int| 0 <= i < e.len() implies (#[trigger] e[i] as u32) < 128 && e[i] != '"'
            && e[i] != ' ' && e[i] != ';' by {
            if i < front.len() {
                assert(front.contains(front[i]));
            } else {
                assert(e[i] == tail[i - front.len()]);
            }
        }
    }
}

/// The `Content-Disposition` of a file.
pub open spec fn disposition_of(disposition: Seq<char>, filename: Seq<char>) -> Seq<char> {
    let kind = if disposition == "inline"@ {
        "inline"@
    } else {
        "attachment"@
    };
    if plain_name(filename) {
        kind + "; filename=\""@ + filename + "\""@
    } else {
        kind + "; filename=\""@ + filename.map_values(|c: char| header_char(c))
            + "\"; filename*=UTF-8''"@ + percent_encoded(vstd::utf8::encode_utf8(filename))
    }
}

/// Builds a `Content-Disposition` value. A name that is not plain is given twice: with
/// underscores for what cannot stand in quotes, and percent-encoded.
pub fn content_disposition(disposition: &str, filename: &str) -> (r: String)
    ensures
        r@ == disposition_of(disposition@, filename@),
{
    let kind = if text::same(disposition, "inline") {
        "inline"
    } else {
        "attachment"
    };
    let name = text::chars_of(filename);
    let mut ascii = true;
    let mut fallback = String::new();
    let ghost f = |c: char| header_char(c);
    let mut i: usize = 0;
    assert(fallback@ =~= name@.take(0).map_values(f));
    while i < name.len()
        invariant
            i <= name@.len(),
            f == (|c: char| header_char(c)),
            fallback@ == name@.take(i as int).map_values(f),
            ascii == forall|k: int| 0 <= k < i ==> (#[trigger] name@[k] as u32) < 128,
        decreases name@.len() - i,
    {
        let c = name[i];
        let small = (c as u32) < 128;
        if !small {
            ascii = false;
        }
        fallback.push(
            if small && c != '"' && c != '\\' {
                c
            } else {
                '_'
            },
        );
        i = i + 1;
        assert(fallback@ =~= name@.take(i as int).map_values(f));
    }
    assert(name@.take(i as int) =~= name@);
    let plain = ascii && !text::contains_char(name.as_slice(), '"') && !text::contains_char(
        name.as_slice(),
        '\\',
    );
    let mut out = text::owned(kind);
    out.append("; filename=\"");
    if plain {
        out.append(filename);
        out.append("\"");
    } else {
        out.append(fallback.as_str());
        out.append("\"; filename*=UTF-8''");
        let encoded = rfc5987_encode(filename);
        out.append(encoded.as_str());
    }
    out
}

// ---------------------------------------------------------------- uploading

/// The stem and the extension of a name. A name without a dot, with none but the
/// leading one, or with nothing behind the last one has no extension.
pub open spec fn stem_and_extension(name: Seq<char>) -> (Seq<char>, Option<Seq<char>>) {
    let ext = text::after_last(name, '.', '.');
    if 0 < ext.len() && ext.len() + 1 < name.len() {
        (name.take(name.len() - ext.len() - 1), Some(ext))
    } else {
        (name, None)
    }
}

/// The name with a number in parentheses before the extension.
pub open spec fn numbered(name: Seq<char>, n: nat) -> Seq<char> {
    let (stem, ext) = stem_and_extension(name);
    let base = stem + " ("@ + text::decimal(n) + ")"@;
    match ext {
        Some(e) => base + "."@ + e,
        None => base,
    }
}

/// The stem and the extension of a name.
pub fn split_stem_ext(name: &str) -> (r: (String, Option<String>))
    ensures
        (r.0@, text::opt_view(r.1)) == stem_and_extension(name@),
{
    let chars = text::chars_of(name);
    let n: usize = chars.len();
    let ext = text::suffix_after_last(chars.as_slice(), '.', '.');
    proof {
        text::lemma_after_last(name@, '.', '.');
    }
    let e: usize = ext.len();
    if e > 0 && n - e > 1 {
        assert(chars@.subrange(0, n - e - 1) =~= name@.take(n - e - 1));
        (
            text::string_of(slice_subrange(chars.as_slice(), 0, n - e - 1)),
            Some(text::string_of(ext)),
        )
    } else {
        (text::owned(name), None)
    }
}

/// The name with a number in parentheses.
fn with_number(stem: &str, ext: &Option<String>, n: u64) -> (r: String)
    ensures
        r@ == {
            let base = stem@ + " ("@ + text::decimal(n as nat) + ")"@;
            match text::opt_view(*ext) {
                Some(e) => base + "."@ + e,
                None => base,
            }
        },
{
    let mut out = text::owned(stem);
    out.append(" (");
    text::push_decimal(&mut out, n);
    out.append(")");
    if let Some(e) = ext {
        out.append(".");
        out.append(e.as_str());
    }
    out
}

/// The question whether a name is taken was answered with `b`.
pub open spec fn answered<F: Fn(&str) -> bool>(taken: F, name: Seq<char>, b: bool) -> bool {
    exists|x: &str| x@ == name && #[trigger] call_ensures(taken, (x,), b)
}

/// Every numbered name from 2 up to `n`, without that one, was found taken.
pub open spec fn all_taken_below<F: Fn(&str) -> bool>(taken: F, name: Seq<char>, n: int) -> bool {
    forall|k: int| 2 <= k < n ==> #[trigger] answered(taken, numbered(name, k as nat), true)
}

/// A name for a new file: `name` itself if it is free, else the first of the numbered
/// ones that is. After a hundred thousand taken names the next number is used unasked.
pub fn collision_free_name<F: Fn(&str) -> bool>(name: &str, taken: F) -> (r: String)
    requires
        forall|x: &str| #[trigger] call_requires(taken, (x,)),
    ensures
        ({
            ||| r@ == name@ && answered(taken, name@, false)
            ||| exists|n: int|
                {
                    &&& 2 <= n <= 100_000
                    &&& r@ == numbered(name@, n as nat)
                    &&& answered(taken, name@, true)
                    &&& answered(taken, r@, false)
                    &&& #[trigger] all_taken_below(taken, name@, n)
                }
            ||| r@ == numbered(name@, 100_001) && answered(taken, name@, true) && all_taken_below(
                taken,
                name@,
                100_001,
            )
        }),
{
    if !taken(name) {
        return text::owned(name);
    }
    let (stem, ext) = split_stem_ext(name);
    let mut n: u64 = 2;
    while n <= 100_000
        invariant
            forall|x: &str| #[trigger] call_requires(taken, (x,)),
            2 <= n <= 100_001,
            (stem@, text::opt_view(ext)) == stem_and_extension(name@),
            answered(taken, name@, true),
            all_taken_below(taken, name@, n as int),
        decreases 100_001 - n,
    {
        let candidate = with_number(stem.as_str(), &ext, n);
        assert(candidate@ == numbered(name@, n as nat));
        if !taken(candidate.as_str()) {
            assert(answered(taken, candidate@, false));
            return candidate;
        }
        assert(answered(taken, numbered(name@, n as nat), true));
        n = n + 1;
    }
    with_number(stem.as_str(), &ext, n)
}

// ---------------------------------------------------------------- changes

/// A changed file: its status and its path.
#[derive(Debug, PartialEq, Eq)]
pub struct GitChange {
    pub status: String,
    pub path: String,
}

/// A changed file, mathematically.
#[verifier::ext_equal]
pub struct GitView {
    pub status: Seq<char>,
    pub path: Seq<char>,
}

impl View for GitChange {
    type V = GitView;

    open spec fn view(&self) -> GitView {
        GitView { status: self.status@, path: self.path@ }
    }
}

/// The view of an optional change.
pub open spec fn opt_change(o: Option<GitChange>) -> Option<GitView> {
    match o {
        Some(c) => Some(c@),
        None => None,
    }
}

/// Too short for a status, a space and a path: less than four bytes.
pub open spec fn too_short(line: Seq<char>) -> bool {
    vstd::utf8::encode_utf8(line).len() < 4
}

/// A line of two columns in one character of two bytes, a column between, and no path
/// behind them.
pub open spec fn lacks_path(line: Seq<char>) -> bool {
    &&& line.len() >= 2
    &&& 128 <= (line[0] as u32) < 2048
    &&& (line[1] as u32) < 128
    &&& text::trim_end_of(line.skip(2), '\r', '\n').len() == 0
}

/// A line that can be cut into a status of two columns, a column between and a path, or
/// that has no path.
pub open spec fn has_columns(line: Seq<char>) -> bool {
    ||| too_short(line)
    ||| lacks_path(line)
    ||| line.len() >= 3 && (line[0] as u32) < 128 && (line[1] as u32) < 128 && (line[2] as u32)
        < 128
}

/// The status to show: the doubled code of an untracked or an ignored file, else the
/// first column, or the second where the first is blank.
pub open spec fn shown_status(x: char, y: char) -> Seq<char> {
    if x == '?' && y == '?' {
        "??"@
    } else if x == '!' && y == '!' {
        "!!"@
    } else if x != ' ' {
        seq![x]
    } else {
        seq![y]
    }
}

/// The change that a porcelain line tells of. Where the path holds ` -> `, as that of a rename
/// or a copy does, it is what stands behind the first.
pub open spec fn change_of(line: Seq<char>) -> Option<GitView> {
    let rest = text::trim_end_of(line.skip(3), '\r', '\n');
    if too_short(line) || lacks_path(line) || rest.len() == 0 {
        None
    } else {
        Some(
            GitView {
                status: shown_status(line[0], line[1]),
                path: match text::find_from(rest, " -> "@, 0) {
                    Some(k) => rest.skip(k + 4),
                    None => rest,
                },
            },
        )
    }
}

/// Parses one porcelain line; nothing for a blank or a short one.
pub fn parse_porcelain_line(line: &str) -> (r: Option<GitChange>)
    requires
        has_columns(line@),
    ensures
        opt_change(r) == change_of(line@),
{
    if line.as_bytes().len() < 4 {
        return None;
    }
    let s = text::chars_of(line);
    let n: usize = s.len();
    if s[0] as u32 >= 128 {
        return None;
    }
    assert(s@.subrange(3, n as int) =~= line@.skip(3));
    let rest = text::without_trailing(slice_subrange(s.as_slice(), 3, n), '\r', '\n');
    if rest.len() == 0 {
        return None;
    }
    let x = s[0];
    let y = s[1];
    let status = if x == '?' && y == '?' {
        text::owned("??")
    } else if x == '!' && y == '!' {
        text::owned("!!")
    } else {
        let mut one = String::new();
        one.push(
            if x != ' ' {
                x
            } else {
                y
            },
        );
        assert(one@ =~= shown_status(x, y));
        one
    };
    let arrow = text::chars_of(" -> ");
    proof {
        reveal_strlit(" -> ");
    }
    let path = match text::position_from(rest, arrow.as_slice(), 0) {
        Some(k) => {
            let m: usize = rest.len();
            assert(rest@.subrange(k + 4, m as int) =~= rest@.skip(k + 4));
            text::string_of(slice_subrange(rest, k + 4, m))
        },
        None => text::string_of(rest),
    };
    Some(GitChange { status, path })
}

// ---------------------------------------------------------------- peeking

/// The folder of a working directory's transcripts: every character that is not an
/// ASCII letter or digit becomes a hyphen.
pub fn project_slug(cwd: &str) -> (r: String)
    ensures
        r@ == slug(cwd@),
{
    let mut out = String::new();
    for c in it: cwd.chars()
        invariant
            out@ == slug(it.seq().take(it.index() as int)),
            it.seq() == cwd@,
    {
        out.push(
            if text::is_ascii_alphanumeric(c) {
                c
            } else {
                '-'
            },
        );
        assert(out@ =~= slug(it.seq().take(it.index() + 1)));
    }
    assert(cwd@.take(cwd@.len() as int) =~= cwd@);
    out
}

/// Every character that is not an ASCII letter or digit becomes a hyphen.
pub open spec fn slug(cwd: Seq<char>) -> Seq<char> {
    cwd.map_values(
        |c: char|
            if text::ascii_alphanumeric(c) {
                c
            } else {
                '-'
            },
    )
}

/// A transcript file that may belong to a session.
#[derive(Debug, PartialEq, Eq)]
pub struct PeekCandidate {
    pub name: String,
    pub created_ms: u64,
    pub modified_ms: u64,
}

/// How long before a session's start its transcript may have been created.
pub const CREATED_SLACK_MS: u64 = 15_000;

/// How long before a session's start its transcript may last have been written.
pub const MODIFIED_SLACK_MS: u64 = 60_000;

/// `a - b`, not below zero.
pub open spec fn minus(a: u64, b: u64) -> int {
    if a >= b {
        a - b
    } else {
        0
    }
}

/// The candidate was created no earlier than `floor`, none such was created before it,
/// and it is the first of those created at that moment.
pub open spec fn earliest_created(c: Seq<PeekCandidate>, floor: int, i: int) -> bool {
    &&& 0 <= i < c.len()
    &&& c[i].created_ms >= floor
    &&& forall|j: int|
        0 <= j < c.len() && (#[trigger] c[j]).created_ms >= floor ==> c[i].created_ms
            <= c[j].created_ms && (j < i ==> c[i].created_ms < c[j].created_ms)
}

/// The candidate was written no earlier than `floor`, none was written after it, and it
/// is the first of those written at that moment.
pub open spec fn latest_modified(c: Seq<PeekCandidate>, floor: int, i: int) -> bool {
    &&& 0 <= i < c.len()
    &&& c[i].modified_ms >= floor
    &&& forall|j: int|
        0 <= j < c.len() && (#[trigger] c[j]).modified_ms >= floor ==> c[i].modified_ms
            >= c[j].modified_ms && (j < i ==> c[i].modified_ms > c[j].modified_ms)
}

/// The transcript of a session that began at `started_at_ms`: the earliest created at or
/// after that moment, give or take; only where there is none, the one last written.
pub fn select_peek_file(candidates: &[PeekCandidate], started_at_ms: u64) -> (r: Option<String>)
    ensures
        ({
            let c = candidates@;
            let created = minus(started_at_ms, CREATED_SLACK_MS);
            let modified = minus(started_at_ms, MODIFIED_SLACK_MS);
            let by_creation = exists|i: int| 0 <= i < c.len() && (#[trigger] c[i]).created_ms >= created;
            match r {
                Some(name) => if by_creation {
                    exists|i: int|
                        #[trigger] earliest_created(c, created, i) && name@ == c[i].name@
                } else {
                    exists|i: int|
                        #[trigger] latest_modified(c, modified, i) && name@ == c[i].name@
                },
                None => !by_creation && forall|i: int|
                    0 <= i < c.len() ==> (#[trigger] c[i]).modified_ms < modified,
            }
        }),
{
    let created_floor: u64 = if started_at_ms >= CREATED_SLACK_MS {
        started_at_ms - CREATED_SLACK_MS
    } else {
        0
    };
    let modified_floor: u64 = if started_at_ms >= MODIFIED_SLACK_MS {
        started_at_ms - MODIFIED_SLACK_MS
    } else {
        0
    };
    let ghost c = candidates@;
    let mut best: Option<usize> = None;
    let mut i: usize = 0;
    while i < candidates.len()
        invariant
            i <= candidates@.len(),
            c == candidates@,
            match best {
                Some(b) => b < i && c[b as int].created_ms >= created_floor && forall|j: int|
                    0 <= j < i && (#[trigger] c[j]).created_ms >= created_floor
                        ==> c[b as int].created_ms <= c[j].created_ms && (j < b
                        ==> c[b as int].created_ms < c[j].created_ms),
                None => forall|j: int| 0 <= j < i ==> (#[trigger] c[j]).created_ms < created_floor,
            },
        decreases candidates@.len() - i,
    {
        if candidates[i].created_ms >= created_floor {
            match best {
                Some(b) => {
                    if candidates[b].created_ms > candidates[i].created_ms {
                        best = Some(i);
                    }
                },
                None => {
                    best = Some(i);
                },
            }
        }
        i = i + 1;
    }
    if let Some(b) = best {
        assert(earliest_created(c, created_floor as int, b as int));
        return Some(text::owned(candidates[b].name.as_str()));
    }
    assert(forall|j: int| 0 <= j < c.len() ==> (#[trigger] c[j]).created_ms < created_floor);
    assert(created_floor == minus(started_at_ms, CREATED_SLACK_MS));
    assert(modified_floor == minus(started_at_ms, MODIFIED_SLACK_MS));
    let mut newest: Option<usize> = None;
    let mut k: usize = 0;
    while k < candidates.len()
        invariant
            k <= candidates@.len(),
            c == candidates@,
            match newest {
                Some(b) => b < k && c[b as int].modified_ms >= modified_floor && forall|j: int|
                    0 <= j < k && (#[trigger] c[j]).modified_ms >= modified_floor
                        ==> c[b as int].modified_ms >= c[j].modified_ms && (j < b
                        ==> c[b as int].modified_ms > c[j].modified_ms),
                None => forall|j: int|
                    0 <= j < k ==> (#[trigger] c[j]).modified_ms < modified_floor,
            },
        decreases candidates@.len() - k,
    {
        if candidates[k].modified_ms >= modified_floor {
            match newest {
                Some(b) => {
                    if candidates[b].modified_ms < candidates[k].modified_ms {
                        newest = Some(k);
                    }
                },
                None => {
                    newest = Some(k);
                },
            }
        }
        k = k + 1;
    }
    match newest {
        Some(b) => {
            assert(latest_modified(c, modified_floor as int, b as int));
            Some(text::owned(candidates[b].name.as_str()))
        },
        None => None,
    }
}

/// At most `max` characters, with an ellipsis behind them where something was cut off.
pub open spec fn truncated(s: Seq<char>, max: int) -> Seq<char> {
    if s.len() <= max {
        s
    } else {
        s.take(max).push('\u{2026}')
    }
}

/// At most `max` characters, with an ellipsis where something was cut off.
pub fn truncate_chars(s: &[char], max: usize) -> (r: Vec<char>)
    ensures
        r@ == truncated(s@, max as int),
{
    let mut out: Vec<char> = Vec::new();
    if s.len() <= max {
        text::extend(&mut out, s);
        assert(out@ =~= s@);
    } else {
        assert(s@.subrange(0, max as int) =~= s@.take(max as int));
        text::extend(&mut out, slice_subrange(s, 0, max));
        out.push('\u{2026}');
        assert(out@ =~= truncated(s@, max as int));
    }
    out
}

/// A line of a transcript, in short.
#[derive(Debug, PartialEq, Eq)]
pub struct PeekLine {
    pub role: String,
    pub text: String,
}

/// A line of a transcript, mathematically.
#[verifier::ext_equal]
pub struct PeekView {
    pub role: Seq<char>,
    pub text: Seq<char>,
}

impl View for PeekLine {
    type V = PeekView;

    open spec fn view(&self) -> PeekView {
        PeekView { role: self.role@, text: self.text@ }
    }
}

/// The view of an optional line.
pub open spec fn opt_line(o: Option<PeekLine>) -> Option<PeekView> {
    match o {
        Some(l) => Some(l@),
        None => None,
    }
}

/// How many characters of a text are shown.
pub const PEEK_CHARS: usize = 200;

/// What a block of a message shows: the beginning of a text, the name of a tool in use,
/// a note for a tool's result; nothing for any other block.
pub open spec fn block_text(b: json::JsonView) -> Option<Seq<char>> {
    let kind = json::text_field(b, "type"@);
    if kind == Some("text"@) {
        match json::text_field(b, "text"@) {
            Some(t) => if text::blank(t) {
                None
            } else {
                Some(truncated(text::trimmed(t), PEEK_CHARS as int))
            },
            None => None,
        }
    } else if kind == Some("tool_use"@) {
        let name = match json::text_field(b, "name"@) {
            Some(n) => n,
            None => "tool"@,
        };
        Some("[tool: "@ + name + "]"@)
    } else if kind == Some("tool_result"@) {
        Some("[tool result]"@)
    } else {
        None
    }
}

/// What the blocks show, without those that show nothing.
pub open spec fn block_texts(blocks: Seq<json::JsonView>) -> Seq<Seq<char>>
    decreases blocks.len(),
{
    if blocks.len() == 0 {
        Seq::empty()
    } else {
        match block_text(blocks.last()) {
            Some(t) => block_texts(blocks.drop_last()).push(t),
            None => block_texts(blocks.drop_last()),
        }
    }
}

/// What the content of a message shows.
pub open spec fn content_text(content: json::JsonView) -> Seq<char> {
    match content {
        json::JsonView::Text(s) => truncated(text::trimmed(s), PEEK_CHARS as int),
        json::JsonView::List(blocks) => text::join(block_texts(blocks), " "@),
        _ => Seq::empty(),
    }
}

/// The line that an entry of a transcript shows: a message of the user or of the
/// assistant that has something to show.
pub open spec fn peek_line(v: json::JsonView) -> Option<PeekView> {
    let kind = json::text_field(v, "type"@);
    match json::field(v, "message"@) {
        Some(message) => match (json::text_field(message, "role"@), json::field(
            message,
            "content"@,
        )) {
            (Some(role), Some(content)) => if (kind == Some("user"@) || kind == Some(
                "assistant"@,
            )) && content_text(content).len() > 0 {
                Some(PeekView { role, text: content_text(content) })
            } else {
                None
            },
            _ => None,
        },
        None => None,
    }
}

/// What a block of a message shows.
fn show_block(b: &Json) -> (r: Option<String>)
    ensures
        text::opt_view(r) == block_text(b@),
{
    let kind = match b.text_field("type") {
        Some(k) => k,
        None => return None,
    };
    if text::same(kind, "text") {
        match b.text_field("text") {
            Some(t) => {
                let chars = text::chars_of(t);
                let trimmed = text::trim_chars(chars.as_slice());
                if trimmed.len() == 0 {
                    None
                } else {
                    let cut = truncate_chars(trimmed, PEEK_CHARS);
                    Some(text::string_of(cut.as_slice()))
                }
            },
            None => None,
        }
    } else if text::same(kind, "tool_use") {
        let name = match b.text_field("name") {
            Some(n) => n,
            None => "tool",
        };
        proof {
            lemma_kinds_differ();
        }
        let mut out = text::owned("[tool: ");
        out.append(name);
        out.append("]");
        Some(out)
    } else if text::same(kind, "tool_result") {
        proof {
            lemma_kinds_differ();
        }
        Some(text::owned("[tool result]"))
    } else {
        None
    }
}

proof fn lemma_kinds_differ()
    ensures
        "text"@ != "tool_use"@,
        "text"@ != "tool_result"@,
        "tool_use"@ != "tool_result"@,
{
    reveal_strlit("text");
    reveal_strlit("tool_use");
    reveal_strlit("tool_result");
    assert("text"@.len() == 4 && "tool_use"@.len() == 8 && "tool_result"@.len() == 11);
}

/// Extracts what an entry of a transcript shows.
pub fn peek_line_from_json(v: &Json) -> (r: Option<PeekLine>)
    ensures
        opt_line(r) == peek_line(v@),
{
    match v.text_field("type") {
        Some(kind) => {
            if !text::same(kind, "user") && !text::same(kind, "assistant") {
                return None;
            }
        },
        None => return None,
    }
    let message = match v.get("message") {
        Some(m) => m,
        None => return None,
    };
    let role = match message.text_field("role") {
        Some(s) => text::owned(s),
        None => return None,
    };
    let content = match message.get("content") {
        Some(c) => c,
        None => return None,
    };
    let shown = match content {
        Json::Text(s) => {
            let chars = text::chars_of(s.as_str());
            let cut = truncate_chars(text::trim_chars(chars.as_slice()), PEEK_CHARS);
            text::string_of(cut.as_slice())
        },
        Json::List(blocks) => {
            let mut parts: Vec<String> = Vec::new();
            let mut i: usize = 0;
            let ghost all = json::list_view(blocks@);
            proof {
                json::lemma_list_view(blocks@);
            }
            assert(text::views(parts@) =~= block_texts(all.take(0)));
            while i < blocks.len()
                invariant
                    i <= blocks@.len() == all.len(),
                    forall|k: int|
                        0 <= k < blocks@.len() ==> all[k] == json::json_view(
                            #[trigger] blocks@[k],
                        ),
                    text::views(parts@) == block_texts(all.take(i as int)),
                decreases blocks@.len() - i,
            {
                assert(all.take(i + 1).drop_last() =~= all.take(i as int));
                assert(all.take(i + 1).last() == blocks@[i as int]@);
                if let Some(t) = show_block(&blocks[i]) {
                    let ghost o = parts@;
                    parts.push(t);
                    assert(text::views(parts@) =~= text::views(o).push(t@));
                }
                i = i + 1;
            }
            assert(all.take(i as int) =~= all);
            text::join_strings(parts.as_slice(), " ")
        },
        _ => String::new(),
    };
    assert(shown@ =~= content_text(content@));
    if shown.as_str().is_empty() {
        None
    } else {
        Some(PeekLine { role, text: shown })
    }
}

// ---------------------------------------------------------------- spawning

/// How a session was asked to be spawned.
#[derive(Clone, Copy, Debug, PartialEq, Eq, Structural)]
pub enum SpawnMode {
    Auto,
    Visible,
    Hidden,
}

/// The mode that a word stands for; automatic where it is none of the words.
pub open spec fn spawn_mode(word: Option<Seq<char>>) -> SpawnMode {
    match word {
        Some(w) => if text::eq_ignore_case(w, "visible"@) {
            SpawnMode::Visible
        } else if text::eq_ignore_case(w, "hidden"@) {
            SpawnMode::Hidden
        } else {
            SpawnMode::Auto
        },
        None => SpawnMode::Auto,
    }
}

impl SpawnMode {
    /// The mode that a word stands for, blind to case.
    pub fn parse(s: Option<&str>) -> (r: SpawnMode)
        ensures
            r == spawn_mode(text::opt_str(s)),
    {
        match s {
            Some(w) => if text::equals_ignore_case(w, "visible") {
                SpawnMode::Visible
            } else if text::equals_ignore_case(w, "hidden") {
                SpawnMode::Hidden
            } else {
                SpawnMode::Auto
            },
            None => SpawnMode::Auto,
        }
    }
}

/// A session is spawned without a window.
pub open spec fn spawns_hidden(mode: SpawnMode, first_time: bool) -> bool {
    mode == SpawnMode::Hidden || (mode == SpawnMode::Auto && !first_time)
}

/// Whether to spawn without a window, and the word for it. What was asked for is done;
/// left to itself, a folder's first session gets a window and later ones do not.
pub fn decide_spawn(mode: SpawnMode, first_time: bool) -> (r: (bool, &'static str))
    ensures
        r.0 == spawns_hidden(mode, first_time),
        r.1@ == if r.0 {
            "hidden"@
        } else {
            "visible"@
        },
{
    match mode {
        SpawnMode::Visible => (false, "visible"),
        SpawnMode::Hidden => (true, "hidden"),
        SpawnMode::Auto => if first_time {
            (false, "visible")
        } else {
            (true, "hidden")
        },
    }
}

/// The folders that a search does not enter are these, in whatever capitals.
pub proof fn searches_stay_out_of_these(name: Seq<char>)
    ensures
        ({
            let w = text::ascii_lower(name);
            skipped(name) <==> ({
                ||| w == "node_modules"@
                ||| w == ".git"@
                ||| w == "target"@
                ||| w == "__pycache__"@
                ||| w == "venv"@
                ||| w == ".venv"@
                ||| w == "$recycle.bin"@
                ||| w == "system volume information"@
                ||| w == "windows"@
                ||| w == "program files"@
                ||| w == "program files (x86)"@
                ||| w == "programdata"@
                ||| w == "appdata"@
            })
        }),
{
    reveal_strlit("node_modules");
    assert(text::ascii_lower("node_modules"@) =~= "node_modules"@);
    reveal_strlit(".git");
    assert(text::ascii_lower(".git"@) =~= ".git"@);
    reveal_strlit("target");
    assert(text::ascii_lower("target"@) =~= "target"@);
    reveal_strlit("__pycache__");
    assert(text::ascii_lower("__pycache__"@) =~= "__pycache__"@);
    reveal_strlit("venv");
    assert(text::ascii_lower("venv"@) =~= "venv"@);
    reveal_strlit(".venv");
    assert(text::ascii_lower(".venv"@) =~= ".venv"@);
    reveal_strlit("$RECYCLE.BIN");
    reveal_strlit("$recycle.bin");
    assert(text::ascii_lower("$RECYCLE.BIN"@) =~= "$recycle.bin"@);
    reveal_strlit("System Volume Information");
    reveal_strlit("system volume information");
    assert(text::ascii_lower("System Volume Information"@) =~= "system volume information"@);
    reveal_strlit("Windows");
    reveal_strlit("windows");
    assert(text::ascii_lower("Windows"@) =~= "windows"@);
    reveal_strlit("Program Files");
    reveal_strlit("program files");
    assert(text::ascii_lower("Program Files"@) =~= "program files"@);
    reveal_strlit("Program Files (x86)");
    reveal_strlit("program files (x86)");
    assert(text::ascii_lower("Program Files (x86)"@) =~= "program files (x86)"@);
    reveal_strlit("ProgramData");
    reveal_strlit("programdata");
    assert(text::ascii_lower("ProgramData"@) =~= "programdata"@);
    reveal_strlit("AppData");
    reveal_strlit("appdata");
    assert(text::ascii_lower("AppData"@) =~= "appdata"@);
}

proof fn lemma_extensions()
    ensures
        "json"@.len() == 4 && "json"@[0] == 'j' && "json"@[1] == 's' && "json"@[2] == 'o',
        "html"@.len() == 4 && "html"@[0] == 'h' && "html"@[1] == 't' && "html"@[2] == 'm',
        "htm"@.len() == 3 && "htm"@[0] == 'h' && "htm"@[1] == 't' && "htm"@[2] == 'm',
        "txt"@.len() == 3 && "txt"@[0] == 't' && "txt"@[1] == 'x' && "txt"@[2] == 't',
        "md"@.len() == 2 && "md"@[0] == 'm' && "md"@[1] == 'd',
        "log"@.len() == 3 && "log"@[0] == 'l' && "log"@[1] == 'o' && "log"@[2] == 'g',
        "js"@.len() == 2 && "js"@[0] == 'j' && "js"@[1] == 's',
        "mjs"@.len() == 3 && "mjs"@[0] == 'm' && "mjs"@[1] == 'j' && "mjs"@[2] == 's',
        "ts"@.len() == 2 && "ts"@[0] == 't' && "ts"@[1] == 's',
        "rs"@.len() == 2 && "rs"@[0] == 'r' && "rs"@[1] == 's',
        "py"@.len() == 2 && "py"@[0] == 'p' && "py"@[1] == 'y',
        "toml"@.len() == 4 && "toml"@[0] == 't' && "toml"@[1] == 'o' && "toml"@[2] == 'm',
        "yaml"@.len() == 4 && "yaml"@[0] == 'y' && "yaml"@[1] == 'a' && "yaml"@[2] == 'm',
        "yml"@.len() == 3 && "yml"@[0] == 'y' && "yml"@[1] == 'm' && "yml"@[2] == 'l',
        "css"@.len() == 3 && "css"@[0] == 'c' && "css"@[1] == 's' && "css"@[2] == 's',
        "csv"@.len() == 3 && "csv"@[0] == 'c' && "csv"@[1] == 's' && "csv"@[2] == 'v',
        "sql"@.len() == 3 && "sql"@[0] == 's' && "sql"@[1] == 'q' && "sql"@[2] == 'l',
        "sh"@.len() == 2 && "sh"@[0] == 's' && "sh"@[1] == 'h',
        "ps1"@.len() == 3 && "ps1"@[0] == 'p' && "ps1"@[1] == 's' && "ps1"@[2] == '1',
        "bat"@.len() == 3 && "bat"@[0] == 'b' && "bat"@[1] == 'a' && "bat"@[2] == 't',
        "xml"@.len() == 3 && "xml"@[0] == 'x' && "xml"@[1] == 'm' && "xml"@[2] == 'l',
        "ini"@.len() == 3 && "ini"@[0] == 'i' && "ini"@[1] == 'n' && "ini"@[2] == 'i',
        "cfg"@.len() == 3 && "cfg"@[0] == 'c' && "cfg"@[1] == 'f' && "cfg"@[2] == 'g',
        "conf"@.len() == 4 && "conf"@[0] == 'c' && "conf"@[1] == 'o' && "conf"@[2] == 'n',
        "lock"@.len() == 4 && "lock"@[0] == 'l' && "lock"@[1] == 'o' && "lock"@[2] == 'c',
        "gitignore"@.len() == 9 && "gitignore"@[0] == 'g' && "gitignore"@[1] == 'i' && "gitignore"@[2] == 't',
        "png"@.len() == 3 && "png"@[0] == 'p' && "png"@[1] == 'n' && "png"@[2] == 'g',
        "jpg"@.len() == 3 && "jpg"@[0] == 'j' && "jpg"@[1] == 'p' && "jpg"@[2] == 'g',
        "jpeg"@.len() == 4 && "jpeg"@[0] == 'j' && "jpeg"@[1] == 'p' && "jpeg"@[2] == 'e',
        "gif"@.len() == 3 && "gif"@[0] == 'g' && "gif"@[1] == 'i' && "gif"@[2] == 'f',
        "webp"@.len() == 4 && "webp"@[0] == 'w' && "webp"@[1] == 'e' && "webp"@[2] == 'b',
        "svg"@.len() == 3 && "svg"@[0] == 's' && "svg"@[1] == 'v' && "svg"@[2] == 'g',
        "ico"@.len() == 3 && "ico"@[0] == 'i' && "ico"@[1] == 'c' && "ico"@[2] == 'o',
        "bmp"@.len() == 3 && "bmp"@[0] == 'b' && "bmp"@[1] == 'm' && "bmp"@[2] == 'p',
        "pdf"@.len() == 3 && "pdf"@[0] == 'p' && "pdf"@[1] == 'd' && "pdf"@[2] == 'f',
{
    reveal_strlit("json");
    reveal_strlit("html");
    reveal_strlit("htm");
    reveal_strlit("txt");
    reveal_strlit("md");
    reveal_strlit("log");
    reveal_strlit("js");
    reveal_strlit("mjs");
    reveal_strlit("ts");
    reveal_strlit("rs");
    reveal_strlit("py");
    reveal_strlit("toml");
    reveal_strlit("yaml");
    reveal_strlit("yml");
    reveal_strlit("css");
    reveal_strlit("csv");
    reveal_strlit("sql");
    reveal_strlit("sh");
    reveal_strlit("ps1");
    reveal_strlit("bat");
    reveal_strlit("xml");
    reveal_strlit("ini");
    reveal_strlit("cfg");
    reveal_strlit("conf");
    reveal_strlit("lock");
    reveal_strlit("gitignore");
    reveal_strlit("png");
    reveal_strlit("jpg");
    reveal_strlit("jpeg");
    reveal_strlit("gif");
    reveal_strlit("webp");
    reveal_strlit("svg");
    reveal_strlit("ico");
    reveal_strlit("bmp");
    reveal_strlit("pdf");
}

/// The type of a file goes by what follows its last dot, in whatever capitals: text, pages, the
/// images and documents that a browser shows, and for all others bytes.
#[verifier::rlimit(60)]
pub proof fn files_are_served_by_their_extension(ext: Seq<char>)
    ensures
        ext == "json"@ ==> content_type(ext)
            == "application/json"@,
        ext == "html"@ || ext == "htm"@ ==> content_type(ext)
            == "text/html; charset=utf-8"@,
        ext == "txt"@ || ext == "md"@ || ext == "log"@ || ext == "js"@ || ext == "mjs"@ || ext == "ts"@ || ext == "rs"@ || ext == "py"@ || ext == "toml"@ || ext == "yaml"@ || ext == "yml"@ || ext == "css"@ || ext == "csv"@ || ext == "sql"@ || ext == "sh"@ || ext == "ps1"@ || ext == "bat"@ || ext == "xml"@ || ext == "ini"@ || ext == "cfg"@ || ext == "conf"@ || ext == "lock"@ || ext == "gitignore"@ ==> content_type(ext)
            == "text/plain; charset=utf-8"@,
        ext == "png"@ ==> content_type(ext)
            == "image/png"@,
        ext == "jpg"@ || ext == "jpeg"@ ==> content_type(ext)
            == "image/jpeg"@,
        ext == "gif"@ ==> content_type(ext)
            == "image/gif"@,
        ext == "webp"@ ==> content_type(ext)
            == "image/webp"@,
        ext == "svg"@ ==> content_type(ext)
            == "image/svg+xml"@,
        ext == "ico"@ ==> content_type(ext)
            == "image/x-icon"@,
        ext == "bmp"@ ==> content_type(ext)
            == "image/bmp"@,
        ext == "pdf"@ ==> content_type(ext)
            == "application/pdf"@,
        (ext != "json"@
            && ext != "html"@
            && ext != "htm"@
            && ext != "txt"@
            && ext != "md"@
            && ext != "log"@
            && ext != "js"@
            && ext != "mjs"@
            && ext != "ts"@
            && ext != "rs"@
            && ext != "py"@
            && ext != "toml"@
            && ext != "yaml"@
            && ext != "yml"@
            && ext != "css"@
            && ext != "csv"@
            && ext != "sql"@
            && ext != "sh"@
            && ext != "ps1"@
            && ext != "bat"@
            && ext != "xml"@
            && ext != "ini"@
            && ext != "cfg"@
            && ext != "conf"@
            && ext != "lock"@
            && ext != "gitignore"@
            && ext != "png"@
            && ext != "jpg"@
            && ext != "jpeg"@
            && ext != "gif"@
            && ext != "webp"@
            && ext != "svg"@
            && ext != "ico"@
            && ext != "bmp"@
            && ext != "pdf"@) ==> content_type(ext) == "application/octet-stream"@,
{
    lemma_extensions();
}

/// The extension that decides stands behind the last dot.
pub proof fn the_last_dot_begins_the_extension(stem: Seq<char>, ext: Seq<char>)
    requires
        !ext.contains('.'),
    ensures
        text::after_last(stem.push('.') + ext, '.', '.') == ext,
{
    text::what_stands_behind_a_separator(stem, '.', ext, '.', '.');
}

/// A file is shown or saved under its own name. A name of plain characters stands in quotes as it
/// is. Any other stands there with an underscore for each character that may not, and once more in
/// full, percent-encoded, behind it. Anything but `inline` is saved.
pub proof fn files_keep_their_name_in_the_header(kind: Seq<char>, name: Seq<char>, i: int)
    ensures
        ({
            let start = if kind == "inline"@ {
                "inline; filename=\""@
            } else {
                "attachment; filename=\""@
            };
            &&& plain_name(name) ==> disposition_of(kind, name) == start + name + "\""@
            &&& !plain_name(name) ==> disposition_of(kind, name) == start + name.map_values(
                |c: char| header_char(c),
            ) + "\"; filename*=UTF-8''"@ + percent_encoded(vstd::utf8::encode_utf8(name))
        }),
        plain_name(name) <==> forall|k: int|
            0 <= k < name.len() ==> (#[trigger] name[k] as u32) < 128 && name[k] != '"' && name[k]
                != '\\',
        0 <= i < name.len() ==> header_char(name[i]) == if (name[i] as u32) < 128 && name[i] != '"'
            && name[i] != '\\' {
            name[i]
        } else {
            '_'
        },
{
    reveal_strlit("inline");
    reveal_strlit("attachment");
    reveal_strlit("; filename=\"");
    reveal_strlit("inline; filename=\"");
    reveal_strlit("attachment; filename=\"");
    assert("inline"@ + "; filename=\""@ =~= "inline; filename=\""@);
    assert("attachment"@ + "; filename=\""@ =~= "attachment; filename=\""@);
    if plain_name(name) {
        assert forall|k: int| 0 <= k < name.len() implies (#[trigger] name[k] as u32) < 128
            && name[k] != '"' && name[k] != '\\' by {
            assert(name.contains(name[k]));
        }
    }
}

/// Percent-encoding goes byte by byte: a letter or a digit stands for itself, any other byte but
/// the few that may stand for themselves becomes a percent sign and its two hexadecimal digits in
/// capitals.
pub proof fn bytes_are_encoded_one_by_one(a: Seq<u8>, b: Seq<u8>, x: u8)
    ensures
        percent_encoded(a + b) == percent_encoded(a) + percent_encoded(b),
        'a' as int <= x <= 'z' as int || 'A' as int <= x <= 'Z' as int || '0' as int <= x
            <= '9' as int ==> percent_byte(x) == seq![x as char],
        x == ' ' as int || x == '"' as int || x == '%' as int || x == 39 || x == ';' as int || x
            >= 128 ==> percent_byte(x).len() == 3 && percent_byte(x)[0] == '%' && 16 * hex_value(
            percent_byte(x)[1],
        ) + hex_value(percent_byte(x)[2]) == x,
    decreases b.len(),
{
    if b.len() == 0 {
        assert(a + b =~= a);
        assert(percent_encoded(a) + percent_encoded(b) =~= percent_encoded(a));
    } else {
        bytes_are_encoded_one_by_one(a, b.drop_last(), x);
        assert((a + b).drop_last() =~= a + b.drop_last());
        assert(percent_encoded(a + b) =~= percent_encoded(a) + percent_encoded(b));
    }
    assert(x as char as int == x as int);
}

/// The number of a copy goes before the extension: `report.pdf` becomes `report (2).pdf`. A name
/// without a dot, and one that only begins with it or ends in it, gets it at its end.
pub proof fn numbers_go_before_the_extension(stem: Seq<char>, ext: Seq<char>, n: nat)
    requires
        !ext.contains('.'),
    ensures
        stem.len() > 0 && ext.len() > 0 ==> numbered(stem.push('.') + ext, n) == stem + " ("@
            + text::decimal(n) + ")."@ + ext,
        numbered(ext, n) == ext + " ("@ + text::decimal(n) + ")"@,
        numbered(seq!['.'] + ext, n) == seq!['.'] + ext + " ("@ + text::decimal(n) + ")"@,
        numbered(stem.push('.'), n) == stem.push('.') + " ("@ + text::decimal(n) + ")"@,
{
    reveal_strlit(").");
    reveal_strlit(")");
    reveal_strlit(".");
    let empty = Seq::<char>::empty();
    text::what_stands_behind_a_separator(stem, '.', ext, '.', '.');
    text::what_stands_behind_a_separator(empty, '.', ext, '.', '.');
    text::what_stands_behind_a_separator(stem, '.', empty, '.', '.');
    assert(empty.push('.') + ext =~= seq!['.'] + ext);
    assert(stem.push('.') + empty =~= stem.push('.'));
    if stem.len() > 0 && ext.len() > 0 {
        let name = stem.push('.') + ext;
        assert(name.take(name.len() - ext.len() - 1) =~= stem);
        assert(numbered(name, n) =~= stem + " ("@ + text::decimal(n) + ")."@ + ext);
    }
}

/// Copies with different numbers have different names.
pub proof fn numbered_names_differ(name: Seq<char>, a: nat, b: nat)
    requires
        a != b,
    ensures
        numbered(name, a) != numbered(name, b),
{
    let (stem, ext) = stem_and_extension(name);
    let head = stem + " ("@;
    let tail = match ext {
        Some(e) => ")"@ + "."@ + e,
        None => ")"@,
    };
    let x = text::decimal(a);
    let y = text::decimal(b);
    assert(numbered(name, a) =~= head + x + tail);
    assert(numbered(name, b) =~= head + y + tail);
    if head + x + tail == head + y + tail {
        assert((head + x + tail).len() == (head + y + tail).len());
        assert((head + x + tail).subrange(head.len() as int, head.len() + x.len() as int) =~= x);
        assert((head + y + tail).subrange(head.len() as int, head.len() + y.len() as int) =~= y);
        text::lemma_decimal_injective(a, b);
    }
}

/// A line of changes is two letters, a space and a path. What is shown is the path and the first
/// letter, or the second where the first is a space, or both where both are `?` or `!`.
pub proof fn changes_are_read_from_their_columns(x: char, y: char, path: Seq<char>)
    requires
        (x as u32) < 128,
        (y as u32) < 128,
        path.len() > 0,
        path.last() != '\r',
        path.last() != '\n',
        !text::contains(path, " -> "@),
    ensures
        change_of(seq![x, y, ' '] + path) == Some(
            GitView {
                status: if x == '?' && y == '?' || x == '!' && y == '!' {
                    seq![x, y]
                } else if x == ' ' {
                    seq![y]
                } else {
                    seq![x]
                },
                path,
            },
        ),
{
    reveal_strlit("??");
    reveal_strlit("!!");
    assert("??"@ =~= seq!['?', '?']);
    assert("!!"@ =~= seq!['!', '!']);
    let a = seq![x, y, ' '] + path;
    lemma_bytes_at_least(a);
    assert(a.skip(3) =~= path);
    assert(text::trim_end_of(path, '\r', '\n') == path);
    text::lemma_find_from(path, " -> "@, 0);
    assert(text::find_from(path, " -> "@, 0) is None);
}

/// Of a path with an arrow in it, which says what a file was called before, only what follows the
/// first arrow is shown.
pub proof fn moved_files_go_by_their_new_name(
    x: char,
    y: char,
    before: Seq<char>,
    path: Seq<char>,
)
    requires
        (x as u32) < 128,
        (y as u32) < 128,
        path.len() > 0,
        path.last() != '\r',
        path.last() != '\n',
        forall|i: int|
            0 <= i < before.len() ==> !#[trigger] text::occurs_at(
                before + " -> "@ + path,
                i,
                " -> "@,
            ),
    ensures
        change_of(seq![x, y, ' '] + (before + " -> "@ + path)) matches Some(c) && c.path == path,
{
    let moved = before + " -> "@ + path;
    let b = seq![x, y, ' '] + moved;
    let n = before.len() as int;
    lemma_bytes_at_least(b);
    lemma_arrow(before, path);
    assert(b.skip(3) =~= moved);
    assert(moved.last() == path.last());
    assert(text::trim_end_of(moved, '\r', '\n') == moved);
    text::lemma_find_from(moved, " -> "@, 0);
    assert(text::find_from(moved, " -> "@, 0) == Some(n));
}

proof fn lemma_arrow(before: Seq<char>, path: Seq<char>)
    ensures
        text::occurs_at(before + " -> "@ + path, before.len() as int, " -> "@),
        (before + " -> "@ + path).skip(before.len() as int + 4) == path,
{
    reveal_strlit(" -> ");
    let moved = before + " -> "@ + path;
    assert(moved.subrange(before.len() as int, before.len() as int + 4) =~= " -> "@);
    assert(moved.skip(before.len() as int + 4) =~= path);
}

proof fn lemma_bytes_at_least(s: Seq<char>)
    ensures
        vstd::utf8::encode_utf8(s).len() >= s.len(),
    decreases s.len(),
{
    reveal_with_fuel(vstd::utf8::encode_utf8, 2);
    if s.len() > 0 {
        lemma_bytes_at_least(s.drop_first());
    }
}

/// The name of a project's folder is its path with a hyphen for everything but letters and digits.
pub proof fn paths_become_folder_names(cwd: Seq<char>, i: int)
    requires
        0 <= i < cwd.len(),
    ensures
        slug(cwd).len() == cwd.len(),
        'a' <= cwd[i] <= 'z' || 'A' <= cwd[i] <= 'Z' || '0' <= cwd[i] <= '9' ==> slug(cwd)[i]
            == cwd[i],
        !('a' <= cwd[i] <= 'z' || 'A' <= cwd[i] <= 'Z' || '0' <= cwd[i] <= '9') ==> slug(cwd)[i]
            == '-',
{
}

/// A transcript counts if it was created no more than 15 seconds before the session began, or
/// changed no more than 60; a session that began earlier than that after time zero takes all.
pub proof fn transcripts_may_be_a_little_older(started: u64)
    ensures
        started >= 15_000 ==> minus(started, CREATED_SLACK_MS) == started - 15_000,
        started >= 60_000 ==> minus(started, MODIFIED_SLACK_MS) == started - 60_000,
        started < 15_000 ==> minus(started, CREATED_SLACK_MS) == 0,
        started < 60_000 ==> minus(started, MODIFIED_SLACK_MS) == 0,
{
}

/// A text that is too long is cut to its first characters, with an ellipsis behind them.
pub proof fn long_texts_are_cut(s: Seq<char>, max: int)
    requires
        max >= 0,
    ensures
        s.len() <= max ==> truncated(s, max) == s,
        s.len() > max ==> truncated(s, max).len() == max + 1 && truncated(s, max).take(max)
            == s.take(max) && truncated(s, max).last() as int == 0x2026,
{
    if s.len() > max {
        assert(truncated(s, max).take(max) =~= s.take(max));
    }
}

/// What a part of a message shows: the beginning of its text, trimmed, unless it is blank; the
/// name of the tool that is used; or that a tool answered. Parts of other types show nothing.
pub proof fn parts_show_what_they_hold(b: json::JsonView, t: Seq<char>, kind: Seq<char>)
    ensures
        json::has_once(b, "type"@, json::JsonView::Text("text"@)) && json::has_once(
            b,
            "text"@,
            json::JsonView::Text(t),
        ) && !text::blank(t) ==> block_text(b) == Some(truncated(text::trimmed(t), 200)),
        json::has_once(b, "type"@, json::JsonView::Text("text"@)) && json::has_once(
            b,
            "text"@,
            json::JsonView::Text(t),
        ) && text::blank(t) ==> block_text(b) is None,
        json::has_once(b, "type"@, json::JsonView::Text("tool_use"@)) && json::has_once(
            b,
            "name"@,
            json::JsonView::Text(t),
        ) ==> block_text(b) == Some("[tool: "@ + t + "]"@),
        json::has_once(b, "type"@, json::JsonView::Text("tool_result"@)) ==> block_text(b) == Some(
            "[tool result]"@,
        ),
        json::has_once(b, "type"@, json::JsonView::Text(kind)) && kind != "text"@ && kind
            != "tool_use"@ && kind != "tool_result"@ ==> block_text(b) is None,
        json::has_none(b, "type"@) ==> block_text(b) is None,
{
    reveal_strlit("text");
    reveal_strlit("tool_use");
    reveal_strlit("tool_result");
    assert("text"@.len() == 4 && "tool_use"@.len() == 8 && "tool_result"@.len() == 11);
    lemma_part_type(b, "text"@);
    lemma_part_type(b, "tool_use"@);
    lemma_part_type(b, "tool_result"@);
    lemma_part_type(b, kind);
    if json::has_once(b, "text"@, json::JsonView::Text(t)) {
        json::fields_are_found_by_name(b, "text"@, json::JsonView::Text(t));
    }
    if json::has_once(b, "name"@, json::JsonView::Text(t)) {
        json::fields_are_found_by_name(b, "name"@, json::JsonView::Text(t));
    }
    if json::has_none(b, "type"@) {
        json::missing_fields_are_not_found(b, "type"@);
    }
}

proof fn lemma_part_type(b: json::JsonView, kind: Seq<char>)
    ensures
        json::has_once(b, "type"@, json::JsonView::Text(kind)) ==> json::text_field(b, "type"@)
            == Some(kind),
{
    if json::has_once(b, "type"@, json::JsonView::Text(kind)) {
        json::fields_are_found_by_name(b, "type"@, json::JsonView::Text(kind));
    }
}

/// The parts of a message are shown in their order; those that show nothing are left out.
pub proof fn parts_are_shown_in_order(a: Seq<json::JsonView>, b: Seq<json::JsonView>, x: json::JsonView)
    ensures
        block_texts(a + b) == block_texts(a) + block_texts(b),
        block_text(x) is None ==> block_texts(seq![x]).len() == 0,
        block_text(x) matches Some(t) ==> block_texts(seq![x]) == seq![t],
    decreases b.len(),
{
    reveal_with_fuel(block_texts, 2);
    assert(seq![x].drop_last() =~= Seq::empty());
    if let Some(t) = block_text(x) {
        assert(block_texts(seq![x]) =~= seq![t]);
    }
    if b.len() == 0 {
        assert(a + b =~= a);
        assert(block_texts(a) + block_texts(b) =~= block_texts(a));
    } else {
        parts_are_shown_in_order(a, b.drop_last(), x);
        assert((a + b).drop_last() =~= a + b.drop_last());
        assert(block_texts(a + b) =~= block_texts(a) + block_texts(b));
    }
}

/// A line of a transcript is shown with who said it, if it is of the user or the assistant and
/// shows anything: a text by its beginning, 200 characters at most, a list by its parts with a
/// space between each two.
pub proof fn lines_show_who_said_what(
    v: json::JsonView,
    kind: Seq<char>,
    message: json::JsonView,
    role: Seq<char>,
    t: Seq<char>,
    parts: Seq<json::JsonView>,
)
    requires
        json::has_once(v, "type"@, json::JsonView::Text(kind)),
        json::has_once(v, "message"@, message),
        json::has_once(message, "role"@, json::JsonView::Text(role)),
    ensures
        (kind == "user"@ || kind == "assistant"@) && json::has_once(
            message,
            "content"@,
            json::JsonView::Text(t),
        ) && text::trimmed(t).len() > 0 ==> peek_line(v) == Some(
            PeekView { role, text: truncated(text::trimmed(t), 200) },
        ),
        (kind == "user"@ || kind == "assistant"@) && json::has_once(
            message,
            "content"@,
            json::JsonView::List(parts),
        ) && text::join(block_texts(parts), " "@).len() > 0 ==> peek_line(v) == Some(
            PeekView { role, text: text::join(block_texts(parts), " "@) },
        ),
        kind != "user"@ && kind != "assistant"@ ==> peek_line(v) is None,
{
    json::fields_are_found_by_name(v, "type"@, json::JsonView::Text(kind));
    json::fields_are_found_by_name(v, "message"@, message);
    json::fields_are_found_by_name(message, "role"@, json::JsonView::Text(role));
    if json::has_once(message, "content"@, json::JsonView::Text(t)) {
        json::fields_are_found_by_name(message, "content"@, json::JsonView::Text(t));
    }
    if json::has_once(message, "content"@, json::JsonView::List(parts)) {
        json::fields_are_found_by_name(message, "content"@, json::JsonView::List(parts));
    }
}

/// The two words choose, in whatever capitals; any other, or none, leaves the choice open. Left
/// open, the window is shown the first time in a folder and hidden afterwards.
pub proof fn windows_are_shown_the_first_time(w: Seq<char>, first_time: bool)
    ensures
        text::ascii_lower(w) == "visible"@ ==> !spawns_hidden(spawn_mode(Some(w)), first_time),
        text::ascii_lower(w) == "hidden"@ ==> spawns_hidden(spawn_mode(Some(w)), first_time),
        text::ascii_lower(w) != "visible"@ && text::ascii_lower(w) != "hidden"@ ==> spawns_hidden(
            spawn_mode(Some(w)),
            first_time,
        ) == !first_time,
        spawns_hidden(spawn_mode(None), first_time) == !first_time,
{
    reveal_strlit("visible");
    reveal_strlit("hidden");
    assert(text::ascii_lower("visible"@) =~= "visible"@);
    assert(text::ascii_lower("hidden"@) =~= "hidden"@);
    assert("visible"@.len() == 7 && "hidden"@.len() == 6);
}

/// The transcript of a session is the one that was created first since it began; of several at the
/// same time, the first. Where none was, it is the one that was changed last, the first of several.
pub proof fn the_first_since_then_or_the_last_changed(
    c: Seq<PeekCandidate>,
    floor: int,
    i: int,
    j: int,
)
    requires
        0 <= j < c.len(),
    ensures
        earliest_created(c, floor, i) ==> c[i].created_ms >= floor,
        earliest_created(c, floor, i) && c[j].created_ms >= floor ==> c[i].created_ms
            <= c[j].created_ms,
        earliest_created(c, floor, i) && c[j].created_ms >= floor && c[i].created_ms
            == c[j].created_ms ==> i <= j,
        latest_modified(c, floor, i) ==> c[i].modified_ms >= floor,
        latest_modified(c, floor, i) && c[j].modified_ms >= floor ==> c[i].modified_ms
            >= c[j].modified_ms,
        latest_modified(c, floor, i) && c[j].modified_ms >= floor && c[i].modified_ms
            == c[j].modified_ms ==> i <= j,
{
}

} // verus!
