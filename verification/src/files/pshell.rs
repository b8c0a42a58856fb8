//! What is handed to PowerShell and what is made of its answer.
use crate::bytes;
use crate::json;
use crate::json::Json;
use crate::text;
use crate::utf16;
use vstd::prelude::*;

verus! {

/// What `Engine::encode` of the `base64` crate makes of bytes in its `STANDARD` alphabet,
/// with padding.
pub uninterp spec fn base64_of(data: Seq<u8>) -> Seq<char>;

/// The characters of the standard alphabet and the padding.
pub open spec fn base64_char(c: char) -> bool {
    text::ascii_alphanumeric(c) || c == '+' || c == '/' || c == '='
}

/// The length of what encodes `n` bytes.
pub open spec fn base64_len(n: nat) -> nat {
    (n + 2) / 3 * 4
}

/// `base64::engine::general_purpose::STANDARD.encode`: named, made of the standard
/// alphabet and padding alone, four characters for each three bytes begun. The crate
/// panics where that length does not fit in `usize`.
#[verifier::external_body]
fn encode_base64(data: &[u8]) -> (r: String)
    requires
        base64_len(data@.len()) <= usize::MAX,
    ensures
        r@ == base64_of(data@),
        r@.len() == base64_len(data@.len()),
        forall|i: int| 0 <= i < r@.len() ==> base64_char(#[trigger] r@[i]),
{
    base64::Engine::encode(&base64::engine::general_purpose::STANDARD, data)
}

/// The bytes of UTF-16 code units, the low byte of each first.
pub open spec fn unit_bytes(units: Seq<u16>) -> Seq<u8>
    decreases units.len(),
{
    if units.len() == 0 {
        Seq::empty()
    } else {
        unit_bytes(units.drop_last()) + bytes::le16(units.last())
    }
}

/// The base64 form of `s` in UTF-16LE.
pub open spec fn encoded(s: Seq<char>) -> Seq<char> {
    base64_of(unit_bytes(utf16::encoded(s)))
}

/// The base64 form of `s` in UTF-16LE has a length.
pub open spec fn encodable(s: Seq<char>) -> bool {
    base64_len(2 * utf16::encoded(s).len()) <= usize::MAX
}

/// Every character may stand between single quotes in a script.
pub open spec fn quotable(s: Seq<char>) -> bool {
    forall|i: int| 0 <= i < s.len() ==> base64_char(#[trigger] s[i])
}

/// The base64 form of `s` in UTF-16LE, safe to stand in a script.
pub fn b64_utf16(s: &str) -> (r: String)
    requires
        encodable(s@),
    ensures
        r@ == encoded(s@),
        quotable(r@),
{
    let units = utf16::encode(s);
    let mut wide: Vec<u8> = Vec::new();
    let mut i: usize = 0;
    assert(wide@ =~= unit_bytes(units@.take(0)));
    while i < units.len()
        invariant
            i <= units@.len(),
            wide@ == unit_bytes(units@.take(i as int)),
            wide@.len() == 2 * i,
        decreases units@.len() - i,
    {
        bytes::push16(&mut wide, units[i]);
        assert(units@.take(i + 1).drop_last() =~= units@.take(i as int));
        i = i + 1;
    }
    assert(units@.take(i as int) =~= units@);
    encode_base64(wide.as_slice())
}

/// How a run of PowerShell ended.
pub enum PowershellEnd {
    /// It could not be started.
    NotStarted(String),
    /// It took too long and was killed.
    TimedOut,
    /// Waiting for it failed.
    WaitFailed(String),
    /// What it wrote could not be collected.
    CollectFailed(String),
    /// It ended by itself.
    Exited { success: bool, stdout: String, stderr: String },
}

/// The output of a run, or what went wrong.
pub open spec fn output_of(end: PowershellEnd) -> Result<Seq<char>, Seq<char>> {
    match end {
        PowershellEnd::NotStarted(e) => Err("failed to spawn powershell.exe: "@ + e@),
        PowershellEnd::TimedOut => Err("powershell operation timed out"@),
        PowershellEnd::WaitFailed(e) => Err("failed waiting on powershell.exe: "@ + e@),
        PowershellEnd::CollectFailed(e) => Err("failed to collect powershell output: "@ + e@),
        PowershellEnd::Exited { success, stdout, stderr } => if success {
            Ok(text::trimmed(stdout@))
        } else {
            Err("powershell operation failed: "@ + text::trimmed(stderr@))
        },
    }
}

/// The contents of a result of strings.
pub open spec fn result_view(r: Result<String, String>) -> Result<Seq<char>, Seq<char>> {
    match r {
        Ok(s) => Ok(s@),
        Err(e) => Err(e@),
    }
}

/// `head` followed by `tail`.
pub fn concat(head: &str, tail: &str) -> (r: String)
    ensures
        r@ == head@ + tail@,
{
    let mut out = text::owned(head);
    out.append(tail);
    out
}

/// The trimmed output of a run of PowerShell, or what went wrong.
pub fn run_powershell(end: &PowershellEnd) -> (r: Result<String, String>)
    ensures
        result_view(r) == output_of(*end),
{
    match end {
        PowershellEnd::NotStarted(e) => Err(concat("failed to spawn powershell.exe: ", e.as_str())),
        PowershellEnd::TimedOut => Err(text::owned("powershell operation timed out")),
        PowershellEnd::WaitFailed(e) => Err(
            concat("failed waiting on powershell.exe: ", e.as_str()),
        ),
        PowershellEnd::CollectFailed(e) => Err(
            concat("failed to collect powershell output: ", e.as_str()),
        ),
        PowershellEnd::Exited { success, stdout, stderr } => if *success {
            Ok(text::trim(stdout.as_str()))
        } else {
            let detail = text::trim(stderr.as_str());
            Err(concat("powershell operation failed: ", detail.as_str()))
        },
    }
}

/// The JSON value that an output holds: null for an empty one.
pub open spec fn reply_of(output: Result<Seq<char>, Seq<char>>) -> Result<
    json::JsonView,
    Seq<char>,
> {
    match output {
        Err(e) => Err(e),
        Ok(out) => if out.len() == 0 {
            Ok(json::JsonView::Null)
        } else {
            match json::parsed(out) {
                Ok(v) => Ok(v),
                Err(e) => Err("failed to parse powershell data: "@ + e),
            }
        },
    }
}

/// The contents of a result of a JSON value.
pub open spec fn reply_view(r: Result<Json, String>) -> Result<json::JsonView, Seq<char>> {
    match r {
        Ok(j) => Ok(j@),
        Err(e) => Err(e@),
    }
}

/// The JSON value that a run of PowerShell wrote, or what went wrong. No output at all
/// stands for null.
pub fn run_powershell_json(end: &PowershellEnd) -> (r: Result<Json, String>)
    ensures
        reply_view(r) == reply_of(output_of(*end)),
{
    match run_powershell(end) {
        Err(e) => Err(e),
        Ok(out) => {
            if out.as_str().is_empty() {
                return Ok(Json::Null);
            }
            match json::parse(out.as_str()) {
                Ok(v) => Ok(v),
                Err(e) => Err(concat("failed to parse powershell data: ", e.as_str())),
            }
        },
    }
}

/// The bytes of code units stand in the order of the units, two for each, the low one first.
pub proof fn units_are_two_bytes_each(units: Seq<u16>, i: int)
    requires
        0 <= i < units.len(),
    ensures
        unit_bytes(units).len() == 2 * units.len(),
        unit_bytes(units)[2 * i] + 256 * unit_bytes(units)[2 * i + 1] == units[i],
    decreases units.len(),
{
    let front = units.drop_last();
    bytes::bytes_add_up(units.last(), 0);
    if i < front.len() {
        units_are_two_bytes_each(front, i);
        assert(unit_bytes(units)[2 * i] == unit_bytes(front)[2 * i]);
        assert(unit_bytes(units)[2 * i + 1] == unit_bytes(front)[2 * i + 1]);
    } else {
        lemma_unit_bytes_len(front);
        assert(unit_bytes(units)[2 * i] == bytes::le16(units.last())[0]);
        assert(unit_bytes(units)[2 * i + 1] == bytes::le16(units.last())[1]);
    }
    lemma_unit_bytes_len(units);
}

proof fn lemma_unit_bytes_len(units: Seq<u16>)
    ensures
        unit_bytes(units).len() == 2 * units.len(),
    decreases units.len(),
{
    if units.len() > 0 {
        lemma_unit_bytes_len(units.drop_last());
    }
}

/// What a run gave is what it wrote, trimmed, if it succeeded, and nothing else is; a run that wrote
/// nothing gave null.
pub proof fn only_success_gives_output(stdout: String, stderr: String, e: Seq<char>)
    ensures
        output_of(PowershellEnd::Exited { success: true, stdout, stderr }) == Ok::<
            Seq<char>,
            Seq<char>,
        >(text::trimmed(stdout@)),
        output_of(PowershellEnd::Exited { success: false, stdout, stderr }) == Err::<
            Seq<char>,
            Seq<char>,
        >("powershell operation failed: "@ + text::trimmed(stderr@)),
        output_of(PowershellEnd::TimedOut) is Err,
        output_of(PowershellEnd::NotStarted(stdout)) is Err,
        output_of(PowershellEnd::WaitFailed(stdout)) is Err,
        output_of(PowershellEnd::CollectFailed(stdout)) is Err,
        reply_of(Err(e)) == Err::<json::JsonView, Seq<char>>(e),
        reply_of(Ok(Seq::empty())) == Ok::<json::JsonView, Seq<char>>(json::JsonView::Null),
        e.len() > 0 && json::parsed(e) is Ok ==> reply_of(Ok(e)) == json::parsed(e),
        e.len() > 0 && json::parsed(e) is Err ==> reply_of(Ok(e)) is Err,
{
}

} // verus!
