//! Sending a folder as an archive.
use super::is_error;
use crate::answer::{err, Answer};
use crate::dictate;
use crate::dictate::join_path;
use crate::files::pshell;
use crate::text;
use vstd::prelude::*;

verus! {

/// What the name of every archive begins with.
pub const ZIP_PREFIX: &'static str = "iphone-bridge-zip-";

/// How long an archive may take.
pub const ZIP_WAIT_SECS: u64 = 120;

/// The name that the archive of a folder is sent under, given where the folder is, whether
/// it is one, and its own name, or the answer.
pub fn zip(
    at: &Result<(String, Vec<String>), String>,
    is_dir: bool,
    dir_name: Option<&str>,
) -> (r: Result<String, Answer>)
    ensures
        match at {
            Err(e) => r matches Err(a) && is_error(a, 403, e@),
            Ok(_) => if !is_dir {
                r matches Err(a) && is_error(a, 400, "zip target must be a directory"@)
            } else {
                r matches Ok(name) && name@ == (match dir_name {
                    Some(n) => n@,
                    None => "archive"@,
                }) + ".zip"@
            },
        },
{
    match at {
        Err(e) => Err(err(403, e.as_str())),
        Ok(_) => {
            if !is_dir {
                return Err(err(400, "zip target must be a directory"));
            }
            let base = match dir_name {
                Some(n) => n,
                None => "archive",
            };
            Ok(pshell::concat(base, ".zip"))
        },
    }
}

/// The folder for temporary files: what either of the two variables says.
pub fn temp_dir(temp: Option<&str>, tmp: Option<&str>) -> (r: String)
    ensures
        r@ == match temp {
            Some(t) => t@,
            None => match tmp {
                Some(t) => t@,
                None => r"C:\Windows\Temp"@,
            },
        },
{
    match temp {
        Some(t) => text::owned(t),
        None => match tmp {
            Some(t) => text::owned(t),
            None => text::owned(r"C:\Windows\Temp"),
        },
    }
}

/// Where an archive is put that is begun so many nanoseconds after the epoch.
pub open spec fn zip_path_of(temp: Seq<char>, nanos: u64) -> Seq<char> {
    dictate::joined_path(temp, ZIP_PREFIX@ + text::hex(nanos as nat, 16) + ".zip"@)
}

/// Where an archive is put.
pub fn zip_path(temp: &str, nanos: u64) -> (r: String)
    ensures
        r@ == zip_path_of(temp@, nanos),
{
    let mut name = text::owned(ZIP_PREFIX);
    text::push_hex(&mut name, nanos, 16);
    name.append(".zip");
    join_path(temp, name.as_str())
}

/// Archives begun at different moments do not get in each other's way.
pub proof fn archives_have_their_own_names(a: u64, b: u64)
    requires
        a != b,
    ensures
        ZIP_PREFIX@ + text::hex(a as nat, 16) + ".zip"@ != ZIP_PREFIX@ + text::hex(b as nat, 16)
            + ".zip"@,
{
    text::lemma_hex_len(a as nat, 16);
    text::lemma_hex_len(b as nat, 16);
    assert(text::sixteen_to(16) == 0x1_0000_0000_0000_0000) by {
        reveal_with_fuel(text::sixteen_to, 17);
    }
    if text::hex(a as nat, 16) == text::hex(b as nat, 16) {
        text::lemma_hex_injective(a as nat, b as nat, 16);
    }
    let x = ZIP_PREFIX@ + text::hex(a as nat, 16) + ".zip"@;
    let y = ZIP_PREFIX@ + text::hex(b as nat, 16) + ".zip"@;
    let n = ZIP_PREFIX@.len() as int;
    if x == y {
        assert(x.subrange(n, n + 16) =~= text::hex(a as nat, 16));
        assert(y.subrange(n, n + 16) =~= text::hex(b as nat, 16));
    }
}

/// The script that makes an archive, up to the folder.
pub const ZIP_HEAD: &'static str = r#"
$ErrorActionPreference = 'Stop'
$src = [Text.Encoding]::Unicode.GetString([Convert]::FromBase64String('"#;

/// The script that makes an archive, between the folder and the archive.
pub const ZIP_MIDDLE: &'static str = r#"'))
$dst = [Text.Encoding]::Unicode.GetString([Convert]::FromBase64String('"#;

/// The script that makes an archive, behind the archive.
pub const ZIP_TAIL: &'static str = r#"'))
if (Test-Path $dst) { Remove-Item -LiteralPath $dst -Force }
$items = Get-ChildItem -LiteralPath $src -Force
if ($items.Count -eq 0) {
    # Compress-Archive refuses an empty -Path; hand it an empty file set by
    # creating a valid empty zip via .NET instead.
    Add-Type -AssemblyName System.IO.Compression.FileSystem
    $fs = [System.IO.Compression.ZipFile]::Open($dst, 'Create')
    $fs.Dispose()
} else {
    Compress-Archive -Path (Join-Path $src '*') -DestinationPath $dst -Force
}
Write-Output 'ok'
"#;

/// The script that puts a folder into an archive. Both paths stand in it encoded, so that
/// nothing in them is taken for a part of the script.
pub fn zip_script(dir: &str, zip: &str) -> (r: String)
    requires
        pshell::encodable(dir@),
        pshell::encodable(zip@),
    ensures
        r@ == ZIP_HEAD@ + pshell::encoded(dir@) + ZIP_MIDDLE@ + pshell::encoded(zip@) + ZIP_TAIL@,
        pshell::quotable(pshell::encoded(dir@)),
        pshell::quotable(pshell::encoded(zip@)),
{
    let src = pshell::b64_utf16(dir);
    let dst = pshell::b64_utf16(zip);
    let mut out = text::owned(ZIP_HEAD);
    out.append(src.as_str());
    out.append(ZIP_MIDDLE);
    out.append(dst.as_str());
    out.append(ZIP_TAIL);
    out
}

/// What came of making an archive, given what came of the script and whether the archive is
/// there.
pub fn build_zip(ran: &Result<String, String>, exists_now: bool) -> (r: Result<(), String>)
    ensures
        match ran {
            Err(e) => r matches Err(m) && m@ == e@,
            Ok(_) => if exists_now {
                r is Ok
            } else {
                r matches Err(m) && m@
                    == "zip creation reported success but file is missing"@
            },
        },
{
    match ran {
        Err(e) => Err(text::owned(e.as_str())),
        Ok(_) => if exists_now {
            Ok(())
        } else {
            Err(text::owned("zip creation reported success but file is missing"))
        },
    }
}

/// Whether a temporary file is an archive that was left behind: more than an hour old, the
/// age given in seconds and nanoseconds where it is known.
pub fn sweep_stale_zips(name: &str, age: Option<(u64, u32)>) -> (r: bool)
    ensures
        r == (text::occurs_at(name@, 0, ZIP_PREFIX@) && (age matches Some((s, n)) && (s > 3600 || (
        s == 3600 && n > 0)))),
{
    let stale = match age {
        Some((s, n)) => s > 3600 || (s == 3600 && n > 0),
        None => false,
    };
    text::begins_with(name, ZIP_PREFIX) && stale
}

/// An archive is made in the folder for temporary files, under a name by which it is later found to
/// be swept up: it begins as all of them do, goes on with sixteen digits, and ends in `.zip`.
pub proof fn archives_are_found_again(temp: Seq<char>, nanos: u64) -> (name: Seq<char>)
    ensures
        zip_path_of(temp, nanos) == dictate::joined_path(temp, name),
        text::occurs_at(name, 0, "iphone-bridge-zip-"@),
        name == "iphone-bridge-zip-"@ + text::hex(nanos as nat, 16) + ".zip"@,
{
    let name = "iphone-bridge-zip-"@ + text::hex(nanos as nat, 16) + ".zip"@;
    let n = "iphone-bridge-zip-"@.len() as int;
    assert(name.subrange(0, n) =~= "iphone-bridge-zip-"@);
    name
}

} // verus!
