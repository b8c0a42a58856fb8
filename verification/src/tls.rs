//! Certificates: when one expires, which of several is taken, and what is done to get one.
use crate::dictate;
use crate::dictate::join_path;
use crate::files::features;
use crate::files::pshell;
use crate::text;
use vstd::prelude::*;
use vstd::slice::slice_subrange;

verus! {

/// A certificate and its key, each by its path.
#[derive(Debug, PartialEq, Eq)]
pub struct CertPaths {
    pub cert: String,
    pub key: String,
}

// ---------------------------------------------------------------- expiry

/// What `pem::parse` finds in a PEM file: the contents of the first block in it, or the
/// message of the error.
pub uninterp spec fn pem_contents(input: Seq<u8>) -> Result<Seq<u8>, Seq<char>>;

/// The end of the validity of a certificate in DER, as `X509Certificate::from_der` of the
/// `x509-parser` crate reads it: whole seconds since the epoch and nanoseconds behind
/// them; or the message of the error.
pub uninterp spec fn der_not_after(der: Seq<u8>) -> Result<(i64, u32), Seq<char>>;

/// `pem::parse`, and `Pem::contents` of what it finds; an error is given by its message.
#[verifier::external_body]
fn parse_pem(input: &[u8]) -> (r: Result<Vec<u8>, String>)
    ensures
        match r {
            Ok(v) => pem_contents(input@) == Ok::<Seq<u8>, Seq<char>>(v@),
            Err(e) => pem_contents(input@) == Err::<Seq<u8>, Seq<char>>(e@),
        },
{
    pem::parse(input).map(|p| p.contents().to_vec()).map_err(|e| e.to_string())
}

/// `X509Certificate::from_der`, and of the certificate the end of its validity as seconds
/// and nanoseconds; an error is given by its message.
#[verifier::external_body]
fn parse_not_after(der: &[u8]) -> (r: Result<(i64, u32), String>)
    ensures
        match r {
            Ok(v) => der_not_after(der@) == Ok::<(i64, u32), Seq<char>>(v),
            Err(e) => der_not_after(der@) == Err::<(i64, u32), Seq<char>>(e@),
        },
{
    match <x509_parser::certificate::X509Certificate as x509_parser::prelude::FromDer<_>>::from_der(der) {
        Ok((_, cert)) => {
            let end = cert.validity().not_after.to_datetime();
            Ok((end.unix_timestamp(), end.nanosecond()))
        },
        Err(e) => Err(e.to_string()),
    }
}

/// A moment in nanoseconds since the epoch.
pub open spec fn nanos(m: (i64, u32)) -> int {
    m.0 * 1_000_000_000 + m.1
}

/// A day in nanoseconds.
pub const DAY_NANOS: i128 = 86_400_000_000_000;

/// A moment in nanoseconds since the epoch.
fn nanos_of(m: (i64, u32)) -> (r: i128)
    ensures
        r == nanos(m),
{
    m.0 as i128 * 1_000_000_000 + m.1 as i128
}

/// The whole days from one moment to another: how many are still to come, or how many have
/// passed since, as a negative number. The first day that has not passed whole counts as one.
pub open spec fn days_between(now: (i64, u32), then: (i64, u32)) -> int {
    let d = nanos(then) - nanos(now);
    if d >= 0 {
        d / (DAY_NANOS as int)
    } else if -d < DAY_NANOS {
        -1
    } else {
        -((-d) / (DAY_NANOS as int))
    }
}

/// The whole days from one moment to another.
pub fn days_to(now: (i64, u32), then: (i64, u32)) -> (r: i64)
    ensures
        r == days_between(now, then),
{
    let d: i128 = nanos_of(then) - nanos_of(now);
    if d >= 0 {
        let n: u128 = d as u128;
        (n / 86_400_000_000_000) as i64
    } else {
        let n: u128 = (0 - d) as u128;
        if n < 86_400_000_000_000 {
            -1
        } else {
            0 - (n / 86_400_000_000_000) as i64
        }
    }
}

/// The days to a moment are negative exactly where it is past.
pub proof fn days_are_negative_once_expired(now: (i64, u32), then: (i64, u32))
    ensures
        days_between(now, then) < 0 <==> nanos(then) < nanos(now),
{
}

/// The end of the validity of the certificate in a PEM file, given the file's contents.
pub open spec fn expiry_of(path: Seq<char>, input: Seq<u8>) -> Result<(i64, u32), Seq<char>> {
    match pem_contents(input) {
        Ok(der) => match der_not_after(der) {
            Ok(m) => Ok(m),
            Err(e) => Err("bad X.509 DER at "@ + path + ": "@ + e),
        },
        Err(e) => Err("bad PEM at "@ + path + ": "@ + e),
    }
}

fn complaint(about: &str, path: &str, e: &str) -> (r: String)
    ensures
        r@ == about@ + path@ + ": "@ + e@,
{
    let mut out = text::owned(about);
    out.append(path);
    out.append(": ");
    out.append(e);
    out
}

/// The end of the validity of the certificate in a PEM file.
pub fn cert_expiry(path: &str, input: &[u8]) -> (r: Result<(i64, u32), String>)
    ensures
        match r {
            Ok(m) => expiry_of(path@, input@) == Ok::<(i64, u32), Seq<char>>(m),
            Err(e) => expiry_of(path@, input@) == Err::<(i64, u32), Seq<char>>(e@),
        },
{
    match parse_pem(input) {
        Ok(der) => match parse_not_after(der.as_slice()) {
            Ok(m) => Ok(m),
            Err(e) => Err(complaint("bad X.509 DER at ", path, e.as_str())),
        },
        Err(e) => Err(complaint("bad PEM at ", path, e.as_str())),
    }
}

/// The days until an expiry, as far as that is known.
pub open spec fn days_left(
    expiry: Result<(i64, u32), Seq<char>>,
    now: (i64, u32),
) -> Option<int> {
    match expiry {
        Ok(m) => Some(days_between(now, m)),
        Err(_) => None,
    }
}

/// The whole days until the certificate in a PEM file expires.
pub fn days_until_expiry(path: &str, input: &[u8], now: (i64, u32)) -> (r: Result<i64, String>)
    ensures
        match r {
            Ok(d) => days_left(expiry_of(path@, input@), now) == Some(d as int),
            Err(e) => expiry_of(path@, input@) == Err::<(i64, u32), Seq<char>>(e@),
        },
{
    match cert_expiry(path, input) {
        Ok(m) => Ok(days_to(now, m)),
        Err(e) => Err(e),
    }
}

/// An expiry, where it could be read.
pub open spec fn known(expiry: Result<(i64, u32), Seq<char>>) -> Option<(i64, u32)> {
    match expiry {
        Ok(m) => Some(m),
        Err(_) => None,
    }
}

/// A certificate is due for renewal: it has expired, or will within the threshold, or it is
/// not known when it does.
pub open spec fn due(expiry: Option<(i64, u32)>, now: (i64, u32), threshold_days: int) -> bool {
    match expiry {
        Some(m) => nanos(m) < nanos(now) || nanos(m) - nanos(now) < threshold_days * DAY_NANOS,
        None => true,
    }
}

/// Whether a certificate with that expiry is due for renewal.
pub fn is_due(expiry: Option<(i64, u32)>, now: (i64, u32), threshold_days: i64) -> (r: bool)
    ensures
        r == due(expiry, now, threshold_days as int),
{
    match expiry {
        Some(m) => {
            let end: i128 = nanos_of(m);
            let at: i128 = nanos_of(now);
            let least: i128 = threshold_days as i128 * DAY_NANOS;
            end < at || end - at < least
        },
        None => true,
    }
}

/// Whether a certificate file is due for renewal, given its contents. One that cannot be
/// read is.
pub fn needs_renewal(
    path: &str,
    contents: Option<&Vec<u8>>,
    now: (i64, u32),
    threshold_days: i64,
) -> (r: bool)
    ensures
        r == match contents {
            Some(p) => due(known(expiry_of(path@, p@)), now, threshold_days as int),
            None => true,
        },
{
    match contents {
        Some(p) => match cert_expiry(path, p.as_slice()) {
            Ok(m) => is_due(Some(m), now, threshold_days),
            Err(_) => is_due(None, now, threshold_days),
        },
        None => true,
    }
}

/// What is due for renewal stays due as time goes on.
pub proof fn renewal_stays_due(
    expiry: Option<(i64, u32)>,
    now: (i64, u32),
    later: (i64, u32),
    threshold: int,
)
    requires
        nanos(now) <= nanos(later),
        due(expiry, now, threshold),
    ensures
        due(expiry, later, threshold),
{
}

/// A certificate that is due with one threshold is due with every larger one, and one that
/// has expired is due with every threshold.
pub proof fn expired_certificates_are_due(
    expiry: (i64, u32),
    now: (i64, u32),
    threshold: int,
    larger: int,
)
    requires
        threshold <= larger,
    ensures
        due(Some(expiry), now, threshold) ==> due(Some(expiry), now, larger),
        nanos(expiry) < nanos(now) ==> due(Some(expiry), now, threshold),
{
}

// ---------------------------------------------------------------- choosing

/// A file in the folder of the certificates, whether a key of the same name lies beside
/// it, and when it expires, as far as that is known.
pub struct CertFile {
    pub file_name: String,
    pub key_exists: bool,
    pub expiry: Option<(i64, u32)>,
}

/// The name of a certificate file: what stands before the extension `crt`.
pub open spec fn cert_name(file: Seq<char>) -> Option<Seq<char>> {
    match features::stem_and_extension(file) {
        (stem, Some(ext)) => if ext == "crt"@ {
            Some(stem)
        } else {
            None
        },
        _ => None,
    }
}

/// A certificate is valid at a moment: it is known when it expires, and that is not before.
pub open spec fn valid_at(expiry: Option<(i64, u32)>, now: (i64, u32)) -> bool {
    expiry matches Some(m) && nanos(m) >= nanos(now)
}

/// A file that can be used: a certificate other than the self-signed one, with its key,
/// not expired.
pub open spec fn usable(f: CertFile, now: (i64, u32)) -> bool {
    &&& cert_name(f.file_name@) matches Some(stem) && stem != "cert"@
    &&& f.key_exists
    &&& valid_at(f.expiry, now)
}

/// The file that is used: none that can be used expires later, and it is the first of those
/// that expire at the same moment.
pub open spec fn best(files: Seq<CertFile>, now: (i64, u32), i: int) -> bool {
    &&& 0 <= i < files.len()
    &&& usable(files[i], now)
    &&& forall|j: int|
        0 <= j < files.len() && usable(#[trigger] files[j], now) ==> nanos(files[j].expiry->0)
            <= nanos(files[i].expiry->0) && (j < i ==> nanos(files[j].expiry->0) < nanos(
            files[i].expiry->0,
        ))
}

/// The pair that is used, or none where no file can be used.
pub open spec fn chosen_pair(
    dir: Seq<char>,
    files: Seq<CertFile>,
    now: (i64, u32),
    r: Option<(String, String, String)>,
) -> bool {
    match r {
        Some((name, crt, key)) => exists|i: int|
            #[trigger] best(files, now, i) && cert_name(files[i].file_name@) == Some(name@)
                && crt@ == dictate::joined_path(dir, files[i].file_name@) && key@
                == dictate::joined_path(dir, name@ + ".key"@),
        None => forall|i: int| 0 <= i < files.len() ==> !usable(#[trigger] files[i], now),
    }
}

fn is_valid_at(expiry: Option<(i64, u32)>, now: (i64, u32)) -> (r: bool)
    ensures
        r == valid_at(expiry, now),
{
    match expiry {
        Some(m) => nanos_of(m) >= nanos_of(now),
        None => false,
    }
}

fn is_usable(f: &CertFile, now: (i64, u32)) -> (r: bool)
    ensures
        r == usable(*f, now),
{
    let (stem, ext) = features::split_stem_ext(f.file_name.as_str());
    let named = match ext {
        Some(e) => text::same(e.as_str(), "crt") && !text::same(stem.as_str(), "cert"),
        None => false,
    };
    named && f.key_exists && is_valid_at(f.expiry, now)
}

/// The certificate to use among the files of a folder: its name, its path and the path of
/// its key.
pub fn longest_lived_pair(dir: &str, files: &Vec<CertFile>, now: (i64, u32)) -> (r: Option<
    (String, String, String),
>)
    ensures
        chosen_pair(dir@, files@, now, r),
{
    let ghost all = files@;
    let mut found: Option<usize> = None;
    let mut latest: i128 = 0;
    let mut i: usize = 0;
    while i < files.len()
        invariant
            i <= files@.len(),
            all == files@,
            match found {
                Some(b) => b < i && usable(all[b as int], now) && nanos(all[b as int].expiry->0)
                    == latest && forall|j: int|
                    0 <= j < i && usable(#[trigger] all[j], now) ==> nanos(all[j].expiry->0)
                        <= latest && (j < b ==> nanos(all[j].expiry->0) < latest),
                None => forall|j: int| 0 <= j < i ==> !usable(#[trigger] all[j], now),
            },
        decreases files@.len() - i,
    {
        if is_usable(&files[i], now) {
            if let Some(m) = files[i].expiry {
                let end: i128 = nanos_of(m);
                if found.is_none() || end > latest {
                    found = Some(i);
                    latest = end;
                }
            }
        }
        i = i + 1;
    }
    match found {
        Some(b) => {
            assert(best(all, now, b as int));
            let (stem, _) = features::split_stem_ext(files[b].file_name.as_str());
            let key_name = pshell::concat(stem.as_str(), ".key");
            let crt = join_path(dir, files[b].file_name.as_str());
            let key = join_path(dir, key_name.as_str());
            Some((stem, crt, key))
        },
        None => None,
    }
}

/// A file in the folder of the certificates as it is found: its contents, where it can be
/// read, and whether a key of the same name lies beside it.
pub struct FolderFile {
    pub file_name: String,
    pub key_exists: bool,
    pub contents: Option<Vec<u8>>,
}

/// When a certificate file expires, given its contents where it can be read.
pub open spec fn expiry_in(path: Seq<char>, contents: Option<Vec<u8>>) -> Option<(i64, u32)> {
    match contents {
        Some(c) => known(expiry_of(path, c@)),
        None => None,
    }
}

fn read_expiry(path: &str, contents: &Option<Vec<u8>>) -> (r: Option<(i64, u32)>)
    ensures
        r == expiry_in(path@, *contents),
{
    match contents {
        Some(c) => match cert_expiry(path, c.as_slice()) {
            Ok(m) => Some(m),
            Err(_) => None,
        },
        None => None,
    }
}

/// What is known of a file once its contents have been read.
pub open spec fn read_as(dir: Seq<char>, f: FolderFile, c: CertFile) -> bool {
    &&& c.file_name@ == f.file_name@
    &&& c.key_exists == f.key_exists
    &&& c.expiry == expiry_in(dictate::joined_path(dir, f.file_name@), f.contents)
}

/// The certificate to use among the files of a folder as they are found.
pub fn find_named_cert_pair(dir: &str, files: &Vec<FolderFile>, now: (i64, u32)) -> (r: Option<
    (String, String, String),
>)
    ensures
        exists|read: Seq<CertFile>|
            read.len() == files@.len() && (forall|i: int|
                0 <= i < read.len() ==> read_as(dir@, files@[i], #[trigger] read[i]))
                && #[trigger] chosen_pair(dir@, read, now, r),
{
    let mut read: Vec<CertFile> = Vec::new();
    let mut i: usize = 0;
    while i < files.len()
        invariant
            i <= files@.len(),
            read@.len() == i,
            forall|j: int| 0 <= j < i ==> read_as(dir@, files@[j], #[trigger] read@[j]),
        decreases files@.len() - i,
    {
        let f = &files[i];
        let path = join_path(dir, f.file_name.as_str());
        let expiry = read_expiry(path.as_str(), &f.contents);
        read.push(
            CertFile {
                file_name: text::owned(f.file_name.as_str()),
                key_exists: f.key_exists,
                expiry,
            },
        );
        i = i + 1;
    }
    let r = longest_lived_pair(dir, &read, now);
    assert(chosen_pair(dir@, read@, now, r));
    r
}

/// A certificate that has expired, the self-signed one and one without its key are never
/// used; and one is used wherever there is one that can be.
pub proof fn only_usable_pairs_are_used(
    dir: Seq<char>,
    files: Seq<CertFile>,
    now: (i64, u32),
    r: Option<(String, String, String)>,
)
    requires
        chosen_pair(dir, files, now, r),
    ensures
        r is Some ==> exists|i: int|
            0 <= i < files.len() && #[trigger] usable(files[i], now) && cert_name(
                files[i].file_name@,
            ) == Some((r->0).0@),
        r is Some <==> exists|i: int| 0 <= i < files.len() && #[trigger] usable(files[i], now),
{
    if let Some((name, _, _)) = r {
        let i = choose|i: int|
            #[trigger] best(files, now, i) && cert_name(files[i].file_name@) == Some(name@);
        assert(usable(files[i], now));
    }
}

// ---------------------------------------------------------------- the name

/// The first DNS name in the status that the network client writes: the string behind the
/// first `"DNSName"` and a colon, without the dot at its end.
pub open spec fn dns_name_in(status: Seq<char>) -> Option<Seq<char>> {
    match text::find_from(status, "\"DNSName\""@, 0) {
        Some(k) => match text::find_from(status, ":"@, k + 9) {
            Some(c) => match text::find_from(status, "\""@, c + 1) {
                Some(q) => match text::find_from(status, "\""@, q + 1) {
                    Some(e) => {
                        let name = without_dot(status.subrange(q + 1, e));
                        if name.len() > 0 {
                            Some(name)
                        } else {
                            None
                        }
                    },
                    None => None,
                },
                None => None,
            },
            None => None,
        },
        None => None,
    }
}

/// A name without the dot at its end.
pub open spec fn without_dot(name: Seq<char>) -> Seq<char> {
    if name.len() > 0 && name.last() == '.' {
        name.drop_last()
    } else {
        name
    }
}

/// The first DNS name in a status.
pub fn dns_name(status: &str) -> (r: Option<String>)
    ensures
        text::opt_view(r) == dns_name_in(status@),
{
    let s = text::chars_of(status);
    let total: usize = s.len();
    let key = text::chars_of("\"DNSName\"");
    let colon = text::chars_of(":");
    let quote = text::chars_of("\"");
    proof {
        reveal_strlit("\"DNSName\"");
        reveal_strlit(":");
        reveal_strlit("\"");
        assert(key@.len() == 9 && colon@.len() == 1 && quote@.len() == 1);
        assert(total == s@.len());
    }
    let k: usize = match text::position_from(s.as_slice(), key.as_slice(), 0) {
        Some(k) => k,
        None => return None,
    };
    let c: usize = match text::position_from(s.as_slice(), colon.as_slice(), k + 9) {
        Some(c) => c,
        None => return None,
    };
    let q: usize = match text::position_from(s.as_slice(), quote.as_slice(), c + 1) {
        Some(q) => q,
        None => return None,
    };
    let e: usize = match text::position_from(s.as_slice(), quote.as_slice(), q + 1) {
        Some(e) => e,
        None => return None,
    };
    let mut end: usize = e;
    if end > q + 1 && s[end - 1] == '.' {
        end = end - 1;
    }
    assert(s@.subrange(q + 1, end as int) =~= without_dot(status@.subrange(q + 1, e as int)));
    if end == q + 1 {
        None
    } else {
        Some(text::string_of(slice_subrange(s.as_slice(), q + 1, end)))
    }
}

/// The name that the first answer with a name in it gives. An answer that is none, because
/// the client could not be run or failed, is passed over.
pub open spec fn first_name(answers: Seq<Option<String>>, i: int) -> Option<Seq<char>>
    decreases answers.len() - i,
{
    if i < 0 || i >= answers.len() {
        None
    } else {
        match answers[i] {
            Some(s) => match dns_name_in(s@) {
                Some(n) => Some(n),
                None => first_name(answers, i + 1),
            },
            None => first_name(answers, i + 1),
        }
    }
}

/// This machine's DNS name, given what each of the clients answered.
pub fn tailscale_dns_name(answers: &Vec<Option<String>>) -> (r: Option<String>)
    ensures
        text::opt_view(r) == first_name(answers@, 0),
{
    let mut i: usize = 0;
    while i < answers.len()
        invariant
            i <= answers@.len(),
            first_name(answers@, 0) == first_name(answers@, i as int),
        decreases answers@.len() - i,
    {
        if let Some(s) = &answers[i] {
            if let Some(n) = dns_name(s.as_str()) {
                return Some(n);
            }
        }
        i = i + 1;
    }
    None
}

/// What came of asking one client for a certificate.
pub enum Issue {
    /// The client is not there.
    Missing,
    Refused,
    Issued,
}

/// A certificate was issued: by the first client that is there. What that one refuses, the
/// others are not asked for.
pub open spec fn issued(outcomes: Seq<Issue>, i: int) -> bool
    decreases outcomes.len() - i,
{
    if i < 0 || i >= outcomes.len() {
        false
    } else {
        match outcomes[i] {
            Issue::Missing => issued(outcomes, i + 1),
            Issue::Refused => false,
            Issue::Issued => true,
        }
    }
}

/// Whether a certificate was issued, given what came of asking the clients in turn.
pub fn provision_or_renew_cert(outcomes: &Vec<Issue>) -> (r: bool)
    ensures
        r == issued(outcomes@, 0),
{
    let mut i: usize = 0;
    while i < outcomes.len()
        invariant
            i <= outcomes@.len(),
            issued(outcomes@, 0) == issued(outcomes@, i as int),
        decreases outcomes@.len() - i,
    {
        match &outcomes[i] {
            Issue::Missing => {},
            Issue::Refused => return false,
            Issue::Issued => return true,
        }
        i = i + 1;
    }
    false
}

/// One of the names that a certificate is made out to.
pub enum San {
    Dns(String),
    Address(String),
}

/// A name that a certificate is made out to, mathematically.
pub enum SanView {
    Dns(Seq<char>),
    Address(Seq<char>),
}

impl View for San {
    type V = SanView;

    open spec fn view(&self) -> SanView {
        match self {
            San::Dns(n) => SanView::Dns(n@),
            San::Address(a) => SanView::Address(a@),
        }
    }
}

pub open spec fn sans_view(v: Seq<San>) -> Seq<SanView> {
    v.map_values(|s: San| s@)
}

/// The addresses without the repetitions.
pub open spec fn once_each(addresses: Seq<Seq<char>>) -> Seq<Seq<char>>
    decreases addresses.len(),
{
    if addresses.len() == 0 {
        Seq::empty()
    } else {
        let before = once_each(addresses.drop_last());
        if before.contains(addresses.last()) {
            before
        } else {
            before.push(addresses.last())
        }
    }
}

/// The names of this machine: `localhost`, the loopback address and each address of an
/// interface once, and the DNS name where there is one.
pub open spec fn local_names(
    addresses: Seq<Seq<char>>,
    dns_name: Option<Seq<char>>,
) -> Seq<SanView> {
    let fixed = seq![SanView::Dns("localhost"@)] + once_each(
        seq!["127.0.0.1"@] + addresses,
    ).map_values(|a: Seq<char>| SanView::Address(a));
    match dns_name {
        Some(n) => fixed.push(SanView::Dns(n)),
        None => fixed,
    }
}

fn is_among(list: &Vec<String>, s: &str) -> (r: bool)
    ensures
        r == text::views(list@).contains(s@),
{
    let mut i: usize = 0;
    while i < list.len()
        invariant
            i <= list@.len(),
            forall|j: int| 0 <= j < i ==> text::views(list@)[j] != s@,
        decreases list@.len() - i,
    {
        if text::same(list[i].as_str(), s) {
            assert(text::views(list@)[i as int] == s@);
            return true;
        }
        i = i + 1;
    }
    false
}

/// The names that the self-signed certificate is made out to.
pub fn all_local_sans(addresses: &Vec<String>, dns_name: Option<&str>) -> (r: Vec<San>)
    ensures
        sans_view(r@) == local_names(text::views(addresses@), text::opt_str(dns_name)),
{
    let ghost every = seq!["127.0.0.1"@] + text::views(addresses@);
    let mut seen: Vec<String> = Vec::new();
    seen.push(text::owned("127.0.0.1"));
    assert(every.take(1).drop_last() =~= Seq::<Seq<char>>::empty());
    assert(once_each(every.take(1)) =~= seq!["127.0.0.1"@]) by {
        reveal_with_fuel(once_each, 2);
    }
    assert(text::views(seen@) =~= once_each(every.take(1)));
    let mut i: usize = 0;
    while i < addresses.len()
        invariant
            i <= addresses@.len(),
            every == seq!["127.0.0.1"@] + text::views(addresses@),
            text::views(seen@) == once_each(every.take(i + 1)),
        decreases addresses@.len() - i,
    {
        assert(every.take(i + 2).drop_last() =~= every.take(i + 1));
        assert(every.take(i + 2).last() == addresses@[i as int]@);
        if !is_among(&seen, addresses[i].as_str()) {
            let ghost before = text::views(seen@);
            seen.push(text::owned(addresses[i].as_str()));
            assert(text::views(seen@) =~= before.push(addresses@[i as int]@));
        }
        i = i + 1;
    }
    assert(every.take(every.len() as int) =~= every);
    let mut out: Vec<San> = Vec::new();
    out.push(San::Dns(text::owned("localhost")));
    let mut k: usize = 0;
    let ghost f = |a: Seq<char>| SanView::Address(a);
    let ghost named = once_each(every);
    assert(sans_view(out@) =~= seq![SanView::Dns("localhost"@)] + named.take(0).map_values(f));
    while k < seen.len()
        invariant
            k <= seen@.len(),
            text::views(seen@) == named,
            f == (|a: Seq<char>| SanView::Address(a)),
            sans_view(out@) == seq![SanView::Dns("localhost"@)] + named.take(k as int).map_values(f),
        decreases seen@.len() - k,
    {
        let ghost before = sans_view(out@);
        out.push(San::Address(text::owned(seen[k].as_str())));
        assert(sans_view(out@) =~= before.push(SanView::Address(named[k as int])));
        assert(named.take(k + 1).map_values(f) =~= named.take(k as int).map_values(f).push(
            SanView::Address(named[k as int]),
        ));
        k = k + 1;
    }
    assert(named.take(k as int) =~= named);
    if let Some(n) = dns_name {
        let ghost before = sans_view(out@);
        out.push(San::Dns(text::owned(n)));
        assert(sans_view(out@) =~= before.push(SanView::Dns(n@)));
    }
    out
}

/// The certificate is good for the loopback address and for every address of the machine.
pub proof fn every_address_is_named(addresses: Seq<Seq<char>>, dns_name: Option<Seq<char>>, a: Seq<
    char,
>)
    requires
        a == "127.0.0.1"@ || addresses.contains(a),
    ensures
        local_names(addresses, dns_name).contains(SanView::Address(a)),
{
    let every = seq!["127.0.0.1"@] + addresses;
    assert(every.contains(a)) by {
        if a == "127.0.0.1"@ {
            assert(every[0] == a);
        } else {
            let i = choose|i: int| 0 <= i < addresses.len() && addresses[i] == a;
            assert(every[i + 1] == a);
        }
    }
    lemma_once_each(every, a);
    let i = once_each(every).index_of(a);
    assert(local_names(addresses, dns_name)[i + 1] == SanView::Address(a));
}

proof fn lemma_once_each(s: Seq<Seq<char>>, a: Seq<char>)
    requires
        s.contains(a),
    ensures
        once_each(s).contains(a),
    decreases s.len(),
{
    let before = once_each(s.drop_last());
    if a == s.last() {
        if !before.contains(a) {
            assert(once_each(s)[before.len() as int] == a);
        }
    } else {
        let i = choose|i: int| 0 <= i < s.len() && s[i] == a;
        assert(s.drop_last()[i] == a);
        lemma_once_each(s.drop_last(), a);
        let j = choose|j: int| 0 <= j < before.len() && before[j] == a;
        assert(once_each(s)[j] == a);
    }
}

// ---------------------------------------------------------------- starting

/// Where the self-signed certificate lies, and whether it has to be made first.
pub fn ensure_cert(dir: &str, cert_exists: bool, key_exists: bool) -> (r: (CertPaths, bool))
    ensures
        r.0.cert@ == dictate::joined_path(dir@, "cert.pem"@),
        r.0.key@ == dictate::joined_path(dir@, "key.pem"@),
        r.1 == !(cert_exists && key_exists),
{
    (
        CertPaths { cert: join_path(dir, "cert.pem"), key: join_path(dir, "key.pem") },
        !(cert_exists && key_exists),
    )
}

/// Where the certificate of a name lies.
pub fn named_paths(dir: &str, name: &str) -> (r: CertPaths)
    ensures
        r.cert@ == dictate::joined_path(dir@, name@ + ".crt"@),
        r.key@ == dictate::joined_path(dir@, name@ + ".key"@),
{
    let crt = pshell::concat(name, ".crt");
    let key = pshell::concat(name, ".key");
    CertPaths { cert: join_path(dir, crt.as_str()), key: join_path(dir, key.as_str()) }
}

/// Why the certificate that the bridge starts with was chosen.
pub enum CertSource {
    /// The network client is up, and the certificate of its name is valid.
    TailscaleLive { name: String },
    /// The client is not up, but a certificate of an earlier name is still valid.
    OnDiskFallback { name: String },
    /// None of these.
    SelfSigned,
}

/// What is to be done next to find a certificate.
pub enum CertStep {
    Take(CertSource),
    /// Ask for a certificate of that name.
    Provision { name: String },
    /// Look for one that is still valid.
    Scan,
}

/// Whether the pair of a certificate and its key is valid: the key is there, and the
/// certificate can be read and has not expired.
pub fn pair_is_valid(
    path: &str,
    contents: &Option<Vec<u8>>,
    key_exists: bool,
    now: (i64, u32),
) -> (r: bool)
    ensures
        r == (key_exists && valid_at(expiry_in(path@, *contents), now)),
{
    key_exists && is_valid_at(read_expiry(path, contents), now)
}

/// The first step: the certificate of the present name if it is valid, else asking for it;
/// without a name, looking for another.
pub fn choose_initial_cert(dns_name: Option<&str>, pair_valid: bool) -> (r: CertStep)
    ensures
        match dns_name {
            Some(n) => if pair_valid {
                r matches CertStep::Take(CertSource::TailscaleLive { name }) && name@ == n@
            } else {
                r matches CertStep::Provision { name } && name@ == n@
            },
            None => r is Scan,
        },
{
    match dns_name {
        Some(n) => if pair_valid {
            CertStep::Take(CertSource::TailscaleLive { name: text::owned(n) })
        } else {
            CertStep::Provision { name: text::owned(n) }
        },
        None => CertStep::Scan,
    }
}

/// The step after asking for a certificate.
pub fn after_provision(name: &str, issued: bool) -> (r: CertStep)
    ensures
        if issued {
            r matches CertStep::Take(CertSource::TailscaleLive { name: n }) && n@ == name@
        } else {
            r is Scan
        },
{
    if issued {
        CertStep::Take(CertSource::TailscaleLive { name: text::owned(name) })
    } else {
        CertStep::Scan
    }
}

/// The step after looking for a certificate. One that is still valid is never passed over
/// for the self-signed one.
pub fn after_scan(found: Option<&str>) -> (r: CertStep)
    ensures
        match found {
            Some(n) => r matches CertStep::Take(CertSource::OnDiskFallback { name }) && name@
                == n@,
            None => r matches CertStep::Take(CertSource::SelfSigned),
        },
{
    match found {
        Some(n) => CertStep::Take(CertSource::OnDiskFallback { name: text::owned(n) }),
        None => CertStep::Take(CertSource::SelfSigned),
    }
}

/// The port of the bridge.
pub const HTTPS_PORT: u16 = 8443;

/// The name in a certificate that was issued for one.
pub open spec fn source_name(source: CertSource) -> Option<Seq<char>> {
    match source {
        CertSource::TailscaleLive { name } => Some(name@),
        CertSource::OnDiskFallback { name } => Some(name@),
        CertSource::SelfSigned => None,
    }
}

/// How the bridge is reached.
pub struct Reach {
    /// The address to open on the phone.
    pub url: String,
    /// The name of the certificate in use.
    pub live_name: Option<String>,
    /// Whether a better certificate is looked for from then on.
    pub watch: bool,
}

/// How the bridge is reached with a certificate: by the name in it, or by the address of
/// the machine in its network.
pub fn reach(source: &CertSource, lan_ip: Option<&str>) -> (r: Reach)
    ensures
        r.url@ == "https://"@ + (match source_name(*source) {
            Some(n) => n,
            None => match lan_ip {
                Some(ip) => ip@,
                None => "127.0.0.1"@,
            },
        }) + ":"@ + text::decimal(HTTPS_PORT as nat),
        text::opt_view(r.live_name) == source_name(*source),
        r.watch == !(*source is TailscaleLive),
{
    let (live_name, watch) = match source {
        CertSource::TailscaleLive { name } => (Some(text::owned(name.as_str())), false),
        CertSource::OnDiskFallback { name } => (Some(text::owned(name.as_str())), true),
        CertSource::SelfSigned => (None, true),
    };
    let mut url = text::owned("https://");
    match &live_name {
        Some(n) => url.append(n.as_str()),
        None => match lan_ip {
            Some(ip) => url.append(ip),
            None => url.append("127.0.0.1"),
        },
    }
    url.append(":");
    text::push_decimal(&mut url, HTTPS_PORT as u64);
    Reach { url, live_name, watch }
}

// ---------------------------------------------------------------- watching

/// A certificate is renewed when it expires within this many days.
pub const RENEWAL_THRESHOLD_DAYS: i64 = 14;

/// How long the watcher sleeps, so many milliseconds after it began: half a minute during
/// the first ten minutes, ten minutes from then on.
pub fn watch_interval_secs(elapsed_ms: u64) -> (r: u64)
    ensures
        r == if elapsed_ms < 600_000 {
            30u64
        } else {
            600u64
        },
{
    if elapsed_ms < 600_000 {
        30
    } else {
        600
    }
}

/// What the watcher does next.
pub enum WatchStep {
    Sleep,
    /// Ask for a certificate of that name.
    Provision { name: String },
    /// Use the certificate of that name.
    Reload { name: String },
}

/// The certificate is missing or due for renewal.
pub open spec fn wants_provision(crt_exists: bool, key_exists: bool, renewal: bool) -> bool {
    !crt_exists || !key_exists || renewal
}

/// Keeps the certificate in use up to date while the bridge runs.
pub struct CertWatcher {
    /// The name of the certificate in use.
    pub live_name: Option<String>,
}

impl CertWatcher {
    /// What is done on waking up, given the name of this machine and the state of the
    /// certificate of that name.
    pub fn wake(
        &self,
        dns_name: Option<&str>,
        crt_exists: bool,
        key_exists: bool,
        renewal: bool,
    ) -> (r: WatchStep)
        ensures
            match dns_name {
                None => r is Sleep,
                Some(n) => if wants_provision(crt_exists, key_exists, renewal) {
                    r matches WatchStep::Provision { name } && name@ == n@
                } else if text::opt_view(self.live_name) == Some(n@) {
                    r is Sleep
                } else {
                    r matches WatchStep::Reload { name } && name@ == n@
                },
            },
    {
        match dns_name {
            None => WatchStep::Sleep,
            Some(n) => {
                if !crt_exists || !key_exists || renewal {
                    return WatchStep::Provision { name: text::owned(n) };
                }
                let on_it = match &self.live_name {
                    Some(l) => text::same(l.as_str(), n),
                    None => false,
                };
                if on_it {
                    WatchStep::Sleep
                } else {
                    WatchStep::Reload { name: text::owned(n) }
                }
            },
        }
    }

    /// What is done after asking for a certificate. What was not issued is asked for again
    /// the next time.
    pub fn provisioned(&self, name: &str, issued: bool) -> (r: WatchStep)
        ensures
            if issued {
                r matches WatchStep::Reload { name: n } && n@ == name@
            } else {
                r is Sleep
            },
    {
        if issued {
            WatchStep::Reload { name: text::owned(name) }
        } else {
            WatchStep::Sleep
        }
    }

    /// Takes note of what came of using another certificate.
    pub fn reloaded(&mut self, name: &str, worked: bool)
        ensures
            text::opt_view(final(self).live_name) == if worked {
                Some(name@)
            } else {
                text::opt_view(old(self).live_name)
            },
    {
        if worked {
            self.live_name = Some(text::owned(name));
        }
    }
}

/// Whole days to come are counted down: what is left lies between that many days of 86400 seconds
/// and one more. Once it is over, the days are those that have passed, but at least one, negative.
pub proof fn days_are_whole_days(now: (i64, u32), then: (i64, u32))
    ensures
        ({
            let left = (then.0 * 1_000_000_000 + then.1) - (now.0 * 1_000_000_000 + now.1);
            let day = 86_400_000_000_000int;
            let d = days_between(now, then);
            &&& left >= 0 ==> d * day <= left < (d + 1) * day
            &&& -day < left < 0 ==> d == -1
            &&& left <= -day ==> (-d) * day <= -left < (-d + 1) * day
        }),
{
}

/// A certificate is due if it is not known when it ends, if it has ended, or if fewer than so many
/// days of 86400 seconds are left of it; else it is not.
pub proof fn certificates_are_due_some_days_before(now: (i64, u32), then: (i64, u32), days: int)
    requires
        days >= 0,
    ensures
        due(None, now, days),
        ({
            let left = (then.0 * 1_000_000_000 + then.1) - (now.0 * 1_000_000_000 + now.1);
            due(Some(then), now, days) <==> left < 0 || left < days * (24 * 60 * 60
                * 1_000_000_000int)
        }),
{
}

/// A certificate is valid until the moment it ends, that moment included; one of which that is not
/// known is not.
pub proof fn certificates_are_valid_until_they_end(now: (i64, u32), then: (i64, u32))
    ensures
        !valid_at(None, now),
        then.0 > now.0 && now.1 < 1_000_000_000 ==> valid_at(Some(then), now),
        then.0 == now.0 ==> valid_at(Some(then), now) == (then.1 >= now.1),
        then.0 < now.0 && then.1 < 1_000_000_000 ==> !valid_at(Some(then), now),
{
}

/// The certificates of names are the files that end in `.crt`; the name is what stands before that.
pub proof fn certificates_are_named_by_their_file(stem: Seq<char>, ext: Seq<char>)
    requires
        stem.len() > 0,
        ext.len() > 0,
        !ext.contains('.'),
    ensures
        ext == "crt"@ ==> cert_name(stem.push('.') + ext) == Some(stem),
        ext != "crt"@ ==> cert_name(stem.push('.') + ext) is None,
        cert_name(ext) is None,
{
    features::the_last_dot_begins_the_extension(stem, ext);
    text::what_stands_behind_a_separator(stem, '.', ext, '.', '.');
    let name = stem.push('.') + ext;
    assert(name.take(name.len() - ext.len() - 1) =~= stem);
}

/// A pair can be used if it is named, not after the certificate that is made here, has its key, and
/// is valid. The one that is used ends last of all that can be.
pub proof fn the_pair_that_ends_last_is_used(files: Seq<CertFile>, now: (i64, u32), i: int, j: int)
    requires
        best(files, now, i),
        0 <= j < files.len(),
        usable(files[j], now),
    ensures
        files[i].key_exists,
        files[i].expiry is Some && valid_at(files[i].expiry, now),
        cert_name(files[i].file_name@) is Some && cert_name(files[i].file_name@) != Some("cert"@),
        (files[j].expiry->0).0 * 1_000_000_000 + (files[j].expiry->0).1 <= (files[i].expiry->0).0
            * 1_000_000_000 + (files[i].expiry->0).1,
{
}

/// The name of this machine is the string behind `"DNSName"` and a colon, without a dot at its end;
/// an empty one is none, and so is the lack of it.
pub proof fn the_name_follows_its_key(
    before: Seq<char>,
    space: Seq<char>,
    name: Seq<char>,
    behind: Seq<char>,
)
    requires
        !space.contains('"'),
        !name.contains('"'),
        forall|i: int|
            0 <= i < before.len() ==> !#[trigger] text::occurs_at(
                before + "\"DNSName\":"@ + space.push('"') + name.push('"') + behind,
                i,
                "\"DNSName\""@,
            ),
    ensures
        dns_name_in(before + "\"DNSName\":"@ + space.push('"') + name.push('"') + behind)
            == if name.len() == 0 || name == seq!['.'] {
            None
        } else if name.last() == '.' {
            Some(name.drop_last())
        } else {
            Some(name)
        },
{
    reveal_strlit("\"DNSName\":");
    reveal_strlit("\"DNSName\"");
    reveal_strlit(":");
    reveal_strlit("\"");
    let key = "\"DNSName\":"@;
    let s = before + key + space.push('"') + name.push('"') + behind;
    let k = before.len() as int;
    let c = k + 9;
    let q = c + 1 + space.len();
    let e = q + 1 + name.len();
    assert(":"@ =~= seq![':']);
    assert("\""@ =~= seq!['"']);
    assert(s.subrange(k, k + 9) =~= "\"DNSName\""@);
    assert(text::occurs_at(s, k, "\"DNSName\""@));
    text::the_first_place_is_found(s, "\"DNSName\""@, 0, k);
    assert(s[c] == key[9]);
    text::the_first_character_is_found(s, ':', c, c);
    assert(s[q] == '"');
    assert forall|j: int| c + 1 <= j < q implies (#[trigger] s[j]) != '"' by {
        assert(s[j] == space[j - c - 1]);
        assert(space.contains(space[j - c - 1]));
    }
    text::the_first_character_is_found(s, '"', c + 1, q);
    assert(s[e] == '"');
    assert forall|j: int| q + 1 <= j < e implies (#[trigger] s[j]) != '"' by {
        assert(s[j] == name[j - q - 1]);
        assert(name.contains(name[j - q - 1]));
    }
    text::the_first_character_is_found(s, '"', q + 1, e);
    assert(s.subrange(q + 1, e) =~= name);
    if name.len() == 1 && name.last() == '.' {
        assert(name =~= seq!['.']);
    }
}

/// The first answer that holds a name counts; answers that hold none are passed over.
pub proof fn the_first_name_counts(answers: Seq<Option<String>>, k: int)
    requires
        0 <= k < answers.len(),
        answers[k] is Some,
        dns_name_in(answers[k]->0@) is Some,
        forall|i: int|
            0 <= i < k ==> (#[trigger] answers[i] is None || dns_name_in(answers[i]->0@) is None),
    ensures
        first_name(answers, 0) == dns_name_in(answers[k]->0@),
{
    lemma_first_name(answers, 0, k);
}

proof fn lemma_first_name(answers: Seq<Option<String>>, i: int, k: int)
    requires
        0 <= i <= k < answers.len(),
        answers[k] is Some,
        dns_name_in(answers[k]->0@) is Some,
        forall|j: int|
            0 <= j < k ==> (#[trigger] answers[j] is None || dns_name_in(answers[j]->0@) is None),
    ensures
        first_name(answers, i) == dns_name_in(answers[k]->0@),
    decreases k - i,
{
    if i < k {
        assert(answers[i] is None || dns_name_in(answers[i]->0@) is None);
        lemma_first_name(answers, i + 1, k);
    }
}

/// The first client that is there decides whether a certificate was issued.
pub proof fn the_first_client_that_is_there_decides(outcomes: Seq<Issue>, k: int)
    requires
        0 <= k < outcomes.len(),
        !(outcomes[k] is Missing),
        forall|i: int| 0 <= i < k ==> (#[trigger] outcomes[i]) is Missing,
    ensures
        issued(outcomes, 0) == (outcomes[k] is Issued),
{
    lemma_issued(outcomes, 0, k);
}

proof fn lemma_issued(outcomes: Seq<Issue>, i: int, k: int)
    requires
        0 <= i <= k < outcomes.len(),
        !(outcomes[k] is Missing),
        forall|j: int| 0 <= j < k ==> (#[trigger] outcomes[j]) is Missing,
    ensures
        issued(outcomes, i) == (outcomes[k] is Issued),
    decreases k - i,
{
    if i < k {
        assert(outcomes[i] is Missing);
        lemma_issued(outcomes, i + 1, k);
    }
}

/// Without a client that is there nothing is issued.
pub proof fn without_clients_nothing_is_issued(outcomes: Seq<Issue>, i: int)
    requires
        0 <= i,
        forall|j: int| 0 <= j < outcomes.len() ==> (#[trigger] outcomes[j]) is Missing,
    ensures
        !issued(outcomes, i),
    decreases outcomes.len() - i,
{
    if i < outcomes.len() {
        assert(outcomes[i] is Missing);
        without_clients_nothing_is_issued(outcomes, i + 1);
    }
}

/// Each address is named once, and none that was not there.
pub proof fn addresses_are_named_once(addresses: Seq<Seq<char>>)
    ensures
        forall|i: int, j: int|
            0 <= i < j < once_each(addresses).len() ==> (#[trigger] once_each(addresses)[i]) != (
            #[trigger] once_each(addresses)[j]),
        forall|a: Seq<char>|
            #[trigger] once_each(addresses).contains(a) <==> addresses.contains(a),
    decreases addresses.len(),
{
    if addresses.len() > 0 {
        let front = addresses.drop_last();
        addresses_are_named_once(front);
        let before = once_each(front);
        let all = once_each(addresses);
        assert forall|a: Seq<char>| #[trigger] all.contains(a) <==> addresses.contains(a) by {
            if addresses.contains(a) {
                let k = choose|k: int| 0 <= k < addresses.len() && addresses[k] == a;
                if k < front.len() {
                    assert(front[k] == a);
                    assert(before.contains(a));
                    let m = choose|m: int| 0 <= m < before.len() && before[m] == a;
                    assert(all[m] == a);
                } else if !before.contains(a) {
                    assert(all[all.len() - 1] == a);
                }
            }
            if all.contains(a) {
                let k = choose|k: int| 0 <= k < all.len() && all[k] == a;
                if k < before.len() {
                    assert(before[k] == a);
                    assert(before.contains(a));
                    assert(front.contains(a));
                    let m = choose|m: int| 0 <= m < front.len() && front[m] == a;
                    assert(addresses[m] == a);
                } else {
                    assert(addresses[addresses.len() - 1] == a);
                }
            }
        }
        assert forall|i: int, j: int| 0 <= i < j < all.len() implies (#[trigger] all[i]) != (
        #[trigger] all[j]) by {
            assert(all[i] == before[i]);
            if j < before.len() {
                assert(all[j] == before[j]);
            } else {
                assert(before.contains(before[i]));
            }
        }
    }
}

/// The certificate that is made here is for this machine by its own name and address first, then by
/// its other addresses, and last by its name in the network.
pub proof fn local_certificates_name_this_machine(addresses: Seq<Seq<char>>, name: Seq<char>)
    ensures
        ({
            let bare = local_names(addresses, None);
            &&& bare.len() >= 2
            &&& bare[0] == SanView::Dns("localhost"@)
            &&& bare[1] == SanView::Address("127.0.0.1"@)
            &&& local_names(addresses, Some(name)) == bare.push(SanView::Dns(name))
        }),
{
    let all = seq!["127.0.0.1"@] + addresses;
    lemma_first_stays(all);
}

proof fn lemma_first_stays(all: Seq<Seq<char>>)
    requires
        all.len() > 0,
    ensures
        once_each(all).len() > 0,
        once_each(all)[0] == all[0],
    decreases all.len(),
{
    let front = all.drop_last();
    if front.len() > 0 {
        lemma_first_stays(front);
    } else {
        assert(once_each(front).len() == 0);
    }
}

/// A certificate is asked for where one of its two files is missing or it is to be renewed.
pub proof fn missing_files_are_asked_for(crt: bool, key: bool, renewal: bool)
    ensures
        wants_provision(crt, key, true),
        wants_provision(false, key, renewal),
        wants_provision(crt, false, renewal),
        !wants_provision(true, true, false),
        RENEWAL_THRESHOLD_DAYS == 14,
        HTTPS_PORT == 8443,
{
}

/// A certificate ends when the certificate inside its file says. A file in which there is none, and a
/// certificate that cannot be read, are told with the path.
pub proof fn certificates_say_when_they_end(
    path: Seq<char>,
    input: Seq<u8>,
    der: Seq<u8>,
    m: (i64, u32),
    e: Seq<char>,
)
    ensures
        pem_contents(input) == Ok::<Seq<u8>, Seq<char>>(der) && der_not_after(der) == Ok::<
            (i64, u32),
            Seq<char>,
        >(m) ==> expiry_of(path, input) == Ok::<(i64, u32), Seq<char>>(m) && known(
            expiry_of(path, input),
        ) == Some(m),
        pem_contents(input) == Err::<Seq<u8>, Seq<char>>(e) ==> expiry_of(path, input) == Err::<
            (i64, u32),
            Seq<char>,
        >("bad PEM at "@ + path + ": "@ + e) && known(expiry_of(path, input)) is None,
        pem_contents(input) == Ok::<Seq<u8>, Seq<char>>(der) && der_not_after(der) == Err::<
            (i64, u32),
            Seq<char>,
        >(e) ==> expiry_of(path, input) == Err::<(i64, u32), Seq<char>>(
            "bad X.509 DER at "@ + path + ": "@ + e,
        ),
        expiry_in(path, None) is None,
{
}

/// The certificate in use goes by its name, wherever it came from; the one that is made here has none.
pub proof fn certificates_in_use_go_by_their_name(name: String)
    ensures
        source_name(CertSource::TailscaleLive { name }) == Some(name@),
        source_name(CertSource::OnDiskFallback { name }) == Some(name@),
        source_name(CertSource::SelfSigned) is None,
{
}

} // verus!
