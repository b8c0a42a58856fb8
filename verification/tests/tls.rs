use iphone_bridge::tls::{
    after_provision, after_scan, all_local_sans, cert_expiry, choose_initial_cert, days_to,
    days_until_expiry, dns_name, ensure_cert, find_named_cert_pair, is_due, named_paths,
    needs_renewal, pair_is_valid, provision_or_renew_cert, reach, tailscale_dns_name,
    watch_interval_secs, CertSource, CertStep, CertWatcher, FolderFile, Issue, San, WatchStep,
};
use rcgen::{date_time_ymd, CertificateParams, DistinguishedName, DnType, KeyPair};
use time::OffsetDateTime;

/// A self-signed certificate with the given validity, as a PEM file.
fn test_cert(not_before: OffsetDateTime, not_after: OffsetDateTime) -> Vec<u8> {
    let mut params = CertificateParams::default();
    params.not_before = not_before;
    params.not_after = not_after;
    params.distinguished_name = DistinguishedName::new();
    params.distinguished_name.push(DnType::CommonName, "test");
    let key_pair = KeyPair::generate().unwrap();
    let cert = params.self_signed(&key_pair).unwrap();
    cert.pem().into_bytes()
}

fn long_lived() -> Vec<u8> {
    test_cert(date_time_ymd(2020, 1, 1), date_time_ymd(2099, 1, 1))
}

fn expired() -> Vec<u8> {
    test_cert(date_time_ymd(2000, 1, 1), date_time_ymd(2001, 1, 1))
}

fn now() -> (i64, u32) {
    let n = OffsetDateTime::now_utc();
    (n.unix_timestamp(), n.nanosecond())
}

fn file(file_name: &str, key_exists: bool, contents: Vec<u8>) -> FolderFile {
    FolderFile { file_name: file_name.to_string(), key_exists, contents: Some(contents) }
}


#[test]
fn days_until_expiry_is_positive_for_far_future_cert() {
    let days = days_until_expiry("future.crt", &long_lived(), now()).expect("should parse");
    assert!(days > 365 * 10, "expected far-future cert, got {days} days");
}


#[test]
fn days_until_expiry_is_negative_for_expired_cert() {
    let days = days_until_expiry("expired.crt", &expired(), now()).expect("should parse");
    assert!(days < 0, "expected expired cert, got {days} days");
}


#[test]
fn days_until_expiry_sign_distinguishes_valid_from_expired() {
    assert!(days_until_expiry("good.crt", &long_lived(), now()).unwrap() >= 0);
    assert!(days_until_expiry("bad.crt", &expired(), now()).unwrap() < 0);
}


#[test]
fn needs_renewal_true_when_expired() {
    assert!(needs_renewal("old.crt", Some(&expired()), now(), 14));
}


#[test]
fn needs_renewal_true_when_expiring_soon() {
    let n = OffsetDateTime::now_utc();
    let crt = test_cert(n - time::Duration::days(1), n + time::Duration::days(5));
    assert!(
        needs_renewal("soon.crt", Some(&crt), now(), 14),
        "cert expiring in 5 days should need renewal at 14-day threshold"
    );
}


#[test]
fn needs_renewal_false_when_far_from_expiry() {
    assert!(!needs_renewal("fresh.crt", Some(&long_lived()), now(), 14));
}


#[test]
fn needs_renewal_true_when_cert_missing() {
    assert!(needs_renewal("nonexistent.crt", None, now(), 14));
}


#[test]
fn find_named_cert_pair_picks_valid_named_pair() {
    let files = vec![file("msi.tail588b52.ts.net.crt", true, long_lived())];
    let (name, crt, key) = find_named_cert_pair("C:\\d", &files, now()).expect("should find the pair");
    assert_eq!(name, "msi.tail588b52.ts.net");
    assert_eq!(crt, "C:\\d\\msi.tail588b52.ts.net.crt");
    assert_eq!(key, "C:\\d\\msi.tail588b52.ts.net.key");
}


#[test]
fn find_named_cert_pair_ignores_expired() {
    let files = vec![file("expired.example.ts.net.crt", true, expired())];
    assert!(find_named_cert_pair("d", &files, now()).is_none());
}


#[test]
fn find_named_cert_pair_ignores_self_signed_fallback_name() {
    // Only *.crt files are looked at, and not the one of the stem "cert".
    let files = vec![
        file("cert.pem", false, b"not a cert".to_vec()),
        file("key.pem", false, b"not a key".to_vec()),
        file("cert.crt", true, long_lived()),
    ];
    assert!(find_named_cert_pair("d", &files, now()).is_none());
}


#[test]
fn find_named_cert_pair_ignores_orphan_crt_without_key() {
    let files = vec![file("orphan.example.ts.net.crt", false, long_lived())];
    assert!(find_named_cert_pair("d", &files, now()).is_none());
}


#[test]
fn find_named_cert_pair_picks_longest_lived_when_multiple_valid() {
    let soon = test_cert(
        date_time_ymd(2020, 1, 1),
        OffsetDateTime::now_utc() + time::Duration::days(3),
    );
    let files = vec![
        file("soon-to-expire.ts.net.crt", true, soon),
        file("long-lived.ts.net.crt", true, long_lived()),
    ];
    let (name, _, _) = find_named_cert_pair("d", &files, now()).expect("should find a pair");
    assert_eq!(name, "long-lived.ts.net");
}


#[test]
fn the_expiry_is_read_out_of_the_certificate() {
    // 2099-01-01 in seconds since the epoch.
    assert_eq!(cert_expiry("c", &long_lived()), Ok((4_070_908_800, 0)));
    assert!(cert_expiry("x.crt", b"junk").unwrap_err().starts_with("bad PEM at x.crt: "));
    let pem = "-----BEGIN CERTIFICATE-----\nAAAA\n-----END CERTIFICATE-----\n";
    assert!(cert_expiry("x.crt", pem.as_bytes()).unwrap_err().starts_with("bad X.509 DER at x.crt: "));
}


#[test]
fn days_are_negative_as_soon_as_the_moment_is_past() {
    assert_eq!(days_to((0, 0), (86_400, 0)), 1);
    assert_eq!(days_to((0, 1), (86_400, 0)), 0);
    assert_eq!(days_to((0, 0), (0, 0)), 0);
    assert_eq!(days_to((0, 1), (0, 0)), -1);
    assert_eq!(days_to((5 * 3600, 0), (0, 0)), -1);
    assert_eq!(days_to((86_400, 0), (0, 0)), -1);
    assert_eq!(days_to((30 * 3600, 0), (0, 0)), -1);
    assert_eq!(days_to((2 * 86_400, 0), (0, 0)), -2);
    let n = OffsetDateTime::now_utc();
    let crt = test_cert(n - time::Duration::days(90), n - time::Duration::hours(5));
    assert_eq!(days_until_expiry("c", &crt, now()), Ok(-1));
}


#[test]
fn what_expired_hours_ago_is_due_and_never_used() {
    let n = OffsetDateTime::now_utc();
    let crt = test_cert(n - time::Duration::days(90), n - time::Duration::hours(5));
    assert!(needs_renewal("c", Some(&crt), now(), 0));
    assert!(needs_renewal("c", Some(&crt), now(), -3));
    let files = vec![file("pc.ts.net.crt", true, crt.clone())];
    assert!(find_named_cert_pair("d", &files, now()).is_none());
    assert!(!pair_is_valid("c", &Some(crt), true, now()));
    // Thirteen and a half days are fewer than fourteen, and more than thirteen.
    assert!(is_due(Some((1_166_400, 0)), (0, 0), 14));
    assert!(!is_due(Some((1_166_400, 0)), (0, 0), 13));
    assert!(!is_due(Some((1_209_600, 0)), (0, 0), 14));
    assert!(is_due(None, (0, 0), 14));
    // At the very moment it has not expired yet.
    assert!(!is_due(Some((5, 7)), (5, 7), 0));
    assert!(!is_due(Some((5, 7)), (5, 7), -1));
    assert!(is_due(Some((5, 7)), (5, 7), 1));
    assert!(is_due(Some((5, 7)), (5, 8), 0));
}


#[test]
fn what_is_due_stays_due() {
    assert!(needs_renewal("c", Some(&expired()), now(), 14));
    assert!(needs_renewal("c", Some(&expired()), (now().0 + 1_000_000, 0), 14));
}


#[test]
fn the_later_moment_of_the_same_day_is_preferred() {
    let n = OffsetDateTime::now_utc();
    let began = n - time::Duration::days(1);
    let sooner = test_cert(began, n + time::Duration::hours(50));
    let later = test_cert(began, n + time::Duration::hours(60));
    let files = vec![file("a.ts.net.crt", true, sooner), file("b.ts.net.crt", true, later)];
    assert_eq!(find_named_cert_pair("d", &files, now()).unwrap().0, "b.ts.net");
}


#[test]
fn a_pair_is_valid_with_its_key_and_until_it_expires() {
    assert!(pair_is_valid("c", &Some(long_lived()), true, now()));
    assert!(!pair_is_valid("c", &Some(long_lived()), false, now()));
    assert!(!pair_is_valid("c", &Some(expired()), true, now()));
    assert!(!pair_is_valid("c", &Some(b"junk".to_vec()), true, now()));
    assert!(!pair_is_valid("c", &None, true, now()));
    // Up to the last moment, and no longer.
    assert!(pair_is_valid("c", &Some(long_lived()), true, (4_070_908_800, 0)));
    assert!(!pair_is_valid("c", &Some(long_lived()), true, (4_070_908_800, 1)));
}


#[test]
fn the_name_is_read_out_of_the_status() {
    assert_eq!(dns_name(r#"{"Self":{"DNSName": "pc.ts.net."}}"#), Some("pc.ts.net".to_string()));
    assert_eq!(dns_name(r#"{"DNSName":"."}"#), None);
    assert_eq!(dns_name(r#"{"DNSName":""#), None);
    assert_eq!(dns_name("{}"), None);
    let answers = vec![None, Some("{}".to_string()), Some(r#"{"DNSName":"a.b"}"#.to_string())];
    assert_eq!(tailscale_dns_name(&answers), Some("a.b".to_string()));
    assert_eq!(tailscale_dns_name(&vec![]), None);
}


#[test]
fn a_refusal_is_not_asked_again_elsewhere() {
    assert!(provision_or_renew_cert(&vec![Issue::Missing, Issue::Issued]));
    assert!(!provision_or_renew_cert(&vec![Issue::Refused, Issue::Issued]));
    assert!(!provision_or_renew_cert(&vec![Issue::Missing, Issue::Missing]));
}


#[test]
fn the_certificate_names_every_address_once() {
    let sans = all_local_sans(
        &vec!["10.0.0.2".to_string(), "127.0.0.1".to_string(), "10.0.0.2".to_string()],
        Some("pc.ts.net"),
    );
    let shown: Vec<String> = sans
        .iter()
        .map(|s| match s {
            San::Dns(n) => format!("dns {n}"),
            San::Address(a) => format!("ip {a}"),
        })
        .collect();
    assert_eq!(shown, vec!["dns localhost", "ip 127.0.0.1", "ip 10.0.0.2", "dns pc.ts.net"]);
}


#[test]
fn a_valid_certificate_beats_the_self_signed_one() {
    assert!(matches!(
        choose_initial_cert(Some("n"), true),
        CertStep::Take(CertSource::TailscaleLive { .. })
    ));
    assert!(matches!(choose_initial_cert(Some("n"), false), CertStep::Provision { .. }));
    assert!(matches!(choose_initial_cert(None, true), CertStep::Scan));
    assert!(matches!(
        after_provision("n", true),
        CertStep::Take(CertSource::TailscaleLive { .. })
    ));
    assert!(matches!(after_provision("n", false), CertStep::Scan));
    assert!(matches!(
        after_scan(Some("old")),
        CertStep::Take(CertSource::OnDiskFallback { .. })
    ));
    assert!(matches!(after_scan(None), CertStep::Take(CertSource::SelfSigned)));
    let (paths, make) = ensure_cert("C:\\d", true, false);
    assert_eq!(paths.cert, "C:\\d\\cert.pem");
    assert!(make);
    assert!(!ensure_cert("d", true, true).1);
    assert_eq!(named_paths("C:\\d", "n").key, "C:\\d\\n.key");
}


#[test]
fn the_address_holds_the_name_or_the_network_address() {
    let live = reach(&CertSource::TailscaleLive { name: "pc.ts.net".to_string() }, Some("10.0.0.2"));
    assert_eq!(live.url, "https://pc.ts.net:8443");
    assert!(!live.watch);
    let own = reach(&CertSource::SelfSigned, Some("10.0.0.2"));
    assert_eq!(own.url, "https://10.0.0.2:8443");
    assert!(own.watch && own.live_name.is_none());
    assert_eq!(reach(&CertSource::SelfSigned, None).url, "https://127.0.0.1:8443");
}


#[test]
fn the_watcher_moves_to_a_better_certificate() {
    let mut w = CertWatcher { live_name: None };
    assert!(matches!(w.wake(None, true, true, false), WatchStep::Sleep));
    assert!(matches!(w.wake(Some("n"), false, true, false), WatchStep::Provision { .. }));
    assert!(matches!(w.wake(Some("n"), true, true, true), WatchStep::Provision { .. }));
    assert!(matches!(w.wake(Some("n"), true, true, false), WatchStep::Reload { .. }));
    assert!(matches!(w.provisioned("n", false), WatchStep::Sleep));
    assert!(matches!(w.provisioned("n", true), WatchStep::Reload { .. }));
    w.reloaded("n", false);
    assert_eq!(w.live_name, None);
    w.reloaded("n", true);
    assert_eq!(w.live_name.as_deref(), Some("n"));
    assert!(matches!(w.wake(Some("n"), true, true, false), WatchStep::Sleep));
    assert_eq!(watch_interval_secs(599_999), 30);
    assert_eq!(watch_interval_secs(600_000), 600);
}
