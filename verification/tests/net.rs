use iphone_bridge::keyboard::{tap_enter, tap_hotkey, type_push};
use iphone_bridge::logging::{init, log_line, MAX_LOG_BYTES};
use iphone_bridge::net::routes::{router, Handler, Method};
use iphone_bridge::net::server::{dictate_upload, dictated, viewport_report, Dictation};
use iphone_bridge::net::ws::{
    after_drain, after_forward, handle_audio, handle_mic, AudioAction, AudioEvent, DrainEnd,
    MicAction, MicEvent,
};
use iphone_bridge::json::Json;
use iphone_bridge::voice::plan;
use iphone_bridge::voice::settings::VoiceSettings;


#[test]
fn frames_ask_for_keys() {
    let hear = |f: &str| handle_mic(&MicEvent::Text(f.to_string()), "win+j");
    assert!(matches!(hear("ptt:start"), MicAction::Press(k) if k == tap_hotkey("win+j")));
    assert!(matches!(hear("ptt:stop"), MicAction::Drain));
    assert!(matches!(hear("key:alt-tab"), MicAction::AltTab));
    assert!(matches!(hear("key:enter"), MicAction::Press(k) if k == tap_enter()));
    assert!(matches!(hear("key:push"), MicAction::Press(k) if k == type_push()));
    assert!(matches!(hear("key:launch"), MicAction::Ignore));
    assert!(matches!(handle_mic(&MicEvent::Binary, ""), MicAction::Forward));
    assert!(matches!(handle_mic(&MicEvent::Close, ""), MicAction::Stop));
    assert!(matches!(handle_mic(&MicEvent::Failed, ""), MicAction::Stop));
    assert!(matches!(handle_mic(&MicEvent::Other, ""), MicAction::Ignore));
    assert!(matches!(after_forward(true), MicAction::Ignore));
    assert!(matches!(after_forward(false), MicAction::Stop));
    for end in [DrainEnd::Acknowledged, DrainEnd::Dropped, DrainEnd::TimedOut, DrainEnd::Closed] {
        assert_eq!(after_drain(&end, "win+j"), tap_hotkey("win+j"));
    }
}


#[test]
fn captured_audio_is_sent_until_nobody_listens() {
    assert_eq!(handle_audio(&AudioEvent::Frame), AudioAction::Send);
    assert_eq!(handle_audio(&AudioEvent::Lagged), AudioAction::Wait);
    assert_eq!(handle_audio(&AudioEvent::Closed), AudioAction::Stop);
    assert_eq!(handle_audio(&AudioEvent::Sent(true)), AudioAction::Wait);
    assert_eq!(handle_audio(&AudioEvent::Sent(false)), AudioAction::Stop);
}


#[test]
fn a_viewport_report_is_one_short_line() {
    assert_eq!(viewport_report("390x844\n\u{85}\u{7f}ok"), "390x844ok");
    assert_eq!(viewport_report(&"x".repeat(500)).len(), 400);
    assert_eq!(viewport_report("\u{e9}"), "\u{e9}");
}


#[test]
fn an_upload_is_answered() {
    let cfg = VoiceSettings::default();
    let p = plan(&cfg, None);
    let unused = Err("unused".to_string());
    let said = dictated(&Ok(" hello ".to_string()), &cfg, &p, &unused, &Ok(()));
    let a = dictate_upload(&said, "Voice to Text");
    assert_eq!(a.status, 200);
    assert_eq!(a.body.text_field("text"), Some("hello"));
    assert_eq!(a.body.text_field("mode"), Some("Voice to Text"));
    assert!(matches!(a.body.get("warning"), Some(Json::Null)));
    let failed = dictated(&Err("bad".to_string()), &cfg, &p, &unused, &Ok(()));
    let a = dictate_upload(&failed, "m");
    assert_eq!((a.status, a.body.text_field("error")), (422, Some("bad")));
    let undelivered =
        dictated(&Ok("x".to_string()), &cfg, &p, &unused, &Err("locked".to_string()));
    assert_eq!(dictate_upload(&undelivered, "m").status, 422);
    assert_eq!(
        dictate_upload(&Dictation::Empty, "m").body.text_field("error"),
        Some("empty recording")
    );
    assert_eq!(dictate_upload(&Dictation::Crashed, "m").status, 500);
}


#[test]
fn log_lines_carry_the_time() {
    assert_eq!(log_line(12, "[x] hi"), "[epoch+12] [x] hi\n");
    assert!(!init(MAX_LOG_BYTES));
    assert!(init(MAX_LOG_BYTES + 1));
}

#[test]
fn the_interface_is_behind_the_pin() {
    let routes = router();
    assert_eq!(routes.len(), 40);
    for r in &routes {
        let open = !r.path.starts_with("/api/") || r.path == "/api/viewport";
        assert_eq!(r.pin, !open, "{}", r.path);
    }
    let find = |m: Method, p: &str| routes.iter().find(|r| r.method == m && r.path == p).unwrap();
    assert_eq!(find(Method::Get, "/api/ls").handler, Handler::Ls);
    assert_eq!(find(Method::Put, "/api/voice/settings").handler, Handler::PutSettings);
    assert_eq!(find(Method::Delete, "/api/voice/history").handler, Handler::ClearHistory);
    assert_eq!(find(Method::Post, "/api/upload").limit, Some(200 * 1024 * 1024));
    assert_eq!(find(Method::Post, "/api/dictate").limit, Some(64 * 1024 * 1024));
    assert_eq!(find(Method::Get, "/mic").limit, None);
}
