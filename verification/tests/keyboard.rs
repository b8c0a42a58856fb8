use iphone_bridge::keyboard::{
    parse_hotkey, tap_ctrl_c, tap_ctrl_enter, tap_ctrl_tab, tap_desktop_left, tap_enter,
    tap_hotkey, tap_min_window, tap_tab, tap_task_view, type_btw, type_clear, type_resume,
    type_text, AltTab, ChordKey, KeyEvent, DEFAULT_PTT_HOTKEY,
};

fn vks(chord: &[ChordKey]) -> Vec<u16> {
    chord.iter().map(|k| k.vk).collect()
}

#[test]
fn parses_the_wispr_flow_default_chord() {
    let chord = parse_hotkey("ctrl+win+space").expect("default chord must parse");
    assert_eq!(vks(&chord), vec![0x11, 0x5B, 0x20]);
    assert!(
        chord.iter().all(|k| !k.extended),
        "none of ctrl/win/space are extended keys"
    );
}

#[test]
fn parses_the_legacy_superwhisper_right_alt() {
    let chord = parse_hotkey("right_alt").expect("right_alt must parse");
    assert_eq!(vks(&chord), vec![0xA5]);
    assert!(chord[0].extended, "right alt is an extended key");
}

#[test]
fn is_case_and_whitespace_insensitive() {
    let a = parse_hotkey("ctrl+win+space").unwrap();
    let b = parse_hotkey("  Ctrl + WIN +  Space ").unwrap();
    assert_eq!(a, b);
}

#[test]
fn parses_letters_and_function_keys() {
    let chord = parse_hotkey("ctrl+alt+f7").expect("f-keys must parse");
    assert_eq!(vks(&chord), vec![0x11, 0x12, 0x76]); // F7 = 0x70 + 6
    let chord = parse_hotkey("win+j").expect("letters must parse");
    assert_eq!(vks(&chord), vec![0x5B, b'J' as u16]);
}

#[test]
fn rejects_garbage_instead_of_guessing() {
    assert_eq!(parse_hotkey(""), None, "empty string");
    assert_eq!(parse_hotkey("   "), None, "blank string");
    assert_eq!(parse_hotkey("ctrl+"), None, "trailing plus");
    assert_eq!(parse_hotkey("banana"), None, "unknown key name");
    assert_eq!(parse_hotkey("ctrl+banana"), None, "unknown key in a chord");
}

#[test]
fn accepts_common_aliases() {
    assert_eq!(parse_hotkey("control+windows+spacebar"), parse_hotkey("ctrl+win+space"));
    assert_eq!(parse_hotkey("ralt"), parse_hotkey("right_alt"));
    assert_eq!(parse_hotkey("altgr"), parse_hotkey("right_alt"));
}

#[test]
fn the_shipped_default_always_parses() {
    assert!(
        parse_hotkey(DEFAULT_PTT_HOTKEY).is_some(),
        "DEFAULT_PTT_HOTKEY must never be unparsable -- it is the fallback"
    );
}


#[test]
fn a_chord_releases_in_reverse_what_it_presses() {
    let events = tap_ctrl_tab();
    let keys: Vec<(u16, u32)> = events.iter().map(|e| (e.vk, e.flags & 2)).collect();
    assert_eq!(keys, vec![(0x11, 0), (0x09, 0), (0x09, 2), (0x11, 2)]);
    assert_eq!(tap_enter().len(), 2);
}


#[test]
fn an_unreadable_hotkey_falls_back_to_the_default() {
    assert_eq!(tap_hotkey("banana"), tap_hotkey(DEFAULT_PTT_HOTKEY));
    assert_ne!(tap_hotkey("win+j"), tap_hotkey(DEFAULT_PTT_HOTKEY));
}


#[test]
fn text_is_typed_unit_by_unit() {
    let events = type_text("a\u{1F3A4}");
    let units: Vec<u16> = events.iter().map(|e| e.unit).collect();
    assert_eq!(units, vec![0x61, 0x61, 0xD83C, 0xD83C, 0xDFA4, 0xDFA4]);
    assert!(type_btw().len() > 2);
}


#[test]
fn alt_is_held_until_the_last_timer_runs_out() {
    let mut a = AltTab::new();
    let (first, t1) = a.alt_tab_cycle();
    assert_eq!(first.len(), 3);
    let (second, t2) = a.alt_tab_cycle();
    assert_eq!(second.len(), 2);
    assert!(a.timer(t1).is_empty());
    assert_eq!(a.timer(t2).len(), 1);
    assert!(a.timer(t2).is_empty());
}

fn shape(events: &[KeyEvent]) -> Vec<(u16, u32)> {
    events.iter().map(|e| (e.vk, e.flags)).collect()
}

#[test]
fn each_tap_has_its_keys() {
    assert_eq!(shape(&tap_tab()), vec![(0x09, 0), (0x09, 2)]);
    assert_eq!(shape(&tap_task_view()), vec![(0x5B, 0), (0x09, 0), (0x09, 2), (0x5B, 2)]);
    assert_eq!(shape(&tap_ctrl_c()), vec![(0x11, 0), (0x43, 0), (0x43, 2), (0x11, 2)]);
    assert_eq!(shape(&tap_ctrl_enter()), vec![(0x11, 0), (0x0D, 0), (0x0D, 2), (0x11, 2)]);
    assert_eq!(shape(&tap_min_window()), vec![(0x5B, 0), (0x28, 1), (0x28, 3), (0x5B, 2)]);
    assert_eq!(
        shape(&tap_desktop_left()),
        vec![(0x5B, 0), (0x11, 0), (0x25, 1), (0x25, 3), (0x11, 2), (0x5B, 2)]
    );
}

#[test]
fn canned_commands_end_with_enter() {
    let mut clear = type_text("/clear");
    clear.extend(tap_enter());
    assert_eq!(type_clear(), clear);
    let mut resume = type_text("/resume");
    resume.extend(tap_enter());
    assert_eq!(type_resume(), resume);
}

#[test]
fn alt_goes_down_and_up_once_however_taps_follow() {
    let mut a = AltTab::new();
    let mut balance: i32 = 0;
    let mut tokens: Vec<u64> = Vec::new();
    for _ in 0..5 {
        let (events, token) = a.alt_tab_cycle();
        tokens.push(token);
        for e in events {
            balance += if e.vk == 0x12 { 1 } else { 0 };
        }
    }
    assert_eq!(balance, 1);
    for token in tokens {
        balance -= a.timer(token).len() as i32;
    }
    assert_eq!(balance, 0);
}
