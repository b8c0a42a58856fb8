use iphone_bridge::trackpad::{origin_allowed, parse, step, Button, Command, Incoming};

#[test]
fn accepts_signed_motion_and_button_release() {
    assert!(matches!(parse(r#"{"op":"move","x":-12,"y":4}"#), Some(Command::Move { x: -12, y: 4 })));
    assert!(matches!(parse(r#"{"op":"up"}"#), Some(Command::Up)));
    assert!(matches!(parse(r#"{"op":"wheel","x":0,"y":-120}"#), Some(Command::Wheel { .. })));
}

#[test]
fn rejects_malformed_or_unbounded_input() {
    for text in [r#"{"op":"move","x":2147483647,"y":0}"#, r#"{"op":"move","x":0.5,"y":0}"#, r#"{"op":"move","x":0}"#, r#"{"op":"launch"}"#, r#"{"op":"click","extra":true}"#] {
        assert!(parse(text).is_none(), "{text}");
    }
}


#[test]
fn a_connection_that_falls_silent_during_a_drag_ends() {
    let mut b = Button::default();
    let down = Incoming::Text(r#"{"op":"down"}"#.to_string());
    assert!(step(&mut b, &Incoming::Silence).1);
    assert_eq!(step(&mut b, &down).0.len(), 1);
    assert!(b.held);
    assert!(step(&mut b, &Incoming::Beat).1);
    assert!(!step(&mut b, &Incoming::Silence).1);
    assert!(!step(&mut b, &Incoming::Other).1);
    assert!(!step(&mut b, &Incoming::Text("nonsense".to_string())).1);
    assert_eq!(b.release().len(), 1);
    assert!(b.release().is_empty());
}


#[test]
fn only_the_own_page_steers_the_pointer() {
    assert!(origin_allowed(Some("https://pc:8443"), Some("pc:8443")));
    assert!(!origin_allowed(Some("http://pc:8443"), Some("pc:8443")));
    assert!(!origin_allowed(Some("https://evil"), Some("pc:8443")));
    assert!(!origin_allowed(None, Some("pc:8443")));
    assert!(!origin_allowed(Some("https://pc"), None));
}

#[test]
fn a_command_may_come_as_a_list() {
    assert_eq!(parse(r#"["move",3,-4]"#), Some(Command::Move { x: 3, y: -4 }));
    assert_eq!(parse(r#"["wheel",0,120]"#), Some(Command::Wheel { x: 0, y: 120 }));
    assert_eq!(parse(r#"["ping"]"#), Some(Command::Ping));
    for text in [r#"[]"#, r#"["move",3]"#, r#"["move",3,4,5]"#, r#"["click",1]"#, r#"[7]"#] {
        assert!(parse(text).is_none(), "{text}");
    }
}

#[test]
fn no_drag_is_left_behind() {
    let mut b = Button::default();
    let mut down: i32 = 0;
    for op in ["down", "down", "click", "up", "up", "down"] {
        let message = format!("{{\"op\":\"{op}\"}}");
        for e in step(&mut b, &Incoming::Text(message)).0 {
            down += if e.flags == 2 { 1 } else { -1 };
        }
    }
    assert_eq!(down, 1);
    for e in b.release() {
        down += if e.flags == 2 { 1 } else { -1 };
    }
    assert_eq!(down, 0);
}
