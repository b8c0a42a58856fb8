use iphone_bridge::files::config::{Config, Scope};
use iphone_bridge::state::CaptureCtl;
use iphone_bridge::tray::{
    add_root_path, autostart_value, click, is_autostart_set, make_icon, menu, menu_action,
    rebuild_remove_items, remove_root_at, Effect, ItemKind, MenuAction, MenuIds, Section,
};

fn ids() -> MenuIds {
    let s = |t: &str| t.to_string();
    MenuIds {
        copy_url: s("copy"),
        default_device: s("default"),
        scope_roots: s("roots"),
        scope_profile: s("profile"),
        scope_drives: s("drives"),
        add_root: s("add"),
        show_pin: s("pin"),
        autostart: s("auto"),
        exit: s("exit"),
        remove: vec![s("r0"), s("r1")],
        devices: vec![s("d0"), s("d1")],
    }
}


#[test]
fn a_click_is_told_by_its_id() {
    let ids = ids();
    let of = |id: &str| menu_action(&ids, id);
    assert_eq!(of("copy"), MenuAction::CopyUrl);
    assert_eq!(of("default"), MenuAction::DefaultDevice);
    assert_eq!(of("roots"), MenuAction::SetScope(Scope::Roots));
    assert_eq!(of("profile"), MenuAction::SetScope(Scope::Profile));
    assert_eq!(of("drives"), MenuAction::SetScope(Scope::Drives));
    assert_eq!(of("add"), MenuAction::AddRoot);
    assert_eq!(of("pin"), MenuAction::ShowPin);
    assert_eq!(of("auto"), MenuAction::ToggleAutostart);
    assert_eq!(of("exit"), MenuAction::Exit);
    assert_eq!(of("r1"), MenuAction::RemoveRoot(1));
    assert_eq!(of("d0"), MenuAction::Device(0));
    assert_eq!(of("x"), MenuAction::Nothing);
}


#[test]
fn a_click_changes_the_capture_or_the_configuration() {
    let devices = vec!["a".to_string(), "b".to_string()];
    let mut ctl = CaptureCtl::new(None);
    let mut cfg = Config::first_run(1);
    let e = click(MenuAction::Device(1), &devices, &mut ctl, &mut cfg);
    assert!(matches!(e, Effect::MarkDevices(false, m) if m == vec![false, true]));
    assert_eq!(ctl.selected_device.as_deref(), Some("b"));
    assert!(ctl.restart);
    let e = click(MenuAction::DefaultDevice, &devices, &mut ctl, &mut cfg);
    assert!(matches!(e, Effect::MarkDevices(true, m) if m == vec![false, false]));
    assert_eq!(ctl.selected_device, None);
    let e = click(MenuAction::SetScope(Scope::Drives), &devices, &mut ctl, &mut cfg);
    assert!(matches!(e, Effect::ScopeChanged(false, false, true)));
    assert_eq!(cfg.scope, Scope::Drives);
    let e = click(MenuAction::ShowPin, &devices, &mut ctl, &mut cfg);
    assert!(matches!(e, Effect::ShowPin(t) if t == format!("Files PIN: {}", cfg.pin)));
    let n = cfg.roots.len();
    assert!(matches!(click(MenuAction::RemoveRoot(0), &devices, &mut ctl, &mut cfg), Effect::RootsChanged));
    assert_eq!(cfg.roots.len(), n - 1);
    assert!(matches!(click(MenuAction::RemoveRoot(99), &devices, &mut ctl, &mut cfg), Effect::RebuildOnly));
    assert!(matches!(click(MenuAction::Exit, &devices, &mut ctl, &mut cfg), Effect::Exit));
    assert!(matches!(click(MenuAction::Device(9), &devices, &mut ctl, &mut cfg), Effect::Nothing));
}


#[test]
fn roots_are_added_once_and_removed() {
    let mut cfg = Config::first_run(1);
    cfg.roots.clear();
    assert!(add_root_path(&mut cfg, "C:/A"));
    assert!(!add_root_path(&mut cfg, "c:/a"));
    assert_eq!(rebuild_remove_items(&cfg.roots), (vec!["Remove: C:/A".to_string()], true));
    assert_eq!(remove_root_at(&mut cfg, 0).as_deref(), Some("C:/A"));
    assert_eq!(remove_root_at(&mut cfg, 0), None);
    assert_eq!(rebuild_remove_items(&cfg.roots), (vec!["(no roots)".to_string()], false));
}


#[test]
fn the_menu_lists_the_devices() {
    let m = menu(&vec!["Speakers".to_string()], Scope::Profile, true);
    assert_eq!(m.len(), 20);
    assert_eq!(m[5].label, "Speakers");
    assert_eq!((m[5].section, m[5].kind), (Section::Capture, ItemKind::Check(false)));
    assert_eq!(m[9].kind, ItemKind::Check(true));
    assert_eq!(m[9].label, "Whole user profile");
    assert_eq!(m[17].kind, ItemKind::Check(true));
    assert_eq!(m[19].label, "Exit");
}


#[test]
fn the_icon_is_a_green_disc() {
    let rgba = make_icon();
    assert_eq!(rgba.len(), 32 * 32 * 4);
    let r = 32.0 / 2.0 - 1.0;
    for y in 0..32usize {
        for x in 0..32usize {
            let dx = x as f32 + 0.5 - 16.0;
            let dy = y as f32 + 0.5 - 16.0;
            let i = (y * 32 + x) * 4;
            let want: [u8; 4] = if dx * dx + dy * dy <= r * r {
                [0x4a, 0xde, 0x80, 0xff]
            } else {
                [0, 0, 0, 0]
            };
            assert_eq!(&rgba[i..i + 4], &want);
        }
    }
}


#[test]
fn starting_with_the_system_needs_a_value() {
    assert!(is_autostart_set(Some("x")));
    assert!(!is_autostart_set(Some("")));
    assert!(!is_autostart_set(None));
    assert_eq!(autostart_value("C:/b.exe"), "\"C:/b.exe\"");
}
