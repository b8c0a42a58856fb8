use iphone_bridge::audio::capture::{
    enumerate_render_devices, pick_device, run_session, take_frames, CaptureStep, Device,
};
use iphone_bridge::audio::render::{discard, pick_cable_input, MicMsg, Playback, RenderStep};
use iphone_bridge::state::CaptureCtl;


#[test]
fn a_device_is_picked_by_part_of_its_name() {
    let names = vec![Some("Speakers (Realtek)".to_string()), None, Some("AirPods".to_string())];
    assert_eq!(pick_device(&names, Some("airp")), Some(2));
    assert_eq!(pick_device(&names, Some("UNKNOWN")), Some(1));
    assert_eq!(pick_device(&names, Some("zzz")), None);
    assert_eq!(pick_device(&names, None), None);
    let plain = vec!["Speakers".to_string(), "CABLE Input (VB)".to_string()];
    assert_eq!(pick_cable_input(&plain), Some(1));
    assert_eq!(pick_cable_input(&vec!["cable input".to_string()]), None);
}


#[test]
fn only_active_devices_are_offered() {
    let d = |active: bool, name: Option<&str>| Device { active, name: name.map(|n| n.to_string()) };
    let all = vec![d(true, Some("a")), d(false, Some("b")), d(true, None), d(true, Some("c"))];
    assert_eq!(enumerate_render_devices(&all), vec!["a", "c"]);
}


#[test]
fn whole_frames_leave_the_queue() {
    let mut q: Vec<u8> = (0..19).collect();
    assert_eq!(take_frames(&mut q, 8), (0..16).collect::<Vec<u8>>());
    assert_eq!(q, vec![16, 17, 18]);
    assert!(matches!(run_session(false, &mut q, 8), CaptureStep::Wait));
    q.extend([0; 5]);
    assert!(matches!(run_session(true, &mut q, 8), CaptureStep::Stop));
    assert!(matches!(run_session(false, &mut q, 8), CaptureStep::Send(c) if c.len() == 8));
    assert!(q.is_empty());
}


#[test]
fn audio_is_written_in_order_with_silence_behind_it() {
    let mut p = Playback::new();
    assert_eq!(p.run_render(), RenderStep::Poll);
    p.receive(MicMsg::Pcm(vec![1, 2, 3]));
    p.receive(MicMsg::Pcm(vec![4, 5]));
    p.nothing_waiting();
    assert_eq!(p.run_render(), RenderStep::Write);
    assert_eq!(p.chunk(2, 2), vec![1, 2, 3, 4]);
    assert_eq!(p.chunk(0, 2), Vec::<u8>::new());
    assert_eq!(p.chunk(2, 2), vec![5, 0, 0, 0]);
    p.nothing_waiting();
    assert_eq!(p.run_render(), RenderStep::Wait);
}


#[test]
fn a_drain_is_settled_once_all_is_played() {
    let mut p = Playback::new();
    p.receive(MicMsg::Pcm(vec![1]));
    p.receive(MicMsg::Drain);
    assert_eq!(p.run_render(), RenderStep::Write);
    assert!(!p.settled(9, 9));
    p.chunk(1, 1);
    assert_eq!(p.run_render(), RenderStep::Settle);
    assert!(!p.settled(8, 9));
    assert!(p.settled(9, 9));
    assert_eq!(p.run_render(), RenderStep::Poll);
}


#[test]
fn a_choice_of_device_restarts_the_capture() {
    let mut c = CaptureCtl::new(Some("a".to_string()));
    assert!(!c.restart);
    c.choose_device(Some("b"));
    assert!(c.restart);
    assert_eq!(c.take_selection().as_deref(), Some("b"));
    assert!(!c.restart);
    c.choose_device(None);
    assert_eq!(c.take_selection(), None);
}


#[test]
fn each_drain_stands_between_the_audio_before_and_behind_it() {
    let mut incoming = vec![
        MicMsg::Pcm(vec![1, 2, 3]),
        MicMsg::Drain,
        MicMsg::Pcm(vec![4]),
        MicMsg::Drain,
        MicMsg::Drain,
        MicMsg::Pcm(vec![5, 6]),
    ]
    .into_iter();
    let mut p = Playback::new();
    let mut out = String::new();
    loop {
        match p.run_render() {
            RenderStep::Poll => match incoming.next() {
                Some(m) => p.receive(m),
                None => p.nothing_waiting(),
            },
            RenderStep::Wait => break,
            RenderStep::Write => {
                for b in p.chunk(2, 1) {
                    out.push_str(&b.to_string());
                }
            }
            RenderStep::Settle => {
                if p.settled(2, 2) {
                    out.push('|');
                }
            }
        }
    }
    assert_eq!(out, "1230|40||56");
}


#[test]
fn without_a_device_who_waits_is_told_at_once() {
    assert!(!discard(&MicMsg::Pcm(vec![1, 2])));
    assert!(discard(&MicMsg::Drain));
}
