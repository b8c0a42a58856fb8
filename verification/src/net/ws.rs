//! The microphone connection: what its text frames ask for.
use crate::keyboard;
use crate::keyboard::KeyEvent;
use crate::text;
use vstd::prelude::*;

verus! {

/// The format that is announced when a connection begins.
pub const FORMAT_HEADER: &'static str =
    r#"{"type":"format","sampleRate":48000,"channels":2,"sampleFormat":"f32"}"#;

/// What happens on the connection that plays the machine's audio.
pub enum AudioEvent {
    /// Audio was captured.
    Frame,
    /// Audio was captured faster than it could be sent, and some was dropped.
    Lagged,
    /// No more will be captured.
    Closed,
    /// Sending worked or failed.
    Sent(bool),
}

/// What is done about it.
#[derive(Clone, Copy, Debug, PartialEq, Eq, Structural)]
pub enum AudioAction {
    Send,
    /// Wait for more.
    Wait,
    Stop,
}

/// What is done about what happens on the connection that plays the machine's audio. Audio
/// that was dropped is not missed; the connection ends when there is nobody to send to or
/// nothing more to send.
pub fn handle_audio(event: &AudioEvent) -> (r: AudioAction)
    ensures
        r == match event {
            AudioEvent::Frame => AudioAction::Send,
            AudioEvent::Lagged => AudioAction::Wait,
            AudioEvent::Closed => AudioAction::Stop,
            AudioEvent::Sent(worked) => if *worked {
                AudioAction::Wait
            } else {
                AudioAction::Stop
            },
        },
{
    match event {
        AudioEvent::Frame => AudioAction::Send,
        AudioEvent::Lagged => AudioAction::Wait,
        AudioEvent::Closed => AudioAction::Stop,
        AudioEvent::Sent(worked) => if *worked {
            AudioAction::Wait
        } else {
            AudioAction::Stop
        },
    }
}

/// What comes over the microphone connection.
pub enum MicEvent {
    Binary,
    Text(String),
    Close,
    /// Pings and the like.
    Other,
    /// Reading failed.
    Failed,
}

/// What is done about it.
pub enum MicAction {
    /// Hand the audio on.
    Forward,
    /// Send these key events.
    Press(Vec<KeyEvent>),
    /// Go to the next window.
    AltTab,
    /// Have the audio played out, then switch the dictation program off.
    Drain,
    Ignore,
    /// End the connection.
    Stop,
}

/// The key events that a frame asks for.
pub open spec fn frame_keys(frame: Seq<char>) -> Option<Seq<KeyEvent>> {
    if frame == "key:up"@ {
        Some(keyboard::chord_events(seq![keyboard::extended(keyboard::VK_UP)]))
    } else if frame == "key:down"@ {
        Some(keyboard::chord_events(seq![keyboard::extended(keyboard::VK_DOWN)]))
    } else if frame == "key:left"@ {
        Some(keyboard::chord_events(seq![keyboard::extended(keyboard::VK_LEFT)]))
    } else if frame == "key:right"@ {
        Some(keyboard::chord_events(seq![keyboard::extended(keyboard::VK_RIGHT)]))
    } else if frame == "key:enter"@ {
        Some(keyboard::chord_events(seq![keyboard::plain(keyboard::VK_RETURN)]))
    } else if frame == "key:escape"@ {
        Some(keyboard::chord_events(seq![keyboard::plain(keyboard::VK_ESCAPE)]))
    } else if frame == "key:backspace"@ {
        Some(keyboard::chord_events(seq![keyboard::plain(keyboard::VK_BACK)]))
    } else if frame == "key:desktop-left"@ {
        Some(
            keyboard::chord_events(
                seq![
                    keyboard::plain(keyboard::VK_LWIN),
                    keyboard::plain(keyboard::VK_CONTROL),
                    keyboard::extended(keyboard::VK_LEFT),
                ],
            ),
        )
    } else if frame == "key:desktop-right"@ {
        Some(
            keyboard::chord_events(
                seq![
                    keyboard::plain(keyboard::VK_LWIN),
                    keyboard::plain(keyboard::VK_CONTROL),
                    keyboard::extended(keyboard::VK_RIGHT),
                ],
            ),
        )
    } else if frame == "key:ctrl-tab"@ {
        Some(keyboard::chord_events(seq![keyboard::plain(keyboard::VK_CONTROL), keyboard::plain(keyboard::VK_TAB)]))
    } else if frame == "key:shift-tab"@ {
        Some(keyboard::chord_events(seq![keyboard::plain(keyboard::VK_SHIFT), keyboard::plain(keyboard::VK_TAB)]))
    } else if frame == "key:ctrl-u"@ {
        Some(keyboard::chord_events(seq![keyboard::plain(keyboard::VK_CONTROL), keyboard::plain(0x55)]))
    } else if frame == "key:ctrl-w"@ {
        Some(keyboard::chord_events(seq![keyboard::plain(keyboard::VK_CONTROL), keyboard::plain(0x57)]))
    } else if frame == "key:ctrl-k"@ {
        Some(keyboard::chord_events(seq![keyboard::plain(keyboard::VK_CONTROL), keyboard::plain(0x4b)]))
    } else if frame == "key:ctrl-a"@ {
        Some(keyboard::chord_events(seq![keyboard::plain(keyboard::VK_CONTROL), keyboard::plain(0x41)]))
    } else if frame == "key:ctrl-e"@ {
        Some(keyboard::chord_events(seq![keyboard::plain(keyboard::VK_CONTROL), keyboard::plain(0x45)]))
    } else if frame == "key:btw"@ {
        Some(keyboard::unit_events(crate::utf16::encoded("/btw "@)))
    } else if frame == "key:push"@ {
        Some(keyboard::text_and_enter("push"@))
    } else if frame == "key:space"@ {
        Some(keyboard::chord_events(seq![keyboard::plain(keyboard::VK_SPACE)]))
    } else if frame == "key:min-window"@ {
        Some(keyboard::chord_events(seq![keyboard::plain(keyboard::VK_LWIN), keyboard::extended(keyboard::VK_DOWN)]))
    } else {
        None
    }
}

/// What is done about a text frame.
pub open spec fn answers_frame(frame: Seq<char>, hotkey: Seq<char>, a: MicAction) -> bool {
    if frame == "ptt:start"@ {
        a matches MicAction::Press(k) && k@ == keyboard::chord_events(keyboard::hotkey(hotkey))
    } else if frame == "ptt:stop"@ {
        a is Drain
    } else if frame == "key:alt-tab"@ {
        a is AltTab
    } else {
        match frame_keys(frame) {
            Some(keys) => a matches MicAction::Press(k) && k@ == keys,
            None => a is Ignore,
        }
    }
}

/// What is done about a text frame, given the combination that switches the dictation
/// program. A frame that is not known is passed over.
pub fn mic_frame(frame: &str, hotkey: &str) -> (r: MicAction)
    ensures
        answers_frame(frame@, hotkey@, r),
{
    if text::same(frame, "ptt:start") {
        return MicAction::Press(keyboard::tap_hotkey(hotkey));
    }
    if text::same(frame, "ptt:stop") {
        return MicAction::Drain;
    }
    if text::same(frame, "key:alt-tab") {
        return MicAction::AltTab;
    }
    if text::same(frame, "key:up") {
        return MicAction::Press(keyboard::tap_arrow_up());
    }
    if text::same(frame, "key:down") {
        return MicAction::Press(keyboard::tap_arrow_down());
    }
    if text::same(frame, "key:left") {
        return MicAction::Press(keyboard::tap_arrow_left());
    }
    if text::same(frame, "key:right") {
        return MicAction::Press(keyboard::tap_arrow_right());
    }
    if text::same(frame, "key:enter") {
        return MicAction::Press(keyboard::tap_enter());
    }
    if text::same(frame, "key:escape") {
        return MicAction::Press(keyboard::tap_escape());
    }
    if text::same(frame, "key:backspace") {
        return MicAction::Press(keyboard::tap_backspace());
    }
    if text::same(frame, "key:desktop-left") {
        return MicAction::Press(keyboard::tap_desktop_left());
    }
    if text::same(frame, "key:desktop-right") {
        return MicAction::Press(keyboard::tap_desktop_right());
    }
    if text::same(frame, "key:ctrl-tab") {
        return MicAction::Press(keyboard::tap_ctrl_tab());
    }
    if text::same(frame, "key:shift-tab") {
        return MicAction::Press(keyboard::tap_shift_tab());
    }
    if text::same(frame, "key:ctrl-u") {
        return MicAction::Press(keyboard::tap_ctrl_u());
    }
    if text::same(frame, "key:ctrl-w") {
        return MicAction::Press(keyboard::tap_ctrl_w());
    }
    if text::same(frame, "key:ctrl-k") {
        return MicAction::Press(keyboard::tap_ctrl_k());
    }
    if text::same(frame, "key:ctrl-a") {
        return MicAction::Press(keyboard::tap_ctrl_a());
    }
    if text::same(frame, "key:ctrl-e") {
        return MicAction::Press(keyboard::tap_ctrl_e());
    }
    if text::same(frame, "key:btw") {
        return MicAction::Press(keyboard::type_btw());
    }
    if text::same(frame, "key:push") {
        return MicAction::Press(keyboard::type_push());
    }
    if text::same(frame, "key:space") {
        return MicAction::Press(keyboard::tap_space());
    }
    if text::same(frame, "key:min-window") {
        return MicAction::Press(keyboard::tap_min_window());
    }
    MicAction::Ignore
}

/// What is done about what comes over the microphone connection.
pub fn handle_mic(event: &MicEvent, hotkey: &str) -> (r: MicAction)
    ensures
        match event {
            MicEvent::Binary => r is Forward,
            MicEvent::Text(frame) => answers_frame(frame@, hotkey@, r),
            MicEvent::Close => r is Stop,
            MicEvent::Other => r is Ignore,
            MicEvent::Failed => r is Stop,
        },
{
    match event {
        MicEvent::Binary => MicAction::Forward,
        MicEvent::Text(frame) => mic_frame(frame.as_str(), hotkey),
        MicEvent::Close => MicAction::Stop,
        MicEvent::Other => MicAction::Ignore,
        MicEvent::Failed => MicAction::Stop,
    }
}

/// What is done after handing audio on: where nobody takes it, the connection ends.
pub fn after_forward(taken: bool) -> (r: MicAction)
    ensures
        if taken {
            r is Ignore
        } else {
            r is Stop
        },
{
    if taken {
        MicAction::Ignore
    } else {
        MicAction::Stop
    }
}

/// How the wait for the audio to be played out ended.
pub enum DrainEnd {
    Acknowledged,
    Dropped,
    TimedOut,
    /// The audio side was gone before the wait began.
    Closed,
}

/// How long the audio has to be played out.
pub const DRAIN_WAIT_SECS: u64 = 3;

/// The key events that switch the dictation program off, sent however the wait ended.
pub fn after_drain(end: &DrainEnd, hotkey: &str) -> (r: Vec<KeyEvent>)
    ensures
        r@ == keyboard::chord_events(keyboard::hotkey(hotkey@)),
{
    match end {
        DrainEnd::Acknowledged | DrainEnd::Dropped | DrainEnd::TimedOut | DrainEnd::Closed => {
            keyboard::tap_hotkey(hotkey)
        },
    }
}

/// No text frame ends the connection, and none is taken for audio.
pub proof fn frames_do_not_end_the_connection(frame: Seq<char>, hotkey: Seq<char>, a: MicAction)
    requires
        answers_frame(frame, hotkey, a),
    ensures
        !(a is Stop),
        !(a is Forward),
{
}

/// The action presses exactly these keys, each given by its number and whether it is extended:
/// down in this order, up in the opposite one. The flag 1 marks an extended key, the flag 2 a key
/// that goes up.
pub open spec fn presses(a: MicAction, keys: Seq<(u16, bool)>) -> bool {
    a matches MicAction::Press(events) && events@.len() == 2 * keys.len() && forall|i: int|
        0 <= i < keys.len() ==> events@[i] == (KeyEvent {
            vk: (#[trigger] keys[i]).0,
            unit: 0,
            flags: if keys[i].1 {
                1
            } else {
                0
            },
        }) && events@[2 * keys.len() - 1 - i] == (KeyEvent {
            vk: keys[i].0,
            unit: 0,
            flags: if keys[i].1 {
                3
            } else {
                2
            },
        })
}

proof fn lemma_presses(a: MicAction, keys: Seq<(u16, bool)>, chord: Seq<keyboard::ChordKey>)
    requires
        a matches MicAction::Press(events) && events@ == keyboard::chord_events(chord),
        chord.len() == keys.len(),
        forall|i: int|
            0 <= i < keys.len() ==> chord[i].vk == (#[trigger] keys[i]).0 && chord[i].extended
                == keys[i].1,
    ensures
        presses(a, keys),
{
    assert forall|i: int| 0 <= i < keys.len() implies ({
        let events = a->Press_0@;
        events[i] == (KeyEvent {
            vk: (#[trigger] keys[i]).0,
            unit: 0,
            flags: if keys[i].1 {
                1
            } else {
                0
            },
        }) && events[2 * keys.len() - 1 - i] == (KeyEvent {
            vk: keys[i].0,
            unit: 0,
            flags: if keys[i].1 {
                3
            } else {
                2
            },
        })
    }) by {
        keyboard::chords_go_down_in_order_and_up_in_reverse(chord, i);
    }
}

proof fn lemma_frames()
    ensures
        "ptt:start"@.len() == 9 && "ptt:start"@[4] == 's' && "ptt:start"@[0] == 'p',
        "ptt:stop"@.len() == 8 && "ptt:stop"@[4] == 's' && "ptt:stop"@[0] == 'p',
        "key:alt-tab"@.len() == 11 && "key:alt-tab"@[0] == 'k',
        "key:up"@.len() == 6 && "key:up"@[0] == 'k',
        "key:down"@.len() == 8 && "key:down"@[4] == 'd' && "key:down"@[0] == 'k',
        "key:left"@.len() == 8 && "key:left"@[4] == 'l' && "key:left"@[0] == 'k',
        "key:right"@.len() == 9 && "key:right"@[4] == 'r' && "key:right"@[0] == 'k',
        "key:enter"@.len() == 9 && "key:enter"@[4] == 'e' && "key:enter"@[0] == 'k',
        "key:escape"@.len() == 10 && "key:escape"@[4] == 'e' && "key:escape"@[0] == 'k',
        "key:backspace"@.len() == 13 && "key:backspace"@[4] == 'b' && "key:backspace"@[0] == 'k',
        "key:desktop-left"@.len() == 16 && "key:desktop-left"@[0] == 'k',
        "key:desktop-right"@.len() == 17 && "key:desktop-right"@[0] == 'k',
        "key:ctrl-tab"@.len() == 12 && "key:ctrl-tab"@[0] == 'k',
        "key:shift-tab"@.len() == 13 && "key:shift-tab"@[4] == 's' && "key:shift-tab"@[0] == 'k',
        "key:ctrl-u"@.len() == 10 && "key:ctrl-u"@[4] == 'c' && "key:ctrl-u"@[9] == 'u',
        "key:ctrl-w"@.len() == 10 && "key:ctrl-w"@[4] == 'c' && "key:ctrl-w"@[9] == 'w',
        "key:ctrl-k"@.len() == 10 && "key:ctrl-k"@[4] == 'c' && "key:ctrl-k"@[9] == 'k',
        "key:ctrl-a"@.len() == 10 && "key:ctrl-a"@[4] == 'c' && "key:ctrl-a"@[9] == 'a',
        "key:ctrl-e"@.len() == 10 && "key:ctrl-e"@[4] == 'c' && "key:ctrl-e"@[9] == 'e',
        "key:ctrl-u"@[0] == 'k' && "key:ctrl-w"@[0] == 'k' && "key:ctrl-k"@[0] == 'k'
            && "key:ctrl-a"@[0] == 'k' && "key:ctrl-e"@[0] == 'k',
        "key:btw"@.len() == 7 && "key:btw"@[0] == 'k',
        "key:push"@.len() == 8 && "key:push"@[4] == 'p' && "key:push"@[0] == 'k',
        "key:space"@.len() == 9 && "key:space"@[4] == 's' && "key:space"@[0] == 'k',
        "key:min-window"@.len() == 14 && "key:min-window"@[0] == 'k',
{
    reveal_strlit("ptt:start");
    reveal_strlit("ptt:stop");
    reveal_strlit("key:alt-tab");
    reveal_strlit("key:up");
    reveal_strlit("key:down");
    reveal_strlit("key:left");
    reveal_strlit("key:right");
    reveal_strlit("key:enter");
    reveal_strlit("key:escape");
    reveal_strlit("key:backspace");
    reveal_strlit("key:desktop-left");
    reveal_strlit("key:desktop-right");
    reveal_strlit("key:ctrl-tab");
    reveal_strlit("key:shift-tab");
    reveal_strlit("key:ctrl-u");
    reveal_strlit("key:ctrl-w");
    reveal_strlit("key:ctrl-k");
    reveal_strlit("key:ctrl-a");
    reveal_strlit("key:ctrl-e");
    reveal_strlit("key:btw");
    reveal_strlit("key:push");
    reveal_strlit("key:space");
    reveal_strlit("key:min-window");
}

/// A frame that names a key presses that key and no other, whatever the combination that switches
/// the dictation program.
pub proof fn frames_press_the_keys_they_name(frame: Seq<char>, hotkey: Seq<char>, a: MicAction)
    requires
        answers_frame(frame, hotkey, a),
    ensures
        frame == "key:up"@ ==> presses(a, seq![(0x26u16, true)]),
        frame == "key:down"@ ==> presses(a, seq![(0x28u16, true)]),
        frame == "key:left"@ ==> presses(a, seq![(0x25u16, true)]),
        frame == "key:right"@ ==> presses(a, seq![(0x27u16, true)]),
        frame == "key:enter"@ ==> presses(a, seq![(0x0Du16, false)]),
        frame == "key:escape"@ ==> presses(a, seq![(0x1Bu16, false)]),
        frame == "key:backspace"@ ==> presses(a, seq![(0x08u16, false)]),
        frame == "key:space"@ ==> presses(a, seq![(0x20u16, false)]),
{
    lemma_frames();
    if frame == "key:up"@ {
        lemma_presses(a, seq![(0x26u16, true)], seq![keyboard::extended(keyboard::VK_UP)]);
    } else if frame == "key:down"@ {
        lemma_presses(a, seq![(0x28u16, true)], seq![keyboard::extended(keyboard::VK_DOWN)]);
    } else if frame == "key:left"@ {
        lemma_presses(a, seq![(0x25u16, true)], seq![keyboard::extended(keyboard::VK_LEFT)]);
    } else if frame == "key:right"@ {
        lemma_presses(a, seq![(0x27u16, true)], seq![keyboard::extended(keyboard::VK_RIGHT)]);
    } else if frame == "key:enter"@ {
        lemma_presses(a, seq![(0x0Du16, false)], seq![keyboard::plain(keyboard::VK_RETURN)]);
    } else if frame == "key:escape"@ {
        lemma_presses(a, seq![(0x1Bu16, false)], seq![keyboard::plain(keyboard::VK_ESCAPE)]);
    } else if frame == "key:backspace"@ {
        lemma_presses(a, seq![(0x08u16, false)], seq![keyboard::plain(keyboard::VK_BACK)]);
    } else if frame == "key:space"@ {
        lemma_presses(a, seq![(0x20u16, false)], seq![keyboard::plain(keyboard::VK_SPACE)]);
    }
}

/// A frame that names a key under Ctrl, Shift or the Windows key holds that key down around the
/// other: Ctrl is the key 0x11, Shift 0x10, the Windows key 0x5B.
pub proof fn frames_hold_the_keys_they_name(frame: Seq<char>, hotkey: Seq<char>, a: MicAction)
    requires
        answers_frame(frame, hotkey, a),
    ensures
        frame == "key:desktop-left"@ ==> presses(
            a,
            seq![(0x5Bu16, false), (0x11u16, false), (0x25u16, true)],
        ),
        frame == "key:desktop-right"@ ==> presses(
            a,
            seq![(0x5Bu16, false), (0x11u16, false), (0x27u16, true)],
        ),
        frame == "key:min-window"@ ==> presses(a, seq![(0x5Bu16, false), (0x28u16, true)]),
        frame == "key:ctrl-tab"@ ==> presses(a, seq![(0x11u16, false), (0x09u16, false)]),
        frame == "key:shift-tab"@ ==> presses(a, seq![(0x10u16, false), (0x09u16, false)]),
        frame == "key:ctrl-u"@ ==> presses(a, seq![(0x11u16, false), ('U' as u16, false)]),
        frame == "key:ctrl-w"@ ==> presses(a, seq![(0x11u16, false), ('W' as u16, false)]),
        frame == "key:ctrl-k"@ ==> presses(a, seq![(0x11u16, false), ('K' as u16, false)]),
        frame == "key:ctrl-a"@ ==> presses(a, seq![(0x11u16, false), ('A' as u16, false)]),
        frame == "key:ctrl-e"@ ==> presses(a, seq![(0x11u16, false), ('E' as u16, false)]),
{
    lemma_frames();
    let ctrl = keyboard::plain(keyboard::VK_CONTROL);
    let win = keyboard::plain(keyboard::VK_LWIN);
    if frame == "key:desktop-left"@ {
        lemma_presses(
            a,
            seq![(0x5Bu16, false), (0x11u16, false), (0x25u16, true)],
            seq![win, ctrl, keyboard::extended(keyboard::VK_LEFT)],
        );
    } else if frame == "key:desktop-right"@ {
        lemma_presses(
            a,
            seq![(0x5Bu16, false), (0x11u16, false), (0x27u16, true)],
            seq![win, ctrl, keyboard::extended(keyboard::VK_RIGHT)],
        );
    } else if frame == "key:min-window"@ {
        lemma_presses(
            a,
            seq![(0x5Bu16, false), (0x28u16, true)],
            seq![win, keyboard::extended(keyboard::VK_DOWN)],
        );
    } else if frame == "key:ctrl-tab"@ {
        lemma_presses(
            a,
            seq![(0x11u16, false), (0x09u16, false)],
            seq![ctrl, keyboard::plain(keyboard::VK_TAB)],
        );
    } else if frame == "key:shift-tab"@ {
        lemma_presses(
            a,
            seq![(0x10u16, false), (0x09u16, false)],
            seq![keyboard::plain(keyboard::VK_SHIFT), keyboard::plain(keyboard::VK_TAB)],
        );
    } else if frame == "key:ctrl-u"@ {
        lemma_presses(
            a,
            seq![(0x11u16, false), ('U' as u16, false)],
            seq![ctrl, keyboard::plain(0x55)],
        );
    } else if frame == "key:ctrl-w"@ {
        lemma_presses(
            a,
            seq![(0x11u16, false), ('W' as u16, false)],
            seq![ctrl, keyboard::plain(0x57)],
        );
    } else if frame == "key:ctrl-k"@ {
        lemma_presses(
            a,
            seq![(0x11u16, false), ('K' as u16, false)],
            seq![ctrl, keyboard::plain(0x4b)],
        );
    } else if frame == "key:ctrl-a"@ {
        lemma_presses(
            a,
            seq![(0x11u16, false), ('A' as u16, false)],
            seq![ctrl, keyboard::plain(0x41)],
        );
    } else if frame == "key:ctrl-e"@ {
        lemma_presses(
            a,
            seq![(0x11u16, false), ('E' as u16, false)],
            seq![ctrl, keyboard::plain(0x45)],
        );
    }
}

/// Pressing the talk button presses the configured combination, and letting go of it has the audio
/// played out first. The frames for texts type them, one of them with Enter behind it. A frame that
/// begins with neither a `p` nor a `k` is passed over.
pub proof fn frames_talk_and_type(frame: Seq<char>, hotkey: Seq<char>, a: MicAction)
    requires
        answers_frame(frame, hotkey, a),
    ensures
        frame == "ptt:start"@ ==> (a matches MicAction::Press(k) && k@ == keyboard::chord_events(
            keyboard::hotkey(hotkey),
        )),
        frame == "ptt:stop"@ ==> a is Drain,
        frame == "key:alt-tab"@ ==> a is AltTab,
        frame == "key:btw"@ ==> (a matches MicAction::Press(k) && k@ == keyboard::unit_events(
            crate::utf16::encoded("/btw "@),
        )),
        frame == "key:push"@ ==> (a matches MicAction::Press(k) && k@ == keyboard::text_and_enter(
            "push"@,
        )),
        frame.len() == 0 || (frame[0] != 'p' && frame[0] != 'k') ==> a is Ignore,
{
    lemma_frames();
}

} // verus!
