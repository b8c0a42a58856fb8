//! Key events: which keys go down and up, and in which order.
use crate::text;
use crate::utf16;
use vstd::prelude::*;

verus! {

pub const VK_BACK: u16 = 0x08;

pub const VK_TAB: u16 = 0x09;

pub const VK_RETURN: u16 = 0x0D;

pub const VK_SHIFT: u16 = 0x10;

pub const VK_CONTROL: u16 = 0x11;

pub const VK_MENU: u16 = 0x12;

pub const VK_ESCAPE: u16 = 0x1B;

pub const VK_SPACE: u16 = 0x20;

pub const VK_LEFT: u16 = 0x25;

pub const VK_UP: u16 = 0x26;

pub const VK_RIGHT: u16 = 0x27;

pub const VK_DOWN: u16 = 0x28;

pub const VK_LWIN: u16 = 0x5B;

pub const VK_RMENU: u16 = 0xA5;

/// The first function key.
pub const VK_F1: u16 = 0x70;

/// The key has an extended scan code.
pub const EXTENDED: u32 = 1;

/// The key goes up.
pub const KEY_UP: u32 = 2;

/// The event carries a UTF-16 code unit in place of a key.
pub const UNICODE: u32 = 4;

/// One key event: a virtual key or a code unit, and the flags.
#[derive(Clone, Copy, Debug, PartialEq, Eq, Structural)]
pub struct KeyEvent {
    pub vk: u16,
    pub unit: u16,
    pub flags: u32,
}

/// One key of a combination, and whether its scan code is extended.
#[derive(Clone, Copy, Debug, PartialEq, Eq, Structural)]
pub struct ChordKey {
    pub vk: u16,
    pub extended: bool,
}

/// The flag for an extended scan code.
pub open spec fn base_flags(k: ChordKey) -> u32 {
    if k.extended {
        EXTENDED
    } else {
        0
    }
}

/// The key goes down.
pub open spec fn press(k: ChordKey) -> KeyEvent {
    KeyEvent { vk: k.vk, unit: 0, flags: base_flags(k) }
}

/// The key goes up.
pub open spec fn release(k: ChordKey) -> KeyEvent {
    KeyEvent { vk: k.vk, unit: 0, flags: (base_flags(k) + KEY_UP) as u32 }
}

/// The keys go down in order and up in reverse order.
pub open spec fn chord_events(keys: Seq<ChordKey>) -> Seq<KeyEvent> {
    keys.map_values(|k: ChordKey| press(k)) + keys.reverse().map_values(|k: ChordKey| release(k))
}

/// A key without an extended scan code.
pub open spec fn plain(vk: u16) -> ChordKey {
    ChordKey { vk, extended: false }
}

/// A key with an extended scan code.
pub open spec fn extended(vk: u16) -> ChordKey {
    ChordKey { vk, extended: true }
}

fn make(k: ChordKey, up: bool) -> (r: KeyEvent)
    ensures
        r == if up {
            release(k)
        } else {
            press(k)
        },
{
    let base: u32 = if k.extended {
        EXTENDED
    } else {
        0
    };
    KeyEvent {
        vk: k.vk,
        unit: 0,
        flags: if up {
            base + KEY_UP
        } else {
            base
        },
    }
}

/// The keys go down in order and up in reverse order.
pub fn chord(keys: &[ChordKey]) -> (r: Vec<KeyEvent>)
    ensures
        r@ == chord_events(keys@),
{
    let n: usize = keys.len();
    let ghost downs = keys@.map_values(|k: ChordKey| press(k));
    let ghost ups = keys@.reverse().map_values(|k: ChordKey| release(k));
    let mut out: Vec<KeyEvent> = Vec::new();
    let mut i: usize = 0;
    assert(out@ =~= downs.take(0));
    while i < n
        invariant
            i <= n == keys@.len(),
            downs == keys@.map_values(|k: ChordKey| press(k)),
            out@ == downs.take(i as int),
        decreases n - i,
    {
        out.push(make(keys[i], false));
        i = i + 1;
        assert(out@ =~= downs.take(i as int));
    }
    assert(out@ =~= downs + ups.take(0));
    let mut j: usize = n;
    while j > 0
        invariant
            j <= n == keys@.len(),
            ups == keys@.reverse().map_values(|k: ChordKey| release(k)),
            out@ == downs + ups.take(n - j),
        decreases j,
    {
        j = j - 1;
        out.push(make(keys[j], true));
        assert(ups[n - j - 1] == release(keys@[j as int]));
        assert(out@ =~= downs + ups.take(n - j));
    }
    assert(ups.take(n as int) =~= ups);
    out
}

/// Every key of a combination that goes down comes up again: the events mirror each
/// other, the first half down, the second half up.
pub proof fn chords_release_what_they_press(keys: Seq<ChordKey>, i: int)
    requires
        0 <= i < keys.len(),
    ensures
        chord_events(keys).len() == 2 * keys.len(),
        chord_events(keys)[i] == press(keys[i]),
        chord_events(keys)[2 * keys.len() - 1 - i] == release(keys[i]),
{
}

/// A combination of `n` keys gives `2 * n` events. The key at place `i` goes down at place `i`
/// and comes up at place `2 * n - 1 - i`; both events name that key and no code unit. Going
/// down, the only flag is 1, for an extended scan code; coming up, the flag 2 is added.
pub proof fn chords_go_down_in_order_and_up_in_reverse(keys: Seq<ChordKey>, i: int)
    requires
        0 <= i < keys.len(),
    ensures
        chord_events(keys).len() == 2 * keys.len(),
        chord_events(keys)[i].vk == keys[i].vk,
        chord_events(keys)[i].unit == 0,
        chord_events(keys)[i].flags == if keys[i].extended {
            1u32
        } else {
            0u32
        },
        chord_events(keys)[2 * keys.len() - 1 - i].vk == keys[i].vk,
        chord_events(keys)[2 * keys.len() - 1 - i].unit == 0,
        chord_events(keys)[2 * keys.len() - 1 - i].flags == if keys[i].extended {
            3u32
        } else {
            2u32
        },
{
}

/// Taps one key.
pub fn tap_vk(vk: u16, is_extended: bool) -> (r: Vec<KeyEvent>)
    ensures
        r@ == chord_events(seq![ChordKey { vk, extended: is_extended }]),
{
    let keys: Vec<ChordKey> = vec![ChordKey { vk, extended: is_extended }];
    assert(keys@ =~= seq![ChordKey { vk, extended: is_extended }]);
    chord(keys.as_slice())
}

/// Holds the Windows key and Ctrl and taps an extended key.
pub fn tap_win_ctrl_chord(vk: u16) -> (r: Vec<KeyEvent>)
    ensures
        r@ == chord_events(seq![plain(VK_LWIN), plain(VK_CONTROL), extended(vk)]),
{
    let keys: Vec<ChordKey> = vec![
        ChordKey { vk: VK_LWIN, extended: false },
        ChordKey { vk: VK_CONTROL, extended: false },
        ChordKey { vk, extended: true },
    ];
    assert(keys@ =~= seq![plain(VK_LWIN), plain(VK_CONTROL), extended(vk)]);
    chord(keys.as_slice())
}

/// Holds the Windows key and taps an extended key.
pub fn tap_win_chord(vk: u16) -> (r: Vec<KeyEvent>)
    ensures
        r@ == chord_events(seq![plain(VK_LWIN), extended(vk)]),
{
    let keys: Vec<ChordKey> = vec![
        ChordKey { vk: VK_LWIN, extended: false },
        ChordKey { vk, extended: true },
    ];
    assert(keys@ =~= seq![plain(VK_LWIN), extended(vk)]);
    chord(keys.as_slice())
}

/// Holds a modifier and taps a key; neither is extended.
pub fn tap_mod_chord(modifier: u16, key: u16) -> (r: Vec<KeyEvent>)
    ensures
        r@ == chord_events(seq![plain(modifier), plain(key)]),
{
    let keys: Vec<ChordKey> = vec![
        ChordKey { vk: modifier, extended: false },
        ChordKey { vk: key, extended: false },
    ];
    assert(keys@ =~= seq![plain(modifier), plain(key)]);
    chord(keys.as_slice())
}

pub fn tap_arrow_up() -> (r: Vec<KeyEvent>)
    ensures
        r@ == chord_events(seq![extended(VK_UP)]),
{
    tap_vk(VK_UP, true)
}

pub fn tap_arrow_down() -> (r: Vec<KeyEvent>)
    ensures
        r@ == chord_events(seq![extended(VK_DOWN)]),
{
    tap_vk(VK_DOWN, true)
}

pub fn tap_arrow_left() -> (r: Vec<KeyEvent>)
    ensures
        r@ == chord_events(seq![extended(VK_LEFT)]),
{
    tap_vk(VK_LEFT, true)
}

pub fn tap_arrow_right() -> (r: Vec<KeyEvent>)
    ensures
        r@ == chord_events(seq![extended(VK_RIGHT)]),
{
    tap_vk(VK_RIGHT, true)
}

pub fn tap_enter() -> (r: Vec<KeyEvent>)
    ensures
        r@ == chord_events(seq![plain(VK_RETURN)]),
{
    tap_vk(VK_RETURN, false)
}

pub fn tap_escape() -> (r: Vec<KeyEvent>)
    ensures
        r@ == chord_events(seq![plain(VK_ESCAPE)]),
{
    tap_vk(VK_ESCAPE, false)
}

pub fn tap_backspace() -> (r: Vec<KeyEvent>)
    ensures
        r@ == chord_events(seq![plain(VK_BACK)]),
{
    tap_vk(VK_BACK, false)
}

pub fn tap_space() -> (r: Vec<KeyEvent>)
    ensures
        r@ == chord_events(seq![plain(VK_SPACE)]),
{
    tap_vk(VK_SPACE, false)
}

pub fn tap_tab() -> (r: Vec<KeyEvent>)
    ensures
        r@ == chord_events(seq![plain(VK_TAB)]),
{
    tap_vk(VK_TAB, false)
}

pub fn tap_desktop_left() -> (r: Vec<KeyEvent>)
    ensures
        r@ == chord_events(seq![plain(VK_LWIN), plain(VK_CONTROL), extended(VK_LEFT)]),
{
    tap_win_ctrl_chord(VK_LEFT)
}

pub fn tap_desktop_right() -> (r: Vec<KeyEvent>)
    ensures
        r@ == chord_events(seq![plain(VK_LWIN), plain(VK_CONTROL), extended(VK_RIGHT)]),
{
    tap_win_ctrl_chord(VK_RIGHT)
}

pub fn tap_min_window() -> (r: Vec<KeyEvent>)
    ensures
        r@ == chord_events(seq![plain(VK_LWIN), extended(VK_DOWN)]),
{
    tap_win_chord(VK_DOWN)
}

pub fn tap_task_view() -> (r: Vec<KeyEvent>)
    ensures
        r@ == chord_events(seq![plain(VK_LWIN), plain(VK_TAB)]),
{
    tap_mod_chord(VK_LWIN, VK_TAB)
}

pub fn tap_ctrl_tab() -> (r: Vec<KeyEvent>)
    ensures
        r@ == chord_events(seq![plain(VK_CONTROL), plain(VK_TAB)]),
{
    tap_mod_chord(VK_CONTROL, VK_TAB)
}

pub fn tap_shift_tab() -> (r: Vec<KeyEvent>)
    ensures
        r@ == chord_events(seq![plain(VK_SHIFT), plain(VK_TAB)]),
{
    tap_mod_chord(VK_SHIFT, VK_TAB)
}

pub fn tap_ctrl_u() -> (r: Vec<KeyEvent>)
    ensures
        r@ == chord_events(seq![plain(VK_CONTROL), plain(0x55)]),
{
    tap_mod_chord(VK_CONTROL, 0x55)
}

pub fn tap_ctrl_w() -> (r: Vec<KeyEvent>)
    ensures
        r@ == chord_events(seq![plain(VK_CONTROL), plain(0x57)]),
{
    tap_mod_chord(VK_CONTROL, 0x57)
}

pub fn tap_ctrl_k() -> (r: Vec<KeyEvent>)
    ensures
        r@ == chord_events(seq![plain(VK_CONTROL), plain(0x4b)]),
{
    tap_mod_chord(VK_CONTROL, 0x4b)
}

pub fn tap_ctrl_a() -> (r: Vec<KeyEvent>)
    ensures
        r@ == chord_events(seq![plain(VK_CONTROL), plain(0x41)]),
{
    tap_mod_chord(VK_CONTROL, 0x41)
}

pub fn tap_ctrl_e() -> (r: Vec<KeyEvent>)
    ensures
        r@ == chord_events(seq![plain(VK_CONTROL), plain(0x45)]),
{
    tap_mod_chord(VK_CONTROL, 0x45)
}

pub fn tap_ctrl_c() -> (r: Vec<KeyEvent>)
    ensures
        r@ == chord_events(seq![plain(VK_CONTROL), plain(0x43)]),
{
    tap_mod_chord(VK_CONTROL, 0x43)
}

pub fn tap_ctrl_enter() -> (r: Vec<KeyEvent>)
    ensures
        r@ == chord_events(seq![plain(VK_CONTROL), plain(VK_RETURN)]),
{
    tap_mod_chord(VK_CONTROL, VK_RETURN)
}

// ---------------------------------------------------------------- switching windows

/// How long Alt stays down after the last Tab.
pub const ALT_TAB_RELEASE_MS: u64 = 350;

/// Whether Alt is held down for switching windows, and the number of the last tap. Alt
/// stays down from tap to tap, so that each goes one window further; it is released when
/// no tap follows for a while.
pub struct AltTab {
    pub held: bool,
    pub token: u64,
}

/// The next number.
pub open spec fn next_token(token: u64) -> u64 {
    if token == u64::MAX {
        0
    } else {
        (token + 1) as u64
    }
}

/// The state after a tap.
pub open spec fn tapped(a: AltTab) -> AltTab {
    AltTab { held: true, token: next_token(a.token) }
}

/// The events of a tap: Alt goes down unless it is down already, and Tab down and up.
pub open spec fn tap_events(a: AltTab) -> Seq<KeyEvent> {
    (if a.held {
        Seq::empty()
    } else {
        seq![press(plain(VK_MENU))]
    }) + seq![press(plain(VK_TAB)), release(plain(VK_TAB))]
}

/// The timer of a tap releases Alt: it is that of the last tap, and Alt is down.
pub open spec fn releases(a: AltTab, token: u64) -> bool {
    a.token == token && a.held
}

/// The state after the timer of a tap has run out.
pub open spec fn timed_out(a: AltTab, token: u64) -> AltTab {
    AltTab { held: a.held && !releases(a, token), token: a.token }
}

/// The events when the timer of a tap has run out.
pub open spec fn timer_events(a: AltTab, token: u64) -> Seq<KeyEvent> {
    if releases(a, token) {
        seq![release(plain(VK_MENU))]
    } else {
        Seq::empty()
    }
}

impl AltTab {
    /// Alt is up.
    pub fn new() -> (r: AltTab)
        ensures
            !r.held,
            r.token == 0,
    {
        AltTab { held: false, token: 0 }
    }

    /// A tap: the events, and the number by which the timer of this tap is known.
    pub fn alt_tab_cycle(&mut self) -> (r: (Vec<KeyEvent>, u64))
        ensures
            *final(self) == tapped(*old(self)),
            r.0@ == tap_events(*old(self)),
            r.1 == final(self).token,
    {
        self.token = if self.token == u64::MAX {
            0
        } else {
            self.token + 1
        };
        let mut events: Vec<KeyEvent> = Vec::new();
        if !self.held {
            events.push(make(ChordKey { vk: VK_MENU, extended: false }, false));
        }
        self.held = true;
        events.push(make(ChordKey { vk: VK_TAB, extended: false }, false));
        events.push(make(ChordKey { vk: VK_TAB, extended: false }, true));
        assert(events@ =~= tap_events(*old(self)));
        (events, self.token)
    }

    /// The timer of a tap has run out. Only that of the last tap releases Alt.
    pub fn timer(&mut self, token: u64) -> (r: Vec<KeyEvent>)
        ensures
            *final(self) == timed_out(*old(self), token),
            r@ == timer_events(*old(self), token),
    {
        let mut events: Vec<KeyEvent> = Vec::new();
        if self.token == token && self.held {
            self.held = false;
            events.push(make(ChordKey { vk: VK_MENU, extended: false }, true));
        }
        assert(events@ =~= timer_events(*old(self), token));
        events
    }
}

/// A tap, or the end of the timer of a tap.
pub enum AltTabStep {
    Tap,
    Timer(u64),
}

/// The state and all the events after a run of steps.
pub open spec fn run_of(a: AltTab, steps: Seq<AltTabStep>) -> (AltTab, Seq<KeyEvent>)
    decreases steps.len(),
{
    if steps.len() == 0 {
        (a, Seq::empty())
    } else {
        let (before, events) = run_of(a, steps.drop_last());
        match steps.last() {
            AltTabStep::Tap => (tapped(before), events + tap_events(before)),
            AltTabStep::Timer(t) => (timed_out(before, t), events + timer_events(before, t)),
        }
    }
}

/// How many more times Alt went down than up.
pub open spec fn alt_balance(events: Seq<KeyEvent>) -> int
    decreases events.len(),
{
    if events.len() == 0 {
        0
    } else {
        alt_balance(events.drop_last()) + if events.last() == press(plain(VK_MENU)) {
            1int
        } else if events.last() == release(plain(VK_MENU)) {
            -1int
        } else {
            0int
        }
    }
}

proof fn lemma_alt_balance_adds(a: Seq<KeyEvent>, b: Seq<KeyEvent>)
    ensures
        alt_balance(a + b) == alt_balance(a) + alt_balance(b),
    decreases b.len(),
{
    if b.len() == 0 {
        assert(a + b =~= a);
    } else {
        lemma_alt_balance_adds(a, b.drop_last());
        assert((a + b).drop_last() =~= a + b.drop_last());
    }
}

/// However taps and timers follow each other, Alt is down exactly while it is held: it never
/// goes down twice in a row, nor up.
pub proof fn alt_stays_in_step(steps: Seq<AltTabStep>)
    ensures
        ({
            let (a, events) = run_of(AltTab { held: false, token: 0 }, steps);
            alt_balance(events) == if a.held {
                1int
            } else {
                0int
            }
        }),
    decreases steps.len(),
{
    let start = AltTab { held: false, token: 0 };
    if steps.len() > 0 {
        alt_stays_in_step(steps.drop_last());
        let (before, events) = run_of(start, steps.drop_last());
        let more = match steps.last() {
            AltTabStep::Tap => tap_events(before),
            AltTabStep::Timer(t) => timer_events(before, t),
        };
        lemma_alt_balance_adds(events, more);
        reveal_with_fuel(alt_balance, 4);
        match steps.last() {
            AltTabStep::Tap => {
                if before.held {
                    assert(more =~= seq![press(plain(VK_TAB)), release(plain(VK_TAB))]);
                    assert(more.drop_last() =~= seq![press(plain(VK_TAB))]);
                } else {
                    assert(more.drop_last() =~= seq![
                        press(plain(VK_MENU)),
                        press(plain(VK_TAB)),
                    ]);
                    assert(more.drop_last().drop_last() =~= seq![press(plain(VK_MENU))]);
                }
            },
            AltTabStep::Timer(_) => {},
        }
    }
}

/// The timer of the last tap always releases Alt; that of the tap before it never does.
pub proof fn only_the_last_timer_counts(a: AltTab)
    ensures
        !timed_out(tapped(a), tapped(a).token).held,
        timed_out(tapped(tapped(a)), tapped(a).token) == tapped(tapped(a)),
        timer_events(tapped(tapped(a)), tapped(a).token).len() == 0,
{
}

/// Every tap ends with Tab going down and up, and Alt is held then. Alt goes down first exactly
/// when it was up. Its own timer lets go of Alt, with nothing else; a timer that comes when Alt
/// is up does nothing. Tab is the key 9 and Alt the key 18; 2 is the flag of a key that goes up.
pub proof fn a_tap_is_tab_under_alt(a: AltTab, token: u64)
    ensures
        tap_events(a).len() == if a.held {
            2int
        } else {
            3int
        },
        !a.held ==> tap_events(a)[0] == (KeyEvent { vk: 18, unit: 0, flags: 0 }),
        tap_events(a)[tap_events(a).len() - 2] == (KeyEvent { vk: 9, unit: 0, flags: 0 }),
        tap_events(a)[tap_events(a).len() - 1] == (KeyEvent { vk: 9, unit: 0, flags: 2 }),
        tapped(a).held,
        tapped(a).token != a.token,
        timer_events(tapped(a), tapped(a).token) =~= seq![
            KeyEvent { vk: 18, unit: 0, flags: 2 },
        ],
        !a.held ==> timer_events(a, token).len() == 0 && timed_out(a, token) == a,
        token != a.token ==> timer_events(a, token).len() == 0 && timed_out(a, token) == a,
{
}

// ---------------------------------------------------------------- typing

/// A code unit goes down or up.
pub open spec fn unit_event(u: u16, up: bool) -> KeyEvent {
    KeyEvent {
        vk: 0,
        unit: u,
        flags: if up {
            (UNICODE + KEY_UP) as u32
        } else {
            UNICODE
        },
    }
}

/// Each code unit goes down and up, in order.
pub open spec fn unit_events(units: Seq<u16>) -> Seq<KeyEvent>
    decreases units.len(),
{
    if units.len() == 0 {
        Seq::empty()
    } else {
        unit_events(units.drop_last()) + seq![
            unit_event(units.last(), false),
            unit_event(units.last(), true),
        ]
    }
}

/// Types a text, whatever the keyboard layout: each of its UTF-16 code units goes down
/// and up.
pub fn type_text(s: &str) -> (r: Vec<KeyEvent>)
    ensures
        r@ == unit_events(utf16::encoded(s@)),
{
    let units = utf16::encode(s);
    let mut out: Vec<KeyEvent> = Vec::new();
    let mut i: usize = 0;
    assert(out@ =~= unit_events(units@.take(0)));
    while i < units.len()
        invariant
            i <= units@.len(),
            out@ == unit_events(units@.take(i as int)),
        decreases units@.len() - i,
    {
        let u: u16 = units[i];
        assert(units@.take(i + 1).drop_last() =~= units@.take(i as int));
        out.push(KeyEvent { vk: 0, unit: u, flags: UNICODE });
        out.push(KeyEvent { vk: 0, unit: u, flags: UNICODE + KEY_UP });
        i = i + 1;
        assert(out@ =~= unit_events(units@.take(i as int)));
    }
    assert(units@.take(i as int) =~= units@);
    out
}

proof fn lemma_unit_events(units: Seq<u16>)
    ensures
        unit_events(units).len() == 2 * units.len(),
        forall|k: int|
            0 <= k < units.len() ==> unit_events(units)[2 * k] == unit_event(
                #[trigger] units[k],
                false,
            ) && unit_events(units)[2 * k + 1] == unit_event(units[k], true),
    decreases units.len(),
{
    if units.len() > 0 {
        let front = units.drop_last();
        lemma_unit_events(front);
        assert forall|k: int| 0 <= k < units.len() implies unit_events(units)[2 * k] == unit_event(
            #[trigger] units[k],
            false,
        ) && unit_events(units)[2 * k + 1] == unit_event(units[k], true) by {
            if k < front.len() {
                assert(front[k] == units[k]);
            }
        }
    }
}

/// Typing a text gives two events for each of its code units. The event at `2 * k` carries the
/// `k`-th unit with the Unicode flag, 4, and no other; the event behind it carries the same unit
/// with that flag and the flag of going up, 2. No event names a key: each unit goes down exactly
/// once and comes up right behind.
pub proof fn each_unit_goes_down_and_comes_up(s: Seq<char>, k: int)
    requires
        0 <= k < utf16::encoded(s).len(),
    ensures
        unit_events(utf16::encoded(s)).len() == 2 * utf16::encoded(s).len(),
        unit_events(utf16::encoded(s))[2 * k].unit == utf16::encoded(s)[k],
        unit_events(utf16::encoded(s))[2 * k].flags == 4,
        unit_events(utf16::encoded(s))[2 * k].vk == 0,
        unit_events(utf16::encoded(s))[2 * k + 1].unit == utf16::encoded(s)[k],
        unit_events(utf16::encoded(s))[2 * k + 1].flags == 6,
        unit_events(utf16::encoded(s))[2 * k + 1].vk == 0,
{
    lemma_unit_events(utf16::encoded(s));
}

/// Typing nothing gives no events, and typing two texts one behind the other gives the events of
/// both: no text is typed otherwise for what stands before or behind it.
pub proof fn texts_are_typed_one_behind_the_other(s: Seq<char>, t: Seq<char>)
    ensures
        unit_events(utf16::encoded(Seq::empty())).len() == 0,
        unit_events(utf16::encoded(s + t)) == unit_events(utf16::encoded(s)) + unit_events(
            utf16::encoded(t),
        ),
{
    utf16::units_follow_the_text(s, t);
    let u = utf16::encoded(s);
    let v = utf16::encoded(t);
    lemma_unit_events(u);
    lemma_unit_events(v);
    lemma_unit_events(u + v);
    let whole = unit_events(u + v);
    assert forall|i: int| 0 <= i < whole.len() implies whole[i] == (unit_events(u) + unit_events(
        v,
    ))[i] by {
        let k = i / 2;
        assert((u + v)[k] == if k < u.len() {
            u[k]
        } else {
            v[k - u.len()]
        });
        assert(i == 2 * k || i == 2 * k + 1);
    }
    assert(whole =~= unit_events(u) + unit_events(v));
}

/// Behind a text that is sent, Enter, the key 13, goes down and up, and nothing follows.
pub proof fn enter_comes_last(s: Seq<char>)
    ensures
        text_and_enter(s).len() == 2 * utf16::encoded(s).len() + 2,
        text_and_enter(s).take(2 * utf16::encoded(s).len() as int) == unit_events(
            utf16::encoded(s),
        ),
        text_and_enter(s)[2 * utf16::encoded(s).len() as int] == (KeyEvent {
            vk: 13,
            unit: 0,
            flags: 0,
        }),
        text_and_enter(s)[2 * utf16::encoded(s).len() as int + 1] == (KeyEvent {
            vk: 13,
            unit: 0,
            flags: 2,
        }),
{
    lemma_unit_events(utf16::encoded(s));
    assert(text_and_enter(s).take(2 * utf16::encoded(s).len() as int) =~= unit_events(
        utf16::encoded(s),
    ));
}

/// Two lists of events, one behind the other.
fn then_events(a: Vec<KeyEvent>, b: Vec<KeyEvent>) -> (r: Vec<KeyEvent>)
    ensures
        r@ == a@ + b@,
{
    let mut out = a;
    let mut rest = b;
    out.append(&mut rest);
    assert(out@ =~= a@ + b@);
    out
}

/// The events of a text and of Enter behind it.
pub open spec fn text_and_enter(s: Seq<char>) -> Seq<KeyEvent> {
    unit_events(utf16::encoded(s)) + chord_events(seq![plain(VK_RETURN)])
}

pub fn type_btw() -> (r: Vec<KeyEvent>)
    ensures
        r@ == unit_events(utf16::encoded("/btw "@)),
{
    type_text("/btw ")
}

pub fn type_push() -> (r: Vec<KeyEvent>)
    ensures
        r@ == text_and_enter("push"@),
{
    then_events(type_text("push"), tap_enter())
}

pub fn type_clear() -> (r: Vec<KeyEvent>)
    ensures
        r@ == text_and_enter("/clear"@),
{
    then_events(type_text("/clear"), tap_enter())
}

pub fn type_resume() -> (r: Vec<KeyEvent>)
    ensures
        r@ == text_and_enter("/resume"@),
{
    then_events(type_text("/resume"), tap_enter())
}

// ---------------------------------------------------------------- the hotkey

/// The key combination of a first run.
pub const DEFAULT_PTT_HOTKEY: &'static str = "right_alt";

/// The key that a word in small letters stands for.
pub open spec fn key_named(t: Seq<char>) -> Option<ChordKey> {
    if t == "ctrl"@ || t == "control"@ {
        Some(plain(VK_CONTROL))
    } else if t == "win"@ || t == "windows"@ || t == "super"@ {
        Some(plain(VK_LWIN))
    } else if t == "alt"@ {
        Some(plain(VK_MENU))
    } else if t == "shift"@ {
        Some(plain(VK_SHIFT))
    } else if t == "right_alt"@ || t == "ralt"@ || t == "altgr"@ {
        Some(extended(VK_RMENU))
    } else if t == "space"@ || t == "spacebar"@ {
        Some(plain(VK_SPACE))
    } else if t == "enter"@ || t == "return"@ {
        Some(plain(VK_RETURN))
    } else if t == "tab"@ {
        Some(plain(VK_TAB))
    } else if t == "esc"@ || t == "escape"@ {
        Some(plain(VK_ESCAPE))
    } else if t.len() == 1 && text::ascii_alphanumeric(t[0]) {
        Some(plain(upper_code(t[0])))
    } else if t.len() > 1 && t[0] == 'f' {
        match text::parsed_i64(t.drop_first()) {
            Some(n) => if 1 <= n <= 24 {
                Some(plain((VK_F1 + n - 1) as u16))
            } else {
                None
            },
            None => None,
        }
    } else {
        None
    }
}

/// The code of the capital of an ASCII letter, or of a digit.
pub open spec fn upper_code(c: char) -> u16 {
    if 'a' <= c <= 'z' {
        (c as u32 - 32) as u16
    } else {
        c as u16
    }
}

/// A word of a combination, trimmed and in small letters.
pub open spec fn word_of(piece: Seq<char>) -> Seq<char> {
    text::ascii_lower(text::trimmed(piece))
}

/// The keys that the first `n` pieces stand for, if each stands for one.
pub open spec fn keys_of(pieces: Seq<Seq<char>>) -> Option<Seq<ChordKey>>
    decreases pieces.len(),
{
    if pieces.len() == 0 {
        Some(Seq::empty())
    } else {
        match (keys_of(pieces.drop_last()), key_named(word_of(pieces.last()))) {
            (Some(keys), Some(k)) => Some(keys.push(k)),
            _ => None,
        }
    }
}

/// The combination that a text such as `ctrl+win+space` stands for, in the order of
/// pressing.
pub open spec fn parsed_hotkey(s: Seq<char>) -> Option<Seq<ChordKey>> {
    keys_of(text::split(s, '+'))
}

/// The key that a word in small letters stands for.
fn find_key(t: &str) -> (r: Option<ChordKey>)
    ensures
        r == key_named(t@),
{
    if text::same(t, "ctrl") || text::same(t, "control") {
        return Some(ChordKey { vk: VK_CONTROL, extended: false });
    }
    if text::same(t, "win") || text::same(t, "windows") || text::same(t, "super") {
        return Some(ChordKey { vk: VK_LWIN, extended: false });
    }
    if text::same(t, "alt") {
        return Some(ChordKey { vk: VK_MENU, extended: false });
    }
    if text::same(t, "shift") {
        return Some(ChordKey { vk: VK_SHIFT, extended: false });
    }
    if text::same(t, "right_alt") || text::same(t, "ralt") || text::same(t, "altgr") {
        return Some(ChordKey { vk: VK_RMENU, extended: true });
    }
    if text::same(t, "space") || text::same(t, "spacebar") {
        return Some(ChordKey { vk: VK_SPACE, extended: false });
    }
    if text::same(t, "enter") || text::same(t, "return") {
        return Some(ChordKey { vk: VK_RETURN, extended: false });
    }
    if text::same(t, "tab") {
        return Some(ChordKey { vk: VK_TAB, extended: false });
    }
    if text::same(t, "esc") || text::same(t, "escape") {
        return Some(ChordKey { vk: VK_ESCAPE, extended: false });
    }
    let chars = text::chars_of(t);
    let n: usize = chars.len();
    if n == 1 && text::is_ascii_alphanumeric(chars[0]) {
        let c = chars[0];
        let code: u16 = if 'a' <= c && c <= 'z' {
            (c as u8 - 32) as u16
        } else {
            c as u8 as u16
        };
        return Some(ChordKey { vk: code, extended: false });
    }
    if n > 1 && chars[0] == 'f' {
        assert(chars@.subrange(1, n as int) =~= t@.drop_first());
        if let Some(v) = text::parse_i64(vstd::slice::slice_subrange(chars.as_slice(), 1, n)) {
            if 1 <= v && v <= 24 {
                return Some(ChordKey { vk: VK_F1 + (v as u16 - 1), extended: false });
            }
        }
    }
    None
}

/// Once a piece stands for no key, the whole does not.
proof fn lemma_keys_none(pieces: Seq<Seq<char>>, n: int)
    requires
        0 <= n <= pieces.len(),
        keys_of(pieces.take(n)) is None,
    ensures
        keys_of(pieces) is None,
    decreases pieces.len() - n,
{
    if n < pieces.len() {
        assert(pieces.take(n + 1).drop_last() =~= pieces.take(n));
        lemma_keys_none(pieces, n + 1);
    } else {
        assert(pieces.take(n) =~= pieces);
    }
}

/// Parses a key combination; nothing for what is not one, rather than a guess.
pub fn parse_hotkey(s: &str) -> (r: Option<Vec<ChordKey>>)
    ensures
        match r {
            Some(keys) => parsed_hotkey(s@) == Some(keys@),
            None => parsed_hotkey(s@) is None,
        },
{
    let chars = text::chars_of(s);
    let pieces = text::split_chars(chars.as_slice(), '+');
    let ghost all = text::deep(pieces@);
    let mut keys: Vec<ChordKey> = Vec::new();
    let mut i: usize = 0;
    assert(keys_of(all.take(0)) == Some(keys@)) by {
        assert(keys@ =~= Seq::empty());
    }
    while i < pieces.len()
        invariant
            i <= pieces@.len(),
            all == text::deep(pieces@),
            all == text::split(s@, '+'),
            keys_of(all.take(i as int)) == Some(keys@),
        decreases pieces@.len() - i,
    {
        assert(all.take(i + 1).drop_last() =~= all.take(i as int));
        assert(all.take(i + 1).last() == pieces@[i as int]@);
        let trimmed = text::string_of(text::trim_chars(pieces[i].as_slice()));
        let word = text::to_ascii_lower(trimmed.as_str());
        match find_key(word.as_str()) {
            Some(k) => {
                keys.push(k);
            },
            None => {
                proof {
                    lemma_keys_none(all, i + 1);
                }
                return None;
            },
        }
        i = i + 1;
    }
    assert(all.take(i as int) =~= all);
    Some(keys)
}

/// The configured combination, or that of a first run where the configured text is none.
pub open spec fn hotkey(s: Seq<char>) -> Seq<ChordKey> {
    match parsed_hotkey(s) {
        Some(keys) => keys,
        None => seq![extended(VK_RMENU)],
    }
}

/// Presses the configured combination.
pub fn tap_hotkey(s: &str) -> (r: Vec<KeyEvent>)
    ensures
        r@ == chord_events(hotkey(s@)),
{
    match parse_hotkey(s) {
        Some(keys) => chord(keys.as_slice()),
        None => tap_vk(VK_RMENU, true),
    }
}

/// The combination of a first run is one: the right Alt key.
pub proof fn the_default_hotkey_parses()
    ensures
        parsed_hotkey(DEFAULT_PTT_HOTKEY@) == Some(seq![extended(VK_RMENU)]),
{
    let s = "right_alt"@;
    reveal_strlit("right_alt");
    reveal_strlit("ctrl");
    reveal_strlit("control");
    reveal_strlit("win");
    reveal_strlit("windows");
    reveal_strlit("super");
    reveal_strlit("alt");
    reveal_strlit("shift");
    assert(s.len() == 9);
    assert(s[0] == 'r' && s[1] == 'i' && s[2] == 'g' && s[3] == 'h' && s[4] == 't' && s[5] == '_'
        && s[6] == 'a' && s[7] == 'l' && s[8] == 't');
    assert forall|i: int| 0 <= i < s.len() implies s[i] != '+' && text::ascii_lower_char(s[i])
        == s[i] by {}
    text::lemma_split_whole(s, '+');
    text::lemma_trim_identity(s);
    assert(text::ascii_lower(s) =~= s);
    assert(word_of(s) == s);
    assert("control"@.len() == 7 && "ctrl"@.len() == 4 && "win"@.len() == 3 && "windows"@.len() == 7
        && "super"@.len() == 5 && "alt"@.len() == 3 && "shift"@.len() == 5);
    assert(key_named(s) == Some(extended(VK_RMENU)));
    let p = seq![s];
    assert(p.drop_last() =~= Seq::empty());
    assert(keys_of(p.drop_last()) == Some(Seq::<ChordKey>::empty()));
    assert(Seq::<ChordKey>::empty().push(extended(VK_RMENU)) =~= seq![extended(VK_RMENU)]);
    assert(keys_of(p) == Some(seq![extended(VK_RMENU)]));
}

proof fn lemma_keys_add(p: Seq<Seq<char>>, q: Seq<Seq<char>>)
    ensures
        keys_of(p + q) == match (keys_of(p), keys_of(q)) {
            (Some(a), Some(b)) => Some(a + b),
            _ => None,
        },
    decreases q.len(),
{
    if q.len() == 0 {
        assert(p + q =~= p);
        if let Some(a) = keys_of(p) {
            assert(a + Seq::<ChordKey>::empty() =~= a);
        }
    } else {
        lemma_keys_add(p, q.drop_last());
        assert((p + q).drop_last() =~= p + q.drop_last());
        if let (Some(a), Some(b)) = (keys_of(p), keys_of(q)) {
            assert(b.drop_last() == keys_of(q.drop_last()).unwrap());
            assert(keys_of(p + q).unwrap() =~= a + b);
        }
    }
}

/// A plus sign stands between the keys of a combination: those before it are pressed before those
/// behind it, and both sides have to name keys.
pub proof fn combinations_are_pressed_from_left_to_right(a: Seq<char>, b: Seq<char>)
    ensures
        match (parsed_hotkey(a), parsed_hotkey(b)) {
            (Some(x), Some(y)) => parsed_hotkey(a.push('+') + b) == Some(x + y),
            _ => parsed_hotkey(a.push('+') + b) is None,
        },
{
    text::separators_part_the_pieces(a, '+', b);
    lemma_keys_add(text::split(a, '+'), text::split(b, '+'));
}

/// A piece without a plus sign is one key or none; capitals and white space around it make no
/// difference.
pub proof fn a_piece_is_one_key(piece: Seq<char>, other: Seq<char>)
    requires
        !piece.contains('+'),
        !other.contains('+'),
        text::ascii_lower(text::trimmed(piece)) == text::ascii_lower(text::trimmed(other)),
    ensures
        parsed_hotkey(piece) matches Some(k) ==> k.len() == 1,
        parsed_hotkey(piece) == parsed_hotkey(other),
{
    assert forall|i: int| 0 <= i < piece.len() implies piece[i] != '+' by {
        assert(piece.contains(piece[i]));
    }
    assert forall|i: int| 0 <= i < other.len() implies other[i] != '+' by {
        assert(other.contains(other[i]));
    }
    text::lemma_split_whole(piece, '+');
    text::lemma_split_whole(other, '+');
    lemma_one_piece(piece);
    lemma_one_piece(other);
}

proof fn lemma_one_piece(piece: Seq<char>)
    ensures
        keys_of(seq![piece]) == match key_named(word_of(piece)) {
            Some(k) => Some(seq![k]),
            None => None,
        },
{
    let p = seq![piece];
    assert(p.drop_last() =~= Seq::empty());
    assert(keys_of(p.drop_last()) == Some(Seq::<ChordKey>::empty()));
    if let Some(k) = key_named(word_of(piece)) {
        assert(Seq::<ChordKey>::empty().push(k) =~= seq![k]);
    }
}

#[verifier::rlimit(60)]
proof fn lemma_key_words()
    ensures
        key_named("ctrl"@) == Some(ChordKey { vk: 0x11, extended: false }),
        key_named("control"@) == Some(ChordKey { vk: 0x11, extended: false }),
        key_named("win"@) == Some(ChordKey { vk: 0x5B, extended: false }),
        key_named("windows"@) == Some(ChordKey { vk: 0x5B, extended: false }),
        key_named("super"@) == Some(ChordKey { vk: 0x5B, extended: false }),
        key_named("alt"@) == Some(ChordKey { vk: 0x12, extended: false }),
        key_named("shift"@) == Some(ChordKey { vk: 0x10, extended: false }),
        key_named("right_alt"@) == Some(ChordKey { vk: 0xA5, extended: true }),
        key_named("ralt"@) == Some(ChordKey { vk: 0xA5, extended: true }),
        key_named("altgr"@) == Some(ChordKey { vk: 0xA5, extended: true }),
        key_named("space"@) == Some(ChordKey { vk: 0x20, extended: false }),
        key_named("spacebar"@) == Some(ChordKey { vk: 0x20, extended: false }),
        key_named("enter"@) == Some(ChordKey { vk: 0x0D, extended: false }),
        key_named("return"@) == Some(ChordKey { vk: 0x0D, extended: false }),
        key_named("tab"@) == Some(ChordKey { vk: 0x09, extended: false }),
        key_named("esc"@) == Some(ChordKey { vk: 0x1B, extended: false }),
        key_named("escape"@) == Some(ChordKey { vk: 0x1B, extended: false }),
{
    lemma_key_word_chars();
}

proof fn lemma_key_word_chars()
    ensures
        "ctrl"@.len() == 4 && "ctrl"@[0] == 'c',
        "control"@.len() == 7 && "control"@[0] == 'c',
        "win"@.len() == 3 && "win"@[0] == 'w',
        "windows"@.len() == 7 && "windows"@[0] == 'w',
        "super"@.len() == 5 && "super"@[0] == 's' && "super"@[1] == 'u',
        "alt"@.len() == 3 && "alt"@[0] == 'a',
        "shift"@.len() == 5 && "shift"@[0] == 's' && "shift"@[1] == 'h',
        "right_alt"@.len() == 9 && "right_alt"@[0] == 'r',
        "ralt"@.len() == 4 && "ralt"@[0] == 'r',
        "altgr"@.len() == 5 && "altgr"@[0] == 'a',
        "space"@.len() == 5 && "space"@[0] == 's' && "space"@[1] == 'p',
        "spacebar"@.len() == 8 && "spacebar"@[0] == 's',
        "enter"@.len() == 5 && "enter"@[0] == 'e',
        "return"@.len() == 6 && "return"@[0] == 'r',
        "tab"@.len() == 3 && "tab"@[0] == 't',
        "esc"@.len() == 3 && "esc"@[0] == 'e',
        "escape"@.len() == 6 && "escape"@[0] == 'e',
{
    reveal_strlit("ctrl");
    reveal_strlit("control");
    reveal_strlit("win");
    reveal_strlit("windows");
    reveal_strlit("super");
    reveal_strlit("alt");
    reveal_strlit("shift");
    reveal_strlit("right_alt");
    reveal_strlit("ralt");
    reveal_strlit("altgr");
    reveal_strlit("space");
    reveal_strlit("spacebar");
    reveal_strlit("enter");
    reveal_strlit("return");
    reveal_strlit("tab");
    reveal_strlit("esc");
    reveal_strlit("escape");
}

/// What a piece names, once it is trimmed and in small letters. A letter or a digit names its own
/// key, which has the number of the capital or of the digit; the words for the other keys name
/// the keys with these numbers; only the right Alt key is extended.
pub proof fn pieces_name_their_keys(piece: Seq<char>)
    requires
        !piece.contains('+'),
    ensures
        ({
            let w = text::ascii_lower(text::trimmed(piece));
            let is = |vk: u16, ext: bool|
                parsed_hotkey(piece) == Some(seq![ChordKey { vk, extended: ext }]);
            &&& w == "ctrl"@ || w == "control"@ ==> is(0x11, false)
            &&& w == "win"@ || w == "windows"@ || w == "super"@ ==> is(0x5B, false)
            &&& w == "alt"@ ==> is(0x12, false)
            &&& w == "shift"@ ==> is(0x10, false)
            &&& w == "right_alt"@ || w == "ralt"@ || w == "altgr"@ ==> is(0xA5, true)
            &&& w == "space"@ || w == "spacebar"@ ==> is(0x20, false)
            &&& w == "enter"@ || w == "return"@ ==> is(0x0D, false)
            &&& w == "tab"@ ==> is(0x09, false)
            &&& w == "esc"@ || w == "escape"@ ==> is(0x1B, false)
            &&& w.len() == 1 && 'a' <= w[0] <= 'z' ==> is((w[0] as int - 32) as u16, false)
            &&& w.len() == 1 && '0' <= w[0] <= '9' ==> is(w[0] as u16, false)
            &&& w.len() == 0 ==> parsed_hotkey(piece) is None
        }),
{
    assert forall|i: int| 0 <= i < piece.len() implies piece[i] != '+' by {
        assert(piece.contains(piece[i]));
    }
    text::lemma_split_whole(piece, '+');
    lemma_one_piece(piece);
    lemma_key_words();
    lemma_key_word_chars();
}

/// An `f` and a number from 1 to 24 names that function key, the first of which has the number
/// 0x70; with any other number it names none.
pub proof fn function_keys_are_numbered(piece: Seq<char>, n: nat)
    requires
        !piece.contains('+'),
        text::ascii_lower(text::trimmed(piece)) == seq!['f'] + text::decimal(n),
    ensures
        1 <= n <= 24 ==> parsed_hotkey(piece) == Some(
            seq![ChordKey { vk: (0x6F + n) as u16, extended: false }],
        ),
        !(1 <= n <= 24) ==> parsed_hotkey(piece) is None,
{
    assert forall|i: int| 0 <= i < piece.len() implies piece[i] != '+' by {
        assert(piece.contains(piece[i]));
    }
    text::lemma_split_whole(piece, '+');
    lemma_one_piece(piece);
    lemma_key_word_chars();
    text::numerals_read_back(n);
    let w = word_of(piece);
    assert(w[0] == 'f');
    assert(w.drop_first() =~= text::decimal(n));
    if n > i64::MAX {
        assert(text::decimal(n)[0] != '-' && text::decimal(n)[0] != '+');
        assert(text::parsed_i64(text::decimal(n)) is None);
    }
}

/// Where the configured text names no combination, the right Alt key is pressed; where it does,
/// exactly its keys are.
pub proof fn what_names_no_combination_presses_right_alt(s: Seq<char>)
    ensures
        parsed_hotkey(s) is None ==> hotkey(s) == seq![ChordKey { vk: 0xA5, extended: true }],
        parsed_hotkey(s) matches Some(k) ==> hotkey(s) == k,
{
}

} // verus!
