//! What the phone records: how it is queued and handed to the virtual microphone.
use super::capture::first_containing;
use super::capture;
use crate::text;
use std::collections::VecDeque;
use vstd::prelude::*;

verus! {

/// Part of the name of the virtual device that is played to.
pub const VBCABLE_HINT: &'static str = "CABLE Input";

/// What the connection hands to the playback.
pub enum MicMsg {
    /// Audio.
    Pcm(Vec<u8>),
    /// The wish to be told once all the audio before it has been played.
    Drain,
}

/// What the connection hands over, mathematically.
#[verifier::ext_equal]
pub enum MicView {
    Pcm(Seq<u8>),
    Drain,
}

impl View for MicMsg {
    type V = MicView;

    open spec fn view(&self) -> MicView {
        match self {
            MicMsg::Pcm(bytes) => MicView::Pcm(bytes@),
            MicMsg::Drain => MicView::Drain,
        }
    }
}

/// Takes a message where there is no device to play to: the audio is dropped, and who waits
/// is told at once. Whether somebody is to be told.
pub fn discard(msg: &MicMsg) -> (r: bool)
    ensures
        r == (msg@ is Drain),
{
    match msg {
        MicMsg::Pcm(_) => false,
        MicMsg::Drain => true,
    }
}

/// The device to play to: the first whose name tells that it is the virtual one.
pub fn pick_cable_input(names: &Vec<String>) -> (r: Option<usize>)
    ensures
        capture::first_holding(text::views(names@), VBCABLE_HINT@, r),
{
    first_containing(names, VBCABLE_HINT)
}

/// The audio that waits to be played.
pub struct Playback {
    pub queue: VecDeque<u8>,
    /// Somebody waits for all of it to be played.
    pub draining: bool,
    /// Nothing more was there when messages were last asked for.
    pub polled: bool,
}

/// The audio that waits to be played, mathematically.
#[verifier::ext_equal]
pub struct PlaybackView {
    pub queue: Seq<u8>,
    pub draining: bool,
    pub polled: bool,
}

impl View for Playback {
    type V = PlaybackView;

    open spec fn view(&self) -> PlaybackView {
        PlaybackView { queue: self.queue@, draining: self.draining, polled: self.polled }
    }
}

/// What is done next.
#[derive(Clone, Copy, Debug, PartialEq, Eq, Structural)]
pub enum RenderStep {
    /// Take a message, if one is there.
    Poll,
    /// Wait for a message.
    Wait,
    /// Write as much as the device has room for.
    Write,
    /// Wait until the device has played all it has, then say so.
    Settle,
}

/// What is done next: messages are taken until none is left or a drain is asked for, then
/// audio is written as long as there is some; only then is a drain settled.
pub open spec fn next_step(queued: nat, draining: bool, polled: bool) -> RenderStep {
    if !draining && !polled {
        RenderStep::Poll
    } else if queued > 0 {
        RenderStep::Write
    } else if draining {
        RenderStep::Settle
    } else {
        RenderStep::Wait
    }
}

/// The audio that fills `n` bytes, and silence behind it.
pub open spec fn filled(queue: Seq<u8>, n: nat) -> Seq<u8> {
    if queue.len() >= n {
        queue.take(n as int)
    } else {
        queue + Seq::new((n - queue.len()) as nat, |i: int| 0u8)
    }
}

/// The audio that is left when `n` bytes were filled.
pub open spec fn left_over(queue: Seq<u8>, n: nat) -> Seq<u8> {
    if queue.len() >= n {
        queue.skip(n as int)
    } else {
        Seq::empty()
    }
}

/// Nothing to play yet.
pub open spec fn silent() -> PlaybackView {
    PlaybackView { queue: Seq::empty(), draining: false, polled: false }
}

impl PlaybackView {
    /// What is done next.
    pub open spec fn step(self) -> RenderStep {
        next_step(self.queue.len(), self.draining, self.polled)
    }

    /// After a message was taken.
    pub open spec fn received(self, msg: MicView) -> PlaybackView {
        match msg {
            MicView::Pcm(bytes) => PlaybackView { queue: self.queue + bytes, ..self },
            MicView::Drain => PlaybackView { draining: true, ..self },
        }
    }

    /// After no message was there.
    pub open spec fn unanswered(self) -> PlaybackView {
        PlaybackView { polled: true, ..self }
    }

    /// After so many bytes were written.
    pub open spec fn wrote(self, n: nat) -> PlaybackView {
        PlaybackView { queue: left_over(self.queue, n), polled: false, ..self }
    }

    /// The wish to be told is met, given whether the device has played all it has.
    pub open spec fn is_settled(self, played: bool) -> bool {
        self.draining && self.queue.len() == 0 && played
    }

    /// After the device was asked whether it has played all it has.
    pub open spec fn asked(self, played: bool) -> PlaybackView {
        if self.is_settled(played) {
            PlaybackView { draining: false, polled: false, ..self }
        } else {
            self
        }
    }
}

impl Playback {
    /// Nothing to play yet.
    pub fn new() -> (r: Playback)
        ensures
            r@ == silent(),
    {
        let queue: VecDeque<u8> = VecDeque::new();
        assert(queue@ =~= Seq::empty());
        Playback { queue, draining: false, polled: false }
    }

    /// What is done next.
    pub fn run_render(&self) -> (r: RenderStep)
        ensures
            r == self@.step(),
    {
        if !self.draining && !self.polled {
            RenderStep::Poll
        } else if self.queue.len() > 0 {
            RenderStep::Write
        } else if self.draining {
            RenderStep::Settle
        } else {
            RenderStep::Wait
        }
    }

    /// Takes a message.
    pub fn receive(&mut self, msg: MicMsg)
        ensures
            final(self)@ == old(self)@.received(msg@),
    {
        match msg {
            MicMsg::Pcm(bytes) => {
                let mut i: usize = 0;
                let ghost o = self.queue@;
                assert(self.queue@ =~= o + bytes@.take(0));
                while i < bytes.len()
                    invariant
                        i <= bytes@.len(),
                        self.queue@ == o + bytes@.take(i as int),
                        self.draining == old(self).draining,
                        self.polled == old(self).polled,
                    decreases bytes@.len() - i,
                {
                    self.queue.push_back(bytes[i]);
                    assert(self.queue@ =~= o + bytes@.take(i + 1));
                    i = i + 1;
                }
                assert(bytes@.take(bytes@.len() as int) =~= bytes@);
            },
            MicMsg::Drain => {
                self.draining = true;
            },
        }
    }

    /// No message was there.
    pub fn nothing_waiting(&mut self)
        ensures
            final(self)@ == old(self)@.unanswered(),
    {
        self.polled = true;
    }

    /// The bytes to write where the device has room for that many frames: audio as far as
    /// there is some, and silence behind it. Without room nothing is written.
    pub fn chunk(&mut self, available_frames: usize, blockalign: usize) -> (r: Vec<u8>)
        requires
            available_frames * blockalign <= usize::MAX,
        ensures
            r@ == filled(old(self)@.queue, (available_frames * blockalign) as nat),
            final(self)@ == old(self)@.wrote((available_frames * blockalign) as nat),
    {
        let needed: usize = available_frames * blockalign;
        let mut data: Vec<u8> = Vec::new();
        let ghost all = self.queue@;
        let mut i: usize = 0;
        assert(data@ =~= filled(all, 0));
        assert(self.queue@ =~= left_over(all, 0));
        while i < needed
            invariant
                i <= needed,
                data@ == filled(all, i as nat),
                self.queue@ == left_over(all, i as nat),
                self.draining == old(self).draining,
            decreases needed - i,
        {
            match self.queue.pop_front() {
                Some(b) => data.push(b),
                None => data.push(0),
            }
            assert(data@ =~= filled(all, (i + 1) as nat));
            assert(self.queue@ =~= left_over(all, (i + 1) as nat));
            i = i + 1;
        }
        self.polled = false;
        data
    }

    /// Whether the wish to be told is met: all the audio was handed over, and the device has
    /// room for all that it can hold.
    pub fn settled(&mut self, available_frames: usize, buffer_total: usize) -> (r: bool)
        ensures
            r == old(self)@.is_settled(available_frames >= buffer_total),
            final(self)@ == old(self)@.asked(available_frames >= buffer_total),
    {
        let done = self.draining && self.queue.len() == 0 && available_frames >= buffer_total;
        if done {
            self.draining = false;
            self.polled = false;
        }
        done
    }
}

// ---------------------------------------------------------------- laws

/// What of the queue has been written, and what is left, after writes of these sizes.
pub open spec fn written(queue: Seq<u8>, sizes: Seq<nat>) -> (Seq<u8>, Seq<u8>)
    decreases sizes.len(),
{
    if sizes.len() == 0 {
        (Seq::empty(), queue)
    } else {
        let (before, left) = written(queue, sizes.drop_last());
        let n = if left.len() >= sizes.last() {
            sizes.last() as int
        } else {
            left.len() as int
        };
        (before + filled(left, sizes.last()).take(n), left_over(left, sizes.last()))
    }
}

/// However the device asks for it, the audio comes out in order and none of it is lost.
pub proof fn no_audio_is_lost(queue: Seq<u8>, sizes: Seq<nat>)
    ensures
        written(queue, sizes).0 + written(queue, sizes).1 == queue,
    decreases sizes.len(),
{
    if sizes.len() > 0 {
        no_audio_is_lost(queue, sizes.drop_last());
        let (before, left) = written(queue, sizes.drop_last());
        let n = sizes.last();
        let m = if left.len() >= n {
            n as int
        } else {
            left.len() as int
        };
        assert(filled(left, n).take(m) + left_over(left, n) =~= left);
        assert(before + filled(left, n).take(m) + left_over(left, n) =~= before + (filled(
            left,
            n,
        ).take(m) + left_over(left, n)));
    } else {
        assert(written(queue, sizes).0 + written(queue, sizes).1 =~= queue);
    }
}

/// A drain is settled only when no audio is left to write.
pub proof fn draining_waits_for_the_audio(queued: nat, draining: bool, polled: bool)
    requires
        next_step(queued, draining, polled) is Settle,
    ensures
        queued == 0,
        draining,
{
}

// ---------------------------------------------------------------- a whole run

/// What the playback is told, step by step.
#[verifier::ext_equal]
pub enum RenderEvent {
    Message(MicView),
    NoMessage,
    /// There was room for so many bytes, and they were written.
    Room(nat),
    /// The device has played all it has, or not yet.
    Played(bool),
}

/// What may happen where that is done next.
pub open spec fn fits(step: RenderStep, event: RenderEvent) -> bool {
    match step {
        RenderStep::Poll => event is Message || event is NoMessage,
        RenderStep::Wait => event is Message,
        RenderStep::Write => event is Room,
        RenderStep::Settle => event is Played,
    }
}

/// What comes in and goes out: audio, byte by byte, and the marks at which somebody wants to
/// be told.
pub enum Item {
    Sample(u8),
    Mark,
}

/// Audio, byte by byte.
pub open spec fn samples(bytes: Seq<u8>) -> Seq<Item> {
    bytes.map_values(|b: u8| Item::Sample(b))
}

/// What a message brings.
pub open spec fn brought(msg: MicView) -> Seq<Item> {
    match msg {
        MicView::Pcm(bytes) => samples(bytes),
        MicView::Drain => seq![Item::Mark],
    }
}

/// What has come in and has not gone out.
pub open spec fn pending(v: PlaybackView) -> Seq<Item> {
    if v.draining {
        samples(v.queue).push(Item::Mark)
    } else {
        samples(v.queue)
    }
}

/// The audio in a write of `n` bytes, without the silence behind it.
pub open spec fn audio_in(queue: Seq<u8>, n: nat) -> Seq<u8> {
    filled(queue, n).take(
        if queue.len() >= n {
            n as int
        } else {
            queue.len() as int
        },
    )
}

/// A playback so far: where it stands, what has come in, and what has gone out.
#[verifier::ext_equal]
pub struct RenderRun {
    pub now: PlaybackView,
    pub came: Seq<Item>,
    pub gone: Seq<Item>,
}

impl RenderRun {
    /// After one thing more.
    pub open spec fn then_came(self, event: RenderEvent) -> RenderRun {
        match event {
            RenderEvent::Message(msg) => RenderRun {
                now: self.now.received(msg),
                came: self.came + brought(msg),
                gone: self.gone,
            },
            RenderEvent::NoMessage => RenderRun { now: self.now.unanswered(), ..self },
            RenderEvent::Room(n) => RenderRun {
                now: self.now.wrote(n),
                came: self.came,
                gone: self.gone + samples(audio_in(self.now.queue, n)),
            },
            RenderEvent::Played(played) => RenderRun {
                now: self.now.asked(played),
                came: self.came,
                gone: if self.now.is_settled(played) {
                    self.gone.push(Item::Mark)
                } else {
                    self.gone
                },
            },
        }
    }
}

/// A playback after all of that, from its beginning.
pub open spec fn ran(events: Seq<RenderEvent>) -> RenderRun
    decreases events.len(),
{
    if events.len() == 0 {
        RenderRun { now: silent(), came: Seq::empty(), gone: Seq::empty() }
    } else {
        ran(events.drop_last()).then_came(events.last())
    }
}

/// Each thing happened where it may.
pub open spec fn orderly(events: Seq<RenderEvent>) -> bool
    decreases events.len(),
{
    events.len() > 0 ==> orderly(events.drop_last()) && fits(
        ran(events.drop_last()).now.step(),
        events.last(),
    )
}

/// However messages arrive and the device asks: what has gone out is what came in, in the same
/// order, up to what still waits. So the bytes written are those of the audio messages, and
/// each drain is settled after all the audio before it and before any audio behind it.
pub proof fn playback_keeps_the_order(events: Seq<RenderEvent>)
    requires
        orderly(events),
    ensures
        ran(events).came == ran(events).gone + pending(ran(events).now),
    decreases events.len(),
{
    if events.len() == 0 {
        assert(ran(events).gone + pending(silent()) =~= Seq::<Item>::empty());
    } else {
        let before = ran(events.drop_last());
        playback_keeps_the_order(events.drop_last());
        let after = ran(events);
        let v = before.now;
        match events.last() {
            RenderEvent::Message(msg) => {
                assert(!v.draining);
                assert(pending(v.received(msg)) =~= pending(v) + brought(msg));
                assert(after.came =~= after.gone + pending(after.now));
            },
            RenderEvent::NoMessage => {
                assert(pending(v.unanswered()) == pending(v));
            },
            RenderEvent::Room(n) => {
                let audio = audio_in(v.queue, n);
                assert(audio + left_over(v.queue, n) =~= v.queue);
                assert(samples(audio) + pending(v.wrote(n)) =~= pending(v));
                assert(after.came =~= after.gone + pending(after.now));
            },
            RenderEvent::Played(played) => {
                if v.is_settled(played) {
                    assert(pending(v) =~= seq![Item::Mark]);
                    assert(pending(after.now) =~= Seq::<Item>::empty());
                    assert(after.came =~= after.gone + pending(after.now));
                }
            },
        }
    }
}

/// What is written fills the room there is: with the audio that waits, in its order, and with silence
/// behind it. What did not fit goes on waiting.
pub proof fn silence_fills_the_room(queue: Seq<u8>, n: nat, i: int)
    ensures
        filled(queue, n).len() == n,
        0 <= i < n && i < queue.len() ==> filled(queue, n)[i] == queue[i],
        0 <= i < n && i >= queue.len() ==> filled(queue, n)[i] == 0,
        left_over(queue, n).len() == if queue.len() >= n {
            queue.len() - n
        } else {
            0
        },
        0 <= i < left_over(queue, n).len() ==> left_over(queue, n)[i] == queue[n + i],
{
}

/// Audio that comes in waits behind what waits already; a wish to be told changes nothing of it.
pub proof fn audio_waits_in_its_order(v: PlaybackView, bytes: Seq<u8>)
    ensures
        v.received(MicView::Pcm(bytes)).queue == v.queue + bytes,
        v.received(MicView::Pcm(bytes)).draining == v.draining,
        v.received(MicView::Drain).queue == v.queue,
        v.received(MicView::Drain).draining,
{
}

/// While audio waits it is written, and nobody is told that all is played until none waits and the
/// device has played what it had. With nothing to do, a message is waited for.
pub proof fn audio_is_played_before_anything_is_said(v: PlaybackView, played: bool)
    ensures
        v.queue.len() > 0 ==> !v.is_settled(played),
        !played ==> !v.is_settled(played),
        !v.draining ==> !v.is_settled(played),
        v.draining && v.queue.len() == 0 && played ==> v.is_settled(played) && !v.asked(
            played,
        ).draining,
        v.draining && v.queue.len() > 0 ==> v.step() is Write,
        v.draining && v.queue.len() == 0 ==> v.step() is Settle,
        !v.draining && !v.polled ==> v.step() is Poll,
        !v.draining && v.polled && v.queue.len() > 0 ==> v.step() is Write,
        !v.draining && v.polled && v.queue.len() == 0 ==> v.step() is Wait,
        !v.wrote(0).polled,
        v.unanswered().polled,
{
}

/// The device that is played into is the first whose name holds `CABLE Input`.
pub proof fn the_cable_is_found_by_its_name(names: Seq<Seq<char>>, r: Option<usize>, k: int)
    requires
        capture::first_holding(names, VBCABLE_HINT@, r),
        0 <= k < names.len(),
        text::contains(names[k], "CABLE Input"@),
    ensures
        r matches Some(i) && i <= k && text::contains(names[i as int], "CABLE Input"@),
{
}

} // verus!
