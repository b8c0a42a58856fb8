//! What the machine plays: which device is captured, and how the bytes are cut into frames.
use crate::text;
use vstd::prelude::*;

verus! {

pub const SAMPLE_RATE: usize = 48_000;

pub const CHANNELS: usize = 2;

/// What a device without a readable name is called.
pub const UNNAMED: &'static str = "<unknown>";

/// A device as the system lists it.
pub struct Device {
    pub active: bool,
    pub name: Option<String>,
}

/// The names of the first `n` devices that are active and have one.
pub open spec fn shown_devices(devices: Seq<Device>, n: int) -> Seq<Seq<char>>
    decreases n,
{
    if n <= 0 {
        Seq::empty()
    } else {
        let before = shown_devices(devices, n - 1);
        match devices[n - 1].name {
            Some(name) => if devices[n - 1].active {
                before.push(name@)
            } else {
                before
            },
            None => before,
        }
    }
}

/// The names of the devices that can be chosen: those that are active and have one.
pub fn enumerate_render_devices(devices: &Vec<Device>) -> (r: Vec<String>)
    ensures
        text::views(r@) == shown_devices(devices@, devices@.len() as int),
{
    let mut out: Vec<String> = Vec::new();
    let mut i: usize = 0;
    assert(text::views(out@) =~= shown_devices(devices@, 0));
    while i < devices.len()
        invariant
            i <= devices@.len(),
            text::views(out@) == shown_devices(devices@, i as int),
        decreases devices@.len() - i,
    {
        if devices[i].active {
            if let Some(name) = &devices[i].name {
                let ghost before = text::views(out@);
                out.push(text::owned(name.as_str()));
                assert(text::views(out@) =~= before.push(name@));
            }
        }
        i = i + 1;
    }
    out
}

/// The first of the names that holds `needle`.
pub open spec fn first_holding(names: Seq<Seq<char>>, needle: Seq<char>, r: Option<usize>) -> bool {
    match r {
        Some(i) => i < names.len() && text::contains(names[i as int], needle) && forall|j: int|
            0 <= j < i ==> !text::contains(#[trigger] names[j], needle),
        None => forall|j: int| 0 <= j < names.len() ==> !text::contains(#[trigger] names[j], needle),
    }
}

/// The first of the names that holds `needle`.
pub fn first_containing(names: &Vec<String>, needle: &str) -> (r: Option<usize>)
    ensures
        first_holding(text::views(names@), needle@, r),
{
    let ghost all = text::views(names@);
    let mut i: usize = 0;
    while i < names.len()
        invariant
            i <= names@.len(),
            all == text::views(names@),
            forall|j: int| 0 <= j < i ==> !text::contains(#[trigger] all[j], needle@),
        decreases names@.len() - i,
    {
        assert(all[i as int] == names@[i as int]@);
        if text::contains_str(names[i].as_str(), needle) {
            return Some(i);
        }
        i = i + 1;
    }
    None
}

/// The name that a device is found under.
pub open spec fn name_or_unknown(name: Option<String>) -> Seq<char> {
    match name {
        Some(n) => n@,
        None => UNNAMED@,
    }
}

/// The devices' names in lowercase.
pub open spec fn lowered(names: Seq<Option<String>>) -> Seq<Seq<char>> {
    names.map_values(|n: Option<String>| text::lowercase(name_or_unknown(n)))
}

/// The device to capture from: the first whose name holds the name that is wanted,
/// whatever the case of the letters. None stands for the default device, which is taken
/// where nothing is wanted or nothing matches.
pub fn pick_device(names: &Vec<Option<String>>, want: Option<&str>) -> (r: Option<usize>)
    ensures
        match want {
            Some(w) => first_holding(lowered(names@), text::lowercase(w@), r),
            None => r is None,
        },
{
    match want {
        Some(w) => {
            let mut lower: Vec<String> = Vec::new();
            let mut i: usize = 0;
            assert(text::views(lower@) =~= lowered(names@).take(0));
            while i < names.len()
                invariant
                    i <= names@.len(),
                    text::views(lower@) == lowered(names@).take(i as int),
                decreases names@.len() - i,
            {
                let ghost before = text::views(lower@);
                let l = match &names[i] {
                    Some(n) => n.as_str().to_lowercase(),
                    None => UNNAMED.to_lowercase(),
                };
                lower.push(l);
                assert(text::views(lower@) =~= before.push(lowered(names@)[i as int]));
                assert(lowered(names@).take(i + 1) =~= before.push(lowered(names@)[i as int]));
                i = i + 1;
            }
            assert(lowered(names@).take(names@.len() as int) =~= lowered(names@));
            let needle = w.to_lowercase();
            first_containing(&lower, needle.as_str())
        },
        None => None,
    }
}

/// How many of `n` bytes make up whole frames.
pub open spec fn whole_frames(n: nat, blockalign: nat) -> nat {
    (n - n % blockalign) as nat
}

/// Takes the whole frames out of what was captured; what is left of a frame stays for the
/// next time.
pub fn take_frames(queue: &mut Vec<u8>, blockalign: usize) -> (r: Vec<u8>)
    requires
        blockalign > 0,
    ensures
        r@ + final(queue)@ == old(queue)@,
        r@.len() == whole_frames(old(queue)@.len(), blockalign as nat),
{
    let n: usize = queue.len();
    proof {
        only_whole_frames_are_sent(n as nat, blockalign as nat);
        vstd::arithmetic::div_mod::lemma_mod_decreases(n as nat, blockalign as nat);
    }
    let drainable: usize = n - n % blockalign;
    let mut chunk: Vec<u8> = Vec::new();
    let mut rest: Vec<u8> = Vec::new();
    let ghost all = queue@;
    let mut i: usize = 0;
    while i < n
        invariant
            i <= n == all.len(),
            drainable <= n,
            queue@ == all,
            i <= drainable ==> chunk@ == all.take(i as int) && rest@.len() == 0,
            i > drainable ==> chunk@ == all.take(drainable as int) && rest@ == all.subrange(
                drainable as int,
                i as int,
            ),
        decreases n - i,
    {
        if i < drainable {
            chunk.push(queue[i]);
            assert(chunk@ =~= all.take(i + 1));
        } else {
            rest.push(queue[i]);
            assert(rest@ =~= all.subrange(drainable as int, i + 1));
        }
        i = i + 1;
    }
    assert(chunk@ + rest@ =~= all);
    *queue = rest;
    chunk
}

/// What is sent is made up of whole frames, and less than a frame is held back.
pub proof fn only_whole_frames_are_sent(n: nat, blockalign: nat)
    requires
        blockalign > 0,
    ensures
        whole_frames(n, blockalign) % blockalign == 0,
        n - whole_frames(n, blockalign) < blockalign,
        whole_frames(n, blockalign) <= n,
{
    vstd::arithmetic::div_mod::lemma_fundamental_div_mod(n as int, blockalign as int);
    let q = n as int / blockalign as int;
    assert(whole_frames(n, blockalign) as int == q * (blockalign as int)) by (nonlinear_arith)
        requires
            n as int == (blockalign as int) * q + (n as int) % (blockalign as int),
            whole_frames(n, blockalign) as int == n - n % blockalign,
    ;
    vstd::arithmetic::div_mod::lemma_mod_multiples_basic(q, blockalign as int);
}

/// What a capture does once it has read what the device has.
pub enum CaptureStep {
    /// Stop, so that another device can be captured.
    Stop,
    /// Send these bytes.
    Send(Vec<u8>),
    /// Wait for more.
    Wait,
}

/// What a capture does: it stops where it has to begin anew, and sends what makes up whole
/// frames otherwise.
pub fn run_session(restart: bool, queue: &mut Vec<u8>, blockalign: usize) -> (r: CaptureStep)
    requires
        blockalign > 0,
    ensures
        match r {
            CaptureStep::Stop => restart && final(queue)@ == old(queue)@,
            CaptureStep::Send(chunk) => !restart && chunk@.len() > 0 && chunk@ + final(queue)@
                == old(queue)@ && chunk@.len() == whole_frames(
                old(queue)@.len(),
                blockalign as nat,
            ),
            CaptureStep::Wait => !restart && final(queue)@ == old(queue)@ && old(queue)@.len()
                < blockalign,
        },
{
    if restart {
        return CaptureStep::Stop;
    }
    let ghost before = queue@;
    let chunk = take_frames(queue, blockalign);
    proof {
        only_whole_frames_are_sent(before.len(), blockalign as nat);
    }
    if chunk.len() > 0 {
        CaptureStep::Send(chunk)
    } else {
        assert(queue@ =~= before);
        CaptureStep::Wait
    }
}

/// The devices that are shown are those that are active and have a name, in their order.
pub proof fn active_devices_are_shown(devices: Seq<Device>, n: int)
    requires
        0 <= n < devices.len(),
    ensures
        shown_devices(devices, 0).len() == 0,
        devices[n].active ==> (devices[n].name matches Some(name) ==> shown_devices(devices, n + 1)
            == shown_devices(devices, n).push(name@)),
        !devices[n].active || devices[n].name is None ==> shown_devices(devices, n + 1)
            == shown_devices(devices, n),
{
}

/// A device without a name goes by `<unknown>`; names are compared in small letters.
pub proof fn devices_go_by_their_names(names: Seq<Option<String>>, i: int)
    requires
        0 <= i < names.len(),
    ensures
        lowered(names).len() == names.len(),
        names[i] matches Some(n) ==> lowered(names)[i] == text::lowercase(n@),
        names[i] is None ==> lowered(names)[i] == text::lowercase("<unknown>"@),
{
}

/// What is sent is the largest number of whole frames there is: what stays is less than one.
pub proof fn less_than_a_frame_stays(n: nat, blockalign: nat)
    requires
        blockalign > 0,
    ensures
        whole_frames(n, blockalign) <= n,
        n - whole_frames(n, blockalign) < blockalign,
        whole_frames(n, blockalign) % blockalign == 0,
{
    only_whole_frames_are_sent(n, blockalign);
    vstd::arithmetic::div_mod::lemma_mod_bound(n as int, blockalign as int);
    vstd::arithmetic::div_mod::lemma_fundamental_div_mod(n as int, blockalign as int);
    assert(n - n % blockalign == blockalign * (n / blockalign));
    vstd::arithmetic::div_mod::lemma_mod_multiples_basic(
        (n / blockalign) as int,
        blockalign as int,
    );
    assert((n / blockalign) * blockalign == blockalign * (n / blockalign)) by (nonlinear_arith);
}

} // verus!
