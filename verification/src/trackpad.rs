//! The trackpad: commands from the phone and the pointer events they cause.
use crate::fields;
use crate::json;
use crate::json::{Json, Number};
use crate::text;
use vstd::prelude::*;

verus! {

/// A command from the phone.
#[derive(Clone, Copy, Debug, PartialEq, Eq, Structural)]
pub enum Command {
    Move { x: i32, y: i32 },
    Wheel { x: i32, y: i32 },
    Click,
    Right,
    Down,
    Up,
    Ping,
}

/// How far one command may go in a direction.
pub const LIMIT: i32 = 2048;

/// A distance that one command may go.
pub open spec fn in_limit(x: i32, y: i32) -> bool {
    -LIMIT <= x <= LIMIT && -LIMIT <= y <= LIMIT
}

/// A command that goes no further than it may.
pub open spec fn bounded(c: Command) -> bool {
    match c {
        Command::Move { x, y } => in_limit(x, y),
        Command::Wheel { x, y } => in_limit(x, y),
        _ => true,
    }
}

/// A whole number in the range of `i32`.
pub open spec fn small_int(v: json::JsonView) -> Option<i32> {
    match v {
        json::JsonView::Number(Number::Unsigned(u)) => if u <= i32::MAX {
            Some(u as i32)
        } else {
            None
        },
        json::JsonView::Number(Number::Signed(i)) => if i32::MIN <= i <= i32::MAX {
            Some(i as i32)
        } else {
            None
        },
        _ => None,
    }
}

/// Every field has one of the three names.
pub open spec fn only_fields(
    fields: Seq<(Seq<char>, json::JsonView)>,
    a: Seq<char>,
    b: Seq<char>,
    c: Seq<char>,
) -> bool {
    forall|i: int|
        0 <= i < fields.len() ==> (#[trigger] fields[i]).0 == a || fields[i].0 == b || fields[i].0
            == c
}

/// The whole numbers in the fields `x` and `y`.
pub open spec fn distance(v: json::JsonView) -> Option<(i32, i32)> {
    match (json::field(v, "x"@), json::field(v, "y"@)) {
        (Some(x), Some(y)) => match (small_int(x), small_int(y)) {
            (Some(a), Some(b)) => Some((a, b)),
            _ => None,
        },
        _ => None,
    }
}

/// The command without a distance that has that name.
pub open spec fn bare_command(op: Seq<char>) -> Option<Command> {
    if op == "click"@ {
        Some(Command::Click)
    } else if op == "right"@ {
        Some(Command::Right)
    } else if op == "down"@ {
        Some(Command::Down)
    } else if op == "up"@ {
        Some(Command::Up)
    } else if op == "ping"@ {
        Some(Command::Ping)
    } else {
        None
    }
}

/// The command with a distance that has that name.
pub open spec fn far_command(op: Seq<char>, d: Option<(i32, i32)>) -> Option<Command> {
    match d {
        Some((x, y)) => if op == "move"@ {
            Some(Command::Move { x, y })
        } else {
            Some(Command::Wheel { x, y })
        },
        None => None,
    }
}

/// The command that the fields of an object stand for. It has the fields of that command, each
/// once, and no others.
pub open spec fn command_in_fields(fields: Seq<(Seq<char>, json::JsonView)>) -> Option<Command> {
    let v = json::JsonView::Object(fields);
    match json::text_field(v, "op"@) {
        Some(op) => if op == "move"@ || op == "wheel"@ {
            if fields.len() == 3 && only_fields(fields, "op"@, "x"@, "y"@) {
                far_command(op, distance(v))
            } else {
                None
            }
        } else if fields.len() == 1 {
            bare_command(op)
        } else {
            None
        },
        None => None,
    }
}

/// The command that a list stands for: its name comes first, then the distance, if it has
/// one, and nothing else.
pub open spec fn command_in_list(items: Seq<json::JsonView>) -> Option<Command> {
    if items.len() == 0 {
        None
    } else {
        match json::text_in(items[0]) {
            Some(op) => if op == "move"@ || op == "wheel"@ {
                if items.len() == 3 {
                    match (small_int(items[1]), small_int(items[2])) {
                        (Some(x), Some(y)) => far_command(op, Some((x, y))),
                        _ => None,
                    }
                } else {
                    None
                }
            } else if items.len() == 1 {
                bare_command(op)
            } else {
                None
            },
            None => None,
        }
    }
}

/// The command that a value stands for.
pub open spec fn command_of(v: json::JsonView) -> Option<Command> {
    match v {
        json::JsonView::Object(fields) => command_in_fields(fields),
        json::JsonView::List(items) => command_in_list(items),
        _ => None,
    }
}

/// The command that parsing a message gives, unless it goes too far.
pub open spec fn accepted(parsed: Result<json::JsonView, Seq<char>>) -> Option<Command> {
    match parsed {
        Ok(v) => match command_of(v) {
            Some(c) => if bounded(c) {
                Some(c)
            } else {
                None
            },
            None => None,
        },
        Err(_) => None,
    }
}

/// The longest message that is looked at, in bytes.
pub const MAX_MESSAGE: usize = 160;

/// The command that a message stands for.
pub open spec fn message_command(text: Seq<char>) -> Option<Command> {
    if vstd::utf8::encode_utf8(text).len() > MAX_MESSAGE {
        None
    } else {
        accepted(fields::every_field(text))
    }
}

fn to_small_int(v: &Json) -> (r: Option<i32>)
    ensures
        r == small_int(v@),
{
    match v {
        Json::Number(Number::Unsigned(u)) => if *u <= 0x7fff_ffff {
            Some(*u as i32)
        } else {
            None
        },
        Json::Number(Number::Signed(i)) => if -0x8000_0000 <= *i && *i <= 0x7fff_ffff {
            Some(*i as i32)
        } else {
            None
        },
        _ => None,
    }
}

fn has_only(fields: &Vec<(String, Json)>, a: &str, b: &str, c: &str) -> (r: bool)
    ensures
        r == only_fields(json::fields_view(fields@), a@, b@, c@),
{
    let ghost all = json::fields_view(fields@);
    proof {
        json::lemma_fields_view(fields@);
    }
    let mut i: usize = 0;
    while i < fields.len()
        invariant
            i <= fields@.len() == all.len(),
            all == json::fields_view(fields@),
            forall|k: int|
                0 <= k < fields@.len() ==> all[k] == (
                    (#[trigger] fields@[k]).0@,
                    json::json_view(fields@[k].1),
                ),
            forall|k: int|
                0 <= k < i ==> (#[trigger] all[k]).0 == a@ || all[k].0 == b@ || all[k].0 == c@,
        decreases fields@.len() - i,
    {
        let name = fields[i].0.as_str();
        assert(all[i as int].0 == name@);
        if !text::same(name, a) && !text::same(name, b) && !text::same(name, c) {
            return false;
        }
        i = i + 1;
    }
    true
}

fn find_bare(op: &str) -> (r: Option<Command>)
    ensures
        r == bare_command(op@),
{
    if text::same(op, "click") {
        Some(Command::Click)
    } else if text::same(op, "right") {
        Some(Command::Right)
    } else if text::same(op, "down") {
        Some(Command::Down)
    } else if text::same(op, "up") {
        Some(Command::Up)
    } else if text::same(op, "ping") {
        Some(Command::Ping)
    } else {
        None
    }
}

fn make_far(op: &str, x: i32, y: i32) -> (r: Command)
    ensures
        far_command(op@, Some((x, y))) == Some(r),
{
    if text::same(op, "move") {
        Command::Move { x, y }
    } else {
        Command::Wheel { x, y }
    }
}

fn from_fields(v: &Json, fields: &Vec<(String, Json)>) -> (r: Option<Command>)
    requires
        v@ == json::JsonView::Object(json::fields_view(fields@)),
    ensures
        r == command_in_fields(json::fields_view(fields@)),
{
    proof {
        json::lemma_fields_view(fields@);
    }
    let op = match v.text_field("op") {
        Some(s) => s,
        None => return None,
    };
    if text::same(op, "move") || text::same(op, "wheel") {
        if fields.len() != 3 || !has_only(fields, "op", "x", "y") {
            return None;
        }
        let x = match v.get("x") {
            Some(j) => to_small_int(j),
            None => return None,
        };
        let y = match v.get("y") {
            Some(j) => to_small_int(j),
            None => return None,
        };
        return match (x, y) {
            (Some(x), Some(y)) => Some(make_far(op, x, y)),
            _ => None,
        };
    }
    if fields.len() == 1 {
        find_bare(op)
    } else {
        None
    }
}

fn from_list(items: &Vec<Json>) -> (r: Option<Command>)
    ensures
        r == command_in_list(json::list_view(items@)),
{
    proof {
        json::lemma_list_view(items@);
    }
    if items.len() == 0 {
        return None;
    }
    assert(json::list_view(items@)[0] == items@[0]@);
    let op = match items[0].as_text() {
        Some(s) => s,
        None => return None,
    };
    if text::same(op, "move") || text::same(op, "wheel") {
        if items.len() != 3 {
            return None;
        }
        assert(json::list_view(items@)[1] == items@[1]@);
        assert(json::list_view(items@)[2] == items@[2]@);
        return match (to_small_int(&items[1]), to_small_int(&items[2])) {
            (Some(x), Some(y)) => Some(make_far(op, x, y)),
            _ => None,
        };
    }
    if items.len() == 1 {
        find_bare(op)
    } else {
        None
    }
}

/// The command that a parsed message stands for.
pub fn command_from_json(v: &Json) -> (r: Option<Command>)
    ensures
        r == command_of(v@),
{
    match v {
        Json::Object(fields) => from_fields(v, fields),
        Json::List(items) => from_list(items),
        _ => None,
    }
}

/// The command that parsing a message gives, unless it goes too far.
pub fn accept(parsed: &Result<Json, String>) -> (r: Option<Command>)
    ensures
        r == accepted(crate::files::pshell::reply_view(*parsed)),
{
    let c = match parsed {
        Ok(v) => match command_from_json(v) {
            Some(c) => c,
            None => return None,
        },
        Err(_) => return None,
    };
    match c {
        Command::Move { x, y } | Command::Wheel { x, y } => {
            if x < -LIMIT || x > LIMIT || y < -LIMIT || y > LIMIT {
                return None;
            }
        },
        _ => {},
    }
    Some(c)
}

/// The command that a message stands for.
pub fn parse(message: &str) -> (r: Option<Command>)
    ensures
        r == message_command(message@),
{
    if message.as_bytes().len() > MAX_MESSAGE {
        return None;
    }
    let parsed = fields::parse(message);
    accept(&parsed)
}

/// No message makes the pointer or the wheel go further than it may.
pub proof fn no_message_goes_too_far(text: Seq<char>)
    ensures
        message_command(text) matches Some(c) ==> bounded(c),
{
}

/// A number of a message, written with or without a sign.
pub open spec fn whole_number(v: json::JsonView, n: i32) -> bool {
    v == json::JsonView::Number(Number::Signed(n as i64)) || n >= 0 && v == json::JsonView::Number(
        Number::Unsigned(n as u64),
    )
}

/// An object with a name under `op` and two whole numbers under `x` and `y`, in any order and
/// with nothing else, is the move or the turn of the wheel by those numbers, if neither goes
/// beyond 2048 either way; beyond that it is no command.
pub proof fn distances_are_read_from_x_and_y(
    fields: Seq<(Seq<char>, json::JsonView)>,
    op: Seq<char>,
    a: json::JsonView,
    b: json::JsonView,
    x: i32,
    y: i32,
)
    requires
        fields.len() == 3,
        json::has_once(json::JsonView::Object(fields), "op"@, json::JsonView::Text(op)),
        json::has_once(json::JsonView::Object(fields), "x"@, a),
        json::has_once(json::JsonView::Object(fields), "y"@, b),
        whole_number(a, x),
        whole_number(b, y),
    ensures
        -2048 <= x <= 2048 && -2048 <= y <= 2048 && op == "move"@ ==> accepted(
            Ok(json::JsonView::Object(fields)),
        ) == Some(Command::Move { x, y }),
        -2048 <= x <= 2048 && -2048 <= y <= 2048 && op == "wheel"@ ==> accepted(
            Ok(json::JsonView::Object(fields)),
        ) == Some(Command::Wheel { x, y }),
        !(-2048 <= x <= 2048 && -2048 <= y <= 2048) ==> accepted(
            Ok(json::JsonView::Object(fields)),
        ) is None,
        op != "move"@ && op != "wheel"@ ==> accepted(Ok(json::JsonView::Object(fields))) is None,
{
    let v = json::JsonView::Object(fields);
    json::fields_are_found_by_name(v, "op"@, json::JsonView::Text(op));
    json::fields_are_found_by_name(v, "x"@, a);
    json::fields_are_found_by_name(v, "y"@, b);
    lemma_op_names();
    let i = choose|i: int|
        0 <= i < fields.len() && #[trigger] fields[i] == ("op"@, json::JsonView::Text(op)) && (
        forall|j: int| 0 <= j < fields.len() && j != i ==> (#[trigger] fields[j]).0 != "op"@);
    let j = choose|i: int|
        0 <= i < fields.len() && #[trigger] fields[i] == ("x"@, a) && (forall|j: int|
            0 <= j < fields.len() && j != i ==> (#[trigger] fields[j]).0 != "x"@);
    let k = choose|i: int|
        0 <= i < fields.len() && #[trigger] fields[i] == ("y"@, b) && (forall|j: int|
            0 <= j < fields.len() && j != i ==> (#[trigger] fields[j]).0 != "y"@);
    assert(fields[i].0 != fields[j].0 && fields[j].0 != fields[k].0 && fields[i].0 != fields[k].0);
    assert(only_fields(fields, "op"@, "x"@, "y"@)) by {
        assert forall|n: int| 0 <= n < fields.len() implies (#[trigger] fields[n]).0 == "op"@
            || fields[n].0 == "x"@ || fields[n].0 == "y"@ by {
            assert(n == i || n == j || n == k);
        }
    }
}

proof fn lemma_op_names()
    ensures
        "op"@ != "x"@,
        "op"@ != "y"@,
        "x"@ != "y"@,
        "move"@ != "wheel"@,
        "click"@ != "move"@ && "click"@ != "wheel"@,
        "right"@ != "move"@ && "right"@ != "wheel"@ && "right"@ != "click"@,
        "down"@ != "move"@ && "down"@ != "wheel"@ && "down"@ != "click"@ && "down"@ != "right"@,
        "up"@ != "move"@ && "up"@ != "wheel"@ && "up"@ != "click"@ && "up"@ != "right"@ && "up"@
            != "down"@,
        "ping"@ != "move"@ && "ping"@ != "wheel"@ && "ping"@ != "click"@ && "ping"@ != "right"@
            && "ping"@ != "down"@ && "ping"@ != "up"@,
{
    reveal_strlit("op");
    reveal_strlit("x");
    reveal_strlit("y");
    reveal_strlit("move");
    reveal_strlit("wheel");
    reveal_strlit("click");
    reveal_strlit("right");
    reveal_strlit("down");
    reveal_strlit("up");
    reveal_strlit("ping");
    assert("x"@[0] == 'x' && "y"@[0] == 'y');
    assert("move"@[0] == 'm' && "wheel"@[0] == 'w' && "click"@[0] == 'c' && "right"@[0] == 'r'
        && "down"@[0] == 'd' && "up"@[0] == 'u' && "ping"@[0] == 'p');
}

/// An object with nothing but a name under `op` is the command of that name, if it is one without
/// a distance; so is a list with nothing but the name.
pub proof fn names_stand_for_their_commands(
    fields: Seq<(Seq<char>, json::JsonView)>,
    op: Seq<char>,
)
    requires
        fields =~= seq![("op"@, json::JsonView::Text(op))],
    ensures
        op == "click"@ ==> accepted(Ok(json::JsonView::Object(fields))) == Some(Command::Click),
        op == "right"@ ==> accepted(Ok(json::JsonView::Object(fields))) == Some(Command::Right),
        op == "down"@ ==> accepted(Ok(json::JsonView::Object(fields))) == Some(Command::Down),
        op == "up"@ ==> accepted(Ok(json::JsonView::Object(fields))) == Some(Command::Up),
        op == "ping"@ ==> accepted(Ok(json::JsonView::Object(fields))) == Some(Command::Ping),
        op != "click"@ && op != "right"@ && op != "down"@ && op != "up"@ && op != "ping"@
            ==> accepted(Ok(json::JsonView::Object(fields))) is None,
        accepted(Ok(json::JsonView::List(seq![json::JsonView::Text(op)]))) == accepted(
            Ok(json::JsonView::Object(fields)),
        ),
{
    let v = json::JsonView::Object(fields);
    lemma_op_names();
    assert(fields[0] == ("op"@, json::JsonView::Text(op)));
    json::fields_are_found_by_name(v, "op"@, json::JsonView::Text(op));
}

/// A list of a name and two whole numbers is the command that the same name and numbers are in an
/// object: the first number is the `x`, the second the `y`.
pub proof fn lists_are_read_in_order(
    op: Seq<char>,
    a: json::JsonView,
    b: json::JsonView,
    x: i32,
    y: i32,
)
    requires
        whole_number(a, x),
        whole_number(b, y),
        -2048 <= x <= 2048,
        -2048 <= y <= 2048,
    ensures
        op == "move"@ ==> accepted(
            Ok(json::JsonView::List(seq![json::JsonView::Text(op), a, b])),
        ) == Some(Command::Move { x, y }),
        op == "wheel"@ ==> accepted(
            Ok(json::JsonView::List(seq![json::JsonView::Text(op), a, b])),
        ) == Some(Command::Wheel { x, y }),
{
    lemma_op_names();
}

/// What is not JSON, and a message of more than 160 bytes, is no command.
pub proof fn long_or_broken_messages_are_no_commands(text: Seq<char>, e: Seq<char>)
    ensures
        accepted(Err(e)) is None,
        vstd::utf8::encode_utf8(text).len() > 160 ==> message_command(text) is None,
        vstd::utf8::encode_utf8(text).len() <= 160 ==> message_command(text) == accepted(
            fields::every_field(text),
        ),
{
}

// ---------------------------------------------------------------- events

pub const MOVE: u32 = 0x0001;

pub const LEFT_DOWN: u32 = 0x0002;

pub const LEFT_UP: u32 = 0x0004;

pub const RIGHT_DOWN: u32 = 0x0008;

pub const RIGHT_UP: u32 = 0x0010;

pub const WHEEL: u32 = 0x0800;

pub const HWHEEL: u32 = 0x1000;

/// A pointer event.
#[derive(Clone, Copy, Debug, PartialEq, Eq, Structural)]
pub struct MouseEvent {
    pub flags: u32,
    pub dx: i32,
    pub dy: i32,
    pub data: i32,
}

/// A button event.
pub open spec fn button_event(flags: u32) -> MouseEvent {
    MouseEvent { flags, dx: 0, dy: 0, data: 0 }
}

/// The left button: whether it is held down.
pub struct Button {
    pub held: bool,
}

/// The wheel can be turned as far the other way.
pub open spec fn turns_back(c: Command) -> bool {
    c matches Command::Wheel { x, .. } ==> x > i32::MIN
}

/// The events of a command, and whether the button is held after it.
pub open spec fn effect(held: bool, c: Command) -> (Seq<MouseEvent>, bool) {
    match c {
        Command::Move { x, y } => (seq![MouseEvent { flags: MOVE, dx: x, dy: y, data: 0 }], held),
        Command::Wheel { x, y } => (
            (if y != 0 {
                seq![MouseEvent { flags: WHEEL, dx: 0, dy: 0, data: y }]
            } else {
                Seq::empty()
            }) + (if x != 0 {
                seq![MouseEvent { flags: HWHEEL, dx: 0, dy: 0, data: (-x) as i32 }]
            } else {
                Seq::empty()
            }),
            held,
        ),
        Command::Down => if held {
            (Seq::empty(), true)
        } else {
            (seq![button_event(LEFT_DOWN)], true)
        },
        Command::Up => if held {
            (seq![button_event(LEFT_UP)], false)
        } else {
            (Seq::empty(), false)
        },
        Command::Click => if held {
            (Seq::empty(), held)
        } else {
            (seq![button_event(LEFT_DOWN), button_event(LEFT_UP)], held)
        },
        Command::Right => if held {
            (Seq::empty(), held)
        } else {
            (seq![button_event(RIGHT_DOWN), button_event(RIGHT_UP)], held)
        },
        Command::Ping => (Seq::empty(), held),
    }
}

impl Default for Button {
    fn default() -> (r: Self)
        ensures
            !r.held,
    {
        Button { held: false }
    }
}

fn event(flags: u32) -> (r: MouseEvent)
    ensures
        r == button_event(flags),
{
    MouseEvent { flags, dx: 0, dy: 0, data: 0 }
}

impl Button {
    /// Lets go of the button, if it is held.
    pub fn release(&mut self) -> (r: Vec<MouseEvent>)
        ensures
            (r@, final(self).held) == effect(old(self).held, Command::Up),
    {
        let mut out: Vec<MouseEvent> = Vec::new();
        if self.held {
            out.push(event(LEFT_UP));
            self.held = false;
        }
        assert(out@ =~= effect(old(self).held, Command::Up).0);
        out
    }

    /// Does what a command asks for.
    pub fn apply(&mut self, cmd: Command) -> (r: Vec<MouseEvent>)
        requires
            turns_back(cmd),
        ensures
            (r@, final(self).held) == effect(old(self).held, cmd),
    {
        let mut out: Vec<MouseEvent> = Vec::new();
        match cmd {
            Command::Move { x, y } => {
                out.push(MouseEvent { flags: MOVE, dx: x, dy: y, data: 0 });
            },
            Command::Wheel { x, y } => {
                if y != 0 {
                    out.push(MouseEvent { flags: WHEEL, dx: 0, dy: 0, data: y });
                }
                if x != 0 {
                    out.push(MouseEvent { flags: HWHEEL, dx: 0, dy: 0, data: -x });
                }
            },
            Command::Down => {
                if !self.held {
                    self.held = true;
                    out.push(event(LEFT_DOWN));
                }
            },
            Command::Up => {
                return self.release();
            },
            Command::Click => {
                if !self.held {
                    out.push(event(LEFT_DOWN));
                    out.push(event(LEFT_UP));
                }
            },
            Command::Right => {
                if !self.held {
                    out.push(event(RIGHT_DOWN));
                    out.push(event(RIGHT_UP));
                }
            },
            Command::Ping => {},
        }
        assert(out@ =~= effect(old(self).held, cmd).0);
        out
    }
}

/// How many more times the left button went down than up.
pub open spec fn left_balance(events: Seq<MouseEvent>) -> int
    decreases events.len(),
{
    if events.len() == 0 {
        0
    } else {
        left_balance(events.drop_last()) + if events.last().flags == LEFT_DOWN {
            1int
        } else if events.last().flags == LEFT_UP {
            -1int
        } else {
            0int
        }
    }
}

/// The button is down exactly as often as it was pressed and not yet let go: a command
/// never presses it twice, nor lets go of it twice.
pub proof fn the_button_stays_in_step(held: bool, c: Command)
    ensures
        left_balance(effect(held, c).0) == (if effect(held, c).1 {
            1int
        } else {
            0int
        }) - (if held {
            1int
        } else {
            0int
        }),
{
    reveal_with_fuel(left_balance, 4);
    let e = effect(held, c).0;
    if e.len() == 2 {
        assert(e.drop_last().drop_last() =~= Seq::empty());
    }
    match c {
        Command::Wheel { x, y } => {
            if x != 0 && y != 0 {
                assert(e.drop_last() =~= seq![MouseEvent { flags: WHEEL, dx: 0, dy: 0, data: y }]);
            }
        },
        _ => {},
    }
}

/// The events of a run of commands from a button that is up, and whether it is held then.
pub open spec fn run_of(commands: Seq<Command>) -> (Seq<MouseEvent>, bool)
    decreases commands.len(),
{
    if commands.len() == 0 {
        (Seq::empty(), false)
    } else {
        let (events, held) = run_of(commands.drop_last());
        let (more, after) = effect(held, commands.last());
        (events + more, after)
    }
}

proof fn lemma_left_balance_adds(a: Seq<MouseEvent>, b: Seq<MouseEvent>)
    ensures
        left_balance(a + b) == left_balance(a) + left_balance(b),
    decreases b.len(),
{
    if b.len() == 0 {
        assert(a + b =~= a);
    } else {
        lemma_left_balance_adds(a, b.drop_last());
        assert((a + b).drop_last() =~= a + b.drop_last());
    }
}

proof fn lemma_run_in_step(commands: Seq<Command>)
    ensures
        left_balance(run_of(commands).0) == if run_of(commands).1 {
            1int
        } else {
            0int
        },
    decreases commands.len(),
{
    if commands.len() > 0 {
        lemma_run_in_step(commands.drop_last());
        let (events, held) = run_of(commands.drop_last());
        the_button_stays_in_step(held, commands.last());
        lemma_left_balance_adds(events, effect(held, commands.last()).0);
    }
}

/// Whatever the phone sent before the connection broke, letting go of the button at its end
/// leaves the button up: no drag goes on.
pub proof fn no_drag_outlives_the_connection(commands: Seq<Command>)
    ensures
        left_balance(run_of(commands).0 + effect(run_of(commands).1, Command::Up).0) == 0,
        !effect(run_of(commands).1, Command::Up).1,
{
    lemma_run_in_step(commands);
    the_button_stays_in_step(run_of(commands).1, Command::Up);
    lemma_left_balance_adds(run_of(commands).0, effect(run_of(commands).1, Command::Up).0);
}

/// How far the pointer events move the pointer to the right and down. A pointer event moves it
/// where its flags are 1.
pub open spec fn moved(events: Seq<MouseEvent>) -> (int, int)
    decreases events.len(),
{
    if events.len() == 0 {
        (0, 0)
    } else {
        let (dx, dy) = moved(events.drop_last());
        if events.last().flags == 1 {
            (dx + events.last().dx, dy + events.last().dy)
        } else {
            (dx, dy)
        }
    }
}

/// How far the commands ask the pointer to move.
pub open spec fn asked_moves(commands: Seq<Command>) -> (int, int)
    decreases commands.len(),
{
    if commands.len() == 0 {
        (0, 0)
    } else {
        let (dx, dy) = asked_moves(commands.drop_last());
        match commands.last() {
            Command::Move { x, y } => (dx + x, dy + y),
            _ => (dx, dy),
        }
    }
}

/// The turns of a wheel, added up: those of the vertical wheel have the flags 0x800, those of the
/// horizontal one 0x1000.
pub open spec fn turned(events: Seq<MouseEvent>, flags: u32) -> int
    decreases events.len(),
{
    if events.len() == 0 {
        0
    } else {
        turned(events.drop_last(), flags) + if events.last().flags == flags {
            events.last().data as int
        } else {
            0int
        }
    }
}

/// How far the commands ask the wheel to turn, sideways and up.
pub open spec fn asked_turns(commands: Seq<Command>) -> (int, int)
    decreases commands.len(),
{
    if commands.len() == 0 {
        (0, 0)
    } else {
        let (dx, dy) = asked_turns(commands.drop_last());
        match commands.last() {
            Command::Wheel { x, y } => (dx + x, dy + y),
            _ => (dx, dy),
        }
    }
}

proof fn lemma_sums_add(a: Seq<MouseEvent>, b: Seq<MouseEvent>, flags: u32)
    ensures
        moved(a + b).0 == moved(a).0 + moved(b).0,
        moved(a + b).1 == moved(a).1 + moved(b).1,
        turned(a + b, flags) == turned(a, flags) + turned(b, flags),
    decreases b.len(),
{
    if b.len() == 0 {
        assert(a + b =~= a);
    } else {
        lemma_sums_add(a, b.drop_last(), flags);
        assert((a + b).drop_last() =~= a + b.drop_last());
    }
}

/// A command moves the pointer as far as it says, in the direction it says, and only if it is a
/// move. It turns the vertical wheel as far as its `y` says and the horizontal one as far as its
/// `x` says the other way, and only if it is a turn of the wheel.
pub proof fn one_command_moves_and_turns_as_far_as_it_says(held: bool, c: Command)
    requires
        turns_back(c),
    ensures
        ({
            let e = effect(held, c).0;
            &&& moved(e) == match c {
                Command::Move { x, y } => (x as int, y as int),
                _ => (0int, 0int),
            }
            &&& turned(e, 0x800) == match c {
                Command::Wheel { y, .. } => y as int,
                _ => 0int,
            }
            &&& turned(e, 0x1000) == match c {
                Command::Wheel { x, .. } => -(x as int),
                _ => 0int,
            }
        }),
{
    reveal_with_fuel(moved, 3);
    reveal_with_fuel(turned, 3);
    let e = effect(held, c).0;
    if e.len() == 2 {
        assert(e.drop_last() =~= seq![e[0]]);
        assert(e.drop_last().drop_last() =~= Seq::empty());
    } else if e.len() == 1 {
        assert(e.drop_last() =~= Seq::empty());
    }
    match c {
        Command::Wheel { x, y } => {
            if y != 0 && x == 0 {
                assert(e =~= seq![MouseEvent { flags: WHEEL, dx: 0, dy: 0, data: y }]);
            } else if y == 0 && x != 0 {
                assert(e =~= seq![MouseEvent { flags: HWHEEL, dx: 0, dy: 0, data: (-x) as i32 }]);
            }
        },
        _ => {},
    }
}

/// Over any run of commands the pointer ends up as far to the right and down as the commands
/// asked for together. The vertical wheel turns as far as they asked, the horizontal one as far
/// the other way.
pub proof fn the_pointer_ends_where_it_was_sent(commands: Seq<Command>)
    requires
        forall|i: int| 0 <= i < commands.len() ==> turns_back(#[trigger] commands[i]),
    ensures
        moved(run_of(commands).0).0 == asked_moves(commands).0,
        moved(run_of(commands).0).1 == asked_moves(commands).1,
        turned(run_of(commands).0, 0x800) == asked_turns(commands).1,
        turned(run_of(commands).0, 0x1000) == -asked_turns(commands).0,
    decreases commands.len(),
{
    if commands.len() > 0 {
        let front = commands.drop_last();
        assert forall|i: int| 0 <= i < front.len() implies turns_back(#[trigger] front[i]) by {
            assert(front[i] == commands[i]);
        }
        the_pointer_ends_where_it_was_sent(front);
        assert(commands[commands.len() - 1] == commands.last());
        let (events, held) = run_of(front);
        let more = effect(held, commands.last()).0;
        one_command_moves_and_turns_as_far_as_it_says(held, commands.last());
        lemma_sums_add(events, more, 0x800);
        lemma_sums_add(events, more, 0x1000);
    }
}

/// A click with the button up presses a button and lets go of it: the left one, with the flags 2
/// and 4, or the right one, with the flags 8 and 16. While the button is held a click does
/// nothing. Holding it down presses the left button once, and letting go lets go of it. No click
/// moves the pointer, and a ping does nothing at all.
pub proof fn clicks_press_and_let_go(held: bool)
    ensures
        !held ==> effect(held, Command::Click).0 =~= seq![
            MouseEvent { flags: 2, dx: 0, dy: 0, data: 0 },
            MouseEvent { flags: 4, dx: 0, dy: 0, data: 0 },
        ],
        !held ==> effect(held, Command::Right).0 =~= seq![
            MouseEvent { flags: 8, dx: 0, dy: 0, data: 0 },
            MouseEvent { flags: 16, dx: 0, dy: 0, data: 0 },
        ],
        !held ==> effect(held, Command::Down).0 =~= seq![
            MouseEvent { flags: 2, dx: 0, dy: 0, data: 0 },
        ],
        held ==> effect(held, Command::Up).0 =~= seq![
            MouseEvent { flags: 4, dx: 0, dy: 0, data: 0 },
        ],
        held ==> effect(held, Command::Click).0.len() == 0 && effect(held, Command::Right).0.len()
            == 0 && effect(held, Command::Down).0.len() == 0,
        !held ==> effect(held, Command::Up).0.len() == 0,
        effect(held, Command::Click).1 == held,
        effect(held, Command::Right).1 == held,
        effect(held, Command::Down).1,
        !effect(held, Command::Up).1,
        effect(held, Command::Ping).0.len() == 0,
        effect(held, Command::Ping).1 == held,
{
}

/// Moving the pointer and turning the wheel leave the button as it is.
pub proof fn only_the_button_commands_touch_the_button(held: bool, x: i32, y: i32)
    ensures
        effect(held, Command::Move { x, y }).1 == held,
        effect(held, Command::Wheel { x, y }).1 == held,
        left_balance(effect(held, Command::Move { x, y }).0) == 0,
        left_balance(effect(held, Command::Wheel { x, y }).0) == 0,
{
    the_button_stays_in_step(held, Command::Move { x, y });
    the_button_stays_in_step(held, Command::Wheel { x, y });
}

// ---------------------------------------------------------------- the connection

/// The page that steers the pointer is the bridge's own: its origin is the host asked for,
/// over HTTPS.
pub open spec fn own_origin(origin: Option<Seq<char>>, host: Option<Seq<char>>) -> bool {
    match (origin, host) {
        (Some(o), Some(h)) => o == "https://"@ + h,
        _ => false,
    }
}

/// Whether a page may steer the pointer.
pub fn origin_allowed(origin: Option<&str>, host: Option<&str>) -> (r: bool)
    ensures
        r == own_origin(text::opt_str(origin), text::opt_str(host)),
{
    match (origin, host) {
        (Some(o), Some(h)) => {
            let expected = crate::files::pshell::concat("https://", h);
            text::same(o, expected.as_str())
        },
        _ => false,
    }
}

/// What a connection brings.
pub enum Incoming {
    Text(String),
    /// A ping or a pong.
    Beat,
    /// Nothing for two seconds.
    Silence,
    /// The end, an error, or anything else.
    Other,
}

/// One step of a connection: the pointer events, and whether it goes on. Silence is borne
/// unless the button is held: a phone that fell asleep does not leave a drag behind.
pub fn step(button: &mut Button, incoming: &Incoming) -> (r: (Vec<MouseEvent>, bool))
    ensures
        match incoming {
            Incoming::Text(t) => match message_command(t@) {
                Some(c) => (r.0@, final(button).held) == effect(old(button).held, c) && r.1,
                None => r.0@.len() == 0 && !r.1 && final(button).held == old(button).held,
            },
            Incoming::Beat => r.0@.len() == 0 && r.1 && final(button).held == old(button).held,
            Incoming::Silence => r.0@.len() == 0 && r.1 == !old(button).held && final(button).held
                == old(button).held,
            Incoming::Other => r.0@.len() == 0 && !r.1 && final(button).held == old(button).held,
        },
{
    match incoming {
        Incoming::Text(t) => match parse(t.as_str()) {
            Some(c) => (button.apply(c), true),
            None => (Vec::new(), false),
        },
        Incoming::Beat => (Vec::new(), true),
        Incoming::Silence => (Vec::new(), !button.held),
        Incoming::Other => (Vec::new(), false),
    }
}

/// Only a page that came from this very host over HTTPS may steer the pointer: one that says so by
/// its origin, and asks that host.
pub proof fn only_the_own_page_steers(host: Seq<char>, other: Seq<char>)
    ensures
        own_origin(Some("https://"@ + host), Some(host)),
        !own_origin(Some("http://"@ + host), Some(host)),
        host != other ==> !own_origin(Some("https://"@ + other), Some(host)),
        !own_origin(None, Some(host)),
        !own_origin(Some("https://"@ + host), None),
{
    reveal_strlit("https://");
    reveal_strlit("http://");
    let a = "https://"@ + host;
    assert(a.skip(8) =~= host);
    assert(("https://"@ + other).skip(8) =~= other);
    assert(("http://"@ + host).len() == 7 + host.len());
}

} // verus!
