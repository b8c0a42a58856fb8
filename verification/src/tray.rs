//! The menu of the tray icon: what a click means and what it changes.
use crate::files::config;
use crate::files::config::{Config, Scope};
use crate::state::CaptureCtl;
use crate::text;
use vstd::prelude::*;

verus! {

/// The registry key that programs are started from, and the name in it.
pub const AUTOSTART_KEY: &'static str = r"Software\Microsoft\Windows\CurrentVersion\Run";

pub const AUTOSTART_NAME: &'static str = "iphone-bridge";

// ---------------------------------------------------------------- clicks

/// The identifiers of the menu's items.
pub struct MenuIds {
    pub copy_url: String,
    pub default_device: String,
    pub scope_roots: String,
    pub scope_profile: String,
    pub scope_drives: String,
    pub add_root: String,
    pub show_pin: String,
    pub autostart: String,
    pub exit: String,
    /// One for each root that can be removed.
    pub remove: Vec<String>,
    /// One for each device.
    pub devices: Vec<String>,
}

/// What a click means.
#[derive(Clone, Copy, Debug, PartialEq, Eq, Structural)]
pub enum MenuAction {
    CopyUrl,
    DefaultDevice,
    SetScope(Scope),
    AddRoot,
    ShowPin,
    ToggleAutostart,
    Exit,
    RemoveRoot(usize),
    Device(usize),
    Nothing,
}

/// `s` stands in the list at `i` and nowhere before.
pub open spec fn first_at(list: Seq<Seq<char>>, s: Seq<char>, i: int) -> bool {
    0 <= i < list.len() && list[i] == s && forall|j: int| 0 <= j < i ==> #[trigger] list[j] != s
}

/// What a click on an item means.
pub open spec fn meant(ids: MenuIds, id: Seq<char>, a: MenuAction) -> bool {
    if id == ids.copy_url@ {
        a == MenuAction::CopyUrl
    } else if id == ids.default_device@ {
        a == MenuAction::DefaultDevice
    } else if id == ids.scope_roots@ {
        a == MenuAction::SetScope(Scope::Roots)
    } else if id == ids.scope_profile@ {
        a == MenuAction::SetScope(Scope::Profile)
    } else if id == ids.scope_drives@ {
        a == MenuAction::SetScope(Scope::Drives)
    } else if id == ids.add_root@ {
        a == MenuAction::AddRoot
    } else if id == ids.show_pin@ {
        a == MenuAction::ShowPin
    } else if id == ids.autostart@ {
        a == MenuAction::ToggleAutostart
    } else if id == ids.exit@ {
        a == MenuAction::Exit
    } else if text::views(ids.remove@).contains(id) {
        a matches MenuAction::RemoveRoot(i) && first_at(text::views(ids.remove@), id, i as int)
    } else if text::views(ids.devices@).contains(id) {
        a matches MenuAction::Device(i) && first_at(text::views(ids.devices@), id, i as int)
    } else {
        a == MenuAction::Nothing
    }
}

fn position(list: &Vec<String>, s: &str) -> (r: Option<usize>)
    ensures
        match r {
            Some(i) => first_at(text::views(list@), s@, i as int) && text::views(list@).contains(
                s@,
            ),
            None => !text::views(list@).contains(s@),
        },
{
    let ghost all = text::views(list@);
    let mut i: usize = 0;
    while i < list.len()
        invariant
            i <= list@.len(),
            all == text::views(list@),
            forall|j: int| 0 <= j < i ==> #[trigger] all[j] != s@,
        decreases list@.len() - i,
    {
        assert(all[i as int] == list@[i as int]@);
        if text::same(list[i].as_str(), s) {
            return Some(i);
        }
        i = i + 1;
    }
    None
}

/// What a click on an item means.
pub fn menu_action(ids: &MenuIds, id: &str) -> (r: MenuAction)
    ensures
        meant(*ids, id@, r),
{
    if text::same(id, ids.copy_url.as_str()) {
        return MenuAction::CopyUrl;
    }
    if text::same(id, ids.default_device.as_str()) {
        return MenuAction::DefaultDevice;
    }
    if text::same(id, ids.scope_roots.as_str()) {
        return MenuAction::SetScope(Scope::Roots);
    }
    if text::same(id, ids.scope_profile.as_str()) {
        return MenuAction::SetScope(Scope::Profile);
    }
    if text::same(id, ids.scope_drives.as_str()) {
        return MenuAction::SetScope(Scope::Drives);
    }
    if text::same(id, ids.add_root.as_str()) {
        return MenuAction::AddRoot;
    }
    if text::same(id, ids.show_pin.as_str()) {
        return MenuAction::ShowPin;
    }
    if text::same(id, ids.autostart.as_str()) {
        return MenuAction::ToggleAutostart;
    }
    if text::same(id, ids.exit.as_str()) {
        return MenuAction::Exit;
    }
    match position(&ids.remove, id) {
        Some(i) => MenuAction::RemoveRoot(i),
        None => match position(&ids.devices, id) {
            Some(i) => MenuAction::Device(i),
            None => MenuAction::Nothing,
        },
    }
}

// ---------------------------------------------------------------- check marks

/// Which of the three scopes has a check mark: the roots, the profile, the drives.
pub fn scope_checks(scope: Scope) -> (r: (bool, bool, bool))
    ensures
        r == (scope == Scope::Roots, scope == Scope::Profile, scope == Scope::Drives),
{
    (scope == Scope::Roots, scope == Scope::Profile, scope == Scope::Drives)
}

/// Which of `n` devices has a check mark; none of them if the default one has it.
pub fn device_checks(n: usize, chosen: Option<usize>) -> (r: (bool, Vec<bool>))
    ensures
        r.0 == (chosen is None),
        r.1@ == Seq::new(n as nat, |i: int| chosen == Some(i as usize)),
{
    let mut marks: Vec<bool> = Vec::new();
    let mut i: usize = 0;
    while i < n
        invariant
            i <= n,
            marks@ == Seq::new(i as nat, |k: int| chosen == Some(k as usize)),
        decreases n - i,
    {
        let on = match chosen {
            Some(c) => c == i,
            None => false,
        };
        marks.push(on);
        i = i + 1;
        assert(marks@ =~= Seq::new(i as nat, |k: int| chosen == Some(k as usize)));
    }
    (chosen.is_none(), marks)
}

// ---------------------------------------------------------------- folders

/// Changes the scope.
pub fn set_scope(cfg: &mut Config, scope: Scope)
    ensures
        *final(cfg) == (Config { scope, ..*old(cfg) }),
{
    cfg.scope = scope;
}

/// Adds a root, unless it is there already but for ASCII case; whether it was added.
pub fn add_root_path(cfg: &mut Config, path: &str) -> (r: bool)
    ensures
        r == !config::listed(text::views(old(cfg).roots@), path@),
        text::views(final(cfg).roots@) == if r {
            text::views(old(cfg).roots@).push(path@)
        } else {
            text::views(old(cfg).roots@)
        },
        *final(cfg) == (Config { roots: final(cfg).roots, ..*old(cfg) }),
{
    if config::is_listed(&cfg.roots, path) {
        return false;
    }
    let ghost o = cfg.roots@;
    cfg.roots.push(text::owned(path));
    assert(text::views(cfg.roots@) =~= text::views(o).push(path@));
    true
}

/// Removes the root at an index and gives it back; none where there is no such root.
pub fn remove_root_at(cfg: &mut Config, idx: usize) -> (r: Option<String>)
    ensures
        if idx < old(cfg).roots@.len() {
            r == Some(old(cfg).roots@[idx as int]) && final(cfg).roots@ == old(cfg).roots@.remove(
                idx as int,
            )
        } else {
            r is None && final(cfg).roots@ == old(cfg).roots@
        },
        *final(cfg) == (Config { roots: final(cfg).roots, ..*old(cfg) }),
{
    if idx < cfg.roots.len() {
        Some(cfg.roots.remove(idx))
    } else {
        None
    }
}

/// Removing the root that was added last gives the roots back as they were.
pub proof fn removing_undoes_adding(roots: Seq<Seq<char>>, path: Seq<char>)
    ensures
        roots.push(path).remove(roots.len() as int) == roots,
{
    assert(roots.push(path).remove(roots.len() as int) =~= roots);
}

/// The labels of the items that remove a root, in the order of the roots.
pub open spec fn remove_labels(roots: Seq<Seq<char>>) -> Seq<Seq<char>> {
    if roots.len() == 0 {
        seq!["(no roots)"@]
    } else {
        roots.map_values(|r: Seq<char>| "Remove: "@ + r)
    }
}

/// The items that remove a root, and whether they can be clicked.
pub fn rebuild_remove_items(roots: &Vec<String>) -> (r: (Vec<String>, bool))
    ensures
        text::views(r.0@) == remove_labels(text::views(roots@)),
        r.1 == (roots@.len() > 0),
{
    let mut out: Vec<String> = Vec::new();
    if roots.len() == 0 {
        out.push(text::owned("(no roots)"));
        assert(text::views(out@) =~= seq!["(no roots)"@]);
        return (out, false);
    }
    let ghost labels = remove_labels(text::views(roots@));
    let mut i: usize = 0;
    assert(text::views(out@) =~= labels.take(0));
    while i < roots.len()
        invariant
            i <= roots@.len(),
            roots@.len() > 0,
            labels == remove_labels(text::views(roots@)),
            text::views(out@) == labels.take(i as int),
        decreases roots@.len() - i,
    {
        let mut label = text::owned("Remove: ");
        label.append(roots[i].as_str());
        let ghost before = text::views(out@);
        out.push(label);
        assert(text::views(out@) =~= before.push(labels[i as int]));
        assert(labels.take(i + 1) =~= labels.take(i as int).push(labels[i as int]));
        i = i + 1;
    }
    assert(labels.take(roots@.len() as int) =~= labels);
    (out, true)
}

// ---------------------------------------------------------------- the icon

/// The side of the icon.
pub const ICON_SIZE: u32 = 32;

/// The middle of the pixel lies in the disc: its distance from the middle of the icon,
/// counted in half pixels, is at most 30.
pub open spec fn in_disc(x: int, y: int) -> bool {
    (2 * x + 1 - 32) * (2 * x + 1 - 32) + (2 * y + 1 - 32) * (2 * y + 1 - 32) <= 900
}

/// The four bytes of a pixel.
pub open spec fn pixel(x: int, y: int) -> Seq<u8> {
    if in_disc(x, y) {
        seq![0x4au8, 0xdeu8, 0x80u8, 0xffu8]
    } else {
        seq![0u8, 0u8, 0u8, 0u8]
    }
}

/// The first `n` pixels, row by row.
pub open spec fn pixels(n: nat) -> Seq<u8>
    decreases n,
{
    if n == 0 {
        Seq::empty()
    } else {
        pixels((n - 1) as nat) + pixel((n - 1) as int % 32, (n - 1) as int / 32)
    }
}

/// The icon: a green disc, in red, green, blue and opacity.
pub fn make_icon() -> (r: Vec<u8>)
    ensures
        r@ == pixels(1024),
{
    let mut out: Vec<u8> = Vec::new();
    let mut i: u32 = 0;
    while i < 1024
        invariant
            i <= 1024,
            out@ == pixels(i as nat),
        decreases 1024 - i,
    {
        let dx: i32 = 2 * ((i % 32) as i32) + 1 - 32;
        let dy: i32 = 2 * ((i / 32) as i32) + 1 - 32;
        assert(0 <= dx * dx <= 1024 && 0 <= dy * dy <= 1024) by (nonlinear_arith)
            requires
                -32 <= dx <= 32,
                -32 <= dy <= 32,
        ;
        let ghost before = out@;
        if dx * dx + dy * dy <= 900 {
            out.push(0x4a);
            out.push(0xde);
            out.push(0x80);
            out.push(0xff);
        } else {
            out.push(0);
            out.push(0);
            out.push(0);
            out.push(0);
        }
        assert(out@ =~= before + pixel(i as int % 32, i as int / 32));
        i = i + 1;
    }
    out
}

// ---------------------------------------------------------------- starting with the system

/// Whether the bridge starts with the system, given the value in the registry.
pub fn is_autostart_set(value: Option<&str>) -> (r: bool)
    ensures
        r == (value matches Some(v) && v@.len() > 0),
{
    match value {
        Some(v) => {
            let chars = text::chars_of(v);
            chars.len() > 0
        },
        None => false,
    }
}

/// The value in the registry that starts a program: its path in quotes.
pub fn autostart_value(exe: &str) -> (r: String)
    ensures
        r@ == "\""@ + exe@ + "\""@,
{
    let mut out = text::owned("\"");
    out.append(exe);
    out.append("\"");
    out
}

// ---------------------------------------------------------------- the menu

/// Where an item of the menu stands.
#[derive(Clone, Copy, Debug, PartialEq, Eq, Structural)]
pub enum Section {
    Main,
    /// Below "Capture from".
    Capture,
    /// Below "Folder access".
    Folders,
}

/// What an item of the menu is.
#[derive(Clone, Copy, Debug, PartialEq, Eq, Structural)]
pub enum ItemKind {
    Plain,
    /// With a check mark, or without.
    Check(bool),
    Separator,
    /// The items of a section stand below it.
    Below(Section),
    /// The roots that can be removed stand below it.
    BelowRemove,
}

/// An item of the menu.
pub struct Item {
    pub section: Section,
    pub label: String,
    pub kind: ItemKind,
}

/// An item of the menu, mathematically.
pub open spec fn item_view(i: Item) -> (Section, Seq<char>, ItemKind) {
    (i.section, i.label@, i.kind)
}

/// The items of a menu, mathematically.
pub open spec fn items_view(v: Seq<Item>) -> Seq<(Section, Seq<char>, ItemKind)> {
    v.map_values(|i: Item| item_view(i))
}

/// The menu when the bridge starts.
pub open spec fn menu_of(devices: Seq<Seq<char>>, scope: Scope, autostart: bool) -> Seq<
    (Section, Seq<char>, ItemKind),
> {
    seq![
        (Section::Main, "Copy iPhone URL"@, ItemKind::Plain),
        (Section::Main, ""@, ItemKind::Separator),
        (Section::Main, "Capture from"@, ItemKind::Below(Section::Capture)),
        (Section::Capture, "(Default device)"@, ItemKind::Check(true)),
        (Section::Capture, ""@, ItemKind::Separator),
    ] + devices.map_values(|d: Seq<char>| (Section::Capture, d, ItemKind::Check(false))) + seq![
        (Section::Main, ""@, ItemKind::Separator),
        (Section::Main, "Folder access"@, ItemKind::Below(Section::Folders)),
        (Section::Folders, "Chosen roots"@, ItemKind::Check(scope == Scope::Roots)),
        (Section::Folders, "Whole user profile"@, ItemKind::Check(scope == Scope::Profile)),
        (Section::Folders, "All drives"@, ItemKind::Check(scope == Scope::Drives)),
        (Section::Folders, ""@, ItemKind::Separator),
        (Section::Folders, "Add root..."@, ItemKind::Plain),
        (Section::Folders, "Remove root"@, ItemKind::BelowRemove),
        (Section::Folders, ""@, ItemKind::Separator),
        (Section::Folders, "Show PIN"@, ItemKind::Plain),
        (Section::Main, ""@, ItemKind::Separator),
        (Section::Main, "Start with Windows"@, ItemKind::Check(autostart)),
        (Section::Main, ""@, ItemKind::Separator),
        (Section::Main, "Exit"@, ItemKind::Plain),
    ]
}

fn add_item(out: &mut Vec<Item>, section: Section, label: &str, kind: ItemKind)
    ensures
        items_view(final(out)@) == items_view(old(out)@).push((section, label@, kind)),
{
    let ghost before = items_view(out@);
    out.push(Item { section, label: text::owned(label), kind });
    assert(items_view(out@) =~= before.push((section, label@, kind)));
}

/// The menu when the bridge starts: the default device is captured from.
pub fn menu(devices: &Vec<String>, scope: Scope, autostart: bool) -> (r: Vec<Item>)
    ensures
        items_view(r@) == menu_of(text::views(devices@), scope, autostart),
{
    let mut out: Vec<Item> = Vec::new();
    assert(items_view(out@) =~= Seq::empty());
    add_item(&mut out, Section::Main, "Copy iPhone URL", ItemKind::Plain);
    add_item(&mut out, Section::Main, "", ItemKind::Separator);
    add_item(&mut out, Section::Main, "Capture from", ItemKind::Below(Section::Capture));
    add_item(&mut out, Section::Capture, "(Default device)", ItemKind::Check(true));
    add_item(&mut out, Section::Capture, "", ItemKind::Separator);
    let ghost head = items_view(out@);
    let ghost f = |d: Seq<char>| (Section::Capture, d, ItemKind::Check(false));
    let ghost names = text::views(devices@);
    let mut i: usize = 0;
    assert(items_view(out@) =~= head + names.take(0).map_values(f));
    while i < devices.len()
        invariant
            i <= devices@.len(),
            names == text::views(devices@),
            f == (|d: Seq<char>| (Section::Capture, d, ItemKind::Check(false))),
            items_view(out@) == head + names.take(i as int).map_values(f),
        decreases devices@.len() - i,
    {
        let ghost before = items_view(out@);
        add_item(&mut out, Section::Capture, devices[i].as_str(), ItemKind::Check(false));
        assert(names.take(i + 1).map_values(f) =~= names.take(i as int).map_values(f).push(
            f(names[i as int]),
        ));
        assert(items_view(out@) =~= head + names.take(i + 1).map_values(f));
        i = i + 1;
    }
    assert(names.take(i as int) =~= names);
    add_item(&mut out, Section::Main, "", ItemKind::Separator);
    add_item(&mut out, Section::Main, "Folder access", ItemKind::Below(Section::Folders));
    let (on_roots, on_profile, on_drives) = scope_checks(scope);
    add_item(&mut out, Section::Folders, "Chosen roots", ItemKind::Check(on_roots));
    add_item(&mut out, Section::Folders, "Whole user profile", ItemKind::Check(on_profile));
    add_item(&mut out, Section::Folders, "All drives", ItemKind::Check(on_drives));
    add_item(&mut out, Section::Folders, "", ItemKind::Separator);
    add_item(&mut out, Section::Folders, "Add root...", ItemKind::Plain);
    add_item(&mut out, Section::Folders, "Remove root", ItemKind::BelowRemove);
    add_item(&mut out, Section::Folders, "", ItemKind::Separator);
    add_item(&mut out, Section::Folders, "Show PIN", ItemKind::Plain);
    add_item(&mut out, Section::Main, "", ItemKind::Separator);
    add_item(&mut out, Section::Main, "Start with Windows", ItemKind::Check(autostart));
    add_item(&mut out, Section::Main, "", ItemKind::Separator);
    add_item(&mut out, Section::Main, "Exit", ItemKind::Plain);
    assert(items_view(out@) =~= menu_of(names, scope, autostart));
    out
}

/// What is left to do after a click.
pub enum Effect {
    /// Put the address on the clipboard.
    CopyUrl,
    /// Set the check marks of the devices: that of the default one, and one for each.
    MarkDevices(bool, Vec<bool>),
    /// Store the configuration and set the check marks of the scopes.
    ScopeChanged(bool, bool, bool),
    /// Ask for a folder.
    PickFolder,
    /// Show this.
    ShowPin(String),
    /// Start with the system from now on, or no longer, as the check mark says.
    ToggleAutostart,
    Exit,
    /// Store the configuration, and rebuild the items that remove a root.
    RootsChanged,
    /// Rebuild the items that remove a root.
    RebuildOnly,
    Nothing,
}

/// What a click leaves to do, given the configuration after it.
pub open spec fn left_to_do(
    a: MenuAction,
    devices: Seq<Seq<char>>,
    before: Config,
    e: Effect,
) -> bool {
    match a {
        MenuAction::CopyUrl => e is CopyUrl,
        MenuAction::DefaultDevice => e matches Effect::MarkDevices(d, m) && d && m@ == Seq::new(
            devices.len(),
            |i: int| false,
        ),
        MenuAction::SetScope(s) => e == Effect::ScopeChanged(
            s == Scope::Roots,
            s == Scope::Profile,
            s == Scope::Drives,
        ),
        MenuAction::AddRoot => e is PickFolder,
        MenuAction::ShowPin => e matches Effect::ShowPin(t) && t@ == "Files PIN: "@ + before.pin@,
        MenuAction::ToggleAutostart => e is ToggleAutostart,
        MenuAction::Exit => e is Exit,
        MenuAction::RemoveRoot(i) => if i < before.roots@.len() {
            e is RootsChanged
        } else {
            e is RebuildOnly
        },
        MenuAction::Device(i) => if i < devices.len() {
            e matches Effect::MarkDevices(d, m) && !d && m@ == Seq::new(
                devices.len(),
                |k: int| k == i,
            )
        } else {
            e is Nothing
        },
        MenuAction::Nothing => e is Nothing,
    }
}

/// Does what a click means to the configuration and to the capture, and says what is left to
/// do.
pub fn click(
    action: MenuAction,
    devices: &Vec<String>,
    ctl: &mut CaptureCtl,
    cfg: &mut Config,
) -> (r: Effect)
    ensures
        left_to_do(action, text::views(devices@), *old(cfg), r),
        match action {
            MenuAction::DefaultDevice => final(ctl).selected_device is None && final(ctl).restart,
            MenuAction::Device(i) => if i < devices@.len() {
                text::opt_view(final(ctl).selected_device) == Some(devices@[i as int]@)
                    && final(ctl).restart
            } else {
                *final(ctl) == *old(ctl)
            },
            _ => *final(ctl) == *old(ctl),
        },
        match action {
            MenuAction::SetScope(s) => *final(cfg) == (Config { scope: s, ..*old(cfg) }),
            MenuAction::RemoveRoot(i) => final(cfg).roots@ == (if i < old(cfg).roots@.len() {
                old(cfg).roots@.remove(i as int)
            } else {
                old(cfg).roots@
            }) && *final(cfg) == (Config { roots: final(cfg).roots, ..*old(cfg) }),
            _ => *final(cfg) == *old(cfg),
        },
{
    match action {
        MenuAction::CopyUrl => Effect::CopyUrl,
        MenuAction::DefaultDevice => {
            ctl.choose_device(None);
            let (d, marks) = device_checks(devices.len(), None);
            assert(marks@ =~= Seq::new(devices@.len(), |i: int| false));
            Effect::MarkDevices(d, marks)
        },
        MenuAction::SetScope(s) => {
            set_scope(cfg, s);
            let (a, b, c) = scope_checks(s);
            Effect::ScopeChanged(a, b, c)
        },
        MenuAction::AddRoot => Effect::PickFolder,
        MenuAction::ShowPin => {
            let mut t = text::owned("Files PIN: ");
            t.append(cfg.pin.as_str());
            Effect::ShowPin(t)
        },
        MenuAction::ToggleAutostart => Effect::ToggleAutostart,
        MenuAction::Exit => Effect::Exit,
        MenuAction::RemoveRoot(i) => match remove_root_at(cfg, i) {
            Some(_) => Effect::RootsChanged,
            None => Effect::RebuildOnly,
        },
        MenuAction::Device(i) => {
            if i < devices.len() {
                ctl.choose_device(Some(devices[i].as_str()));
                let (d, marks) = device_checks(devices.len(), Some(i));
                assert(marks@ =~= Seq::new(devices@.len(), |k: int| k == i));
                Effect::MarkDevices(d, marks)
            } else {
                Effect::Nothing
            }
        },
        MenuAction::Nothing => Effect::Nothing,
    }
}

/// After a click that chooses a device exactly one item has a check mark: that of the default
/// device or that of the one that was chosen.
pub proof fn one_device_is_marked(action: MenuAction, devices: Seq<Seq<char>>, cfg: Config, e: Effect)
    requires
        left_to_do(action, devices, cfg, e),
        e is MarkDevices,
    ensures
        e matches Effect::MarkDevices(d, m) && m@.len() == devices.len() && (d ==> forall|i: int|
            0 <= i < m@.len() ==> !#[trigger] m@[i]) && (!d ==> exists|i: int|
            0 <= i < m@.len() && #[trigger] m@[i] && forall|j: int|
                0 <= j < m@.len() && j != i ==> !#[trigger] m@[j]),
{
    if let MenuAction::Device(i) = action {
        if let Effect::MarkDevices(d, m) = e {
            assert(m@[i as int]);
        }
    }
}

/// After a click that chooses a scope exactly one scope has a check mark.
pub proof fn one_scope_is_marked(action: MenuAction, devices: Seq<Seq<char>>, cfg: Config, e: Effect)
    requires
        left_to_do(action, devices, cfg, e),
        e is ScopeChanged,
    ensures
        e matches Effect::ScopeChanged(a, b, c) && (a || b || c) && !(a && b) && !(a && c) && !(b
            && c),
{
}

/// What is done about a click is done for its own item: each action comes from the item of that name,
/// a root is removed from its own item, a device is chosen from its own, and nothing is done only for
/// an item that is none of these.
pub proof fn clicks_do_what_their_item_says(ids: MenuIds, id: Seq<char>, a: MenuAction)
    requires
        meant(ids, id, a),
    ensures
        a == MenuAction::CopyUrl ==> id == ids.copy_url@,
        a == MenuAction::DefaultDevice ==> id == ids.default_device@,
        a == MenuAction::SetScope(Scope::Roots) ==> id == ids.scope_roots@,
        a == MenuAction::SetScope(Scope::Profile) ==> id == ids.scope_profile@,
        a == MenuAction::SetScope(Scope::Drives) ==> id == ids.scope_drives@,
        a == MenuAction::AddRoot ==> id == ids.add_root@,
        a == MenuAction::ShowPin ==> id == ids.show_pin@,
        a == MenuAction::ToggleAutostart ==> id == ids.autostart@,
        a == MenuAction::Exit ==> id == ids.exit@,
        a matches MenuAction::RemoveRoot(i) ==> i < ids.remove@.len() && ids.remove@[i as int]@ == id,
        a matches MenuAction::Device(i) ==> i < ids.devices@.len() && ids.devices@[i as int]@ == id,
        a == MenuAction::Nothing ==> id != ids.copy_url@ && id != ids.default_device@ && id
            != ids.scope_roots@ && id != ids.scope_profile@ && id != ids.scope_drives@ && id
            != ids.add_root@ && id != ids.show_pin@ && id != ids.autostart@ && id != ids.exit@
            && !text::views(ids.remove@).contains(id) && !text::views(ids.devices@).contains(id),
{
}

/// What is left to do after a click: only choosing what is served, and removing a root, change the
/// configuration, and the key is shown as it is.
pub proof fn clicks_leave_this_to_do(
    a: MenuAction,
    devices: Seq<Seq<char>>,
    cfg: Config,
    e: Effect,
    k: int,
)
    requires
        left_to_do(a, devices, cfg, e),
    ensures
        a == MenuAction::CopyUrl ==> e is CopyUrl,
        a == MenuAction::AddRoot ==> e is PickFolder,
        a == MenuAction::Exit ==> e is Exit,
        a == MenuAction::ToggleAutostart ==> e is ToggleAutostart,
        a == MenuAction::Nothing ==> e is Nothing,
        a == MenuAction::ShowPin ==> (e matches Effect::ShowPin(t) && t@ == "Files PIN: "@
            + cfg.pin@),
        a == MenuAction::SetScope(Scope::Roots) ==> e == Effect::ScopeChanged(true, false, false),
        a == MenuAction::SetScope(Scope::Profile) ==> e == Effect::ScopeChanged(false, true, false),
        a == MenuAction::SetScope(Scope::Drives) ==> e == Effect::ScopeChanged(false, false, true),
        a == MenuAction::DefaultDevice ==> (e matches Effect::MarkDevices(d, m) && d && m@.len()
            == devices.len() && (0 <= k < m@.len() ==> !m@[k])),
        a matches MenuAction::Device(i) ==> (i < devices.len() ==> (e matches Effect::MarkDevices(
            d,
            m,
        ) && !d && m@.len() == devices.len() && (0 <= k < m@.len() ==> m@[k] == (k == i)))),
        a matches MenuAction::RemoveRoot(i) ==> (i < cfg.roots@.len() ==> e is RootsChanged),
{
}

/// The menu shows the devices below "Capture from", in their order, none of them marked; what is
/// served is marked, and so is starting with the system.
pub proof fn the_menu_shows_what_is_set(
    devices: Seq<Seq<char>>,
    scope: Scope,
    autostart: bool,
    i: int,
)
    requires
        0 <= i < devices.len(),
    ensures
        ({
            let m = menu_of(devices, scope, autostart);
            let n = devices.len() as int;
            &&& m.len() == n + 19
            &&& m[0] == (Section::Main, "Copy iPhone URL"@, ItemKind::Plain)
            &&& m[2] == (Section::Main, "Capture from"@, ItemKind::Below(Section::Capture))
            &&& m[3] == (Section::Capture, "(Default device)"@, ItemKind::Check(true))
            &&& m[5 + i] == (Section::Capture, devices[i], ItemKind::Check(false))
            &&& m[n + 6] == (Section::Main, "Folder access"@, ItemKind::Below(Section::Folders))
            &&& m[n + 7] == (
                Section::Folders,
                "Chosen roots"@,
                ItemKind::Check(scope == Scope::Roots),
            )
            &&& m[n + 8] == (
                Section::Folders,
                "Whole user profile"@,
                ItemKind::Check(scope == Scope::Profile),
            )
            &&& m[n + 9] == (
                Section::Folders,
                "All drives"@,
                ItemKind::Check(scope == Scope::Drives),
            )
            &&& m[n + 11] == (Section::Folders, "Add root..."@, ItemKind::Plain)
            &&& m[n + 12] == (Section::Folders, "Remove root"@, ItemKind::BelowRemove)
            &&& m[n + 14] == (Section::Folders, "Show PIN"@, ItemKind::Plain)
            &&& m[n + 16] == (Section::Main, "Start with Windows"@, ItemKind::Check(autostart))
            &&& m[n + 18] == (Section::Main, "Exit"@, ItemKind::Plain)
        }),
{
}

/// Each root has an item that removes it, named after it and at its place.
pub proof fn each_root_can_be_removed(roots: Seq<Seq<char>>, i: int)
    requires
        0 <= i < roots.len(),
    ensures
        remove_labels(roots).len() == roots.len(),
        remove_labels(roots)[i] == "Remove: "@ + roots[i],
        remove_labels(Seq::empty()) =~= seq!["(no roots)"@],
{
}

/// The icon is a green disc on nothing. It is the same in each of its quarters and about its
/// diagonals; its middle is green and its corners are not there.
pub proof fn the_icon_is_a_disc(x: int, y: int)
    ensures
        in_disc(x, y) == in_disc(31 - x, y),
        in_disc(x, y) == in_disc(x, 31 - y),
        in_disc(x, y) == in_disc(y, x),
        in_disc(15, 15),
        in_disc(15, 1) && !in_disc(15, 0),
        !in_disc(0, 0),
        in_disc(x, y) ==> pixel(x, y) =~= seq![74u8, 222u8, 128u8, 255u8],
        !in_disc(x, y) ==> pixel(x, y) =~= seq![0u8, 0u8, 0u8, 0u8],
{
    let a = 2 * x + 1 - 32;
    let b = 2 * y + 1 - 32;
    assert(2 * (31 - x) + 1 - 32 == -a);
    assert(2 * (31 - y) + 1 - 32 == -b);
    assert((-a) * (-a) == a * a) by (nonlinear_arith);
    assert((-b) * (-b) == b * b) by (nonlinear_arith);
    assert((2 * 15 + 1 - 32) * (2 * 15 + 1 - 32) == 1) by (nonlinear_arith);
    assert((2 * 1 + 1 - 32) * (2 * 1 + 1 - 32) == 841) by (nonlinear_arith);
    assert((2 * 0 + 1 - 32) * (2 * 0 + 1 - 32) == 961) by (nonlinear_arith);
}

proof fn lemma_tail(a: Seq<u8>, p: Seq<u8>, k: int)
    requires
        p.len() == 4,
        0 <= k,
        4 * k <= a.len(),
    ensures
        4 * k == a.len() ==> (a + p).subrange(4 * k, 4 * k + 4) == p,
        4 * k + 4 <= a.len() ==> (a + p).subrange(4 * k, 4 * k + 4) == a.subrange(4 * k, 4 * k + 4),
{
    if 4 * k == a.len() {
        assert((a + p).subrange(4 * k, 4 * k + 4) =~= p);
    } else if 4 * k + 4 <= a.len() {
        assert((a + p).subrange(4 * k, 4 * k + 4) =~= a.subrange(4 * k, 4 * k + 4));
    }
}

proof fn lemma_pixels(n: nat, k: int)
    requires
        0 <= k < n,
    ensures
        pixels(n).len() == 4 * n,
        pixels(n).subrange(4 * k, 4 * k + 4) == pixel(k % 32, k / 32),
    decreases n,
{
    let m = (n - 1) as nat;
    lemma_pixels_len(m);
    lemma_pixels_len(n);
    lemma_tail(pixels(m), pixel(m as int % 32, m as int / 32), k);
    if k < m {
        lemma_pixels(m, k);
    }
}

proof fn lemma_pixels_len(n: nat)
    ensures
        pixels(n).len() == 4 * n,
    decreases n,
{
    if n > 0 {
        lemma_pixels_len((n - 1) as nat);
    }
}

/// The pixels stand row by row, 32 in each of 32 rows, four bytes for each.
pub proof fn pixels_stand_row_by_row(x: int, y: int)
    requires
        0 <= x < 32,
        0 <= y < 32,
    ensures
        pixels(1024).len() == 4096,
        pixels(1024).subrange(4 * (32 * y + x), 4 * (32 * y + x) + 4) == pixel(x, y),
{
    let k = 32 * y + x;
    assert(k % 32 == x && k / 32 == y);
    lemma_pixels(1024, k);
}

} // verus!
