//! Shortcuts to well-known folders below the user's profile.
use crate::text;
use vstd::prelude::*;

verus! {

/// A shortcut: its name and the folder it leads to.
#[derive(Debug, PartialEq, Eq)]
pub struct Shortcut {
    pub name: String,
    pub path: String,
}

/// A shortcut, mathematically.
#[verifier::ext_equal]
pub struct ShortcutView {
    pub name: Seq<char>,
    pub path: Seq<char>,
}

impl View for Shortcut {
    type V = ShortcutView;

    open spec fn view(&self) -> ShortcutView {
        ShortcutView { name: self.name@, path: self.path@ }
    }
}

/// The views of a list of shortcuts.
pub open spec fn shortcuts_view(s: Seq<Shortcut>) -> Seq<ShortcutView> {
    s.map_values(|x: Shortcut| x@)
}

/// A shortcut to a folder below the profile.
pub open spec fn below(profile: Seq<char>, name: Seq<char>, suffix: Seq<char>) -> ShortcutView {
    ShortcutView {
        name,
        path: text::trim_end_of(profile, '\\', '\\') + "\\"@ + suffix,
    }
}

/// All shortcuts, in the order in which they are shown.
pub open spec fn all_shortcuts(profile: Seq<char>) -> Seq<ShortcutView> {
    seq![
        below(profile, "Desktop"@, "Desktop"@),
        below(profile, "Downloads"@, "Downloads"@),
        below(profile, "Documents"@, "Documents"@),
        below(profile, "Work"@, r"Desktop\Work"@),
        below(profile, "Projects"@, r"Desktop\Work\Projects"@),
        below(profile, "Tools"@, r"Desktop\Work\Tools"@),
        below(profile, "MetaGrid"@, r"Desktop\Work\Tools\MetaGrid"@),
        below(profile, "Mic"@, r"Desktop\Mic"@),
    ]
}

fn shortcut(profile: &str, name: &str, suffix: &str) -> (r: Shortcut)
    ensures
        r@ == below(profile@, name@, suffix@),
{
    let chars = text::chars_of(profile);
    let mut path = text::string_of(text::without_trailing(chars.as_slice(), '\\', '\\'));
    path.append("\\");
    path.append(suffix);
    Shortcut { name: text::owned(name), path }
}

/// All shortcuts.
pub fn candidates(profile: &str) -> (r: Vec<Shortcut>)
    ensures
        shortcuts_view(r@) == all_shortcuts(profile@),
{
    let r: Vec<Shortcut> = vec![
        shortcut(profile, "Desktop", "Desktop"),
        shortcut(profile, "Downloads", "Downloads"),
        shortcut(profile, "Documents", "Documents"),
        shortcut(profile, "Work", r"Desktop\Work"),
        shortcut(profile, "Projects", r"Desktop\Work\Projects"),
        shortcut(profile, "Tools", r"Desktop\Work\Tools"),
        shortcut(profile, "MetaGrid", r"Desktop\Work\Tools\MetaGrid"),
        shortcut(profile, "Mic", r"Desktop\Mic"),
    ];
    assert(shortcuts_view(r@) =~= all_shortcuts(profile@));
    r
}

/// The shortcuts at the positions, in order.
pub open spec fn at_positions(all: Seq<ShortcutView>, positions: Seq<int>) -> Seq<ShortcutView> {
    positions.map_values(|i: int| all[i])
}

/// The question whether a folder is there was answered with `b`.
pub open spec fn answered<F: Fn(&str) -> bool>(there: F, path: Seq<char>, b: bool) -> bool {
    exists|x: &str| x@ == path && #[trigger] call_ensures(there, (x,), b)
}

/// The positions go up; of the first `n` shortcuts, exactly those whose folder was found
/// there are among them.
pub open spec fn found<F: Fn(&str) -> bool>(
    there: F,
    all: Seq<ShortcutView>,
    positions: Seq<int>,
    n: int,
) -> bool {
    &&& forall|i: int, j: int|
        0 <= i < j < positions.len() ==> #[trigger] positions[i] < #[trigger] positions[j]
    &&& forall|i: int|
        0 <= i < positions.len() ==> 0 <= #[trigger] positions[i] < n && answered(
            there,
            all[positions[i]].path,
            true,
        )
    &&& forall|k: int|
        0 <= k < n && !positions.contains(k) ==> answered(there, (#[trigger] all[k]).path, false)
}

/// The shortcuts whose folder is there, in the order in which they are shown.
pub fn resolve_shortcuts<F: Fn(&str) -> bool>(profile: &str, there: F) -> (r: Vec<Shortcut>)
    requires
        forall|x: &str| #[trigger] call_requires(there, (x,)),
    ensures
        exists|positions: Seq<int>|
            #[trigger] found(
                there,
                all_shortcuts(profile@),
                positions,
                all_shortcuts(profile@).len() as int,
            ) && shortcuts_view(r@) == at_positions(all_shortcuts(profile@), positions),
{
    let mut rest = candidates(profile);
    let ghost all = all_shortcuts(profile@);
    let mut out: Vec<Shortcut> = Vec::new();
    let ghost mut positions: Seq<int> = Seq::empty();
    let ghost mut k: int = 0;
    assert(shortcuts_view(rest@) =~= all.skip(0));
    assert(shortcuts_view(out@) =~= at_positions(all, positions));
    while rest.len() > 0
        invariant
            forall|x: &str| #[trigger] call_requires(there, (x,)),
            0 <= k <= all.len(),
            shortcuts_view(rest@) == all.skip(k),
            shortcuts_view(out@) == at_positions(all, positions),
            found(there, all, positions, k),
        decreases rest@.len(),
    {
        let ghost before = shortcuts_view(rest@);
        let s = rest.remove(0);
        assert(before[0] == s@);
        assert(before.len() == all.skip(k).len());
        assert(all[k] == all.skip(k)[0]);
        proof {
            assert forall|i: int| 0 <= i < rest@.len() implies (#[trigger] rest@[i])@
                == all.skip(k + 1)[i] by {
                assert(before[i + 1] == all.skip(k)[i + 1]);
            }
            assert(shortcuts_view(rest@) =~= all.skip(k + 1));
        }
        if there(s.path.as_str()) {
            let ghost o = out@;
            let ghost old_positions = positions;
            assert(answered(there, all[k].path, true));
            out.push(s);
            proof {
                positions = positions.push(k);
                assert(shortcuts_view(out@) =~= shortcuts_view(o).push(all[k]));
                assert(at_positions(all, positions) =~= at_positions(all, old_positions).push(
                    all[k],
                ));
                assert forall|j: int| 0 <= j < k + 1 && !positions.contains(j) implies answered(
                    there,
                    (#[trigger] all[j]).path,
                    false,
                ) by {
                    assert(positions[old_positions.len() as int] == k);
                    if old_positions.contains(j) {
                        let q = choose|q: int| 0 <= q < old_positions.len() && old_positions[q] == j;
                        assert(positions[q] == j);
                    }
                }
            }
        } else {
            assert(answered(there, all[k].path, false));
        }
        proof {
            k = k + 1;
        }
    }
    out
}

/// The shortcuts lead to the folders they are named after, all below the profile: its path without
/// backslashes at the end, a backslash, and the way from there.
pub proof fn shortcuts_lead_below_the_profile(profile: Seq<char>, i: int)
    requires
        0 <= i < all_shortcuts(profile).len(),
    ensures
        ({
            let all = all_shortcuts(profile);
            let base = text::trim_end_of(profile, '\\', '\\').push('\\');
            &&& all.len() == 8
            &&& all[i].path.take(base.len() as int) == base
            &&& all[0].name == "Desktop"@ && all[0].path == base + "Desktop"@
            &&& all[1].name == "Downloads"@ && all[1].path == base + "Downloads"@
            &&& all[2].name == "Documents"@ && all[2].path == base + "Documents"@
            &&& all[3].name == "Work"@ && all[3].path == base + r"Desktop\Work"@
            &&& all[4].name == "Projects"@ && all[4].path == base + r"Desktop\Work\Projects"@
            &&& all[5].name == "Tools"@ && all[5].path == base + r"Desktop\Work\Tools"@
            &&& all[6].name == "MetaGrid"@ && all[6].path == base
                + r"Desktop\Work\Tools\MetaGrid"@
            &&& all[7].name == "Mic"@ && all[7].path == base + r"Desktop\Mic"@
        }),
{
    reveal_strlit("\\");
    let base = text::trim_end_of(profile, '\\', '\\').push('\\');
    assert(text::trim_end_of(profile, '\\', '\\') + "\\"@ =~= base);
    assert(all_shortcuts(profile)[i].path.take(base.len() as int) =~= base);
}

} // verus!
