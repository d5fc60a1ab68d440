//! The tray menu: one item per preset, each with an id that leads back to
//! the preset it applies, and the labels the menu shows.
use vstd::prelude::*;

use crate::error::AppError;
use crate::library::{AppStateInner, first_where, lemma_first_where, LibraryState};
use crate::model::{
    opt_view, targets_view, PresetGroup, PresetGroupView, PresetLibrary, PresetLibraryView,
    TraySelection,
};
use crate::text::{decimal, extend_str, lemma_decimal_injective, push_decimal, str_eq, string_of, trim, trim_str};

verus! {

/// The (group, preset) pairs of a library, group by group in order.
pub open spec fn preset_pairs(groups: Seq<PresetGroupView>) -> Seq<(Seq<char>, Seq<char>)>
    decreases groups.len(),
{
    if groups.len() == 0 {
        Seq::empty()
    } else {
        let g = groups.last();
        preset_pairs(groups.drop_last()) + g.presets.map_values(
            |p: crate::model::PresetItemView| (g.name, p.name),
        )
    }
}

/// The id of the tray item for the `k`-th preset of the menu.
pub open spec fn tray_item_id(k: nat) -> Seq<char> {
    "preset."@ + decimal(k)
}

/// The tray targets for a library: the `k`-th preset (counting group by
/// group) gets the id `preset.k`.
pub open spec fn tray_targets(lib: PresetLibraryView) -> Seq<(Seq<char>, (Seq<char>, Seq<char>))> {
    let pairs = preset_pairs(lib.groups);
    Seq::new(pairs.len(), |k: int| (tray_item_id(k as nat), pairs[k]))
}

fn tray_item_id_exec(k: usize) -> (r: String)
    ensures
        r@ == tray_item_id(k as nat),
{
    let mut v: Vec<char> = Vec::new();
    extend_str(&mut v, "preset.");
    push_decimal(&mut v, k as u128);
    string_of(&v)
}

/// One tray target per preset of `snapshot`, with ids `preset.0`,
/// `preset.1`, ... in menu order.
pub fn build_tray_targets(snapshot: &PresetLibrary) -> (r: Vec<(String, TraySelection)>)
    ensures
        targets_view(r@) == tray_targets(snapshot@),
{
    let ghost gv = snapshot@.groups;
    let mut targets: Vec<(String, TraySelection)> = Vec::new();
    let mut index: usize = 0;
    let mut i: usize = 0;
    assert(gv.take(0) =~= Seq::<PresetGroupView>::empty());
    assert(targets_view(targets@) =~= Seq::new(
        preset_pairs(gv.take(0)).len(),
        |k: int| (tray_item_id(k as nat), preset_pairs(gv.take(0))[k]),
    ));
    while i < snapshot.groups.len()
        invariant
            i <= snapshot.groups@.len() == gv.len(),
            gv == snapshot@.groups,
            index == targets@.len(),
            targets_view(targets@) == Seq::new(
                preset_pairs(gv.take(i as int)).len(),
                |k: int| (tray_item_id(k as nat), preset_pairs(gv.take(i as int))[k]),
            ),
        decreases snapshot.groups.len() - i,
    {
        let group = &snapshot.groups[i];
        assert(gv[i as int] == group@);
        assert(gv.take(i + 1).drop_last() =~= gv.take(i as int));
        let ghost base = preset_pairs(gv.take(i as int));
        let ghost row = group@.presets.map_values(
            |p: crate::model::PresetItemView| (group@.name, p.name),
        );
        assert(preset_pairs(gv.take(i + 1)) == base + row);
        assert(targets_view(targets@).len() == targets@.len());
        let mut j: usize = 0;
        assert(row.take(0) =~= Seq::<(Seq<char>, Seq<char>)>::empty());
        assert(base + row.take(0) =~= base);
        while j < group.presets.len()
            invariant
                j <= group.presets@.len(),
                index == targets@.len(),
                index == base.len() + j,
                row == group@.presets.map_values(
                    |p: crate::model::PresetItemView| (group@.name, p.name),
                ),
                targets_view(targets@) == Seq::new(
                    (base + row.take(j as int)).len(),
                    |k: int| (tray_item_id(k as nat), (base + row.take(j as int))[k]),
                ),
            decreases group.presets.len() - j,
        {
            let id = tray_item_id_exec(index);
            let selection = TraySelection {
                group: group.name.clone(),
                preset: group.presets[j].name.clone(),
            };
            let ghost before = targets_view(targets@);
            targets.push((id, selection));
            proof {
                assert(row[j as int] == (group@.name, group.presets@[j as int]@.name));
                assert(targets_view(targets@) =~= before.push((id@, selection@)));
                assert((base + row.take(j + 1)) =~= (base + row.take(j as int)).push(row[j as int]));
                assert(targets_view(targets@) =~= Seq::new(
                    (base + row.take(j + 1)).len(),
                    |k: int| (tray_item_id(k as nat), (base + row.take(j + 1))[k]),
                ));
            }
            index = targets.len();
            j = j + 1;
        }
        assert(row.take(j as int) =~= row);
        i = i + 1;
    }
    assert(gv.take(i as int) =~= gv);
    targets
}

/// The first target among `targets` whose id is `id`, or `targets.len()`.
pub open spec fn target_pos(targets: Seq<(Seq<char>, (Seq<char>, Seq<char>))>, id: Seq<char>) -> nat {
    first_where(targets, has_id(id))
}

/// Whether a target has the id `id`.
pub open spec fn has_id(id: Seq<char>) -> spec_fn((Seq<char>, (Seq<char>, Seq<char>))) -> bool {
    |t: (Seq<char>, (Seq<char>, Seq<char>))| t.0 == id
}

impl AppStateInner {
    /// The preset that the tray item `menu_id` applies.
    pub fn resolve_tray_selection(&self, menu_id: &str) -> (r: Result<TraySelection, AppError>)
        ensures
            match r {
                Ok(sel) => target_pos(self@.tray_targets, menu_id@) < self@.tray_targets.len()
                    && sel@ == self@.tray_targets[target_pos(self@.tray_targets, menu_id@) as int].1,
                Err(e) => target_pos(self@.tray_targets, menu_id@) == self@.tray_targets.len() && (
                e matches AppError::UnknownMenuItem(m) && m@ == menu_id@),
            },
    {
        let targets = self.tray_targets();
        let ghost ts = self@.tray_targets;
        let ghost p = has_id(menu_id@);
        proof {
            lemma_first_where(ts, p);
        }
        let mut i: usize = 0;
        while i < targets.len()
            invariant
                i <= targets@.len() == ts.len(),
                ts == targets_view(targets@),
                ts == self@.tray_targets,
                p == has_id(menu_id@),
                first_where(ts, p) <= ts.len(),
                first_where(ts, p) < ts.len() ==> p(ts[first_where(ts, p) as int]),
                forall|q: int| 0 <= q < first_where(ts, p) ==> !p(#[trigger] ts[q]),
                forall|q: int| 0 <= q < i ==> !p(#[trigger] ts[q]),
            decreases targets.len() - i,
        {
            assert(ts[i as int] == (targets@[i as int].0@, targets@[i as int].1@));
            if str_eq(targets[i].0.as_str(), menu_id) {
                assert(p(ts[i as int]));
                assert(first_where(ts, p) == i);
                assert(target_pos(ts, menu_id@) == first_where(ts, p));
                let sel = targets[i].1.copy();
                assert(sel@ == ts[i as int].1);
                assert(ts == self@.tray_targets);
                assert(target_pos(self@.tray_targets, menu_id@) < self@.tray_targets.len());
                assert(sel@ == self@.tray_targets[target_pos(self@.tray_targets, menu_id@) as int].1);
                return Ok(sel);
            }
            i = i + 1;
        }
        Err(AppError::UnknownMenuItem(menu_id.to_owned()))
    }
}

/// The label of a group's submenu: its emoji (trimmed) and name, or the name
/// alone when it has no emoji or a blank one.
pub open spec fn group_label(g: PresetGroupView) -> Seq<char> {
    match g.emoji {
        Some(e) => if trim(e).len() > 0 {
            trim(e) + " "@ + g.name
        } else {
            g.name
        },
        None => g.name,
    }
}

/// The label of a group's submenu.
pub fn menu_group_label(group: &PresetGroup) -> (r: String)
    ensures
        r@ == group_label(group@),
{
    match &group.emoji {
        Some(e) => {
            let t = trim_str(e.as_str());
            if t.as_str().is_empty() {
                group.name.clone()
            } else {
                let mut v: Vec<char> = Vec::new();
                extend_str(&mut v, t.as_str());
                extend_str(&mut v, " ");
                extend_str(&mut v, group.name.as_str());
                string_of(&v)
            }
        },
        None => group.name.clone(),
    }
}

/// The label naming the active preset: that of the first group that has one.
pub open spec fn active_label(lib: PresetLibraryView) -> Seq<char> {
    let k = first_where(lib.groups, |g: PresetGroupView| g.active_preset is Some);
    if k < lib.groups.len() {
        "Active: "@ + lib.groups[k as int].active_preset->0
    } else {
        "Active: None"@
    }
}

/// The label naming the active preset.
pub fn active_preset_label(snapshot: &PresetLibrary) -> (r: String)
    ensures
        r@ == active_label(snapshot@),
{
    let ghost gv = snapshot@.groups;
    let ghost p = |g: PresetGroupView| g.active_preset is Some;
    proof {
        lemma_first_where(gv, p);
    }
    let mut i: usize = 0;
    while i < snapshot.groups.len()
        invariant
            i <= snapshot.groups@.len() == gv.len(),
            gv == snapshot@.groups,
            p == (|g: PresetGroupView| g.active_preset is Some),
            first_where(gv, p) <= gv.len(),
            first_where(gv, p) < gv.len() ==> p(gv[first_where(gv, p) as int]),
            forall|q: int| 0 <= q < first_where(gv, p) ==> !p(#[trigger] gv[q]),
            forall|q: int| 0 <= q < i ==> !p(#[trigger] gv[q]),
        decreases snapshot.groups.len() - i,
    {
        assert(gv[i as int] == snapshot.groups@[i as int]@);
        if let Some(a) = &snapshot.groups[i].active_preset {
            let mut v: Vec<char> = Vec::new();
            extend_str(&mut v, "Active: ");
            extend_str(&mut v, a.as_str());
            return string_of(&v);
        }
        i = i + 1;
    }
    "Active: None".to_owned()
}


/// Distinct menu positions have distinct item ids.
pub proof fn lemma_tray_item_id_injective(a: nat, b: nat)
    requires
        tray_item_id(a) == tray_item_id(b),
    ensures
        a == b,
{
    let p = "preset."@;
    assert(tray_item_id(a).skip(p.len() as int) =~= decimal(a));
    assert(tray_item_id(b).skip(p.len() as int) =~= decimal(b));
    lemma_decimal_injective(a, b);
}

/// The tray item with id `preset.k` applies the `k`-th preset of the menu:
/// looking its id up among the targets built for a library finds the `k`-th
/// target, and that target selects the `k`-th (group, preset) pair.
pub proof fn lemma_tray_ids_resolve(lib: PresetLibraryView, k: int)
    requires
        0 <= k < preset_pairs(lib.groups).len(),
    ensures
        target_pos(tray_targets(lib), tray_item_id(k as nat)) == k,
        tray_targets(lib)[k].1 == preset_pairs(lib.groups)[k],
{
    let ts = tray_targets(lib);
    let id = tray_item_id(k as nat);
    let p = has_id(id);
    lemma_first_where(ts, p);
    assert(ts[k].0 == id);
    assert(p(ts[k]));
    if first_where(ts, p) < k {
        let j = first_where(ts, p) as int;
        assert(p(ts[j]));
        assert(ts[j].0 == tray_item_id(j as nat));
        lemma_tray_item_id_injective(j as nat, k as nat);
    }
    assert(first_where(ts, p) == k);
    assert(target_pos(ts, id) == first_where(ts, p));
}

/// What a tray menu item does.
#[derive(Debug, Clone, Copy, PartialEq, Eq, Structural)]
pub enum TrayAction {
    /// Show the main window.
    Manage,
    /// Turn starting at login on or off.
    ToggleAutorun,
    /// Show the about dialog.
    About,
    /// Quit.
    Exit,
    /// Bypass the equalizer.
    DisableEq,
    /// Apply the preset of the item (by its id).
    ApplyPreset,
}

/// What the tray item `id` does: one of the fixed items, or applying a
/// preset.
pub open spec fn tray_action_of(id: Seq<char>) -> TrayAction {
    if id == "menu.manage"@ {
        TrayAction::Manage
    } else if id == "menu.autorun"@ {
        TrayAction::ToggleAutorun
    } else if id == "menu.about"@ {
        TrayAction::About
    } else if id == "menu.exit"@ {
        TrayAction::Exit
    } else if id == "menu.disable_eq"@ {
        TrayAction::DisableEq
    } else {
        TrayAction::ApplyPreset
    }
}

/// Decides what the tray item `id` does.
pub fn tray_menu_action(id: &str) -> (r: TrayAction)
    ensures
        r == tray_action_of(id@),
{
    if str_eq(id, "menu.manage") {
        TrayAction::Manage
    } else if str_eq(id, "menu.autorun") {
        TrayAction::ToggleAutorun
    } else if str_eq(id, "menu.about") {
        TrayAction::About
    } else if str_eq(id, "menu.exit") {
        TrayAction::Exit
    } else if str_eq(id, "menu.disable_eq") {
        TrayAction::DisableEq
    } else {
        TrayAction::ApplyPreset
    }
}

/// The position of the first target that selects `(group, preset)`.
pub open spec fn selection_pos(targets: Seq<(Seq<char>, (Seq<char>, Seq<char>))>, group: Seq<char>, preset: Seq<char>) -> nat {
    first_where(targets, |t: (Seq<char>, (Seq<char>, Seq<char>))| t.1 == (group, preset))
}

/// The id of the tray item that applies `preset` of `group`: that of the
/// first target selecting it, or an error naming `group/preset`.
pub fn preset_menu_id(targets: &Vec<(String, TraySelection)>, group: &str, preset: &str) -> (r: Result<
    String,
    AppError,
>)
    ensures
        ({
            let ts = targets_view(targets@);
            let k = selection_pos(ts, group@, preset@);
            &&& k < ts.len() ==> (r matches Ok(id) && id@ == ts[k as int].0)
            &&& k == ts.len() ==> (r matches Err(AppError::UnknownMenuItem(m)) && m@ == group@ + "/"@
                + preset@)
        }),
{
    let ghost ts = targets_view(targets@);
    let ghost p = |t: (Seq<char>, (Seq<char>, Seq<char>))| t.1 == (group@, preset@);
    proof {
        lemma_first_where(ts, p);
    }
    let mut i: usize = 0;
    while i < targets.len()
        invariant
            i <= targets@.len() == ts.len(),
            ts == targets_view(targets@),
            p == (|t: (Seq<char>, (Seq<char>, Seq<char>))| t.1 == (group@, preset@)),
            first_where(ts, p) <= ts.len(),
            first_where(ts, p) < ts.len() ==> p(ts[first_where(ts, p) as int]),
            forall|q: int| 0 <= q < first_where(ts, p) ==> !p(#[trigger] ts[q]),
            forall|q: int| 0 <= q < i ==> !p(#[trigger] ts[q]),
        decreases targets.len() - i,
    {
        assert(ts[i as int] == (targets@[i as int].0@, targets@[i as int].1@));
        if str_eq(targets[i].1.group.as_str(), group) && str_eq(targets[i].1.preset.as_str(), preset) {
            assert(p(ts[i as int]));
            assert(first_where(ts, p) == i);
            return Ok(targets[i].0.clone());
        }
        i = i + 1;
    }
    let mut v: Vec<char> = Vec::new();
    extend_str(&mut v, group);
    extend_str(&mut v, "/");
    extend_str(&mut v, preset);
    Err(AppError::UnknownMenuItem(string_of(&v)))
}

/// The id of the disabled item shown for a group without presets.
pub fn empty_presets_menu_id(group: &str) -> (r: String)
    ensures
        r@ == "menu.empty-presets."@ + group@,
{
    let mut v: Vec<char> = Vec::new();
    extend_str(&mut v, "menu.empty-presets.");
    extend_str(&mut v, group);
    string_of(&v)
}

/// The label of the bypass item, and whether it can be clicked: it cannot
/// while the equalizer is already bypassed.
pub fn disable_eq_item(eq_disabled: bool) -> (r: (&'static str, bool))
    ensures
        eq_disabled ==> r.0@ == "EQ: Bypassed"@ && !r.1,
        !eq_disabled ==> r.0@ == "Bypass EQ"@ && r.1,
{
    if eq_disabled {
        ("EQ: Bypassed", false)
    } else {
        ("Bypass EQ", true)
    }
}

/// Whether a preset's tray item is checked: it is its group's active preset.
pub fn preset_item_checked(group: &PresetGroup, preset_name: &str) -> (r: bool)
    ensures
        r == (group@.active_preset == Some(preset_name@)),
{
    match &group.active_preset {
        Some(a) => str_eq(a.as_str(), preset_name),
        None => false,
    }
}

} // verus!
