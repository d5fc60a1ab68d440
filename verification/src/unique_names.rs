//! No two groups share a name, and no two presets of one group do. Every
//! operation that adds or renames refuses a name that is taken (or makes it
//! unique), so each operation keeps this; the laws below state it for each.
use vstd::prelude::*;

use crate::library::{
    append_missing, applied, cleared, dropped_active, fresh_group, group_names, group_pos,
    has_group, has_preset, import_base, imported, kept_then_new, landing_slot, lemma_first_where,
    lemma_unique_name_is_free, moved, numbered, preset_names, preset_pos, rank_of, ranked_from,
    reordered, renamed_active, saved_groups, settled, synced, synced_group, taken_out, unique_name, with_active,
    with_name, with_presets,
};
use crate::model::{GroupMeta, PresetMeta};

verus! {

/// Whether no two of `gs` share a name.
pub open spec fn distinct_groups(gs: Seq<GroupMeta>) -> bool {
    forall|a: int, b: int| #![trigger gs[a], gs[b]] 0 <= a < b < gs.len() ==> gs[a].name != gs[b].name
}

/// Whether no two of `ps` share a name.
pub open spec fn distinct_presets(ps: Seq<PresetMeta>) -> bool {
    forall|a: int, b: int| #![trigger ps[a], ps[b]] 0 <= a < b < ps.len() ==> ps[a].name != ps[b].name
}

/// Whether the group names are distinct and, within each group, the preset
/// names are.
pub open spec fn names_distinct(gs: Seq<GroupMeta>) -> bool {
    &&& distinct_groups(gs)
    &&& forall|i: int| 0 <= i < gs.len() ==> distinct_presets(#[trigger] gs[i].presets)
}

/// A group name that is not taken is the name of no group.
proof fn lemma_group_absent(gs: Seq<GroupMeta>, name: Seq<char>)
    requires
        !has_group(gs, name),
    ensures
        forall|k: int| 0 <= k < gs.len() ==> (#[trigger] gs[k]).name != name,
{
    lemma_first_where(gs, |g: GroupMeta| g.name == name);
}

/// A preset name that is not taken is the name of no preset.
proof fn lemma_preset_absent(ps: Seq<PresetMeta>, name: Seq<char>)
    requires
        !has_preset(ps, name),
    ensures
        forall|k: int| 0 <= k < ps.len() ==> (#[trigger] ps[k]).name != name,
{
    lemma_first_where(ps, |p: PresetMeta| p.name == name);
}

/// Settling the metadata (orders and the single active preset) keeps every
/// name where it was.
proof fn lemma_settled_distinct(gs: Seq<GroupMeta>)
    requires
        names_distinct(gs),
    ensures
        names_distinct(settled(gs)),
{
    let r = settled(gs);
    assert forall|i: int| 0 <= i < r.len() implies r[i].name == gs[i].name && r[i].presets.len()
        == gs[i].presets.len() && forall|j: int|
        0 <= j < r[i].presets.len() ==> (#[trigger] r[i].presets[j]).name == gs[i].presets[j].name by {
    }
    assert forall|a: int, b: int| 0 <= a < b < r.len() implies r[a].name != r[b].name by {
        assert(gs[a].name != gs[b].name);
    }
    assert forall|i: int| 0 <= i < r.len() implies distinct_presets(#[trigger] r[i].presets) by {
        let ps = r[i].presets;
        assert(distinct_presets(gs[i].presets));
        assert forall|a: int, b: int| 0 <= a < b < ps.len() implies ps[a].name != ps[b].name by {
            assert(gs[i].presets[a].name != gs[i].presets[b].name);
        }
    }
}

/// Replacing group `i` by `g` keeps the names distinct when `g`'s presets
/// are distinct and no other group has `g`'s name.
proof fn lemma_update_distinct(gs: Seq<GroupMeta>, i: int, g: GroupMeta)
    requires
        names_distinct(gs),
        0 <= i < gs.len(),
        distinct_presets(g.presets),
        forall|k: int| 0 <= k < gs.len() && k != i ==> (#[trigger] gs[k]).name != g.name,
    ensures
        names_distinct(gs.update(i, g)),
{
    let r = gs.update(i, g);
    assert forall|a: int, b: int| 0 <= a < b < r.len() implies r[a].name != r[b].name by {
        if a != i && b != i {
            assert(gs[a].name != gs[b].name);
        } else if a == i {
            assert(gs[b].name != g.name);
        } else {
            assert(gs[a].name != g.name);
        }
    }
    assert forall|k: int| 0 <= k < r.len() implies distinct_presets(#[trigger] r[k].presets) by {
        if k != i {
            assert(r[k] == gs[k]);
        }
    }
}

/// Adding a preset whose name is not taken keeps the preset names distinct.
proof fn lemma_push_distinct(ps: Seq<PresetMeta>, p: PresetMeta)
    requires
        distinct_presets(ps),
        !has_preset(ps, p.name),
    ensures
        distinct_presets(ps.push(p)),
{
    lemma_preset_absent(ps, p.name);
    let r = ps.push(p);
    assert forall|a: int, b: int| 0 <= a < b < r.len() implies r[a].name != r[b].name by {
        if b < ps.len() {
            assert(ps[a].name != ps[b].name);
        } else {
            assert(ps[a].name != p.name);
        }
    }
}

/// Removing a preset keeps the preset names distinct.
proof fn lemma_remove_distinct(ps: Seq<PresetMeta>, j: int)
    requires
        distinct_presets(ps),
        0 <= j < ps.len(),
    ensures
        distinct_presets(ps.remove(j)),
{
    let r = ps.remove(j);
    assert forall|a: int, b: int| 0 <= a < b < r.len() implies r[a].name != r[b].name by {
        let a0 = if a < j { a } else { a + 1 };
        let b0 = if b < j { b } else { b + 1 };
        assert(r[a] == ps[a0]);
        assert(r[b] == ps[b0]);
        assert(ps[a0].name != ps[b0].name);
    }
}

/// Creating a group keeps the names distinct: the new group's name is
/// not taken and it has no presets.
pub proof fn lemma_create_group_keeps_names(gs: Seq<GroupMeta>, name: Seq<char>)
    requires
        names_distinct(gs),
        !has_group(gs, name),
    ensures
        names_distinct(settled(gs.push(fresh_group(name, gs.len())))),
{
    lemma_group_absent(gs, name);
    let r = gs.push(fresh_group(name, gs.len()));
    assert forall|a: int, b: int| 0 <= a < b < r.len() implies r[a].name != r[b].name by {
        if b < gs.len() {
            assert(gs[a].name != gs[b].name);
        } else {
            assert(gs[a].name != name);
        }
    }
    assert forall|k: int| 0 <= k < r.len() implies distinct_presets(#[trigger] r[k].presets) by {
        if k < gs.len() {
            assert(r[k] == gs[k]);
        }
    }
    lemma_settled_distinct(r);
}

/// Renaming a group to a name that is not taken keeps the names distinct.
pub proof fn lemma_rename_group_keeps_names(gs: Seq<GroupMeta>, old_name: Seq<char>, new_name: Seq<char>)
    requires
        names_distinct(gs),
        has_group(gs, old_name),
        !has_group(gs, new_name),
    ensures
        names_distinct(
            settled(
                gs.update(
                    group_pos(gs, old_name) as int,
                    with_name(gs[group_pos(gs, old_name) as int], new_name),
                ),
            ),
        ),
{
    let i = group_pos(gs, old_name) as int;
    lemma_group_absent(gs, new_name);
    lemma_update_distinct(gs, i, with_name(gs[i], new_name));
    lemma_settled_distinct(gs.update(i, with_name(gs[i], new_name)));
}

/// Changing a group's emoji, active preset or order (anything but its name
/// and presets) keeps the names distinct.
pub proof fn lemma_group_edit_keeps_names(gs: Seq<GroupMeta>, i: int, g: GroupMeta)
    requires
        names_distinct(gs),
        0 <= i < gs.len(),
        g.name == gs[i].name,
        g.presets == gs[i].presets,
    ensures
        names_distinct(settled(gs.update(i, g))),
{
    assert forall|k: int| 0 <= k < gs.len() && k != i implies (#[trigger] gs[k]).name != g.name by {
        if k < i {
            assert(gs[k].name != gs[i].name);
        } else {
            assert(gs[i].name != gs[k].name);
        }
    }
    lemma_update_distinct(gs, i, g);
    lemma_settled_distinct(gs.update(i, g));
}

/// Deleting a group keeps the names distinct.
pub proof fn lemma_delete_group_keeps_names(gs: Seq<GroupMeta>, name: Seq<char>)
    requires
        names_distinct(gs),
        has_group(gs, name),
    ensures
        names_distinct(settled(gs.remove(group_pos(gs, name) as int))),
{
    lemma_first_where(gs, |g: GroupMeta| g.name == name);
    let i = group_pos(gs, name) as int;
    let r = gs.remove(i);
    assert forall|a: int, b: int| 0 <= a < b < r.len() implies r[a].name != r[b].name by {
        let a0 = if a < i { a } else { a + 1 };
        let b0 = if b < i { b } else { b + 1 };
        assert(r[a] == gs[a0]);
        assert(r[b] == gs[b0]);
        assert(gs[a0].name != gs[b0].name);
    }
    assert forall|k: int| 0 <= k < r.len() implies distinct_presets(#[trigger] r[k].presets) by {
        let k0 = if k < i { k } else { k + 1 };
        assert(r[k] == gs[k0]);
    }
    lemma_settled_distinct(r);
}

/// Adding a preset whose name is not taken in its group keeps the names
/// distinct.
pub proof fn lemma_create_preset_keeps_names(gs: Seq<GroupMeta>, group: Seq<char>, name: Seq<char>)
    requires
        names_distinct(gs),
        has_group(gs, group),
        !has_preset(gs[group_pos(gs, group) as int].presets, name),
    ensures
        ({
            let i = group_pos(gs, group) as int;
            names_distinct(
                settled(
                    gs.update(
                        i,
                        with_presets(
                            gs[i],
                            gs[i].presets.push(PresetMeta { name, order: gs[i].presets.len() }),
                        ),
                    ),
                ),
            )
        }),
{
    lemma_first_where(gs, |g: GroupMeta| g.name == group);
    let i = group_pos(gs, group) as int;
    let ps = gs[i].presets.push(PresetMeta { name, order: gs[i].presets.len() });
    lemma_push_distinct(gs[i].presets, PresetMeta { name, order: gs[i].presets.len() });
    lemma_group_edit_keeps_names_presets(gs, i, ps);
}

/// Replacing the presets of group `i` by a list with distinct names keeps
/// the names distinct.
proof fn lemma_group_edit_keeps_names_presets(gs: Seq<GroupMeta>, i: int, ps: Seq<PresetMeta>)
    requires
        names_distinct(gs),
        0 <= i < gs.len(),
        distinct_presets(ps),
    ensures
        names_distinct(settled(gs.update(i, with_presets(gs[i], ps)))),
{
    let g = with_presets(gs[i], ps);
    assert forall|k: int| 0 <= k < gs.len() && k != i implies (#[trigger] gs[k]).name != g.name by {
        if k < i {
            assert(gs[k].name != gs[i].name);
        } else {
            assert(gs[i].name != gs[k].name);
        }
    }
    lemma_update_distinct(gs, i, g);
    lemma_settled_distinct(gs.update(i, g));
}


/// Groups with the same names and presets as distinct ones are distinct.
proof fn lemma_same_names_distinct(gs: Seq<GroupMeta>, r: Seq<GroupMeta>)
    requires
        names_distinct(gs),
        r.len() == gs.len(),
        forall|i: int| 0 <= i < r.len() ==> (#[trigger] r[i]).name == gs[i].name && r[i].presets == gs[i].presets,
    ensures
        names_distinct(r),
{
    assert forall|a: int, b: int| 0 <= a < b < r.len() implies r[a].name != r[b].name by {
        assert(gs[a].name != gs[b].name);
    }
    assert forall|i: int| 0 <= i < r.len() implies distinct_presets(#[trigger] r[i].presets) by {
        assert(r[i].presets == gs[i].presets);
    }
}

/// Applying a preset keeps the names distinct.
pub proof fn lemma_apply_keeps_names(gs: Seq<GroupMeta>, i: int, preset: Seq<char>)
    requires
        names_distinct(gs),
        0 <= i < gs.len(),
    ensures
        names_distinct(settled(applied(gs, i, preset))),
{
    let r = applied(gs, i, preset);
    assert forall|k: int| 0 <= k < r.len() implies (#[trigger] r[k]).name == gs[k].name
        && r[k].presets == gs[k].presets by {
        if k != i {
            assert(r[k] == with_active(gs[k], None));
        }
    }
    lemma_same_names_distinct(gs, r);
    lemma_settled_distinct(r);
}

/// Bypassing the equalizer keeps the names distinct.
pub proof fn lemma_disable_keeps_names(gs: Seq<GroupMeta>)
    requires
        names_distinct(gs),
    ensures
        names_distinct(settled(cleared(gs))),
{
    let r = cleared(gs);
    assert forall|k: int| 0 <= k < r.len() implies (#[trigger] r[k]).name == gs[k].name
        && r[k].presets == gs[k].presets by {
        assert(r[k] == with_active(gs[k], None));
    }
    lemma_same_names_distinct(gs, r);
    lemma_settled_distinct(r);
}

/// Renaming a preset to a name its group does not hold keeps the names
/// distinct.
pub proof fn lemma_rename_preset_keeps_names(
    gs: Seq<GroupMeta>,
    group: Seq<char>,
    old_name: Seq<char>,
    new_name: Seq<char>,
)
    requires
        names_distinct(gs),
        has_group(gs, group),
        has_preset(gs[group_pos(gs, group) as int].presets, old_name),
        !has_preset(gs[group_pos(gs, group) as int].presets, new_name),
    ensures
        ({
            let i = group_pos(gs, group) as int;
            let g = gs[i];
            let j = preset_pos(g.presets, old_name) as int;
            names_distinct(
                settled(
                    gs.update(
                        i,
                        GroupMeta {
                            active_preset: renamed_active(g.active_preset, old_name, new_name),
                            presets: g.presets.update(
                                j,
                                PresetMeta { name: new_name, order: g.presets[j].order },
                            ),
                            ..g
                        },
                    ),
                ),
            )
        }),
{
    lemma_first_where(gs, |g: GroupMeta| g.name == group);
    let i = group_pos(gs, group) as int;
    let g = gs[i];
    lemma_first_where(g.presets, |p: PresetMeta| p.name == old_name);
    lemma_preset_absent(g.presets, new_name);
    let j = preset_pos(g.presets, old_name) as int;
    let ps = g.presets.update(j, PresetMeta { name: new_name, order: g.presets[j].order });
    assert(distinct_presets(g.presets));
    assert forall|a: int, b: int| 0 <= a < b < ps.len() implies ps[a].name != ps[b].name by {
        if a != j && b != j {
            assert(g.presets[a].name != g.presets[b].name);
        } else if a == j {
            assert(g.presets[b].name != new_name);
        } else {
            assert(g.presets[a].name != new_name);
        }
    }
    let ng = GroupMeta {
        active_preset: renamed_active(g.active_preset, old_name, new_name),
        presets: ps,
        ..g
    };
    assert forall|k: int| 0 <= k < gs.len() && k != i implies (#[trigger] gs[k]).name != ng.name by {
        if k < i {
            assert(gs[k].name != gs[i].name);
        } else {
            assert(gs[i].name != gs[k].name);
        }
    }
    lemma_update_distinct(gs, i, ng);
    lemma_settled_distinct(gs.update(i, ng));
}

/// Deleting a preset keeps the names distinct.
pub proof fn lemma_delete_preset_keeps_names(gs: Seq<GroupMeta>, group: Seq<char>, name: Seq<char>)
    requires
        names_distinct(gs),
        has_group(gs, group),
        has_preset(gs[group_pos(gs, group) as int].presets, name),
    ensures
        ({
            let i = group_pos(gs, group) as int;
            let g = gs[i];
            names_distinct(
                settled(
                    gs.update(
                        i,
                        GroupMeta {
                            active_preset: dropped_active(g.active_preset, name),
                            presets: g.presets.remove(preset_pos(g.presets, name) as int),
                            ..g
                        },
                    ),
                ),
            )
        }),
{
    lemma_first_where(gs, |g: GroupMeta| g.name == group);
    let i = group_pos(gs, group) as int;
    let g = gs[i];
    lemma_first_where(g.presets, |p: PresetMeta| p.name == name);
    let ps = g.presets.remove(preset_pos(g.presets, name) as int);
    lemma_remove_distinct(g.presets, preset_pos(g.presets, name) as int);
    let ng = GroupMeta { active_preset: dropped_active(g.active_preset, name), presets: ps, ..g };
    assert forall|k: int| 0 <= k < gs.len() && k != i implies (#[trigger] gs[k]).name != ng.name by {
        if k < i {
            assert(gs[k].name != gs[i].name);
        } else {
            assert(gs[i].name != gs[k].name);
        }
    }
    lemma_update_distinct(gs, i, ng);
    lemma_settled_distinct(gs.update(i, ng));
}

/// Importing files one after another, each under a name made unique in
/// the group, keeps the preset names distinct.
proof fn lemma_imported_distinct(ps: Seq<PresetMeta>, stems: Seq<Option<Seq<char>>>)
    requires
        distinct_presets(ps),
    ensures
        distinct_presets(imported(ps, stems)),
    decreases stems.len(),
{
    if stems.len() > 0 {
        let name = unique_name(ps, import_base(stems[0]));
        lemma_unique_name_is_free(ps, import_base(stems[0]));
        lemma_push_distinct(ps, PresetMeta { name, order: ps.len() });
        lemma_imported_distinct(ps.push(PresetMeta { name, order: ps.len() }), stems.drop_first());
    }
}

/// Importing preset files into a group keeps the names distinct.
pub proof fn lemma_import_keeps_names(gs: Seq<GroupMeta>, group: Seq<char>, stems: Seq<Option<Seq<char>>>)
    requires
        names_distinct(gs),
        has_group(gs, group),
    ensures
        ({
            let i = group_pos(gs, group) as int;
            names_distinct(
                settled(gs.update(i, with_presets(gs[i], imported(gs[i].presets, stems)))),
            )
        }),
{
    lemma_first_where(gs, |g: GroupMeta| g.name == group);
    let i = group_pos(gs, group) as int;
    lemma_imported_distinct(gs[i].presets, stems);
    lemma_group_edit_keeps_names_presets(gs, i, imported(gs[i].presets, stems));
}


/// Inserting a preset whose name no preset holds keeps the names distinct.
proof fn lemma_insert_distinct(ps: Seq<PresetMeta>, slot: int, p: PresetMeta)
    requires
        distinct_presets(ps),
        0 <= slot <= ps.len(),
        forall|k: int| 0 <= k < ps.len() ==> (#[trigger] ps[k]).name != p.name,
    ensures
        distinct_presets(ps.insert(slot, p)),
{
    let r = ps.insert(slot, p);
    assert forall|a: int, b: int| 0 <= a < b < r.len() implies r[a].name != r[b].name by {
        if a == slot {
            assert(r[b] == ps[b - 1]);
        } else if b == slot {
            assert(r[a] == ps[a]);
        } else {
            let a0 = if a < slot { a } else { a - 1 };
            let b0 = if b < slot { b } else { b - 1 };
            assert(r[a] == ps[a0]);
            assert(r[b] == ps[b0]);
            assert(ps[a0].name != ps[b0].name);
        }
    }
}

/// Taking a preset out of its group keeps the names distinct.
pub proof fn lemma_take_out_keeps_names(gs: Seq<GroupMeta>, oi: int, pi: int)
    requires
        names_distinct(gs),
        0 <= oi < gs.len(),
        0 <= pi < gs[oi].presets.len(),
    ensures
        names_distinct(taken_out(gs, oi, pi)),
        names_distinct(settled(taken_out(gs, oi, pi))),
{
    lemma_remove_distinct(gs[oi].presets, pi);
    let g = with_presets(gs[oi], gs[oi].presets.remove(pi));
    assert forall|k: int| 0 <= k < gs.len() && k != oi implies (#[trigger] gs[k]).name != g.name by {
        if k < oi {
            assert(gs[k].name != gs[oi].name);
        } else {
            assert(gs[oi].name != gs[k].name);
        }
    }
    lemma_update_distinct(gs, oi, g);
    lemma_settled_distinct(taken_out(gs, oi, pi));
}

/// Moving a preset keeps the names distinct, provided that across groups
/// the new group does not list a preset of that name (the caller checks the
/// new group's folder, which holds a file for each preset it lists).
pub proof fn lemma_move_keeps_names(
    gs: Seq<GroupMeta>,
    old_group: Seq<char>,
    new_group: Seq<char>,
    preset: Seq<char>,
    target_index: Option<usize>,
)
    requires
        names_distinct(gs),
        has_group(gs, old_group),
        has_group(gs, new_group),
        has_preset(gs[group_pos(gs, old_group) as int].presets, preset),
        old_group != new_group ==> !has_preset(gs[group_pos(gs, new_group) as int].presets, preset),
    ensures
        ({
            let oi = group_pos(gs, old_group) as int;
            let ni = group_pos(gs, new_group) as int;
            let pi = preset_pos(gs[oi].presets, preset) as int;
            names_distinct(
                settled(moved(gs, oi, ni, pi, preset, old_group != new_group, target_index)),
            )
        }),
{
    lemma_first_where(gs, |g: GroupMeta| g.name == old_group);
    lemma_first_where(gs, |g: GroupMeta| g.name == new_group);
    let oi = group_pos(gs, old_group) as int;
    let ni = group_pos(gs, new_group) as int;
    let crosses = old_group != new_group;
    lemma_first_where(gs[oi].presets, |p: PresetMeta| p.name == preset);
    let pi = preset_pos(gs[oi].presets, preset) as int;
    let entry = gs[oi].presets[pi];
    let was_active = gs[oi].active_preset == Some(preset);
    lemma_take_out_keeps_names(gs, oi, pi);
    let t = taken_out(gs, oi, pi);
    let step = crate::library::activity_moved(t, oi, ni, preset, crosses, was_active);
    assert forall|k: int| 0 <= k < step.len() implies (#[trigger] step[k]).name == t[k].name
        && step[k].presets == t[k].presets by {
    }
    lemma_same_names_distinct(t, step);
    let slot = landing_slot(target_index, step[ni].presets.len(), crosses, pi);
    assert(0 <= slot <= step[ni].presets.len());
    if crosses {
        assert(oi != ni);
        assert(step[ni].presets == gs[ni].presets);
        lemma_preset_absent(gs[ni].presets, preset);
    } else {
        assert(oi == ni);
        assert(step[ni].presets == gs[oi].presets.remove(pi));
        assert(distinct_presets(gs[oi].presets));
        assert forall|k: int| 0 <= k < step[ni].presets.len() implies (#[trigger] step[ni].presets[k]).name
            != preset by {
            let k0 = if k < pi { k } else { k + 1 };
            assert(step[ni].presets[k] == gs[oi].presets[k0]);
            if k0 < pi {
                assert(gs[oi].presets[k0].name != gs[oi].presets[pi].name);
            } else {
                assert(gs[oi].presets[pi].name != gs[oi].presets[k0].name);
            }
        }
    }
    lemma_insert_distinct(step[ni].presets, slot, entry);
    let g = with_presets(step[ni], step[ni].presets.insert(slot, entry));
    assert forall|k: int| 0 <= k < step.len() && k != ni implies (#[trigger] step[k]).name != g.name by {
        if k < ni {
            assert(step[k].name != step[ni].name);
        } else {
            assert(step[ni].name != step[k].name);
        }
    }
    lemma_update_distinct(step, ni, g);
    lemma_settled_distinct(step.update(ni, g));
}


/// Keeping some groups, in order, keeps their names distinct; each kept
/// group is one of the groups and satisfies `p`.
proof fn lemma_filter_groups(s: Seq<GroupMeta>, p: spec_fn(GroupMeta) -> bool)
    requires
        distinct_groups(s),
    ensures
        distinct_groups(s.filter(p)),
        forall|k: int| 0 <= k < s.filter(p).len() ==> s.contains(#[trigger] s.filter(p)[k]) && p(
            s.filter(p)[k],
        ),
    decreases s.len(),
{
    reveal(Seq::filter);
    if s.len() > 0 {
        let init = s.drop_last();
        assert forall|a: int, b: int| 0 <= a < b < init.len() implies init[a].name != init[b].name by {
            assert(s[a].name != s[b].name);
        }
        lemma_filter_groups(init, p);
        let fi = init.filter(p);
        assert forall|k: int| 0 <= k < fi.len() implies s.contains(#[trigger] fi[k]) by {
            let m = choose|m: int| 0 <= m < init.len() && init[m] == fi[k];
            assert(s[m] == fi[k]);
        }
        if p(s.last()) {
            let r = fi.push(s.last());
            assert(s.filter(p) == r);
            assert forall|a: int, b: int| 0 <= a < b < r.len() implies r[a].name != r[b].name by {
                if b < fi.len() {
                    assert(fi[a].name != fi[b].name);
                } else {
                    let m = choose|m: int| 0 <= m < init.len() && init[m] == fi[a];
                    assert(s[m].name != s[s.len() - 1].name);
                }
            }
            assert forall|k: int| 0 <= k < r.len() implies s.contains(#[trigger] r[k]) && p(r[k]) by {
                if k == fi.len() {
                    assert(s[s.len() - 1] == r[k]);
                }
            }
        }
    }
}

/// The groups ranked `k` or later by `ordered` have distinct names, each of
/// them one of the groups, with a rank of `k` or later.
proof fn lemma_ranked_distinct(gs: Seq<GroupMeta>, ordered: Seq<Seq<char>>, k: nat)
    requires
        distinct_groups(gs),
        k <= ordered.len(),
    ensures
        distinct_groups(ranked_from(gs, ordered, k)),
        forall|x: int|
            0 <= x < ranked_from(gs, ordered, k).len() ==> gs.contains(
                #[trigger] ranked_from(gs, ordered, k)[x],
            ) && rank_of(ordered, ranked_from(gs, ordered, k)[x].name) >= k,
    decreases ordered.len() - k,
{
    if k >= ordered.len() {
        lemma_filter_groups(gs, |g: GroupMeta| rank_of(ordered, g.name) >= ordered.len());
    } else {
        let head = gs.filter(|g: GroupMeta| rank_of(ordered, g.name) == k as int);
        lemma_filter_groups(gs, |g: GroupMeta| rank_of(ordered, g.name) == k as int);
        lemma_ranked_distinct(gs, ordered, k + 1);
        let tail = ranked_from(gs, ordered, k + 1);
        let r = ranked_from(gs, ordered, k);
        assert(r == head + tail);
        assert forall|a: int, b: int| 0 <= a < b < r.len() implies r[a].name != r[b].name by {
            if b < head.len() {
                assert(head[a].name != head[b].name);
            } else if a >= head.len() {
                assert(tail[a - head.len()].name != tail[b - head.len()].name);
            } else {
                assert(r[a] == head[a]);
                assert(r[b] == tail[b - head.len()]);
                assert(rank_of(ordered, head[a].name) == k);
                assert(rank_of(ordered, tail[b - head.len()].name) >= k + 1);
            }
        }
        assert forall|x: int| 0 <= x < r.len() implies gs.contains(#[trigger] r[x]) && rank_of(
            ordered,
            r[x].name,
        ) >= k by {
            if x < head.len() {
                assert(r[x] == head[x]);
            } else {
                assert(r[x] == tail[x - head.len()]);
            }
        }
    }
}

/// Reordering the groups keeps the names distinct.
pub proof fn lemma_reorder_keeps_names(gs: Seq<GroupMeta>, ordered: Seq<Seq<char>>)
    requires
        names_distinct(gs),
    ensures
        names_distinct(settled(reordered(gs, ordered))),
{
    lemma_ranked_distinct(gs, ordered, 0);
    let r = reordered(gs, ordered);
    assert forall|i: int| 0 <= i < r.len() implies distinct_presets(#[trigger] r[i].presets) by {
        assert(gs.contains(r[i]));
        let m = choose|m: int| 0 <= m < gs.len() && gs[m] == r[i];
        assert(distinct_presets(gs[m].presets));
    }
    lemma_settled_distinct(r);
}


/// Keeping some names, in order, keeps them distinct; each kept name is
/// one of them.
proof fn lemma_filter_no_dup(s: Seq<Seq<char>>, p: spec_fn(Seq<char>) -> bool)
    requires
        s.no_duplicates(),
    ensures
        s.filter(p).no_duplicates(),
        forall|k: int| 0 <= k < s.filter(p).len() ==> s.contains(#[trigger] s.filter(p)[k]),
    decreases s.len(),
{
    reveal(Seq::filter);
    if s.len() > 0 {
        let init = s.drop_last();
        lemma_filter_no_dup(init, p);
        let fi = init.filter(p);
        assert forall|k: int| 0 <= k < fi.len() implies s.contains(#[trigger] fi[k]) by {
            let m = choose|m: int| 0 <= m < init.len() && init[m] == fi[k];
            assert(s[m] == fi[k]);
        }
        if p(s.last()) {
            let r = fi.push(s.last());
            assert(s.filter(p) == r);
            assert forall|a: int, b: int| 0 <= a < r.len() && 0 <= b < r.len() && a != b implies r[a]
                != r[b] by {
                if a < fi.len() && b < fi.len() {
                } else if a < fi.len() {
                    let m = choose|m: int| 0 <= m < init.len() && init[m] == fi[a];
                    assert(s[m] != s[s.len() - 1]);
                } else {
                    let m = choose|m: int| 0 <= m < init.len() && init[m] == fi[b];
                    assert(s[m] != s[s.len() - 1]);
                }
            }
            assert forall|k: int| 0 <= k < r.len() implies s.contains(#[trigger] r[k]) by {
                if k == fi.len() {
                    assert(s[s.len() - 1] == r[k]);
                }
            }
        }
    }
}

/// Appending the names not held yet keeps the names distinct.
proof fn lemma_append_missing_no_dup(acc: Seq<Seq<char>>, xs: Seq<Seq<char>>)
    requires
        acc.no_duplicates(),
    ensures
        append_missing(acc, xs).no_duplicates(),
    decreases xs.len(),
{
    if xs.len() > 0 {
        if !acc.contains(xs[0]) {
            let r = acc.push(xs[0]);
            assert forall|a: int, b: int| 0 <= a < r.len() && 0 <= b < r.len() && a != b implies r[a]
                != r[b] by {
                if a == acc.len() {
                    assert(r[b] == acc[b]);
                } else if b == acc.len() {
                    assert(r[a] == acc[a]);
                }
            }
            lemma_append_missing_no_dup(r, xs.drop_first());
        } else {
            lemma_append_missing_no_dup(acc, xs.drop_first());
        }
    }
}

/// The known names still found, then the new ones, are distinct when the
/// known ones are.
proof fn lemma_kept_then_new_no_dup(known: Seq<Seq<char>>, found: Seq<Seq<char>>)
    requires
        known.no_duplicates(),
    ensures
        kept_then_new(known, found).no_duplicates(),
{
    lemma_filter_no_dup(known, |n: Seq<char>| found.contains(n));
    lemma_append_missing_no_dup(known.filter(|n: Seq<char>| found.contains(n)), found);
}

/// Rebuilding the metadata from the folders on disk keeps the names
/// distinct.
pub proof fn lemma_sync_keeps_names(gs: Seq<GroupMeta>, disk: Seq<(Seq<char>, Seq<Seq<char>>)>)
    requires
        names_distinct(gs),
    ensures
        names_distinct(settled(synced(gs, disk))),
{
    let gn = group_names(gs);
    assert forall|a: int, b: int| 0 <= a < gn.len() && 0 <= b < gn.len() && a != b implies gn[a]
        != gn[b] by {
        if a < b {
            assert(gs[a].name != gs[b].name);
        } else {
            assert(gs[b].name != gs[a].name);
        }
    }
    let found_groups = disk.map_values(|d: (Seq<char>, Seq<Seq<char>>)| d.0);
    lemma_kept_then_new_no_dup(gn, found_groups);
    let names = kept_then_new(gn, found_groups);
    let r = synced(gs, disk);
    assert forall|a: int, b: int| 0 <= a < b < r.len() implies r[a].name != r[b].name by {
        assert(r[a] == synced_group(gs, disk, names[a], a));
        assert(r[b] == synced_group(gs, disk, names[b], b));
    }
    assert forall|k: int| 0 <= k < r.len() implies distinct_presets(#[trigger] r[k].presets) by {
        assert(r[k] == synced_group(gs, disk, names[k], k));
        lemma_synced_group_distinct(gs, disk, names[k], k);
    }
    lemma_settled_distinct(r);
}


/// A group rebuilt from the metadata and the disk has distinct preset
/// names.
proof fn lemma_synced_group_distinct(
    gs: Seq<GroupMeta>,
    disk: Seq<(Seq<char>, Seq<Seq<char>>)>,
    name: Seq<char>,
    k: int,
)
    requires
        names_distinct(gs),
    ensures
        distinct_presets(synced_group(gs, disk, name, k).presets),
{
    let gi = group_pos(gs, name);
    let known = if gi < gs.len() {
        preset_names(gs[gi as int].presets)
    } else {
        Seq::<Seq<char>>::empty()
    };
    if gi < gs.len() {
        let ps = gs[gi as int].presets;
        assert(distinct_presets(ps));
        assert forall|a: int, b: int| 0 <= a < known.len() && 0 <= b < known.len() && a != b implies known[a]
            != known[b] by {
            if a < b {
                assert(ps[a].name != ps[b].name);
            } else {
                assert(ps[b].name != ps[a].name);
            }
        }
    }
    let found = crate::library::disk_presets(disk, name);
    let kn = kept_then_new(known, found);
    lemma_kept_then_new_no_dup(known, found);
    let ps = synced_group(gs, disk, name, k).presets;
    assert(ps =~= numbered(kn));
    assert forall|a: int, b: int| 0 <= a < b < ps.len() implies ps[a].name != ps[b].name by {
        assert(ps[a].name == kn[a]);
        assert(ps[b].name == kn[b]);
        assert(kn[a] != kn[b]);
    }
}


/// Recording a saved preset file keeps the names distinct: the preset is
/// added only when its group does not list it yet.
pub proof fn lemma_save_preset_keeps_names(gs: Seq<GroupMeta>, group: Seq<char>, name: Seq<char>)
    requires
        names_distinct(gs),
        has_group(gs, group),
    ensures
        names_distinct(saved_groups(gs, group, name)),
{
    let i = group_pos(gs, group) as int;
    if has_preset(gs[i].presets, name) {
        lemma_settled_distinct(gs);
    } else {
        lemma_create_preset_keeps_names(gs, group, name);
    }
}


/// The groups ranked `k` or later come rank by rank.
proof fn lemma_ranked_sorted(gs: Seq<GroupMeta>, ordered: Seq<Seq<char>>, k: nat)
    requires
        k <= ordered.len(),
    ensures
        forall|a: int, b: int|
            #![trigger ranked_from(gs, ordered, k)[a], ranked_from(gs, ordered, k)[b]]
            0 <= a < b < ranked_from(gs, ordered, k).len() ==> rank_of(
                ordered,
                ranked_from(gs, ordered, k)[a].name,
            ) <= rank_of(ordered, ranked_from(gs, ordered, k)[b].name),
        forall|x: int|
            0 <= x < ranked_from(gs, ordered, k).len() ==> rank_of(
                ordered,
                (#[trigger] ranked_from(gs, ordered, k)[x]).name,
            ) >= k,
    decreases ordered.len() - k,
{
    reveal(Seq::filter);
    if k >= ordered.len() {
        let r = gs.filter(|g: GroupMeta| rank_of(ordered, g.name) >= ordered.len());
        assert forall|x: int| 0 <= x < r.len() implies rank_of(ordered, (#[trigger] r[x]).name)
            == ordered.len() by {
            gs.lemma_filter_pred(|g: GroupMeta| rank_of(ordered, g.name) >= ordered.len(), x);
            crate::library::lemma_rank_of(ordered, r[x].name);
        }
    } else {
        let head = gs.filter(|g: GroupMeta| rank_of(ordered, g.name) == k as int);
        lemma_ranked_sorted(gs, ordered, k + 1);
        let tail = ranked_from(gs, ordered, k + 1);
        let r = ranked_from(gs, ordered, k);
        assert(r == head + tail);
        assert forall|x: int| 0 <= x < head.len() implies rank_of(ordered, (#[trigger] head[x]).name)
            == k by {
            gs.lemma_filter_pred(|g: GroupMeta| rank_of(ordered, g.name) == k as int, x);
        }
        assert forall|a: int, b: int| 0 <= a < b < r.len() implies rank_of(ordered, r[a].name)
            <= rank_of(ordered, r[b].name) by {
            if b < head.len() {
                assert(r[a] == head[a] && r[b] == head[b]);
            } else if a >= head.len() {
                assert(r[a] == tail[a - head.len()] && r[b] == tail[b - head.len()]);
            } else {
                assert(r[a] == head[a] && r[b] == tail[b - head.len()]);
            }
        }
        assert forall|x: int| 0 <= x < r.len() implies rank_of(ordered, (#[trigger] r[x]).name)
            >= k by {
            if x < head.len() {
                assert(r[x] == head[x]);
            } else {
                assert(r[x] == tail[x - head.len()]);
            }
        }
    }
}

/// Reordering puts the groups in the order the given names list them: a
/// group comes before another only when its name comes first in the list
/// (groups it does not name come last), and with distinct names the
/// groups it names come strictly in its order.
pub proof fn lemma_reorder_follows_order(gs: Seq<GroupMeta>, ordered: Seq<Seq<char>>)
    ensures
        ({
            let r = settled(reordered(gs, ordered));
            &&& forall|a: int, b: int|
                #![trigger r[a], r[b]]
                0 <= a < b < r.len() ==> rank_of(ordered, r[a].name) <= rank_of(ordered, r[b].name)
            &&& names_distinct(gs) ==> forall|a: int, b: int|
                #![trigger r[a], r[b]]
                0 <= a < b < r.len() && rank_of(ordered, r[a].name) < ordered.len() ==> rank_of(
                    ordered,
                    r[a].name,
                ) < rank_of(ordered, r[b].name)
        }),
{
    lemma_ranked_sorted(gs, ordered, 0);
    let q = reordered(gs, ordered);
    let r = settled(q);
    assert forall|a: int| 0 <= a < r.len() implies #[trigger] r[a].name == q[a].name by {}
    assert forall|a: int, b: int| 0 <= a < b < r.len() implies rank_of(ordered, r[a].name) <= rank_of(
        ordered,
        r[b].name,
    ) by {
        assert(q[a] == ranked_from(gs, ordered, 0)[a]);
        assert(q[b] == ranked_from(gs, ordered, 0)[b]);
    }
    if names_distinct(gs) {
        lemma_ranked_distinct(gs, ordered, 0);
        assert forall|a: int, b: int|
            0 <= a < b < r.len() && rank_of(ordered, r[a].name) < ordered.len() implies rank_of(
            ordered,
            r[a].name,
        ) < rank_of(ordered, r[b].name) by {
            assert(q[a] == ranked_from(gs, ordered, 0)[a]);
            assert(q[b] == ranked_from(gs, ordered, 0)[b]);
            assert(q[a].name != q[b].name);
            let ra = rank_of(ordered, q[a].name);
            crate::library::lemma_rank_of(ordered, q[a].name);
            crate::library::lemma_rank_of(ordered, q[b].name);
            if ra == rank_of(ordered, q[b].name) {
                assert(ordered[ra as int] == q[a].name);
                assert(ordered[ra as int] == q[b].name);
            }
        }
    }
}

} // verus!
