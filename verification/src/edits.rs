//! What editing presets does, stated by where things end up: a preset moved
//! within its group lands directly before the preset it was dropped on, and
//! a group's active preset always names one of its presets, following a
//! rename and cleared by a delete.
use vstd::prelude::*;

use crate::library::{
    append_missing, disk_presets, fresh_group, group_names, kept_then_new, numbered, synced,
    synced_group, with_name,
    with_presets, active_before, activity_moved, dropped_active, taken_out, group_pos, has_group, has_preset, landing_slot,
    lemma_first_where, moved, normalized_emoji, preset_names, preset_pos, renamed_active, settled, single_active,
    well_formed,
};
use crate::model::{GroupMeta, PresetMeta};

verus! {

/// Whether every group's active preset, when it has one, is one of its
/// presets.
pub open spec fn actives_listed(gs: Seq<GroupMeta>) -> bool {
    forall|i: int|
        0 <= i < gs.len() && (#[trigger] gs[i]).active_preset is Some ==> has_preset(
            gs[i].presets,
            gs[i].active_preset->0,
        )
}

/// A name held by some preset is taken.
proof fn lemma_listed(ps: Seq<PresetMeta>, j: int, name: Seq<char>)
    requires
        0 <= j < ps.len(),
        ps[j].name == name,
    ensures
        has_preset(ps, name),
{
    lemma_first_where(ps, |p: PresetMeta| p.name == name);
}

/// A taken name is held by the preset at its position.
proof fn lemma_listed_at(ps: Seq<PresetMeta>, name: Seq<char>)
    requires
        has_preset(ps, name),
    ensures
        0 <= preset_pos(ps, name) < ps.len(),
        ps[preset_pos(ps, name) as int].name == name,
{
    lemma_first_where(ps, |p: PresetMeta| p.name == name);
}

/// Settling keeps every active preset listed.
proof fn lemma_settled_actives(x: Seq<GroupMeta>)
    requires
        actives_listed(x),
    ensures
        actives_listed(settled(x)),
{
    let r = settled(x);
    assert forall|i: int| 0 <= i < r.len() && (#[trigger] r[i]).active_preset is Some implies has_preset(
        r[i].presets,
        r[i].active_preset->0,
    ) by {
        let a = r[i].active_preset->0;
        assert(single_active(x)[i].active_preset == Some(a));
        assert(x[i].active_preset == Some(a));
        lemma_listed_at(x[i].presets, a);
        let j = preset_pos(x[i].presets, a) as int;
        assert(r[i].presets[j].name == x[i].presets[j].name);
        lemma_listed(r[i].presets, j, a);
    }
}

/// Settling metadata whose activity is already single changes no group's
/// active preset.
proof fn lemma_settled_keeps_active(x: Seq<GroupMeta>)
    requires
        forall|a: int, b: int|
            0 <= a < b < x.len() && (#[trigger] x[a]).active_preset is Some ==> (
            #[trigger] x[b]).active_preset is None,
    ensures
        forall|k: int| 0 <= k < x.len() ==> (#[trigger] settled(x)[k]).active_preset == x[k].active_preset,
{
    assert forall|k: int| 0 <= k < x.len() implies (#[trigger] settled(x)[k]).active_preset
        == x[k].active_preset by {
        if active_before(x, k) {
            let j = choose|j: int| 0 <= j < k && (#[trigger] x[j]).active_preset is Some;
            assert(x[k].active_preset is None);
        }
    }
}

/// Renaming a preset keeps every group's active preset listed, and the
/// renamed preset stays active under its new name when it was active;
/// with at most one active preset before, no other group's activity
/// changes.
pub proof fn lemma_rename_preset_active_follows(
    gs: Seq<GroupMeta>,
    group: Seq<char>,
    old_name: Seq<char>,
    new_name: Seq<char>,
)
    requires
        has_group(gs, group),
        has_preset(gs[group_pos(gs, group) as int].presets, old_name),
    ensures
        ({
            let i = group_pos(gs, group) as int;
            let g = gs[i];
            let j = preset_pos(g.presets, old_name) as int;
            let r = settled(
                gs.update(
                    i,
                    GroupMeta {
                        active_preset: renamed_active(g.active_preset, old_name, new_name),
                        presets: g.presets.update(
                            j,
                            PresetMeta { name: new_name, order: g.presets[j].order },
                        ),
                        ..g
                    },
                ),
            );
            &&& actives_listed(gs) ==> actives_listed(r)
            &&& well_formed(gs) && g.active_preset == Some(old_name) ==> r[i].active_preset == Some(
                new_name,
            )
            &&& well_formed(gs) && g.active_preset != Some(old_name) ==> r[i].active_preset
                == g.active_preset
            &&& well_formed(gs) ==> forall|k: int|
                0 <= k < gs.len() && k != i ==> (#[trigger] r[k]).active_preset
                    == gs[k].active_preset
        }),
{
    lemma_first_where(gs, |g: GroupMeta| g.name == group);
    let i = group_pos(gs, group) as int;
    let g = gs[i];
    lemma_listed_at(g.presets, old_name);
    let j = preset_pos(g.presets, old_name) as int;
    let ng = GroupMeta {
        active_preset: renamed_active(g.active_preset, old_name, new_name),
        presets: g.presets.update(j, PresetMeta { name: new_name, order: g.presets[j].order }),
        ..g
    };
    let x = gs.update(i, ng);
    if actives_listed(gs) {
        assert forall|k: int| 0 <= k < x.len() && (#[trigger] x[k]).active_preset is Some implies has_preset(
            x[k].presets,
            x[k].active_preset->0,
        ) by {
            if k == i {
                if g.active_preset == Some(old_name) {
                    lemma_listed(ng.presets, j, new_name);
                } else {
                    let a = g.active_preset->0;
                    assert(gs[i].active_preset is Some);
                    lemma_listed_at(g.presets, a);
                    let m = preset_pos(g.presets, a) as int;
                    assert(m != j);
                    lemma_listed(ng.presets, m, a);
                }
            } else {
                assert(x[k] == gs[k]);
            }
        }
        lemma_settled_actives(x);
    }
    if well_formed(gs) {
        assert forall|a: int, b: int|
            0 <= a < b < x.len() && (#[trigger] x[a]).active_preset is Some implies (
            #[trigger] x[b]).active_preset is None by {
            assert(gs[a].active_preset is Some);
        }
        lemma_settled_keeps_active(x);
        assert(settled(x)[i].active_preset == x[i].active_preset);
        assert forall|k: int| 0 <= k < gs.len() && k != i implies (#[trigger] settled(x)[k]).active_preset
            == gs[k].active_preset by {
            assert(settled(x)[k].active_preset == x[k].active_preset);
        }
    }
}

/// Deleting a preset keeps every group's active preset listed and never
/// leaves the deleted name active; with at most one active preset before,
/// no other group's activity changes, and the group keeps an active preset
/// that was not the deleted one.
pub proof fn lemma_delete_preset_clears_active(gs: Seq<GroupMeta>, group: Seq<char>, name: Seq<char>)
    requires
        has_group(gs, group),
        has_preset(gs[group_pos(gs, group) as int].presets, name),
    ensures
        ({
            let i = group_pos(gs, group) as int;
            let g = gs[i];
            let r = settled(
                gs.update(
                    i,
                    GroupMeta {
                        active_preset: dropped_active(g.active_preset, name),
                        presets: g.presets.remove(preset_pos(g.presets, name) as int),
                        ..g
                    },
                ),
            );
            &&& r[i].active_preset != Some(name)
            &&& actives_listed(gs) ==> actives_listed(r)
            &&& well_formed(gs) && g.active_preset != Some(name) ==> r[i].active_preset
                == g.active_preset
            &&& well_formed(gs) ==> forall|k: int|
                0 <= k < gs.len() && k != i ==> (#[trigger] r[k]).active_preset
                    == gs[k].active_preset
        }),
{
    lemma_first_where(gs, |g: GroupMeta| g.name == group);
    let i = group_pos(gs, group) as int;
    let g = gs[i];
    lemma_listed_at(g.presets, name);
    let j = preset_pos(g.presets, name) as int;
    let ng = GroupMeta {
        active_preset: dropped_active(g.active_preset, name),
        presets: g.presets.remove(j),
        ..g
    };
    let x = gs.update(i, ng);
    assert(single_active(x)[i].active_preset != Some(name));
    if actives_listed(gs) {
        assert forall|k: int| 0 <= k < x.len() && (#[trigger] x[k]).active_preset is Some implies has_preset(
            x[k].presets,
            x[k].active_preset->0,
        ) by {
            if k == i {
                let a = g.active_preset->0;
                assert(gs[i].active_preset is Some);
                lemma_listed_at(g.presets, a);
                let m = preset_pos(g.presets, a) as int;
                assert(m != j);
                if m < j {
                    assert(ng.presets[m] == g.presets[m]);
                    lemma_listed(ng.presets, m, a);
                } else {
                    assert(ng.presets[m - 1] == g.presets[m]);
                    lemma_listed(ng.presets, m - 1, a);
                }
            } else {
                assert(x[k] == gs[k]);
            }
        }
        lemma_settled_actives(x);
    }
    if well_formed(gs) {
        assert forall|a: int, b: int|
            0 <= a < b < x.len() && (#[trigger] x[a]).active_preset is Some implies (
            #[trigger] x[b]).active_preset is None by {
            assert(gs[a].active_preset is Some);
        }
        lemma_settled_keeps_active(x);
        assert(settled(x)[i].active_preset == x[i].active_preset);
        assert forall|k: int| 0 <= k < gs.len() && k != i implies (#[trigger] settled(x)[k]).active_preset
            == gs[k].active_preset by {
            assert(settled(x)[k].active_preset == x[k].active_preset);
        }
    }
}

/// Moving a preset within its group to target index `t` keeps the other
/// presets in their order and leaves the moved one directly before the
/// preset that was at index `t` (at its own place when `t` is its index,
/// last when `t` is at or past the end); with no target, `t` is the index
/// of the group's last preset. The group keeps its size and the other
/// groups keep their presets.
pub proof fn lemma_move_within_group_lands_before_target(
    gs: Seq<GroupMeta>,
    group: Seq<char>,
    preset: Seq<char>,
    target_index: Option<usize>,
)
    requires
        has_group(gs, group),
        has_preset(gs[group_pos(gs, group) as int].presets, preset),
    ensures
        ({
            let i = group_pos(gs, group) as int;
            let ps = gs[i].presets;
            let n = ps.len() as int;
            let pi = preset_pos(ps, preset) as int;
            let t: int = match target_index {
                Some(t) => t as int,
                None => n - 1,
            };
            let out = settled(moved(gs, i, i, pi, preset, false, target_index));
            let r = out[i].presets;
            &&& out.len() == gs.len()
            &&& r.len() == n
            &&& exists|k: int|
                #![trigger r[k]]
                0 <= k < n && r[k].name == preset && preset_names(r.remove(k)) == preset_names(
                    ps.remove(pi),
                ) && (t < n && t != pi ==> k + 1 < n && r[k + 1].name == ps[t].name) && (t >= n
                    ==> k == n - 1) && (t == pi ==> k == pi)
            &&& forall|m: int|
                0 <= m < gs.len() && m != i ==> preset_names(#[trigger] out[m].presets)
                    == preset_names(gs[m].presets)
        }),
{
    lemma_first_where(gs, |g: GroupMeta| g.name == group);
    let i = group_pos(gs, group) as int;
    let ps = gs[i].presets;
    let n = ps.len() as int;
    lemma_listed_at(ps, preset);
    let pi = preset_pos(ps, preset) as int;
    let t: int = match target_index {
        Some(t) => t as int,
        None => n - 1,
    };
    let x = moved(gs, i, i, pi, preset, false, target_index);
    let removed = ps.remove(pi);
    let slot = landing_slot(target_index, removed.len(), false, pi);
    assert(0 <= slot <= removed.len());
    let inserted = removed.insert(slot, ps[pi]);
    assert(x[i].presets == inserted);
    let out = settled(x);
    let r = out[i].presets;
    assert(r.len() == n);
    assert forall|q: int| 0 <= q < n implies #[trigger] r[q].name == inserted[q].name by {}
    let k = slot;
    assert(r[k].name == preset);
    assert(preset_names(r.remove(k)) =~= preset_names(removed)) by {
        assert forall|q: int| 0 <= q < n - 1 implies #[trigger] r.remove(k)[q].name == removed[q].name by {
            if q < k {
                assert(r.remove(k)[q] == r[q]);
                assert(inserted[q] == removed[q]);
            } else {
                assert(r.remove(k)[q] == r[q + 1]);
                assert(inserted[q + 1] == removed[q]);
            }
        }
    }
    if t < n && t != pi {
        if pi < t {
            assert(slot == t - 1);
            assert(inserted[k + 1] == removed[t - 1]);
            assert(removed[t - 1] == ps[t]);
        } else {
            assert(slot == t);
            assert(inserted[k + 1] == removed[t]);
            assert(removed[t] == ps[t]);
        }
    }
    if t >= n {
        assert(pi < t);
        assert(removed.len() == n - 1);
        assert(slot == n - 1);
    }
    assert(t == pi ==> k == pi);
    assert(0 <= k < n && r[k].name == preset && preset_names(r.remove(k)) == preset_names(
        ps.remove(pi),
    ) && (t < n && t != pi ==> k + 1 < n && r[k + 1].name == ps[t].name) && (t >= n ==> k == n - 1)
        && (t == pi ==> k == pi));
    assert forall|m: int| 0 <= m < gs.len() && m != i implies preset_names(#[trigger] out[m].presets)
        == preset_names(gs[m].presets) by {
        assert(x[m] == gs[m]);
        assert(preset_names(out[m].presets) =~= preset_names(gs[m].presets));
    }
}


/// Moving a preset to another group takes it out of its group (the others
/// keep their order) and puts it into the new group directly before the
/// preset that was at the target index (last when there is no target or
/// it is at or past the end); an active preset stays active in its new
/// group, and otherwise no group's activity changes.
pub proof fn lemma_move_across_groups(
    gs: Seq<GroupMeta>,
    old_group: Seq<char>,
    new_group: Seq<char>,
    preset: Seq<char>,
    target_index: Option<usize>,
)
    requires
        has_group(gs, old_group),
        has_group(gs, new_group),
        old_group != new_group,
        has_preset(gs[group_pos(gs, old_group) as int].presets, preset),
    ensures
        ({
            let oi = group_pos(gs, old_group) as int;
            let ni = group_pos(gs, new_group) as int;
            let ps = gs[oi].presets;
            let qs = gs[ni].presets;
            let pi = preset_pos(ps, preset) as int;
            let t: int = match target_index {
                Some(t) => t as int,
                None => qs.len() as int,
            };
            let out = settled(moved(gs, oi, ni, pi, preset, true, target_index));
            let r = out[ni].presets;
            &&& out.len() == gs.len()
            &&& preset_names(out[oi].presets) == preset_names(ps.remove(pi))
            &&& r.len() == qs.len() + 1
            &&& exists|k: int|
                #![trigger r[k]]
                0 <= k < r.len() && r[k].name == preset && preset_names(r.remove(k)) == preset_names(
                    qs,
                ) && (t < qs.len() ==> r[k + 1].name == qs[t].name) && (t >= qs.len() ==> k
                    == qs.len())
            &&& well_formed(gs) && gs[oi].active_preset == Some(preset) ==> out[ni].active_preset
                == Some(preset) && out[oi].active_preset is None
            &&& well_formed(gs) && gs[oi].active_preset != Some(preset) ==> forall|m: int|
                0 <= m < gs.len() ==> (#[trigger] out[m]).active_preset == gs[m].active_preset
        }),
{
    lemma_first_where(gs, |g: GroupMeta| g.name == old_group);
    lemma_first_where(gs, |g: GroupMeta| g.name == new_group);
    let oi = group_pos(gs, old_group) as int;
    let ni = group_pos(gs, new_group) as int;
    assert(oi != ni);
    let ps = gs[oi].presets;
    let qs = gs[ni].presets;
    lemma_listed_at(ps, preset);
    let pi = preset_pos(ps, preset) as int;
    let t: int = match target_index {
        Some(t) => t as int,
        None => qs.len() as int,
    };
    let was_active = gs[oi].active_preset == Some(preset);
    let step = activity_moved(taken_out(gs, oi, pi), oi, ni, preset, true, was_active);
    assert(step[ni].presets == qs);
    assert(step[oi].presets == ps.remove(pi));
    let slot = landing_slot(target_index, qs.len(), true, pi);
    assert(0 <= slot <= qs.len());
    let inserted = qs.insert(slot, ps[pi]);
    let x = moved(gs, oi, ni, pi, preset, true, target_index);
    assert(x[ni].presets == inserted);
    assert(x[oi].presets == ps.remove(pi));
    let out = settled(x);
    let r = out[ni].presets;
    assert(preset_names(out[oi].presets) =~= preset_names(ps.remove(pi)));
    assert forall|q: int| 0 <= q < r.len() implies #[trigger] r[q].name == inserted[q].name by {}
    let k = slot;
    assert(preset_names(r.remove(k)) =~= preset_names(qs)) by {
        assert forall|q: int| 0 <= q < qs.len() implies #[trigger] r.remove(k)[q].name == qs[q].name by {
            if q < k {
                assert(r.remove(k)[q] == r[q]);
                assert(inserted[q] == qs[q]);
            } else {
                assert(r.remove(k)[q] == r[q + 1]);
                assert(inserted[q + 1] == qs[q]);
            }
        }
    }
    if t < qs.len() {
        assert(slot == t);
        assert(inserted[k + 1] == qs[t]);
    }
    assert(0 <= k < r.len() && r[k].name == preset && preset_names(r.remove(k)) == preset_names(qs)
        && (t < qs.len() ==> r[k + 1].name == qs[t].name) && (t >= qs.len() ==> k == qs.len()));
    if well_formed(gs) {
        assert forall|a: int, b: int|
            0 <= a < b < x.len() && (#[trigger] x[a]).active_preset is Some implies (
            #[trigger] x[b]).active_preset is None by {
            if was_active {
                assert(a == ni);
                assert(gs[oi].active_preset is Some);
                if b != oi {
                    if b < oi {
                        assert(gs[b].active_preset is None);
                    }
                }
            } else {
                assert(gs[a].active_preset is Some);
            }
        }
        lemma_settled_keeps_active(x);
        assert(out[ni].active_preset == x[ni].active_preset);
        assert(out[oi].active_preset == x[oi].active_preset);
        if !was_active {
            assert forall|m: int| 0 <= m < gs.len() implies (#[trigger] out[m]).active_preset
                == gs[m].active_preset by {
                assert(out[m].active_preset == x[m].active_preset);
            }
        }
    }
}


/// Settling keeps every group's name and its presets' names.
proof fn lemma_settled_names(x: Seq<GroupMeta>)
    ensures
        settled(x).len() == x.len(),
        group_names(settled(x)) == group_names(x),
        forall|i: int|
            0 <= i < x.len() ==> preset_names(#[trigger] settled(x)[i].presets) == preset_names(
                x[i].presets,
            ),
{
    assert(group_names(settled(x)) =~= group_names(x));
    assert forall|i: int| 0 <= i < x.len() implies preset_names(#[trigger] settled(x)[i].presets)
        == preset_names(x[i].presets) by {
        assert(preset_names(settled(x)[i].presets) =~= preset_names(x[i].presets));
    }
}

/// Creating a group adds its name after the others, with no presets and
/// nothing active.
pub proof fn lemma_create_group_appends(gs: Seq<GroupMeta>, name: Seq<char>)
    ensures
        ({
            let r = settled(gs.push(fresh_group(name, gs.len())));
            &&& group_names(r) == group_names(gs).push(name)
            &&& r[gs.len() as int].presets.len() == 0
            &&& r[gs.len() as int].active_preset is None
        }),
{
    let x = gs.push(fresh_group(name, gs.len()));
    lemma_settled_names(x);
    assert(group_names(x) =~= group_names(gs).push(name));
}

/// Renaming a group changes that group's name and nothing else of the
/// names, the presets or (with at most one active preset) the activity.
pub proof fn lemma_rename_group_renames(gs: Seq<GroupMeta>, old_name: Seq<char>, new_name: Seq<char>)
    requires
        has_group(gs, old_name),
    ensures
        ({
            let i = group_pos(gs, old_name) as int;
            let r = settled(gs.update(i, with_name(gs[i], new_name)));
            &&& gs[i].name == old_name
            &&& group_names(r) == group_names(gs).update(i, new_name)
            &&& forall|k: int|
                0 <= k < gs.len() ==> preset_names(#[trigger] r[k].presets) == preset_names(
                    gs[k].presets,
                )
            &&& well_formed(gs) ==> forall|k: int|
                0 <= k < gs.len() ==> (#[trigger] r[k]).active_preset == gs[k].active_preset
        }),
{
    lemma_first_where(gs, |g: GroupMeta| g.name == old_name);
    let i = group_pos(gs, old_name) as int;
    let x = gs.update(i, with_name(gs[i], new_name));
    lemma_settled_names(x);
    assert(group_names(x) =~= group_names(gs).update(i, new_name));
    assert forall|k: int| 0 <= k < gs.len() implies preset_names(#[trigger] settled(x)[k].presets)
        == preset_names(gs[k].presets) by {
        assert(x[k].presets == gs[k].presets);
    }
    if well_formed(gs) {
        assert forall|a: int, b: int|
            0 <= a < b < x.len() && (#[trigger] x[a]).active_preset is Some implies (
            #[trigger] x[b]).active_preset is None by {
            assert(gs[a].active_preset is Some);
        }
        lemma_settled_keeps_active(x);
        assert forall|k: int| 0 <= k < gs.len() implies (#[trigger] settled(x)[k]).active_preset
            == gs[k].active_preset by {
            assert(settled(x)[k].active_preset == x[k].active_preset);
        }
    }
}

/// Deleting a group removes exactly that group's name from the list.
pub proof fn lemma_delete_group_removes(gs: Seq<GroupMeta>, name: Seq<char>)
    requires
        has_group(gs, name),
    ensures
        ({
            let i = group_pos(gs, name) as int;
            &&& gs[i].name == name
            &&& group_names(settled(gs.remove(i))) == group_names(gs).remove(i)
        }),
{
    lemma_first_where(gs, |g: GroupMeta| g.name == name);
    let i = group_pos(gs, name) as int;
    lemma_settled_names(gs.remove(i));
    assert(group_names(gs.remove(i)) =~= group_names(gs).remove(i));
}

/// Creating a preset adds its name after the group's other presets and
/// changes no other group's presets.
pub proof fn lemma_create_preset_appends(gs: Seq<GroupMeta>, group: Seq<char>, name: Seq<char>)
    requires
        has_group(gs, group),
    ensures
        ({
            let i = group_pos(gs, group) as int;
            let r = settled(
                gs.update(
                    i,
                    with_presets(
                        gs[i],
                        gs[i].presets.push(PresetMeta { name, order: gs[i].presets.len() }),
                    ),
                ),
            );
            &&& group_names(r) == group_names(gs)
            &&& preset_names(r[i].presets) == preset_names(gs[i].presets).push(name)
            &&& forall|k: int|
                0 <= k < gs.len() && k != i ==> preset_names(#[trigger] r[k].presets)
                    == preset_names(gs[k].presets)
        }),
{
    lemma_first_where(gs, |g: GroupMeta| g.name == group);
    let i = group_pos(gs, group) as int;
    let x = gs.update(
        i,
        with_presets(gs[i], gs[i].presets.push(PresetMeta { name, order: gs[i].presets.len() })),
    );
    lemma_settled_names(x);
    assert(group_names(x) =~= group_names(gs));
    assert(preset_names(x[i].presets) =~= preset_names(gs[i].presets).push(name));
    assert forall|k: int| 0 <= k < gs.len() && k != i implies preset_names(#[trigger] settled(x)[k].presets)
        == preset_names(gs[k].presets) by {
        assert(x[k] == gs[k]);
    }
}

/// Renaming a preset replaces its name where it stands and changes nothing
/// else of the group's preset names.
pub proof fn lemma_rename_preset_in_place(
    gs: Seq<GroupMeta>,
    group: Seq<char>,
    old_name: Seq<char>,
    new_name: Seq<char>,
)
    requires
        has_group(gs, group),
        has_preset(gs[group_pos(gs, group) as int].presets, old_name),
    ensures
        ({
            let i = group_pos(gs, group) as int;
            let g = gs[i];
            let j = preset_pos(g.presets, old_name) as int;
            let r = settled(
                gs.update(
                    i,
                    GroupMeta {
                        active_preset: renamed_active(g.active_preset, old_name, new_name),
                        presets: g.presets.update(
                            j,
                            PresetMeta { name: new_name, order: g.presets[j].order },
                        ),
                        ..g
                    },
                ),
            );
            &&& g.presets[j].name == old_name
            &&& group_names(r) == group_names(gs)
            &&& preset_names(r[i].presets) == preset_names(g.presets).update(j, new_name)
        }),
{
    lemma_first_where(gs, |g: GroupMeta| g.name == group);
    let i = group_pos(gs, group) as int;
    let g = gs[i];
    lemma_listed_at(g.presets, old_name);
    let j = preset_pos(g.presets, old_name) as int;
    let x = gs.update(
        i,
        GroupMeta {
            active_preset: renamed_active(g.active_preset, old_name, new_name),
            presets: g.presets.update(j, PresetMeta { name: new_name, order: g.presets[j].order }),
            ..g
        },
    );
    lemma_settled_names(x);
    assert(group_names(x) =~= group_names(gs));
    assert(preset_names(x[i].presets) =~= preset_names(g.presets).update(j, new_name));
}

/// Deleting a preset removes exactly that preset's name from its group.
pub proof fn lemma_delete_preset_removes(gs: Seq<GroupMeta>, group: Seq<char>, name: Seq<char>)
    requires
        has_group(gs, group),
        has_preset(gs[group_pos(gs, group) as int].presets, name),
    ensures
        ({
            let i = group_pos(gs, group) as int;
            let g = gs[i];
            let j = preset_pos(g.presets, name) as int;
            let r = settled(
                gs.update(
                    i,
                    GroupMeta {
                        active_preset: dropped_active(g.active_preset, name),
                        presets: g.presets.remove(j),
                        ..g
                    },
                ),
            );
            &&& g.presets[j].name == name
            &&& group_names(r) == group_names(gs)
            &&& preset_names(r[i].presets) == preset_names(g.presets).remove(j)
        }),
{
    lemma_first_where(gs, |g: GroupMeta| g.name == group);
    let i = group_pos(gs, group) as int;
    let g = gs[i];
    lemma_listed_at(g.presets, name);
    let j = preset_pos(g.presets, name) as int;
    let x = gs.update(
        i,
        GroupMeta { active_preset: dropped_active(g.active_preset, name), presets: g.presets.remove(j), ..g },
    );
    lemma_settled_names(x);
    assert(group_names(x) =~= group_names(gs));
    assert(preset_names(x[i].presets) =~= preset_names(g.presets).remove(j));
}


/// Appending the missing names holds exactly the names of both lists.
proof fn lemma_append_missing_contains(acc: Seq<Seq<char>>, xs: Seq<Seq<char>>, x: Seq<char>)
    ensures
        append_missing(acc, xs).contains(x) <==> acc.contains(x) || xs.contains(x),
    decreases xs.len(),
{
    if xs.len() > 0 {
        let next = if acc.contains(xs[0]) {
            acc
        } else {
            acc.push(xs[0])
        };
        lemma_append_missing_contains(next, xs.drop_first(), x);
        if acc.push(xs[0]).contains(x) && !acc.contains(x) {
            let m = choose|m: int| 0 <= m < acc.push(xs[0]).len() && acc.push(xs[0])[m] == x;
            if m < acc.len() {
                assert(acc[m] == x);
            }
        }
        if acc.contains(x) && !acc.contains(xs[0]) {
            let m = choose|m: int| 0 <= m < acc.len() && acc[m] == x;
            assert(acc.push(xs[0])[m] == x);
        }
        if !acc.contains(xs[0]) {
            assert(acc.push(xs[0])[acc.len() as int] == xs[0]);
        }
        if xs.contains(x) && !xs.drop_first().contains(x) {
            let m = choose|m: int| 0 <= m < xs.len() && xs[m] == x;
            if m > 0 {
                assert(xs.drop_first()[m - 1] == x);
            }
        }
        if xs.drop_first().contains(x) {
            let m = choose|m: int| 0 <= m < xs.drop_first().len() && xs.drop_first()[m] == x;
            assert(xs[m + 1] == x);
        }
        assert(xs[0] == xs[0]);
    }
}

/// The known names still found, then the new ones, are exactly the found
/// names.
proof fn lemma_kept_then_new_contains(known: Seq<Seq<char>>, found: Seq<Seq<char>>, x: Seq<char>)
    ensures
        kept_then_new(known, found).contains(x) <==> found.contains(x),
{
    let kept = known.filter(|n: Seq<char>| found.contains(n));
    lemma_append_missing_contains(kept, found, x);
    if kept.contains(x) {
        known.lemma_filter_contains_rev(|n: Seq<char>| found.contains(n), x);
        let m = choose|m: int| 0 <= m < kept.len() && kept[m] == x;
        known.lemma_filter_pred(|n: Seq<char>| found.contains(n), m);
    }
}

/// Bringing the metadata in line with the disk keeps exactly the groups
/// that have a folder and, in each, exactly the presets that have a file.
pub proof fn lemma_sync_matches_disk(gs: Seq<GroupMeta>, disk: Seq<(Seq<char>, Seq<Seq<char>>)>)
    ensures
        ({
            let r = settled(synced(gs, disk));
            &&& forall|name: Seq<char>|
                #[trigger] group_names(r).contains(name) <==> disk.map_values(
                    |d: (Seq<char>, Seq<Seq<char>>)| d.0,
                ).contains(name)
            &&& forall|k: int, p: Seq<char>|
                0 <= k < r.len() ==> (preset_names(#[trigger] r[k].presets).contains(p)
                    <==> #[trigger] disk_presets(disk, r[k].name).contains(p))
        }),
{
    let found_groups = disk.map_values(|d: (Seq<char>, Seq<Seq<char>>)| d.0);
    let names = kept_then_new(group_names(gs), found_groups);
    let x = synced(gs, disk);
    lemma_settled_names(x);
    assert(group_names(x) =~= names);
    assert forall|name: Seq<char>| #[trigger] group_names(settled(x)).contains(name) <==> found_groups.contains(
        name,
    ) by {
        lemma_kept_then_new_contains(group_names(gs), found_groups, name);
    }
    assert forall|k: int, p: Seq<char>| 0 <= k < x.len() implies (preset_names(
        #[trigger] settled(x)[k].presets,
    ).contains(p) <==> #[trigger] disk_presets(disk, settled(x)[k].name).contains(p)) by {
        let name = names[k];
        assert(x[k] == synced_group(gs, disk, name, k));
        let gi = group_pos(gs, name);
        let known = if gi < gs.len() {
            preset_names(gs[gi as int].presets)
        } else {
            Seq::<Seq<char>>::empty()
        };
        let found = disk_presets(disk, name);
        let kn = kept_then_new(known, found);
        assert(x[k].presets =~= numbered(kn));
        assert(preset_names(x[k].presets) =~= kn);
        assert(settled(x)[k].name == name);
        lemma_kept_then_new_contains(known, found, p);
    }
}


/// A group's emoji is kept trimmed and never blank: a blank emoji clears
/// it, and any other is kept.
pub proof fn lemma_emoji_kept_clean(e: Option<Seq<char>>)
    ensures
        normalized_emoji(e) matches Some(v) ==> v.len() > 0 && crate::text::trim(v) == v,
        (e matches Some(x) && crate::text::trim(x).len() > 0) <==> normalized_emoji(e) is Some,
{
    if let Some(x) = e {
        crate::text::lemma_trim_idempotent(x);
    }
}

} // verus!
