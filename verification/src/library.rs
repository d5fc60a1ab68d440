//! The preset library: groups of presets, their order, the single active
//! preset and the runtime paths. Operations edit the metadata and leave the
//! file work (creating, renaming and deleting preset files) to the caller,
//! which performs it on the names the operation returns.
use vstd::prelude::*;

use crate::error::AppError;
use crate::model::{
    copy_convolution, copy_groups, copy_opt, copy_presets, file_view, groups_view, ConvolutionView,
    DiskGroup, PresetFileSnapshot, PresetGroup, PresetGroupView, PresetItem, PresetItemView,
    PresetLibrary, PresetLibraryView, opt_view, presets_view, GroupMeta,
    GroupMetadata, MetadataModel, PresetMeta, PresetMetadata, PresetsMetadata, TraySelection,
    targets_view,
};
use crate::names::{import_name, is_valid_name, sanitize_import_name, validate_name, validated};
use crate::paths::{normalize_path, without_trailing_separators};
use crate::text::{decimal, extend_str, str_eq, string_of, trim, trim_str};

verus! {

// ---------------------------------------------------------------------------
// Searching
// ---------------------------------------------------------------------------

/// The position of the first element of `s` that satisfies `p`, or
/// `s.len()` when none does.
pub open spec fn first_where<A>(s: Seq<A>, p: spec_fn(A) -> bool) -> nat
    decreases s.len(),
{
    if s.len() == 0 {
        0
    } else if p(s[0]) {
        0
    } else {
        1 + first_where(s.drop_first(), p)
    }
}

pub proof fn lemma_first_where<A>(s: Seq<A>, p: spec_fn(A) -> bool)
    ensures
        first_where(s, p) <= s.len(),
        first_where(s, p) < s.len() ==> p(s[first_where(s, p) as int]),
        forall|i: int| 0 <= i < first_where(s, p) ==> !p(#[trigger] s[i]),
    decreases s.len(),
{
    if s.len() > 0 && !p(s[0]) {
        lemma_first_where(s.drop_first(), p);
        assert forall|i: int| 0 <= i < first_where(s, p) implies !p(#[trigger] s[i]) by {
            if i > 0 {
                assert(s[i] == s.drop_first()[i - 1]);
            }
        }
    }
}

/// The position of the first group named `name`, or `groups.len()`.
pub open spec fn group_pos(groups: Seq<GroupMeta>, name: Seq<char>) -> nat {
    first_where(groups, |g: GroupMeta| g.name == name)
}

/// The position of the first preset named `name`, or `presets.len()`.
pub open spec fn preset_pos(presets: Seq<PresetMeta>, name: Seq<char>) -> nat {
    first_where(presets, |p: PresetMeta| p.name == name)
}

/// Whether some group is named `name`.
pub open spec fn has_group(groups: Seq<GroupMeta>, name: Seq<char>) -> bool {
    group_pos(groups, name) < groups.len()
}

/// Whether some preset is named `name`.
pub open spec fn has_preset(presets: Seq<PresetMeta>, name: Seq<char>) -> bool {
    preset_pos(presets, name) < presets.len()
}

// ---------------------------------------------------------------------------
// Well-formed metadata
// ---------------------------------------------------------------------------

/// `presets` with each entry's order set to its position.
pub open spec fn renumbered(presets: Seq<PresetMeta>) -> Seq<PresetMeta> {
    Seq::new(presets.len(), |j: int| PresetMeta { name: presets[j].name, order: j as nat })
}

/// `groups` with each group's and each preset's order set to its position.
pub open spec fn reindexed(groups: Seq<GroupMeta>) -> Seq<GroupMeta> {
    Seq::new(
        groups.len(),
        |i: int|
            GroupMeta {
                name: groups[i].name,
                order: i as nat,
                emoji: groups[i].emoji,
                active_preset: groups[i].active_preset,
                presets: renumbered(groups[i].presets),
            },
    )
}

/// Whether some group before position `i` has an active preset.
pub open spec fn active_before(groups: Seq<GroupMeta>, i: int) -> bool {
    exists|j: int| 0 <= j < i && (#[trigger] groups[j]).active_preset is Some
}

/// `g` with its active preset set to `a`.
pub open spec fn with_active(g: GroupMeta, a: Option<Seq<char>>) -> GroupMeta {
    GroupMeta {
        name: g.name,
        order: g.order,
        emoji: g.emoji,
        active_preset: a,
        presets: g.presets,
    }
}

/// `groups` with the active preset kept only in the first group that has one.
pub open spec fn single_active(groups: Seq<GroupMeta>) -> Seq<GroupMeta> {
    Seq::new(
        groups.len(),
        |i: int|
            if active_before(groups, i) {
                with_active(groups[i], None)
            } else {
                groups[i]
            },
    )
}

/// What every change to the metadata is followed by before it is kept: at
/// most one active preset, and orders that match positions.
pub open spec fn settled(groups: Seq<GroupMeta>) -> Seq<GroupMeta> {
    reindexed(single_active(groups))
}

/// Whether the orders of `groups` match their positions and at most one
/// group has an active preset.
pub open spec fn well_formed(groups: Seq<GroupMeta>) -> bool {
    &&& forall|i: int| 0 <= i < groups.len() ==> (#[trigger] groups[i]).order == i
    &&& forall|i: int, j: int|
        0 <= i < groups.len() && 0 <= j < groups[i].presets.len() ==> (
        #[trigger] groups[i].presets[j]).order == j
    &&& forall|i: int, j: int|
        0 <= i < j < groups.len() && (#[trigger] groups[i]).active_preset is Some ==> (
        #[trigger] groups[j]).active_preset is None
}

/// The number of groups that have an active preset.
pub open spec fn active_count(groups: Seq<GroupMeta>) -> nat
    decreases groups.len(),
{
    if groups.len() == 0 {
        0
    } else {
        active_count(groups.drop_last()) + if groups.last().active_preset is Some {
            1nat
        } else {
            0nat
        }
    }
}

pub proof fn lemma_settled_well_formed(groups: Seq<GroupMeta>)
    ensures
        well_formed(settled(groups)),
        settled(groups).len() == groups.len(),
{
    let s = single_active(groups);
    let r = settled(groups);
    assert forall|i: int, j: int|
        0 <= i < j < r.len() && (#[trigger] r[i]).active_preset is Some implies (
        #[trigger] r[j]).active_preset is None by {
        assert(s[i].active_preset is Some);
        if !active_before(groups, j) {
            assert(groups[i] == s[i] || active_before(groups, i));
            if active_before(groups, i) {
                assert(s[i].active_preset is None);
            }
            assert(active_before(groups, j));
        }
    }
}

pub proof fn lemma_settled_of_well_formed(groups: Seq<GroupMeta>)
    requires
        well_formed(groups),
    ensures
        settled(groups) == groups,
{
    let s = single_active(groups);
    assert forall|i: int| 0 <= i < groups.len() implies s[i] == groups[i] by {
        if active_before(groups, i) {
            let j = choose|j: int| 0 <= j < i && (#[trigger] groups[j]).active_preset is Some;
            assert(groups[i].active_preset is None);
            assert(with_active(groups[i], None) =~= groups[i]);
        }
    }
    assert(s =~= groups);
    assert forall|i: int| 0 <= i < groups.len() implies reindexed(groups)[i] == groups[i] by {
        assert(renumbered(groups[i].presets) =~= groups[i].presets);
    }
    assert(reindexed(groups) =~= groups);
}

pub proof fn lemma_well_formed_at_most_one_active(groups: Seq<GroupMeta>)
    requires
        well_formed(groups),
    ensures
        active_count(groups) <= 1,
        active_count(groups) == 0 <==> forall|i: int|
            0 <= i < groups.len() ==> (#[trigger] groups[i]).active_preset is None,
    decreases groups.len(),
{
    if groups.len() > 0 {
        let init = groups.drop_last();
        assert(well_formed(init) || true);
        assert forall|i: int| 0 <= i < init.len() implies (#[trigger] init[i]).order == i by {
            assert(init[i] == groups[i]);
        }
        assert forall|i: int, j: int|
            0 <= i < init.len() && 0 <= j < init[i].presets.len() implies (
            #[trigger] init[i].presets[j]).order == j by {
            assert(init[i] == groups[i]);
        }
        assert forall|i: int, j: int|
            0 <= i < j < init.len() && (#[trigger] init[i]).active_preset is Some implies (
            #[trigger] init[j]).active_preset is None by {
            assert(init[i] == groups[i]);
            assert(init[j] == groups[j]);
        }
        lemma_well_formed_at_most_one_active(init);
        if groups.last().active_preset is Some {
            assert forall|i: int| 0 <= i < init.len() implies (#[trigger] init[i]).active_preset
                is None by {
                assert(init[i] == groups[i]);
                assert(groups[i].active_preset is Some ==> groups[groups.len() - 1].active_preset
                    is None);
            }
        }
        assert((forall|i: int| 0 <= i < groups.len() ==> (#[trigger] groups[i]).active_preset
            is None) <==> (forall|i: int|
            0 <= i < init.len() ==> (#[trigger] init[i]).active_preset is None)
            && groups.last().active_preset is None) by {
            if forall|i: int| 0 <= i < init.len() ==> (#[trigger] init[i]).active_preset is None {
                assert forall|i: int| 0 <= i < groups.len() - 1 implies (
                #[trigger] groups[i]).active_preset is None by {
                    assert(init[i] == groups[i]);
                }
            }
        }
    }
}

/// Applying a preset leaves it the only active one: its group's active
/// preset is it, no other group has one, and every group keeps its name,
/// emoji and presets.
pub proof fn lemma_apply_single_active(groups: Seq<GroupMeta>, i: int, preset: Seq<char>)
    requires
        well_formed(groups),
        0 <= i < groups.len(),
    ensures
        ({
            let r = settled(applied(groups, i, preset));
            &&& r.len() == groups.len()
            &&& r[i].active_preset == Some(preset)
            &&& forall|j: int| 0 <= j < r.len() && j != i ==> (#[trigger] r[j]).active_preset is None
            &&& forall|j: int|
                0 <= j < r.len() ==> (#[trigger] r[j]).name == groups[j].name && r[j].emoji
                    == groups[j].emoji && r[j].presets == groups[j].presets
        }),
{
    let a = applied(groups, i, preset);
    let s = single_active(a);
    let r = settled(a);
    assert forall|j: int| 0 <= j < a.len() && j != i implies (#[trigger] a[j]).active_preset is None by {
        assert(a[j] == with_active(groups[j], None));
    }
    assert(!active_before(a, i));
    assert forall|j: int| 0 <= j < r.len() implies (#[trigger] r[j]).name == groups[j].name
        && r[j].emoji == groups[j].emoji && r[j].presets == groups[j].presets by {
        assert(renumbered(s[j].presets) =~= groups[j].presets);
    }
}

/// Bypassing the equalizer leaves no preset active, and every group keeps
/// its name, emoji and presets.
pub proof fn lemma_disable_clears_active(groups: Seq<GroupMeta>)
    requires
        well_formed(groups),
    ensures
        ({
            let r = settled(cleared(groups));
            &&& r.len() == groups.len()
            &&& forall|j: int| 0 <= j < r.len() ==> (#[trigger] r[j]).active_preset is None
            &&& forall|j: int|
                0 <= j < r.len() ==> (#[trigger] r[j]).name == groups[j].name && r[j].emoji
                    == groups[j].emoji && r[j].presets == groups[j].presets
        }),
{
    let c = cleared(groups);
    let s = single_active(c);
    let r = settled(c);
    assert forall|j: int| 0 <= j < r.len() implies (#[trigger] r[j]).name == groups[j].name
        && r[j].emoji == groups[j].emoji && r[j].presets == groups[j].presets by {
        assert(renumbered(s[j].presets) =~= groups[j].presets);
    }
}

// ---------------------------------------------------------------------------
// Executable helpers on metadata
// ---------------------------------------------------------------------------

/// The position of the first group named `name`.
pub fn find_group(groups: &Vec<GroupMetadata>, name: &str) -> (r: Option<usize>)
    ensures
        match r {
            Some(i) => i == group_pos(groups_view(groups@), name@) && i < groups@.len(),
            None => group_pos(groups_view(groups@), name@) == groups@.len(),
        },
{
    let ghost gv = groups_view(groups@);
    let ghost p = |g: GroupMeta| g.name == name@;
    proof {
        lemma_first_where(gv, p);
    }
    let mut i: usize = 0;
    while i < groups.len()
        invariant
            i <= groups@.len() == gv.len(),
            gv == groups_view(groups@),
            p == (|g: GroupMeta| g.name == name@),
            first_where(gv, p) <= gv.len(),
            first_where(gv, p) < gv.len() ==> p(gv[first_where(gv, p) as int]),
            forall|k: int| 0 <= k < first_where(gv, p) ==> !p(#[trigger] gv[k]),
            forall|k: int| 0 <= k < i ==> !p(#[trigger] gv[k]),
        decreases groups.len() - i,
    {
        assert(gv[i as int].name == groups@[i as int].name@);
        if str_eq(groups[i].name.as_str(), name) {
            return Some(i);
        }
        i = i + 1;
    }
    None
}

/// The position of the first preset named `name`.
pub fn find_preset(presets: &Vec<PresetMetadata>, name: &str) -> (r: Option<usize>)
    ensures
        match r {
            Some(i) => i == preset_pos(presets_view(presets@), name@) && i < presets@.len(),
            None => preset_pos(presets_view(presets@), name@) == presets@.len(),
        },
{
    let ghost pv = presets_view(presets@);
    let ghost p = |q: PresetMeta| q.name == name@;
    proof {
        lemma_first_where(pv, p);
    }
    let mut i: usize = 0;
    while i < presets.len()
        invariant
            i <= presets@.len() == pv.len(),
            pv == presets_view(presets@),
            p == (|q: PresetMeta| q.name == name@),
            first_where(pv, p) <= pv.len(),
            first_where(pv, p) < pv.len() ==> p(pv[first_where(pv, p) as int]),
            forall|k: int| 0 <= k < first_where(pv, p) ==> !p(#[trigger] pv[k]),
            forall|k: int| 0 <= k < i ==> !p(#[trigger] pv[k]),
        decreases presets.len() - i,
    {
        assert(pv[i as int].name == presets@[i as int].name@);
        if str_eq(presets[i].name.as_str(), name) {
            return Some(i);
        }
        i = i + 1;
    }
    None
}

/// `groups` with orders set to positions and the active preset kept only in
/// the first group that has one.
pub fn settle(groups: Vec<GroupMetadata>) -> (r: Vec<GroupMetadata>)
    ensures
        groups_view(r@) == settled(groups_view(groups@)),
{
    let ghost gv = groups_view(groups@);
    let ghost sa = single_active(gv);
    let mut out: Vec<GroupMetadata> = Vec::new();
    let mut seen = false;
    let mut i: usize = 0;
    while i < groups.len()
        invariant
            i <= groups@.len() == gv.len(),
            gv == groups_view(groups@),
            sa == single_active(gv),
            out@.len() == i,
            seen == active_before(gv, i as int),
            forall|k: int| 0 <= k < i ==> #[trigger] out@[k]@ == reindexed(sa)[k],
        decreases groups.len() - i,
    {
        let g = &groups[i];
        let presets = renumber_presets(&g.presets);
        let active = if g.active_preset.is_some() && seen {
            None
        } else {
            copy_opt(&g.active_preset)
        };
        proof {
            if g.active_preset.is_some() && seen {
                assert(sa[i as int] == with_active(gv[i as int], None));
            } else {
                if active_before(gv, i as int) {
                    assert(gv[i as int].active_preset is None);
                    assert(opt_view(g.active_preset) is None);
                }
            }
        }
        let entry = GroupMetadata {
            name: g.name.clone(),
            order: i,
            emoji: copy_opt(&g.emoji),
            active_preset: active,
            presets,
        };
        assert(entry@ =~= reindexed(sa)[i as int]);
        let ghost old_out = out@;
        out.push(entry);
        proof {
            assert forall|k: int| 0 <= k < i + 1 implies #[trigger] out@[k]@ == reindexed(sa)[k] by {
                if k < i {
                    assert(out@[k] == old_out[k]);
                }
            }
            if g.active_preset.is_some() {
                assert(gv[i as int].active_preset is Some);
                assert(active_before(gv, i + 1));
            } else if !seen {
                assert forall|j: int| 0 <= j < i + 1 implies !((#[trigger] gv[j]).active_preset
                    is Some) by {}
            }
        }
        seen = seen || g.active_preset.is_some();
        i = i + 1;
    }
    assert(groups_view(out@) =~= reindexed(sa));
    out
}

/// `presets` with each order set to its position.
fn renumber_presets(presets: &Vec<PresetMetadata>) -> (r: Vec<PresetMetadata>)
    ensures
        presets_view(r@) == renumbered(presets_view(presets@)),
{
    let mut out: Vec<PresetMetadata> = Vec::new();
    let mut j: usize = 0;
    while j < presets.len()
        invariant
            j <= presets@.len(),
            out@.len() == j,
            forall|k: int|
                0 <= k < j ==> #[trigger] out@[k]@ == renumbered(presets_view(presets@))[k],
        decreases presets.len() - j,
    {
        let ghost old_out = out@;
        out.push(PresetMetadata { name: presets[j].name.clone(), order: j });
        proof {
            assert forall|k: int|
                0 <= k < j + 1 implies #[trigger] out@[k]@ == renumbered(
                presets_view(presets@),
            )[k] by {
                if k < j {
                    assert(out@[k] == old_out[k]);
                }
            }
        }
        j = j + 1;
    }
    assert(presets_view(out@) =~= renumbered(presets_view(presets@)));
    out
}

// ---------------------------------------------------------------------------
// The library state
// ---------------------------------------------------------------------------

/// The view of the library state.
pub ghost struct LibraryState {
    pub app_data_dir: Seq<char>,
    pub presets_dir: Seq<char>,
    pub metadata_path: Seq<char>,
    pub default_config_path: Seq<char>,
    pub current_config_path: Seq<char>,
    pub detected_install_config_path: Option<Seq<char>>,
    pub metadata: MetadataModel,
    pub tray_targets: Seq<(Seq<char>, (Seq<char>, Seq<char>))>,
}

/// The preset library's state: where its files live, which config folder
/// Equalizer APO reads, the metadata, and the targets of the tray menu.
pub struct AppStateInner {
    app_data_dir: String,
    presets_dir: String,
    metadata_path: String,
    default_config_path: String,
    current_config_path: String,
    detected_install_config_path: Option<String>,
    metadata: PresetsMetadata,
    tray_menu_targets: Vec<(String, TraySelection)>,
}

impl View for AppStateInner {
    type V = LibraryState;

    closed spec fn view(&self) -> LibraryState {
        LibraryState {
            app_data_dir: self.app_data_dir@,
            presets_dir: self.presets_dir@,
            metadata_path: self.metadata_path@,
            default_config_path: self.default_config_path@,
            current_config_path: self.current_config_path@,
            detected_install_config_path: opt_view(self.detected_install_config_path),
            metadata: self.metadata@,
            tray_targets: targets_view(self.tray_menu_targets@),
        }
    }
}

/// `s` with its metadata replaced by `m`.
pub open spec fn with_metadata(s: LibraryState, m: MetadataModel) -> LibraryState {
    LibraryState { metadata: m, ..s }
}

/// `m` with its groups replaced by `groups`.
pub open spec fn with_groups(m: MetadataModel, groups: Seq<GroupMeta>) -> MetadataModel {
    MetadataModel { groups, ..m }
}

/// Whether `e` reports that no group is named `name`.
pub open spec fn group_not_found(e: AppError, name: Seq<char>) -> bool {
    e matches AppError::GroupNotFound(m) && m@ == name
}

/// Whether `e` is the error for looking up preset `preset` in group `group`
/// among `groups`: the group is missing, or it holds no such preset.
pub open spec fn preset_lookup_error(
    groups: Seq<GroupMeta>,
    group: Seq<char>,
    preset: Seq<char>,
    e: AppError,
) -> bool {
    if !has_group(groups, group) {
        group_not_found(e, group)
    } else {
        &&& !has_preset(groups[group_pos(groups, group) as int].presets, preset)
        &&& e matches AppError::PresetNotFound { group: g, name: n } && g@ == group && n@ == preset
    }
}

/// `groups` with no active preset.
pub open spec fn cleared(groups: Seq<GroupMeta>) -> Seq<GroupMeta> {
    groups.map_values(|g: GroupMeta| with_active(g, None))
}

/// `groups` with `preset` in group `i` as the only active preset.
pub open spec fn applied(groups: Seq<GroupMeta>, i: int, preset: Seq<char>) -> Seq<GroupMeta> {
    cleared(groups).update(i, with_active(groups[i], Some(preset)))
}

/// A copy of `groups` with no active preset.
fn cleared_groups(groups: &Vec<GroupMetadata>) -> (r: Vec<GroupMetadata>)
    ensures
        groups_view(r@) == cleared(groups_view(groups@)),
{
    let mut out: Vec<GroupMetadata> = Vec::new();
    let mut i: usize = 0;
    while i < groups.len()
        invariant
            i <= groups@.len(),
            out@.len() == i,
            forall|k: int|
                0 <= k < i ==> #[trigger] out@[k]@ == cleared(groups_view(groups@))[k],
        decreases groups.len() - i,
    {
        let mut g = groups[i].copy();
        g.active_preset = None;
        let ghost old_out = out@;
        out.push(g);
        proof {
            assert forall|k: int|
                0 <= k < i + 1 implies #[trigger] out@[k]@ == cleared(groups_view(groups@))[k] by {
                if k < i {
                    assert(out@[k] == old_out[k]);
                }
            }
        }
        i = i + 1;
    }
    assert(groups_view(out@) =~= cleared(groups_view(groups@)));
    out
}

/// A new group named `name` at position `order`, with no emoji, no active
/// preset and no presets.
pub open spec fn fresh_group(name: Seq<char>, order: nat) -> GroupMeta {
    GroupMeta { name, order, emoji: None, active_preset: None, presets: Seq::empty() }
}

/// `g` renamed to `name`.
pub open spec fn with_name(g: GroupMeta, name: Seq<char>) -> GroupMeta {
    GroupMeta { name, ..g }
}

/// `g` with emoji `e`.
pub open spec fn with_emoji(g: GroupMeta, e: Option<Seq<char>>) -> GroupMeta {
    GroupMeta { emoji: e, ..g }
}

/// `g` with presets `presets`.
pub open spec fn with_presets(g: GroupMeta, presets: Seq<PresetMeta>) -> GroupMeta {
    GroupMeta { presets, ..g }
}

/// An emoji as it is kept: trimmed, and dropped when blank.
pub open spec fn normalized_emoji(e: Option<Seq<char>>) -> Option<Seq<char>> {
    match e {
        Some(v) => if trim(v).len() == 0 {
            None
        } else {
            Some(trim(v))
        },
        None => None,
    }
}

/// Whether `e` reports that `what` already exists.
pub open spec fn already_exists(e: AppError, what: Seq<char>) -> bool {
    e matches AppError::AlreadyExists(m) && m@ == what
}

/// The `group/preset` text that errors name a preset by.
pub open spec fn preset_label(group: Seq<char>, preset: Seq<char>) -> Seq<char> {
    group + "/"@ + preset
}

fn preset_label_exec(group: &str, preset: &str) -> (r: String)
    ensures
        r@ == preset_label(group@, preset@),
{
    let mut v: Vec<char> = Vec::new();
    crate::text::extend_str(&mut v, group);
    crate::text::extend_str(&mut v, "/");
    crate::text::extend_str(&mut v, preset);
    crate::text::string_of(&v)
}

/// `groups` with entry `i` replaced by `g`.
fn replace_group(groups: Vec<GroupMetadata>, i: usize, g: GroupMetadata) -> (r: Vec<GroupMetadata>)
    requires
        i < groups@.len(),
    ensures
        groups_view(r@) == groups_view(groups@).update(i as int, g@),
        r@.len() == groups@.len(),
{
    let mut groups = groups;
    let ghost before = groups@;
    groups.set(i, g);
    proof {
        assert forall|k: int| 0 <= k < groups@.len() implies #[trigger] groups_view(groups@)[k]
            == groups_view(before).update(i as int, g@)[k] by {
            if k != i {
                assert(groups@[k] == before[k]);
            }
        }
    }
    assert(groups_view(groups@) =~= groups_view(before).update(i as int, g@));
    groups
}

/// A copy of `presets` with entry `j` renamed to `name`.
fn rename_entry(presets: &Vec<PresetMetadata>, j: usize, name: String) -> (r: Vec<PresetMetadata>)
    requires
        j < presets@.len(),
    ensures
        presets_view(r@) == presets_view(presets@).update(
            j as int,
            PresetMeta { name: name@, order: presets@[j as int].order as nat },
        ),
{
    let mut ps = copy_presets(presets);
    let order = ps[j].order;
    let ghost before = ps@;
    ps.set(j, PresetMetadata { name, order });
    proof {
        assert forall|k: int| 0 <= k < ps@.len() implies #[trigger] presets_view(ps@)[k]
            == presets_view(presets@).update(
            j as int,
            PresetMeta { name: name@, order: presets@[j as int].order as nat },
        )[k] by {
            if k != j {
                assert(ps@[k] == before[k]);
            }
        }
    }
    assert(presets_view(ps@) =~= presets_view(presets@).update(
        j as int,
        PresetMeta { name: name@, order: presets@[j as int].order as nat },
    ));
    ps
}

/// A copy of `presets` without entry `j`.
fn remove_entry(presets: &Vec<PresetMetadata>, j: usize) -> (r: Vec<PresetMetadata>)
    requires
        j < presets@.len(),
    ensures
        presets_view(r@) == presets_view(presets@).remove(j as int),
{
    let mut ps = copy_presets(presets);
    ps.remove(j);
    assert(presets_view(ps@) =~= presets_view(presets@).remove(j as int));
    ps
}

/// A copy of `presets` with `entry` appended.
fn push_entry(presets: &Vec<PresetMetadata>, entry: PresetMetadata) -> (r: Vec<PresetMetadata>)
    ensures
        presets_view(r@) == presets_view(presets@).push(entry@),
{
    let mut ps = copy_presets(presets);
    ps.push(entry);
    assert(presets_view(ps@) =~= presets_view(presets@).push(entry@));
    ps
}

/// `a` with `from` replaced by `to` when it names `from`.
pub open spec fn renamed_active(a: Option<Seq<char>>, from: Seq<char>, to: Seq<char>) -> Option<Seq<char>> {
    if a == Some(from) {
        Some(to)
    } else {
        a
    }
}

/// `a`, cleared when it names `name`.
pub open spec fn dropped_active(a: Option<Seq<char>>, name: Seq<char>) -> Option<Seq<char>> {
    if a == Some(name) {
        None
    } else {
        a
    }
}

/// `gs` with preset `pi` taken out of group `oi`.
pub open spec fn taken_out(gs: Seq<GroupMeta>, oi: int, pi: int) -> Seq<GroupMeta> {
    gs.update(oi, with_presets(gs[oi], gs[oi].presets.remove(pi)))
}

/// `gs` after a preset taken out of group `oi` is moved into group `ni`:
/// when it crosses groups and was the active one, the activity follows it.
pub open spec fn activity_moved(
    gs: Seq<GroupMeta>,
    oi: int,
    ni: int,
    preset: Seq<char>,
    crosses: bool,
    was_active: bool,
) -> Seq<GroupMeta> {
    if crosses && was_active {
        let cleared_old = gs.update(oi, with_active(gs[oi], None));
        cleared_old.update(ni, with_active(cleared_old[ni], Some(preset)))
    } else {
        gs
    }
}

/// Where a moved preset lands in its new group of `len` presets (after it
/// left its old position `pi`): at `target_index`, or at the end; within
/// the same group a target behind the old position shifts down by one; the
/// slot is capped at the end.
pub open spec fn landing_slot(target_index: Option<usize>, len: nat, crosses: bool, pi: int) -> int {
    let slot0: int = match target_index {
        Some(t) => t as int,
        None => len as int,
    };
    let slot1: int = if !crosses && pi < slot0 {
        slot0 - 1
    } else {
        slot0
    };
    if slot1 < len {
        slot1
    } else {
        len as int
    }
}

/// The groups after preset `pi` of group `oi` (named `preset`) moves to
/// group `ni`.
pub open spec fn moved(
    gs: Seq<GroupMeta>,
    oi: int,
    ni: int,
    pi: int,
    preset: Seq<char>,
    crosses: bool,
    target_index: Option<usize>,
) -> Seq<GroupMeta> {
    let entry = gs[oi].presets[pi];
    let was_active = gs[oi].active_preset == Some(preset);
    let step = activity_moved(taken_out(gs, oi, pi), oi, ni, preset, crosses, was_active);
    let slot = landing_slot(target_index, step[ni].presets.len(), crosses, pi);
    step.update(ni, with_presets(step[ni], step[ni].presets.insert(slot, entry)))
}

/// A copy of `groups` with preset `pi` taken out of group `oi`.
fn take_out(groups: &Vec<GroupMetadata>, oi: usize, pi: usize) -> (r: Vec<GroupMetadata>)
    requires
        oi < groups@.len(),
        pi < groups@[oi as int].presets@.len(),
    ensures
        groups_view(r@) == taken_out(groups_view(groups@), oi as int, pi as int),
        r@.len() == groups@.len(),
{
    let mut og = groups[oi].copy();
    og.presets = remove_entry(&groups[oi].presets, pi);
    let r = replace_group(copy_groups(groups), oi, og);
    assert(groups_view(r@) =~= taken_out(groups_view(groups@), oi as int, pi as int));
    r
}

/// A copy of `groups` with preset `pi` of group `oi` moved into group `ni`.
#[verifier::rlimit(30)]
fn moved_groups(
    groups: &Vec<GroupMetadata>,
    oi: usize,
    ni: usize,
    pi: usize,
    preset_name: &str,
    crosses: bool,
    was_active: bool,
    target_index: Option<usize>,
) -> (r: Vec<GroupMetadata>)
    requires
        oi < groups@.len(),
        ni < groups@.len(),
        pi < groups@[oi as int].presets@.len(),
        crosses ==> oi != ni,
        !crosses ==> oi == ni,
        was_active == (groups_view(groups@)[oi as int].active_preset == Some(preset_name@)),
    ensures
        groups_view(r@) == moved(
            groups_view(groups@),
            oi as int,
            ni as int,
            pi as int,
            preset_name@,
            crosses,
            target_index,
        ),
{
    let ghost gs = groups_view(groups@);
    let entry = groups[oi].presets[pi].copy();
    assert(entry@ == gs[oi as int].presets[pi as int]);
    let mut groups2 = take_out(groups, oi, pi);
    let ghost step0 = taken_out(gs, oi as int, pi as int);
    if crosses && was_active {
        let mut a = groups2[oi].copy();
        a.active_preset = None;
        groups2 = replace_group(groups2, oi, a);
        let mut b = groups2[ni].copy();
        b.active_preset = Some(preset_name.to_owned());
        groups2 = replace_group(groups2, ni, b);
    }
    let ghost step = activity_moved(step0, oi as int, ni as int, preset_name@, crosses, was_active);
    assert(groups_view(groups2@) =~= step);
    let len = groups2[ni].presets.len();
    assert(len == step[ni as int].presets.len());
    let mut slot = match target_index {
        Some(t) => t,
        None => len,
    };
    if !crosses && pi < slot {
        slot = slot - 1;
    }
    if slot > len {
        slot = len;
    }
    assert(slot == landing_slot(target_index, step[ni as int].presets.len(), crosses, pi as int));
    let mut nb = groups2[ni].copy();
    let mut ps = copy_presets(&groups2[ni].presets);
    ps.insert(slot, entry);
    assert(presets_view(ps@) =~= step[ni as int].presets.insert(slot as int, gs[oi as int].presets[pi as int]));
    nb.presets = ps;
    let r = replace_group(groups2, ni, nb);
    assert(groups_view(r@) =~= moved(gs, oi as int, ni as int, pi as int, preset_name@, crosses, target_index));
    r
}

/// The views of a list of strings.
pub open spec fn strings_view(v: Seq<String>) -> Seq<Seq<char>> {
    v.map_values(|s: String| s@)
}

/// The position of `name` in `ordered`, or `ordered.len()` when absent.
pub open spec fn rank_of(ordered: Seq<Seq<char>>, name: Seq<char>) -> nat {
    first_where(ordered, |n: Seq<char>| n == name)
}

/// A rank is a position in the list that holds the name, or the list's end.
pub proof fn lemma_rank_of(ordered: Seq<Seq<char>>, name: Seq<char>)
    ensures
        rank_of(ordered, name) <= ordered.len(),
        rank_of(ordered, name) < ordered.len() ==> ordered[rank_of(ordered, name) as int] == name,
    decreases ordered.len(),
{
    if ordered.len() > 0 && ordered[0] != name {
        lemma_rank_of(ordered.drop_first(), name);
        assert(rank_of(ordered, name) == 1 + rank_of(ordered.drop_first(), name));
        if rank_of(ordered, name) < ordered.len() {
            assert(ordered[rank_of(ordered, name) as int] == ordered.drop_first()[rank_of(
                ordered.drop_first(),
                name,
            ) as int]);
        }
    }
}

/// Whether `ordered` can reorder `groups`: it has one name per group, and
/// every name it holds is a group's name.
pub open spec fn order_matches(groups: Seq<GroupMeta>, ordered: Seq<Seq<char>>) -> bool {
    ordered.len() == groups.len() && forall|k: int|
        0 <= k < ordered.len() ==> has_group(groups, #[trigger] ordered[k])
}

/// The groups whose name first appears at position `k` of `ordered`, in
/// their current order.
pub open spec fn at_rank(groups: Seq<GroupMeta>, ordered: Seq<Seq<char>>, k: int) -> Seq<GroupMeta> {
    groups.filter(|g: GroupMeta| rank_of(ordered, g.name) == k)
}

/// The groups ranked `k` or later by `ordered`, rank by rank, followed by the
/// groups that `ordered` does not name, each part in the current order.
pub open spec fn ranked_from(groups: Seq<GroupMeta>, ordered: Seq<Seq<char>>, k: nat) -> Seq<
    GroupMeta,
>
    decreases ordered.len() - k,
{
    if k >= ordered.len() {
        groups.filter(|g: GroupMeta| rank_of(ordered, g.name) >= ordered.len())
    } else {
        at_rank(groups, ordered, k as int) + ranked_from(groups, ordered, k + 1)
    }
}

/// `groups` stably sorted by the position of their names in `ordered`
/// (unnamed groups last).
pub open spec fn reordered(groups: Seq<GroupMeta>, ordered: Seq<Seq<char>>) -> Seq<GroupMeta> {
    ranked_from(groups, ordered, 0)
}

/// The position of `name` in `ordered`, or `ordered.len()`.
fn rank_of_exec(ordered: &Vec<String>, name: &str) -> (r: usize)
    ensures
        r == rank_of(strings_view(ordered@), name@),
{
    let ghost ov = strings_view(ordered@);
    let ghost p = |n: Seq<char>| n == name@;
    proof {
        lemma_first_where(ov, p);
    }
    let mut i: usize = 0;
    while i < ordered.len()
        invariant
            i <= ordered@.len() == ov.len(),
            ov == strings_view(ordered@),
            p == (|n: Seq<char>| n == name@),
            first_where(ov, p) <= ov.len(),
            first_where(ov, p) < ov.len() ==> p(ov[first_where(ov, p) as int]),
            forall|k: int| 0 <= k < first_where(ov, p) ==> !p(#[trigger] ov[k]),
            forall|k: int| 0 <= k < i ==> !p(#[trigger] ov[k]),
        decreases ordered.len() - i,
    {
        assert(ov[i as int] == ordered@[i as int]@);
        if str_eq(ordered[i].as_str(), name) {
            return i;
        }
        i = i + 1;
    }
    i
}

/// Appends the groups of `groups` whose rank in `ordered` is `k` (or, when
/// `k == ordered.len()`, at least `k`) to `out`.
fn push_ranked(
    out: &mut Vec<GroupMetadata>,
    groups: &Vec<GroupMetadata>,
    ordered: &Vec<String>,
    k: usize,
)
    requires
        k <= ordered@.len(),
    ensures
        final(out)@.len() >= old(out)@.len(),
        groups_view(final(out)@) == groups_view(old(out)@) + (if k < ordered@.len() {
            at_rank(groups_view(groups@), strings_view(ordered@), k as int)
        } else {
            groups_view(groups@).filter(
                |g: GroupMeta| rank_of(strings_view(ordered@), g.name) >= ordered@.len(),
            )
        }),
{
    let ghost gv = groups_view(groups@);
    let ghost ov = strings_view(ordered@);
    let ghost pred = if k < ordered@.len() {
        |g: GroupMeta| rank_of(ov, g.name) == k
    } else {
        |g: GroupMeta| rank_of(ov, g.name) >= ordered@.len()
    };
    let ghost start = groups_view(out@);
    assert(gv.take(0).filter(pred) =~= Seq::<GroupMeta>::empty()) by {
        reveal_with_fuel(Seq::<_>::filter, 1);
    }
    assert(start + gv.take(0).filter(pred) =~= start);
    let mut j: usize = 0;
    while j < groups.len()
        invariant
            j <= groups@.len() == gv.len(),
            gv == groups_view(groups@),
            ov == strings_view(ordered@),
            k <= ordered@.len(),
            pred == (if k < ordered@.len() {
                |g: GroupMeta| rank_of(ov, g.name) == k
            } else {
                |g: GroupMeta| rank_of(ov, g.name) >= ordered@.len()
            }),
            out@.len() >= old(out)@.len(),
            start == groups_view(old(out)@),
            groups_view(out@) == start + gv.take(j as int).filter(pred),
        decreases groups.len() - j,
    {
        proof {
            reveal_with_fuel(Seq::<_>::filter, 1);
            assert(gv.take(j + 1).drop_last() =~= gv.take(j as int));
            assert(gv.take(j + 1).last() == gv[j as int]);
        }
        let r = rank_of_exec(ordered, groups[j].name.as_str());
        assert(gv[j as int].name == groups@[j as int].name@);
        let keep = if k < ordered.len() {
            r == k
        } else {
            r >= ordered.len()
        };
        if keep {
            let g = groups[j].copy();
            let ghost before = out@;
            out.push(g);
            proof {
                assert(groups_view(out@) =~= groups_view(before).push(gv[j as int]));
                assert(groups_view(out@) =~= start + gv.take(j + 1).filter(pred));
            }
        } else {
            assert(groups_view(out@) =~= start + gv.take(j + 1).filter(pred));
        }
        j = j + 1;
    }
    assert(gv.take(gv.len() as int) =~= gv);
}

/// The name `base` followed by a space and the number `k`.
pub open spec fn suffixed(base: Seq<char>, k: nat) -> Seq<char> {
    base + seq![' '] + decimal(k)
}

/// The first suffix from `k` on whose name is free in `presets`; the search
/// stops at `presets.len() + 2`, where a free name is always found.
pub open spec fn free_suffix_from(presets: Seq<PresetMeta>, base: Seq<char>, k: nat) -> nat
    decreases presets.len() + 2 - k,
{
    if k >= presets.len() + 2 || !has_preset(presets, suffixed(base, k)) {
        k
    } else {
        free_suffix_from(presets, base, k + 1)
    }
}

/// `base` when no preset of `presets` has that name, else `base` followed by
/// the smallest number from 2 on that makes the name free.
pub open spec fn unique_name(presets: Seq<PresetMeta>, base: Seq<char>) -> Seq<char> {
    if !has_preset(presets, base) {
        base
    } else {
        suffixed(base, free_suffix_from(presets, base, 2))
    }
}

/// The name an imported file starts from: its sanitized stem, or
/// "Imported Preset" when it has none.
pub open spec fn import_base(stem: Option<Seq<char>>) -> Seq<char> {
    match stem {
        Some(s) => import_name(s),
        None => "Imported Preset"@,
    }
}

/// `presets` after importing files with the given stems, one after another.
pub open spec fn imported(presets: Seq<PresetMeta>, stems: Seq<Option<Seq<char>>>) -> Seq<
    PresetMeta,
>
    decreases stems.len(),
{
    if stems.len() == 0 {
        presets
    } else {
        let name = unique_name(presets, import_base(stems[0]));
        imported(presets.push(PresetMeta { name, order: presets.len() }), stems.drop_first())
    }
}

/// The names that importing files with the given stems gives them.
pub open spec fn imported_names(presets: Seq<PresetMeta>, stems: Seq<Option<Seq<char>>>) -> Seq<
    Seq<char>,
>
    decreases stems.len(),
{
    if stems.len() == 0 {
        Seq::empty()
    } else {
        let name = unique_name(presets, import_base(stems[0]));
        seq![name] + imported_names(
            presets.push(PresetMeta { name, order: presets.len() }),
            stems.drop_first(),
        )
    }
}

/// The views of a list of optional strings.
pub open spec fn opts_view(v: Seq<Option<String>>) -> Seq<Option<Seq<char>>> {
    v.map_values(|o: Option<String>| opt_view(o))
}

fn suffixed_exec(base: &str, k: u128) -> (r: String)
    ensures
        r@ == suffixed(base@, k as nat),
{
    let mut v: Vec<char> = Vec::new();
    crate::text::extend_str(&mut v, base);
    v.push(' ');
    crate::text::push_decimal(&mut v, k);
    assert(v@ =~= suffixed(base@, k as nat));
    crate::text::string_of(&v)
}

/// A name for a preset in `presets` that starts from `base_name`.
pub fn unique_preset_name(presets: &Vec<PresetMetadata>, base_name: &str) -> (r: String)
    ensures
        r@ == unique_name(presets_view(presets@), base_name@),
        !has_preset(presets_view(presets@), r@),
{
    let ghost pv = presets_view(presets@);
    proof {
        lemma_unique_name_is_free(pv, base_name@);
    }
    if find_preset(presets, base_name).is_none() {
        return base_name.to_owned();
    }
    let bound: u128 = presets.len() as u128 + 2;
    let mut suffix: u128 = 2;
    let mut candidate = suffixed_exec(base_name, suffix);
    while suffix < bound && find_preset(presets, candidate.as_str()).is_some()
        invariant
            2 <= suffix <= bound,
            bound == pv.len() + 2,
            pv == presets_view(presets@),
            candidate@ == suffixed(base_name@, suffix as nat),
            free_suffix_from(pv, base_name@, suffix as nat) == free_suffix_from(pv, base_name@, 2),
        decreases bound - suffix,
    {
        suffix = suffix + 1;
        candidate = suffixed_exec(base_name, suffix);
    }
    candidate
}

/// The suffixes tried before the one chosen all name taken presets; the
/// chosen one is free unless it is the bound.
proof fn lemma_free_suffix_from(presets: Seq<PresetMeta>, base: Seq<char>, k: nat)
    requires
        k <= presets.len() + 2,
    ensures
        k <= free_suffix_from(presets, base, k) <= presets.len() + 2,
        free_suffix_from(presets, base, k) < presets.len() + 2 ==> !has_preset(
            presets,
            suffixed(base, free_suffix_from(presets, base, k)),
        ),
        forall|j: nat|
            k <= j < free_suffix_from(presets, base, k) ==> has_preset(
                presets,
                #[trigger] suffixed(base, j),
            ),
    decreases presets.len() + 2 - k,
{
    if k < presets.len() + 2 && has_preset(presets, suffixed(base, k)) {
        lemma_free_suffix_from(presets, base, k + 1);
    }
}

/// Different suffixes give different names.
proof fn lemma_suffixed_injective(base: Seq<char>, a: nat, b: nat)
    requires
        suffixed(base, a) == suffixed(base, b),
    ensures
        a == b,
{
    let n = base.len() + 1;
    assert(suffixed(base, a).skip(n as int) =~= decimal(a));
    assert(suffixed(base, b).skip(n as int) =~= decimal(b));
    crate::text::lemma_decimal_injective(a, b);
}

/// A name made unique among `presets` is the name of none of them: of the
/// suffixes 2 to `presets.len() + 2`, at most `presets.len()` can be taken.
pub proof fn lemma_unique_name_is_free(presets: Seq<PresetMeta>, base: Seq<char>)
    ensures
        !has_preset(presets, unique_name(presets, base)),
{
    if has_preset(presets, base) {
        let n = presets.len();
        lemma_free_suffix_from(presets, base, 2);
        let k = free_suffix_from(presets, base, 2);
        if has_preset(presets, suffixed(base, k)) {
            let dom = vstd::set_lib::set_int_range(2, n + 3int);
            let f = |j: int| preset_pos(presets, suffixed(base, j as nat)) as int;
            assert forall|j: int| #[trigger] dom.contains(j) implies has_preset(
                presets,
                suffixed(base, j as nat),
            ) && 0 <= f(j) < n && presets[f(j)].name == suffixed(base, j as nat) by {
                if j < k {
                    assert(has_preset(presets, suffixed(base, j as nat)));
                }
                lemma_first_where(presets, |p: PresetMeta| p.name == suffixed(base, j as nat));
            }
            assert forall|a: int, b: int|
                dom.contains(a) && dom.contains(b) && #[trigger] f(a) == #[trigger] f(b) implies a
                == b by {
                lemma_suffixed_injective(base, a as nat, b as nat);
            }
            let img = dom.map(f);
            let range = vstd::set_lib::set_int_range(0, n as int);
            assert forall|i: int| #[trigger] img.contains(i) implies range.contains(i) by {
                let j = choose|j: int| dom.contains(j) && f(j) == i;
                assert(dom.contains(j));
            }
            vstd::set_lib::lemma_int_range(2, n + 3int);
            vstd::set_lib::lemma_int_range(0, n as int);
            vstd::set_lib::lemma_map_size(dom, img, f);
            vstd::set_lib::lemma_len_subset(img, range);
        }
    }
}

/// The groups after a preset file named `name` was saved in group `group`:
/// the preset is added when the group does not list it yet.
pub open spec fn saved_groups(gs: Seq<GroupMeta>, group: Seq<char>, name: Seq<char>) -> Seq<
    GroupMeta,
> {
    let i = group_pos(gs, group);
    let g = gs[i as int];
    settled(
        if has_preset(g.presets, name) {
            gs
        } else {
            gs.update(
                i as int,
                with_presets(g, g.presets.push(PresetMeta { name, order: g.presets.len() })),
            )
        },
    )
}

/// Groups with the same names in the same places give the same position
/// for every group name.
proof fn lemma_same_group_pos(a: Seq<GroupMeta>, b: Seq<GroupMeta>, name: Seq<char>)
    requires
        a.len() == b.len(),
        forall|k: int| 0 <= k < a.len() ==> (#[trigger] a[k]).name == b[k].name,
    ensures
        group_pos(a, name) == group_pos(b, name),
{
    lemma_first_where(a, |g: GroupMeta| g.name == name);
    lemma_first_where(b, |g: GroupMeta| g.name == name);
    let pa = group_pos(a, name) as int;
    let pb = group_pos(b, name) as int;
    if pa < pb {
        assert(a[pa].name == b[pa].name);
    } else if pb < pa {
        assert(a[pb].name == b[pb].name);
    }
}

/// Saving the same preset file twice leaves the metadata as saving it once:
/// after the first save the group lists the preset, so the second adds
/// nothing, and settled metadata stays as it is.
pub proof fn lemma_save_preset_idempotent(gs: Seq<GroupMeta>, group: Seq<char>, name: Seq<char>)
    requires
        has_group(gs, group),
    ensures
        saved_groups(saved_groups(gs, group, name), group, name) == saved_groups(gs, group, name),
{
    lemma_first_where(gs, |g: GroupMeta| g.name == group);
    let i = group_pos(gs, group) as int;
    let g = gs[i];
    let before = if has_preset(g.presets, name) {
        gs
    } else {
        gs.update(i, with_presets(g, g.presets.push(PresetMeta { name, order: g.presets.len() })))
    };
    let s1 = settled(before);
    lemma_settled_well_formed(before);
    lemma_settled_of_well_formed(s1);
    assert forall|k: int| 0 <= k < s1.len() implies (#[trigger] s1[k]).name == gs[k].name by {}
    lemma_same_group_pos(s1, gs, group);
    let ps = s1[i].presets;
    let j0: int = if has_preset(g.presets, name) {
        lemma_first_where(g.presets, |p: PresetMeta| p.name == name);
        preset_pos(g.presets, name) as int
    } else {
        g.presets.len() as int
    };
    assert(0 <= j0 < ps.len() && ps[j0].name == name);
    lemma_first_where(ps, |p: PresetMeta| p.name == name);
    assert(has_preset(ps, name));
}

/// The names of `groups`.
pub open spec fn group_names(groups: Seq<GroupMeta>) -> Seq<Seq<char>> {
    groups.map_values(|g: GroupMeta| g.name)
}

/// The names of `presets`.
pub open spec fn preset_names(presets: Seq<PresetMeta>) -> Seq<Seq<char>> {
    presets.map_values(|p: PresetMeta| p.name)
}

/// `acc` followed by the names of `xs` it does not hold yet, in order.
pub open spec fn append_missing(acc: Seq<Seq<char>>, xs: Seq<Seq<char>>) -> Seq<Seq<char>>
    decreases xs.len(),
{
    if xs.len() == 0 {
        acc
    } else {
        append_missing(
            if acc.contains(xs[0]) {
                acc
            } else {
                acc.push(xs[0])
            },
            xs.drop_first(),
        )
    }
}

/// The names in `known` that are still `found` (in their known order),
/// followed by the newly found ones (in the order found).
pub open spec fn kept_then_new(known: Seq<Seq<char>>, found: Seq<Seq<char>>) -> Seq<Seq<char>> {
    append_missing(known.filter(|n: Seq<char>| found.contains(n)), found)
}

/// Preset entries for `names`, numbered by position.
pub open spec fn numbered(names: Seq<Seq<char>>) -> Seq<PresetMeta> {
    Seq::new(names.len(), |j: int| PresetMeta { name: names[j], order: j as nat })
}

/// The views of the groups found on disk.
pub open spec fn disk_view(disk: Seq<DiskGroup>) -> Seq<(Seq<char>, Seq<Seq<char>>)> {
    disk.map_values(|d: DiskGroup| d@)
}

/// The preset files found on disk in the folder of group `name` (none
/// when there is no such folder).
pub open spec fn disk_presets(disk: Seq<(Seq<char>, Seq<Seq<char>>)>, name: Seq<char>) -> Seq<
    Seq<char>,
> {
    let di = first_where(disk, |d: (Seq<char>, Seq<Seq<char>>)| d.0 == name);
    if di < disk.len() {
        disk[di as int].1
    } else {
        Seq::empty()
    }
}

/// The group named `name`, at position `k`, as it is rebuilt from the
/// metadata `groups` and the folders on `disk`: its known presets that are
/// still on disk first, then the new ones; its emoji; and its active preset
/// while that is still on disk.
pub open spec fn synced_group(
    groups: Seq<GroupMeta>,
    disk: Seq<(Seq<char>, Seq<Seq<char>>)>,
    name: Seq<char>,
    k: int,
) -> GroupMeta {
    let gi = group_pos(groups, name);
    let known = if gi < groups.len() {
        preset_names(groups[gi as int].presets)
    } else {
        Seq::empty()
    };
    let found = disk_presets(disk, name);
    let names = kept_then_new(known, found);
    GroupMeta {
        name,
        order: k as nat,
        emoji: if gi < groups.len() {
            groups[gi as int].emoji
        } else {
            None
        },
        active_preset: if gi < groups.len() && groups[gi as int].active_preset is Some
            && names.contains(groups[gi as int].active_preset->0) {
            groups[gi as int].active_preset
        } else {
            None
        },
        presets: numbered(names),
    }
}

/// The groups rebuilt from the metadata and the folders on disk: the known
/// groups still on disk in their known order, then the new ones.
pub open spec fn synced(groups: Seq<GroupMeta>, disk: Seq<(Seq<char>, Seq<Seq<char>>)>) -> Seq<
    GroupMeta,
> {
    let names = kept_then_new(group_names(groups), disk.map_values(|d: (Seq<char>, Seq<Seq<char>>)| d.0));
    Seq::new(names.len(), |k: int| synced_group(groups, disk, names[k], k))
}

/// Whether `name` is among `names`.
fn names_contain(names: &Vec<String>, name: &str) -> (r: bool)
    ensures
        r == strings_view(names@).contains(name@),
{
    let mut i: usize = 0;
    while i < names.len()
        invariant
            i <= names@.len(),
            forall|k: int| 0 <= k < i ==> strings_view(names@)[k] != name@,
        decreases names.len() - i,
    {
        assert(strings_view(names@)[i as int] == names@[i as int]@);
        if str_eq(names[i].as_str(), name) {
            return true;
        }
        i = i + 1;
    }
    false
}

/// The names in `known` that are in `found`, then the names of `found` not
/// in that list yet.
fn kept_then_new_exec(known: &Vec<String>, found: &Vec<String>) -> (r: Vec<String>)
    ensures
        strings_view(r@) == kept_then_new(strings_view(known@), strings_view(found@)),
{
    let ghost kv = strings_view(known@);
    let ghost fv = strings_view(found@);
    let ghost pred = |n: Seq<char>| fv.contains(n);
    let mut acc: Vec<String> = Vec::new();
    let mut i: usize = 0;
    assert(strings_view(acc@) =~= kv.take(0).filter(pred)) by {
        reveal_with_fuel(Seq::<_>::filter, 1);
    }
    while i < known.len()
        invariant
            i <= known@.len(),
            kv == strings_view(known@),
            fv == strings_view(found@),
            pred == (|n: Seq<char>| fv.contains(n)),
            strings_view(acc@) == kv.take(i as int).filter(pred),
        decreases known.len() - i,
    {
        proof {
            reveal_with_fuel(Seq::<_>::filter, 1);
            assert(kv.take(i + 1).drop_last() =~= kv.take(i as int));
            assert(kv.take(i + 1).last() == known@[i as int]@);
        }
        if names_contain(found, known[i].as_str()) {
            let ghost before = strings_view(acc@);
            acc.push(known[i].clone());
            assert(strings_view(acc@) =~= before.push(known@[i as int]@));
        }
        i = i + 1;
    }
    assert(kv.take(kv.len() as int) =~= kv);
    let ghost base = strings_view(acc@);
    let mut j: usize = 0;
    assert(fv.skip(0) =~= fv);
    while j < found.len()
        invariant
            j <= found@.len(),
            fv == strings_view(found@),
            append_missing(strings_view(acc@), fv.skip(j as int)) == append_missing(base, fv),
        decreases found.len() - j,
    {
        let ghost rest = fv.skip(j as int);
        assert(rest[0] == found@[j as int]@);
        assert(rest.drop_first() =~= fv.skip(j + 1));
        if !names_contain(&acc, found[j].as_str()) {
            let ghost before = strings_view(acc@);
            acc.push(found[j].clone());
            assert(strings_view(acc@) =~= before.push(found@[j as int]@));
        }
        j = j + 1;
    }
    assert(fv.skip(j as int) =~= Seq::<Seq<char>>::empty());
    acc
}

fn group_names_exec(groups: &Vec<GroupMetadata>) -> (r: Vec<String>)
    ensures
        strings_view(r@) == group_names(groups_view(groups@)),
{
    let mut r: Vec<String> = Vec::new();
    let mut i: usize = 0;
    while i < groups.len()
        invariant
            i <= groups@.len(),
            strings_view(r@) == group_names(groups_view(groups@)).take(i as int),
        decreases groups.len() - i,
    {
        let ghost before = strings_view(r@);
        r.push(groups[i].name.clone());
        assert(strings_view(r@) =~= before.push(groups@[i as int].name@));
        i = i + 1;
        assert(strings_view(r@) =~= group_names(groups_view(groups@)).take(i as int));
    }
    assert(group_names(groups_view(groups@)).take(i as int) =~= group_names(groups_view(groups@)));
    r
}

fn preset_names_exec(presets: &Vec<PresetMetadata>) -> (r: Vec<String>)
    ensures
        strings_view(r@) == preset_names(presets_view(presets@)),
{
    let mut r: Vec<String> = Vec::new();
    let mut i: usize = 0;
    while i < presets.len()
        invariant
            i <= presets@.len(),
            strings_view(r@) == preset_names(presets_view(presets@)).take(i as int),
        decreases presets.len() - i,
    {
        let ghost before = strings_view(r@);
        r.push(presets[i].name.clone());
        assert(strings_view(r@) =~= before.push(presets@[i as int].name@));
        i = i + 1;
        assert(strings_view(r@) =~= preset_names(presets_view(presets@)).take(i as int));
    }
    assert(preset_names(presets_view(presets@)).take(i as int) =~= preset_names(
        presets_view(presets@),
    ));
    r
}

fn disk_names_exec(disk: &Vec<DiskGroup>) -> (r: Vec<String>)
    ensures
        strings_view(r@) == disk_view(disk@).map_values(|d: (Seq<char>, Seq<Seq<char>>)| d.0),
{
    let ghost target = disk_view(disk@).map_values(|d: (Seq<char>, Seq<Seq<char>>)| d.0);
    let mut r: Vec<String> = Vec::new();
    let mut i: usize = 0;
    while i < disk.len()
        invariant
            i <= disk@.len(),
            target == disk_view(disk@).map_values(|d: (Seq<char>, Seq<Seq<char>>)| d.0),
            strings_view(r@) == target.take(i as int),
        decreases disk.len() - i,
    {
        let ghost before = strings_view(r@);
        r.push(disk[i].name.clone());
        assert(strings_view(r@) =~= before.push(disk@[i as int].name@));
        i = i + 1;
        assert(strings_view(r@) =~= target.take(i as int));
    }
    assert(target.take(i as int) =~= target);
    r
}

fn find_disk(disk: &Vec<DiskGroup>, name: &str) -> (r: Option<usize>)
    ensures
        ({
            let dv = disk_view(disk@);
            let di = first_where(dv, |d: (Seq<char>, Seq<Seq<char>>)| d.0 == name@);
            match r {
                Some(i) => i == di && i < dv.len(),
                None => di == dv.len(),
            }
        }),
{
    let ghost dv = disk_view(disk@);
    let ghost p = |d: (Seq<char>, Seq<Seq<char>>)| d.0 == name@;
    proof {
        lemma_first_where(dv, p);
    }
    let mut i: usize = 0;
    while i < disk.len()
        invariant
            i <= disk@.len() == dv.len(),
            dv == disk_view(disk@),
            p == (|d: (Seq<char>, Seq<Seq<char>>)| d.0 == name@),
            first_where(dv, p) <= dv.len(),
            first_where(dv, p) < dv.len() ==> p(dv[first_where(dv, p) as int]),
            forall|k: int| 0 <= k < first_where(dv, p) ==> !p(#[trigger] dv[k]),
            forall|k: int| 0 <= k < i ==> !p(#[trigger] dv[k]),
        decreases disk.len() - i,
    {
        assert(dv[i as int].0 == disk@[i as int].name@);
        if str_eq(disk[i].name.as_str(), name) {
            return Some(i);
        }
        i = i + 1;
    }
    None
}

fn numbered_exec(names: &Vec<String>) -> (r: Vec<PresetMetadata>)
    ensures
        presets_view(r@) == numbered(strings_view(names@)),
{
    let mut r: Vec<PresetMetadata> = Vec::new();
    let mut j: usize = 0;
    while j < names.len()
        invariant
            j <= names@.len(),
            presets_view(r@) == numbered(strings_view(names@)).take(j as int),
        decreases names.len() - j,
    {
        let ghost before = presets_view(r@);
        r.push(PresetMetadata { name: names[j].clone(), order: j });
        assert(presets_view(r@) =~= before.push(PresetMeta { name: names@[j as int]@, order: j as nat }));
        j = j + 1;
        assert(presets_view(r@) =~= numbered(strings_view(names@)).take(j as int));
    }
    assert(numbered(strings_view(names@)).take(j as int) =~= numbered(strings_view(names@)));
    r
}

/// The group named `name` rebuilt from `groups` and `disk`, at position `k`.
fn synced_group_exec(
    groups: &Vec<GroupMetadata>,
    disk: &Vec<DiskGroup>,
    name: &String,
    k: usize,
) -> (r: GroupMetadata)
    ensures
        r@ == synced_group(groups_view(groups@), disk_view(disk@), name@, k as int),
{
    let ghost gv = groups_view(groups@);
    let ghost dv = disk_view(disk@);
    let gi = find_group(groups, name.as_str());
    let di = find_disk(disk, name.as_str());
    let found: Vec<String> = match di {
        Some(d) => disk[d].presets.clone(),
        None => Vec::new(),
    };
    assert(strings_view(found@) == (if first_where(dv, |d: (Seq<char>, Seq<Seq<char>>)| d.0 == name@) < dv.len() {
        dv[first_where(dv, |d: (Seq<char>, Seq<Seq<char>>)| d.0 == name@) as int].1
    } else {
        Seq::<Seq<char>>::empty()
    })) by {
        if di.is_none() {
            assert(strings_view(found@) =~= Seq::<Seq<char>>::empty());
        }
    }
    let known: Vec<String> = match gi {
        Some(g) => preset_names_exec(&groups[g].presets),
        None => Vec::new(),
    };
    assert(strings_view(known@) =~= (if group_pos(gv, name@) < gv.len() {
        preset_names(gv[group_pos(gv, name@) as int].presets)
    } else {
        Seq::<Seq<char>>::empty()
    }));
    let names = kept_then_new_exec(&known, &found);
    let (emoji, active) = match gi {
        Some(g) => {
            let emoji = copy_opt(&groups[g].emoji);
            let active = match &groups[g].active_preset {
                Some(a) => if names_contain(&names, a.as_str()) {
                    Some(a.clone())
                } else {
                    None
                },
                None => None,
            };
            (emoji, active)
        },
        None => (None, None),
    };
    let presets = numbered_exec(&names);
    let r = GroupMetadata { name: name.clone(), order: k, emoji, active_preset: active, presets };
    assert(r@ =~= synced_group(gv, dv, name@, k as int));
    r
}

/// The view of a preset file as read: its content and convolution.
pub type FileView = Option<(Seq<char>, Option<ConvolutionView>)>;

/// The content of a file that was read.
pub open spec fn file_content(f: FileView) -> Seq<char> {
    match f {
        Some((c, _)) => c,
        None => Seq::empty(),
    }
}

/// The convolution reference of a file that was read.
pub open spec fn file_convolution(f: FileView) -> Option<ConvolutionView> {
    match f {
        Some((_, v)) => v,
        None => None,
    }
}

/// The views of the files read for one group's presets.
pub open spec fn row_view(row: Seq<Option<PresetFileSnapshot>>) -> Seq<FileView> {
    row.map_values(|f: Option<PresetFileSnapshot>| file_view(f))
}

/// The views of the files read for every group.
pub open spec fn files_view(files: Seq<Vec<Option<PresetFileSnapshot>>>) -> Seq<Seq<FileView>> {
    files.map_values(|row: Vec<Option<PresetFileSnapshot>>| row_view(row@))
}

/// The first `n` presets of a group as shown: those whose file was read,
/// each with its position in the group as its order.
pub open spec fn shown_presets(presets: Seq<PresetMeta>, row: Seq<FileView>, n: nat) -> Seq<
    PresetItemView,
>
    decreases n,
{
    if n == 0 {
        Seq::empty()
    } else {
        let j = n - 1;
        shown_presets(presets, row, (n - 1) as nat) + if j < row.len() && row[j] is Some {
            seq![
                PresetItemView {
                    name: presets[j].name,
                    order: j as nat,
                    content: file_content(row[j]),
                    convolution: file_convolution(row[j]),
                },
            ]
        } else {
            Seq::empty()
        }
    }
}

/// A group as shown, at position `i`, with the files read for it.
pub open spec fn shown_group(g: GroupMeta, i: int, row: Seq<FileView>) -> PresetGroupView {
    PresetGroupView {
        name: g.name,
        order: i as nat,
        emoji: g.emoji,
        active_preset: g.active_preset,
        presets: shown_presets(g.presets, row, g.presets.len()),
    }
}

/// The library as shown, given the files read for each group's presets
/// (`None` where a file does not exist) and whether the config folder needs
/// to move to a writable place.
pub open spec fn library_view(
    s: LibraryState,
    files: Seq<Seq<FileView>>,
    needs_config_migration: bool,
) -> PresetLibraryView {
    PresetLibraryView {
        app_data_dir: s.app_data_dir,
        config_path: s.current_config_path,
        default_config_path: s.default_config_path,
        installed_config_path: s.detected_install_config_path,
        groups: Seq::new(
            s.metadata.groups.len(),
            |i: int|
                shown_group(
                    s.metadata.groups[i],
                    i,
                    if i < files.len() {
                        files[i]
                    } else {
                        Seq::empty()
                    },
                ),
        ),
        needs_config_migration,
        config_path_prompted: s.metadata.config_path_prompted,
        eq_disabled: s.metadata.eq_disabled,
    }
}

/// A group as shown, built from its metadata and the files read for it.
fn shown_group_exec(
    g: &GroupMetadata,
    i: usize,
    files: &Vec<Vec<Option<PresetFileSnapshot>>>,
) -> (r: PresetGroup)
    ensures
        r@ == shown_group(
            g@,
            i as int,
            if i < files@.len() {
                row_view(files@[i as int]@)
            } else {
                Seq::empty()
            },
        ),
{
    let empty: Vec<Option<PresetFileSnapshot>> = Vec::new();
    let row = if i < files.len() {
        &files[i]
    } else {
        &empty
    };
    let ghost rv = row_view(row@);
    assert(rv == (if i < files@.len() {
        row_view(files@[i as int]@)
    } else {
        Seq::<FileView>::empty()
    })) by {
        if i >= files@.len() {
            assert(row_view(empty@) =~= Seq::<FileView>::empty());
        }
    }
    let mut items: Vec<PresetItem> = Vec::new();
    let mut j: usize = 0;
    while j < g.presets.len()
        invariant
            j <= g.presets@.len(),
            rv == row_view(row@),
            items@.map_values(|p: PresetItem| p@) == shown_presets(g@.presets, rv, j as nat),
        decreases g.presets.len() - j,
    {
        let ghost before = items@.map_values(|p: PresetItem| p@);
        if j < row.len() {
            match &row[j] {
                Some(file) => {
                    let item = PresetItem {
                        name: g.presets[j].name.clone(),
                        order: j,
                        content: file.content.clone(),
                        convolution: copy_convolution(&file.convolution),
                    };
                    items.push(item);
                    assert(rv[j as int] == file_view(row@[j as int]));
                    assert(items@.map_values(|p: PresetItem| p@) =~= before.push(item@));
                },
                None => {
                    assert(rv[j as int] == file_view(row@[j as int]));
                },
            }
        }
        j = j + 1;
        assert(items@.map_values(|p: PresetItem| p@) =~= shown_presets(g@.presets, rv, j as nat));
    }
    let r = PresetGroup {
        name: g.name.clone(),
        order: i,
        emoji: copy_opt(&g.emoji),
        active_preset: copy_opt(&g.active_preset),
        presets: items,
    };
    assert(r@ =~= shown_group(g@, i as int, rv));
    r
}

/// The error text when Equalizer APO reads another config folder than the
/// one requested.
pub open spec fn config_path_mismatch(actual: Seq<char>, requested: Seq<char>) -> Seq<char> {
    "Equalizer APO ConfigPath was updated to '"@ + actual + "', but the requested path was '"@
        + requested + "'. This may indicate another process modified the registry."@
}

impl AppStateInner {
    #[verifier::type_invariant]
    closed spec fn inv(self) -> bool {
        well_formed(groups_view(self.metadata.groups@))
    }

    /// Keeps `groups`, settled, as the library's groups.
    fn commit_groups(&mut self, groups: Vec<GroupMetadata>)
        ensures
            final(self)@ == with_metadata(
                old(self)@,
                with_groups(old(self)@.metadata, settled(groups_view(groups@))),
            ),
    {
        let settled_groups = settle(groups);
        proof {
            lemma_settled_well_formed(groups_view(groups@));
        }
        self.metadata.groups = settled_groups;
    }

    /// A library over the given paths and metadata; the metadata is settled
    /// first.
    pub fn new(
        app_data_dir: String,
        presets_dir: String,
        metadata_path: String,
        default_config_path: String,
        current_config_path: String,
        detected_install_config_path: Option<String>,
        metadata: PresetsMetadata,
    ) -> (r: Self)
        ensures
            r@.app_data_dir == app_data_dir@,
            r@.presets_dir == presets_dir@,
            r@.metadata_path == metadata_path@,
            r@.default_config_path == default_config_path@,
            r@.current_config_path == current_config_path@,
            r@.detected_install_config_path == opt_view(detected_install_config_path),
            r@.metadata == with_groups(metadata@, settled(metadata@.groups)),
            r@.tray_targets.len() == 0,
    {
        let PresetsMetadata { config_path_prompted, eq_disabled, groups } = metadata;
        let groups = settle(groups);
        proof {
            lemma_settled_well_formed(groups_view(groups@));
            lemma_settled_well_formed(metadata@.groups);
        }
        let r = AppStateInner {
            app_data_dir,
            presets_dir,
            metadata_path,
            default_config_path,
            current_config_path,
            detected_install_config_path,
            metadata: PresetsMetadata { config_path_prompted, eq_disabled, groups },
            tray_menu_targets: Vec::new(),
        };
        assert(r@.tray_targets =~= Seq::empty());
        r
    }

    /// The folder Equalizer APO reads its config from.
    pub fn get_config_path(&self) -> (r: String)
        ensures
            r@ == self@.current_config_path,
    {
        self.current_config_path.clone()
    }

    /// The writable config folder the library manages by default.
    pub fn default_config_path_string(&self) -> (r: String)
        ensures
            r@ == self@.default_config_path,
    {
        self.default_config_path.clone()
    }

    /// The library's data folder.
    pub fn app_data_dir(&self) -> (r: &String)
        ensures
            r@ == self@.app_data_dir,
    {
        &self.app_data_dir
    }

    /// The folder that holds one folder of preset files per group.
    pub fn presets_dir(&self) -> (r: &String)
        ensures
            r@ == self@.presets_dir,
    {
        &self.presets_dir
    }

    /// The file the metadata is persisted to.
    pub fn metadata_path(&self) -> (r: &String)
        ensures
            r@ == self@.metadata_path,
    {
        &self.metadata_path
    }

    /// The config folder of the Equalizer APO installation, when one was found.
    pub fn detected_install_config_path(&self) -> (r: &Option<String>)
        ensures
            opt_view(*r) == self@.detected_install_config_path,
    {
        &self.detected_install_config_path
    }

    /// The metadata, as it is persisted.
    pub fn metadata(&self) -> (r: &PresetsMetadata)
        ensures
            r@ == self@.metadata,
            well_formed(r@.groups),
    {
        proof {
            use_type_invariant(self);
        }
        &self.metadata
    }

    /// Whether the equalizer is bypassed.
    pub fn is_eq_disabled(&self) -> (r: bool)
        ensures
            r == self@.metadata.eq_disabled,
    {
        self.metadata.eq_disabled
    }

    /// Records whether the user was asked about moving the config path.
    pub fn mark_config_path_prompted(&mut self, prompted: bool)
        ensures
            final(self)@ == with_metadata(
                old(self)@,
                MetadataModel { config_path_prompted: prompted, ..old(self)@.metadata },
            ),
    {
        proof {
            use_type_invariant(&*self);
        }
        self.metadata.config_path_prompted = prompted;
    }

    /// Whether the user should be asked to move Equalizer APO's config path
    /// to the library's writable folder: not asked yet, the current path is
    /// another folder, and it cannot be written.
    pub fn should_prompt_for_config_migration(&self, config_path_writable: bool) -> (r: bool)
        ensures
            r == (!self@.metadata.config_path_prompted && self@.current_config_path
                != self@.default_config_path && !config_path_writable),
    {
        !self.metadata.config_path_prompted && !str_eq(
            self.current_config_path.as_str(),
            self.default_config_path.as_str(),
        ) && !config_path_writable
    }

    /// The group and preset that are active, if any.
    pub fn active_selection(&self) -> (r: Option<(String, String)>)
        ensures
            r is Some <==> exists|i: int|
                0 <= i < self@.metadata.groups.len()
                    && (#[trigger] self@.metadata.groups[i]).active_preset is Some,
            r matches Some((g, p)) ==> {
                let k = first_where(self@.metadata.groups, |m: GroupMeta| m.active_preset is Some);
                &&& k < self@.metadata.groups.len()
                &&& g@ == self@.metadata.groups[k as int].name
                &&& Some(p@) == self@.metadata.groups[k as int].active_preset
            },
    {
        let ghost gv = self@.metadata.groups;
        let ghost pred = |m: GroupMeta| m.active_preset is Some;
        proof {
            lemma_first_where(gv, pred);
        }
        let mut i: usize = 0;
        while i < self.metadata.groups.len()
            invariant
                i <= self.metadata.groups@.len() == gv.len(),
                gv == self@.metadata.groups,
                gv == groups_view(self.metadata.groups@),
                pred == (|m: GroupMeta| m.active_preset is Some),
                first_where(gv, pred) <= gv.len(),
                first_where(gv, pred) < gv.len() ==> pred(gv[first_where(gv, pred) as int]),
                forall|k: int| 0 <= k < first_where(gv, pred) ==> !pred(#[trigger] gv[k]),
                forall|k: int| 0 <= k < i ==> !pred(#[trigger] gv[k]),
            decreases self.metadata.groups.len() - i,
        {
            let g = &self.metadata.groups[i];
            assert(gv[i as int] == g@);
            if let Some(p) = &g.active_preset {
                return Some((g.name.clone(), p.clone()));
            }
            i = i + 1;
        }
        None
    }

    /// Checks that `group_name` names a group and returns its position.
    pub fn require_group(&self, group_name: &str) -> (r: Result<usize, AppError>)
        ensures
            match r {
                Ok(i) => i == group_pos(self@.metadata.groups, group_name@) && has_group(
                    self@.metadata.groups,
                    group_name@,
                ) && self@.metadata.groups[i as int].name == group_name@,
                Err(e) => !has_group(self@.metadata.groups, group_name@) && group_not_found(
                    e,
                    group_name@,
                ),
            },
    {
        proof {
            lemma_first_where(self@.metadata.groups, |g: GroupMeta| g.name == group_name@);
        }
        match find_group(&self.metadata.groups, group_name) {
            Some(i) => Ok(i),
            None => Err(AppError::GroupNotFound(group_name.to_owned())),
        }
    }

    /// Checks that `group_name` names a group that holds a preset named
    /// `preset_name`.
    pub fn require_preset(&self, group_name: &str, preset_name: &str) -> (r: Result<
        (usize, usize),
        AppError,
    >)
        ensures
            match r {
                Ok((i, j)) => {
                    &&& has_group(self@.metadata.groups, group_name@)
                    &&& i == group_pos(self@.metadata.groups, group_name@)
                    &&& has_preset(self@.metadata.groups[i as int].presets, preset_name@)
                    &&& j == preset_pos(self@.metadata.groups[i as int].presets, preset_name@)
                },
                Err(e) => preset_lookup_error(self@.metadata.groups, group_name@, preset_name@, e),
            },
    {
        let i = self.require_group(group_name)?;
        assert(self.metadata.groups@[i as int]@ == self@.metadata.groups[i as int]);
        match find_preset(&self.metadata.groups[i].presets, preset_name) {
            Some(j) => Ok((i, j)),
            None => Err(
                AppError::PresetNotFound {
                    group: group_name.to_owned(),
                    name: preset_name.to_owned(),
                },
            ),
        }
    }

    /// Makes `preset_name` in `group_name` the only active preset and turns
    /// the equalizer back on.
    pub fn apply_preset(&mut self, group_name: &str, preset_name: &str) -> (r: Result<
        (),
        AppError,
    >)
        ensures
            match r {
                Ok(()) => {
                    let i = group_pos(old(self)@.metadata.groups, group_name@);
                    &&& has_group(old(self)@.metadata.groups, group_name@)
                    &&& has_preset(old(self)@.metadata.groups[i as int].presets, preset_name@)
                    &&& final(self)@ == with_metadata(
                        old(self)@,
                        MetadataModel {
                            eq_disabled: false,
                            groups: settled(
                                applied(old(self)@.metadata.groups, i as int, preset_name@),
                            ),
                            ..old(self)@.metadata
                        },
                    )
                },
                Err(e) => final(self)@ == old(self)@ && preset_lookup_error(
                    old(self)@.metadata.groups,
                    group_name@,
                    preset_name@,
                    e,
                ),
            },
    {
        let (i, _j) = self.require_preset(group_name, preset_name)?;
        proof {
            use_type_invariant(&*self);
        }
        let mut groups = cleared_groups(&self.metadata.groups);
        let mut g = groups[i].copy();
        g.active_preset = Some(preset_name.to_owned());
        let ghost before_set = groups@;
        groups.set(i, g);
        proof {
            let ov = old(self)@.metadata.groups;
            assert(groups_view(self.metadata.groups@) == ov);
            assert(groups_view(groups@) =~= applied(ov, i as int, preset_name@)) by {
                assert forall|k: int| 0 <= k < groups@.len() implies #[trigger] groups_view(groups@)[k]
                    == applied(ov, i as int, preset_name@)[k] by {
                    assert(before_set.len() == groups@.len());
                    if k != i {
                        assert(groups@[k] == before_set[k]);
                    } else {
                        assert(before_set[k]@ == cleared(ov)[k]);
                        assert(groups@[k]@ =~= with_active(ov[k], Some(preset_name@)));
                    }
                }
            }
        }
        let groups = settle(groups);
        proof {
            lemma_settled_well_formed(groups_view(groups@));
        }
        self.metadata.groups = groups;
        self.metadata.eq_disabled = false;
        Ok(())
    }

    /// Turns the equalizer bypass on or off; bypassing clears the active
    /// preset.
    pub fn set_eq_disabled(&mut self, disabled: bool)
        ensures
            final(self)@ == with_metadata(
                old(self)@,
                MetadataModel {
                    eq_disabled: disabled,
                    groups: settled(
                        if disabled {
                            cleared(old(self)@.metadata.groups)
                        } else {
                            old(self)@.metadata.groups
                        },
                    ),
                    ..old(self)@.metadata
                },
            ),
    {
        let groups = if disabled {
            cleared_groups(&self.metadata.groups)
        } else {
            copy_groups(&self.metadata.groups)
        };
        self.commit_groups(groups);
        proof {
            use_type_invariant(&*self);
        }
        self.metadata.eq_disabled = disabled;
    }

    /// Adds an empty group; returns its name (the given name, trimmed).
    pub fn create_group(&mut self, name: &str) -> (r: Result<String, AppError>)
        ensures
            match r {
                Ok(v) => {
                    &&& is_valid_name(name@)
                    &&& v@ == trim(name@)
                    &&& !has_group(old(self)@.metadata.groups, v@)
                    &&& final(self)@ == with_metadata(
                        old(self)@,
                        with_groups(
                            old(self)@.metadata,
                            settled(
                                old(self)@.metadata.groups.push(
                                    fresh_group(v@, old(self)@.metadata.groups.len()),
                                ),
                            ),
                        ),
                    )
                },
                Err(e) => {
                    &&& final(self)@ == old(self)@
                    &&& if !is_valid_name(name@) {
                        validated(name@, Err(e))
                    } else {
                        has_group(old(self)@.metadata.groups, trim(name@)) && already_exists(
                            e,
                            trim(name@),
                        )
                    }
                },
            },
    {
        let valid_name = validate_name(name)?;
        if find_group(&self.metadata.groups, valid_name.as_str()).is_some() {
            return Err(AppError::AlreadyExists(valid_name));
        }
        let mut groups = copy_groups(&self.metadata.groups);
        let order = groups.len();
        let entry = GroupMetadata {
            name: valid_name.clone(),
            order,
            emoji: None,
            active_preset: None,
            presets: Vec::new(),
        };
        assert(entry@.presets =~= Seq::<PresetMeta>::empty());
        assert(entry@ =~= fresh_group(valid_name@, old(self)@.metadata.groups.len()));
        let ghost before = groups@;
        groups.push(entry);
        proof {
            assert forall|k: int| 0 <= k < before.len() implies #[trigger] groups_view(groups@)[k]
                == groups_view(before)[k] by {
                assert(groups@[k] == before[k]);
            }
        }
        assert(groups_view(groups@) =~= old(self)@.metadata.groups.push(
            fresh_group(valid_name@, old(self)@.metadata.groups.len()),
        ));
        self.commit_groups(groups);
        Ok(valid_name)
    }

    /// Renames a group; returns the new name (trimmed).
    pub fn rename_group(&mut self, old_name: &str, new_name: &str) -> (r: Result<
        String,
        AppError,
    >)
        ensures
            match r {
                Ok(v) => {
                    let gs = old(self)@.metadata.groups;
                    let i = group_pos(gs, old_name@);
                    &&& is_valid_name(new_name@)
                    &&& v@ == trim(new_name@)
                    &&& has_group(gs, old_name@)
                    &&& !has_group(gs, v@)
                    &&& final(self)@ == with_metadata(
                        old(self)@,
                        with_groups(
                            old(self)@.metadata,
                            settled(gs.update(i as int, with_name(gs[i as int], v@))),
                        ),
                    )
                },
                Err(e) => {
                    let gs = old(self)@.metadata.groups;
                    &&& final(self)@ == old(self)@
                    &&& if !is_valid_name(new_name@) {
                        validated(new_name@, Err(e))
                    } else if !has_group(gs, old_name@) {
                        group_not_found(e, old_name@)
                    } else {
                        has_group(gs, trim(new_name@)) && already_exists(e, trim(new_name@))
                    }
                },
            },
    {
        let new_name = validate_name(new_name)?;
        let i = self.require_group(old_name)?;
        if find_group(&self.metadata.groups, new_name.as_str()).is_some() {
            return Err(AppError::AlreadyExists(new_name));
        }
        let mut g = self.metadata.groups[i].copy();
        g.name = new_name.clone();
        let groups = replace_group(copy_groups(&self.metadata.groups), i, g);
        assert(groups_view(groups@) =~= old(self)@.metadata.groups.update(
            i as int,
            with_name(old(self)@.metadata.groups[i as int], new_name@),
        ));
        self.commit_groups(groups);
        Ok(new_name)
    }

    /// Sets or clears a group's emoji (kept trimmed; a blank emoji clears it).
    pub fn set_group_emoji(&mut self, group_name: &str, emoji: Option<String>) -> (r: Result<
        (),
        AppError,
    >)
        ensures
            match r {
                Ok(()) => {
                    let gs = old(self)@.metadata.groups;
                    let i = group_pos(gs, group_name@);
                    &&& has_group(gs, group_name@)
                    &&& final(self)@ == with_metadata(
                        old(self)@,
                        with_groups(
                            old(self)@.metadata,
                            settled(
                                gs.update(
                                    i as int,
                                    with_emoji(gs[i as int], normalized_emoji(opt_view(emoji))),
                                ),
                            ),
                        ),
                    )
                },
                Err(e) => final(self)@ == old(self)@ && !has_group(
                    old(self)@.metadata.groups,
                    group_name@,
                ) && group_not_found(e, group_name@),
            },
    {
        let i = self.require_group(group_name)?;
        let normalized = match emoji {
            Some(value) => {
                let t = trim_str(value.as_str());
                if t.as_str().is_empty() {
                    None
                } else {
                    Some(t)
                }
            },
            None => None,
        };
        assert(opt_view(normalized) == normalized_emoji(opt_view(emoji)));
        let mut g = self.metadata.groups[i].copy();
        g.emoji = normalized;
        let groups = replace_group(copy_groups(&self.metadata.groups), i, g);
        assert(groups_view(groups@) =~= old(self)@.metadata.groups.update(
            i as int,
            with_emoji(old(self)@.metadata.groups[i as int], normalized_emoji(opt_view(emoji))),
        ));
        self.commit_groups(groups);
        Ok(())
    }

    /// Removes a group.
    pub fn delete_group(&mut self, name: &str) -> (r: Result<(), AppError>)
        ensures
            match r {
                Ok(()) => {
                    let gs = old(self)@.metadata.groups;
                    &&& has_group(gs, name@)
                    &&& final(self)@ == with_metadata(
                        old(self)@,
                        with_groups(
                            old(self)@.metadata,
                            settled(gs.remove(group_pos(gs, name@) as int)),
                        ),
                    )
                },
                Err(e) => final(self)@ == old(self)@ && !has_group(
                    old(self)@.metadata.groups,
                    name@,
                ) && group_not_found(e, name@),
            },
    {
        let i = self.require_group(name)?;
        let mut groups = copy_groups(&self.metadata.groups);
        groups.remove(i);
        assert(groups_view(groups@) =~= old(self)@.metadata.groups.remove(i as int));
        self.commit_groups(groups);
        Ok(())
    }

    /// Adds a preset to a group. Returns the preset's name (trimmed) and the
    /// content its file starts with (the given content, or empty).
    pub fn create_preset(
        &mut self,
        group_name: &str,
        preset_name: &str,
        content: Option<String>,
    ) -> (r: Result<(String, String), AppError>)
        ensures
            match r {
                Ok((v, c)) => {
                    let gs = old(self)@.metadata.groups;
                    let i = group_pos(gs, group_name@);
                    &&& is_valid_name(preset_name@)
                    &&& v@ == trim(preset_name@)
                    &&& has_group(gs, group_name@)
                    &&& !has_preset(gs[i as int].presets, v@)
                    &&& c@ == match content {
                        Some(c) => c@,
                        None => Seq::<char>::empty(),
                    }
                    &&& final(self)@ == with_metadata(
                        old(self)@,
                        with_groups(
                            old(self)@.metadata,
                            settled(
                                gs.update(
                                    i as int,
                                    with_presets(
                                        gs[i as int],
                                        gs[i as int].presets.push(
                                            PresetMeta {
                                                name: v@,
                                                order: gs[i as int].presets.len(),
                                            },
                                        ),
                                    ),
                                ),
                            ),
                        ),
                    )
                },
                Err(e) => {
                    let gs = old(self)@.metadata.groups;
                    &&& final(self)@ == old(self)@
                    &&& if !is_valid_name(preset_name@) {
                        validated(preset_name@, Err(e))
                    } else if !has_group(gs, group_name@) {
                        group_not_found(e, group_name@)
                    } else {
                        has_preset(gs[group_pos(gs, group_name@) as int].presets, trim(preset_name@))
                            && already_exists(e, preset_label(group_name@, trim(preset_name@)))
                    }
                },
            },
    {
        let preset_name = validate_name(preset_name)?;
        let i = self.require_group(group_name)?;
        assert(self.metadata.groups@[i as int]@ == old(self)@.metadata.groups[i as int]);
        if find_preset(&self.metadata.groups[i].presets, preset_name.as_str()).is_some() {
            return Err(AppError::AlreadyExists(preset_label_exec(group_name, preset_name.as_str())));
        }
        let order = self.metadata.groups[i].presets.len();
        let mut g = self.metadata.groups[i].copy();
        g.presets = push_entry(&self.metadata.groups[i].presets, PresetMetadata { name: preset_name.clone(), order });
        let groups = replace_group(copy_groups(&self.metadata.groups), i, g);
        assert(groups_view(groups@) =~= old(self)@.metadata.groups.update(
            i as int,
            with_presets(
                old(self)@.metadata.groups[i as int],
                old(self)@.metadata.groups[i as int].presets.push(
                    PresetMeta { name: preset_name@, order: old(self)@.metadata.groups[i as int].presets.len() },
                ),
            ),
        ));
        self.commit_groups(groups);
        let text = match content {
            Some(c) => c,
            None => String::new(),
        };
        Ok((preset_name, text))
    }

    /// Records that a preset's file was saved: adds the preset to its group
    /// when the group does not list it yet. Returns the preset's name
    /// (trimmed) and whether it is the group's active preset, in which case
    /// the active config must be written again.
    pub fn save_preset(&mut self, group_name: &str, preset_name: &str) -> (r: Result<
        (String, bool),
        AppError,
    >)
        ensures
            match r {
                Ok((v, active)) => {
                    let gs = old(self)@.metadata.groups;
                    let i = group_pos(gs, group_name@);
                    let g = gs[i as int];
                    &&& is_valid_name(preset_name@)
                    &&& v@ == trim(preset_name@)
                    &&& has_group(gs, group_name@)
                    &&& active == (g.active_preset == Some(v@))
                    &&& final(self)@ == with_metadata(
                        old(self)@,
                        with_groups(
                            old(self)@.metadata,
                            saved_groups(gs, group_name@, v@),
                        ),
                    )
                },
                Err(e) => {
                    &&& final(self)@ == old(self)@
                    &&& if !is_valid_name(preset_name@) {
                        validated(preset_name@, Err(e))
                    } else {
                        !has_group(old(self)@.metadata.groups, group_name@) && group_not_found(
                            e,
                            group_name@,
                        )
                    }
                },
            },
    {
        let preset_name = validate_name(preset_name)?;
        let i = self.require_group(group_name)?;
        assert(self.metadata.groups@[i as int]@ == old(self)@.metadata.groups[i as int]);
        let active = match &self.metadata.groups[i].active_preset {
            Some(a) => str_eq(a.as_str(), preset_name.as_str()),
            None => false,
        };
        if find_preset(&self.metadata.groups[i].presets, preset_name.as_str()).is_none() {
            let order = self.metadata.groups[i].presets.len();
            let mut g = self.metadata.groups[i].copy();
            g.presets = push_entry(
                &self.metadata.groups[i].presets,
                PresetMetadata { name: preset_name.clone(), order },
            );
            let groups = replace_group(copy_groups(&self.metadata.groups), i, g);
            assert(groups_view(groups@) =~= old(self)@.metadata.groups.update(
                i as int,
                with_presets(
                    old(self)@.metadata.groups[i as int],
                    old(self)@.metadata.groups[i as int].presets.push(
                        PresetMeta {
                            name: preset_name@,
                            order: old(self)@.metadata.groups[i as int].presets.len(),
                        },
                    ),
                ),
            ));
            self.commit_groups(groups);
        } else {
            let groups = copy_groups(&self.metadata.groups);
            self.commit_groups(groups);
        }
        Ok((preset_name, active))
    }

    /// Renames a preset within its group; the group's active preset follows
    /// the rename. Returns the new name (trimmed).
    pub fn rename_preset(&mut self, group_name: &str, old_name: &str, new_name: &str) -> (r:
        Result<String, AppError>)
        ensures
            match r {
                Ok(v) => {
                    let gs = old(self)@.metadata.groups;
                    let i = group_pos(gs, group_name@);
                    let g = gs[i as int];
                    let j = preset_pos(g.presets, old_name@);
                    &&& is_valid_name(new_name@)
                    &&& v@ == trim(new_name@)
                    &&& has_group(gs, group_name@)
                    &&& has_preset(g.presets, old_name@)
                    &&& !has_preset(g.presets, v@)
                    &&& final(self)@ == with_metadata(
                        old(self)@,
                        with_groups(
                            old(self)@.metadata,
                            settled(
                                gs.update(
                                    i as int,
                                    GroupMeta {
                                        active_preset: renamed_active(g.active_preset, old_name@, v@),
                                        presets: g.presets.update(
                                            j as int,
                                            PresetMeta { name: v@, order: g.presets[j as int].order },
                                        ),
                                        ..g
                                    },
                                ),
                            ),
                        ),
                    )
                },
                Err(e) => {
                    let gs = old(self)@.metadata.groups;
                    &&& final(self)@ == old(self)@
                    &&& if !is_valid_name(new_name@) {
                        validated(new_name@, Err(e))
                    } else if !has_group(gs, group_name@) || !has_preset(
                        gs[group_pos(gs, group_name@) as int].presets,
                        old_name@,
                    ) {
                        preset_lookup_error(gs, group_name@, old_name@, e)
                    } else {
                        has_preset(gs[group_pos(gs, group_name@) as int].presets, trim(new_name@))
                            && already_exists(e, preset_label(group_name@, trim(new_name@)))
                    }
                },
            },
    {
        let new_name = validate_name(new_name)?;
        let (i, j) = self.require_preset(group_name, old_name)?;
        assert(self.metadata.groups@[i as int]@ == old(self)@.metadata.groups[i as int]);
        if find_preset(&self.metadata.groups[i].presets, new_name.as_str()).is_some() {
            return Err(AppError::AlreadyExists(preset_label_exec(group_name, new_name.as_str())));
        }
        let mut g = self.metadata.groups[i].copy();
        g.presets = rename_entry(&self.metadata.groups[i].presets, j, new_name.clone());
        let renames_active = match &g.active_preset {
            Some(a) => str_eq(a.as_str(), old_name),
            None => false,
        };
        if renames_active {
            g.active_preset = Some(new_name.clone());
        }
        let ghost og = old(self)@.metadata.groups[i as int];
        assert(g@ =~= GroupMeta {
            active_preset: renamed_active(og.active_preset, old_name@, new_name@),
            presets: og.presets.update(
                j as int,
                PresetMeta { name: new_name@, order: og.presets[j as int].order },
            ),
            ..og
        });
        let groups = replace_group(copy_groups(&self.metadata.groups), i, g);
        self.commit_groups(groups);
        Ok(new_name)
    }

    /// Removes a preset from its group; the group's active preset is cleared
    /// when it was this one.
    pub fn delete_preset(&mut self, group_name: &str, preset_name: &str) -> (r: Result<
        (),
        AppError,
    >)
        ensures
            match r {
                Ok(()) => {
                    let gs = old(self)@.metadata.groups;
                    let i = group_pos(gs, group_name@);
                    let g = gs[i as int];
                    &&& has_group(gs, group_name@)
                    &&& has_preset(g.presets, preset_name@)
                    &&& final(self)@ == with_metadata(
                        old(self)@,
                        with_groups(
                            old(self)@.metadata,
                            settled(
                                gs.update(
                                    i as int,
                                    GroupMeta {
                                        active_preset: dropped_active(g.active_preset, preset_name@),
                                        presets: g.presets.remove(
                                            preset_pos(g.presets, preset_name@) as int,
                                        ),
                                        ..g
                                    },
                                ),
                            ),
                        ),
                    )
                },
                Err(e) => final(self)@ == old(self)@ && preset_lookup_error(
                    old(self)@.metadata.groups,
                    group_name@,
                    preset_name@,
                    e,
                ),
            },
    {
        let (i, j) = self.require_preset(group_name, preset_name)?;
        assert(self.metadata.groups@[i as int]@ == old(self)@.metadata.groups[i as int]);
        let mut g = self.metadata.groups[i].copy();
        g.presets = remove_entry(&self.metadata.groups[i].presets, j);
        let drops_active = match &g.active_preset {
            Some(a) => str_eq(a.as_str(), preset_name),
            None => false,
        };
        if drops_active {
            g.active_preset = None;
        }
        let ghost og = old(self)@.metadata.groups[i as int];
        assert(g@ =~= GroupMeta {
            active_preset: dropped_active(og.active_preset, preset_name@),
            presets: og.presets.remove(j as int),
            ..og
        });
        let groups = replace_group(copy_groups(&self.metadata.groups), i, g);
        self.commit_groups(groups);
        Ok(())
    }

    /// Moves a preset to position `target_index` (or the end) of group
    /// `new_group_name`, which may be its own group. Across groups the
    /// preset stays active when it was, and `target_file_exists` tells
    /// whether the new group already holds a file of that name, which refuses
    /// the move after the preset has left its old group's list.
    pub fn move_preset(
        &mut self,
        old_group_name: &str,
        new_group_name: &str,
        preset_name: &str,
        target_index: Option<usize>,
        target_file_exists: bool,
    ) -> (r: Result<(), AppError>)
        ensures
            ({
                let gs = old(self)@.metadata.groups;
                let oi = group_pos(gs, old_group_name@);
                let ni = group_pos(gs, new_group_name@);
                let found = has_group(gs, old_group_name@) && has_group(gs, new_group_name@)
                    && has_preset(gs[oi as int].presets, preset_name@);
                let pi = preset_pos(gs[oi as int].presets, preset_name@);
                let crosses = old_group_name@ != new_group_name@;
                match r {
                    Ok(()) => {
                        &&& found
                        &&& !(crosses && target_file_exists)
                        &&& final(self)@ == with_metadata(
                            old(self)@,
                            with_groups(
                                old(self)@.metadata,
                                settled(
                                    moved(
                                        gs,
                                        oi as int,
                                        ni as int,
                                        pi as int,
                                        preset_name@,
                                        crosses,
                                        target_index,
                                    ),
                                ),
                            ),
                        )
                    },
                    Err(e) => if !has_group(gs, old_group_name@) {
                        final(self)@ == old(self)@ && group_not_found(e, old_group_name@)
                    } else if !has_group(gs, new_group_name@) {
                        final(self)@ == old(self)@ && group_not_found(e, new_group_name@)
                    } else if !has_preset(gs[oi as int].presets, preset_name@) {
                        final(self)@ == old(self)@ && preset_lookup_error(
                            gs,
                            old_group_name@,
                            preset_name@,
                            e,
                        )
                    } else {
                        &&& crosses && target_file_exists
                        &&& already_exists(e, preset_label(new_group_name@, preset_name@))
                        &&& final(self)@ == with_metadata(
                            old(self)@,
                            with_groups(
                                old(self)@.metadata,
                                settled(taken_out(gs, oi as int, pi as int)),
                            ),
                        )
                    },
                }
            }),
    {
        let ghost gs = old(self)@.metadata.groups;
        let oi = self.require_group(old_group_name)?;
        let ni = self.require_group(new_group_name)?;
        assert(self.metadata.groups@[oi as int]@ == gs[oi as int]);
        let pi = match find_preset(&self.metadata.groups[oi].presets, preset_name) {
            Some(pi) => pi,
            None => {
                return Err(
                    AppError::PresetNotFound {
                        group: old_group_name.to_owned(),
                        name: preset_name.to_owned(),
                    },
                );
            },
        };
        let was_active = match &self.metadata.groups[oi].active_preset {
            Some(a) => str_eq(a.as_str(), preset_name),
            None => false,
        };
        assert(was_active == (gs[oi as int].active_preset == Some(preset_name@)));
        let crosses = !str_eq(old_group_name, new_group_name);
        if crosses && target_file_exists {
            let groups = take_out(&self.metadata.groups, oi, pi);
            self.commit_groups(groups);
            return Err(AppError::AlreadyExists(preset_label_exec(new_group_name, preset_name)));
        }
        let groups = moved_groups(
            &self.metadata.groups,
            oi,
            ni,
            pi,
            preset_name,
            crosses,
            was_active,
            target_index,
        );
        self.commit_groups(groups);
        Ok(())
    }

    /// Puts the groups in the order `ordered_names` gives, which must name
    /// every group once per position; groups keep their relative order where
    /// `ordered_names` repeats a name.
    pub fn reorder_groups(&mut self, ordered_names: &Vec<String>) -> (r: Result<(), AppError>)
        ensures
            ({
                let gs = old(self)@.metadata.groups;
                let ov = strings_view(ordered_names@);
                match r {
                    Ok(()) => order_matches(gs, ov) && final(self)@ == with_metadata(
                        old(self)@,
                        with_groups(old(self)@.metadata, settled(reordered(gs, ov))),
                    ),
                    Err(e) => {
                        &&& !order_matches(gs, ov)
                        &&& final(self)@ == old(self)@
                        &&& e matches AppError::Message(m)
                        &&& m@ == "The supplied group order does not match the existing groups."@
                    },
                }
            }),
    {
        let ghost gs = old(self)@.metadata.groups;
        let ghost ov = strings_view(ordered_names@);
        let mut matches = ordered_names.len() == self.metadata.groups.len();
        let mut k: usize = 0;
        while matches && k < ordered_names.len()
            invariant
                k <= ordered_names@.len(),
                gs == groups_view(self.metadata.groups@),
                ov == strings_view(ordered_names@),
                matches ==> ordered_names@.len() == gs.len(),
                matches ==> forall|q: int| 0 <= q < k ==> has_group(gs, #[trigger] ov[q]),
                !matches ==> !order_matches(gs, ov),
            decreases ordered_names.len() - k,
        {
            assert(ov[k as int] == ordered_names@[k as int]@);
            if find_group(&self.metadata.groups, ordered_names[k].as_str()).is_none() {
                matches = false;
            }
            k = k + 1;
        }
        if !matches {
            return Err(
                AppError::Message(
                    "The supplied group order does not match the existing groups.".to_owned(),
                ),
            );
        }
        let mut out: Vec<GroupMetadata> = Vec::new();
        let mut rank: usize = 0;
        assert(groups_view(out@) =~= Seq::<GroupMeta>::empty());
        while rank < ordered_names.len()
            invariant
                rank <= ordered_names@.len(),
                gs == groups_view(self.metadata.groups@),
                ov == strings_view(ordered_names@),
                groups_view(out@) + ranked_from(gs, ov, rank as nat) == reordered(gs, ov),
            decreases ordered_names.len() - rank,
        {
            push_ranked(&mut out, &self.metadata.groups, ordered_names, rank);
            proof {
                assert(ranked_from(gs, ov, rank as nat) == at_rank(gs, ov, rank as int)
                    + ranked_from(gs, ov, (rank + 1) as nat));
            }
            assert(groups_view(out@) + ranked_from(gs, ov, (rank + 1) as nat) =~= reordered(gs, ov));
            rank = rank + 1;
        }
        push_ranked(&mut out, &self.metadata.groups, ordered_names, rank);
        assert(groups_view(out@) =~= reordered(gs, ov));
        self.commit_groups(out);
        Ok(())
    }

    /// Adds one preset per imported file to a group, named after the file
    /// stems (`None` where a file has no usable stem) and made unique within
    /// the group one after another. Returns the names, in order.
    pub fn import_presets(&mut self, group_name: &str, stems: &Vec<Option<String>>) -> (r: Result<
        Vec<String>,
        AppError,
    >)
        ensures
            ({
                let gs = old(self)@.metadata.groups;
                let i = group_pos(gs, group_name@);
                match r {
                    Ok(names) => {
                        &&& has_group(gs, group_name@)
                        &&& strings_view(names@) == imported_names(
                            gs[i as int].presets,
                            opts_view(stems@),
                        )
                        &&& final(self)@ == with_metadata(
                            old(self)@,
                            with_groups(
                                old(self)@.metadata,
                                settled(
                                    gs.update(
                                        i as int,
                                        with_presets(
                                            gs[i as int],
                                            imported(gs[i as int].presets, opts_view(stems@)),
                                        ),
                                    ),
                                ),
                            ),
                        )
                    },
                    Err(e) => final(self)@ == old(self)@ && !has_group(gs, group_name@)
                        && group_not_found(e, group_name@),
                }
            }),
    {
        let ghost gs = old(self)@.metadata.groups;
        let ghost sv = opts_view(stems@);
        let i = self.require_group(group_name)?;
        assert(self.metadata.groups@[i as int]@ == gs[i as int]);
        let mut presets = copy_presets(&self.metadata.groups[i].presets);
        let mut names: Vec<String> = Vec::new();
        let mut k: usize = 0;
        assert(sv.skip(0) =~= sv);
        assert(strings_view(names@) =~= Seq::<Seq<char>>::empty());
        while k < stems.len()
            invariant
                k <= stems@.len() == sv.len(),
                sv == opts_view(stems@),
                imported(presets_view(presets@), sv.skip(k as int)) == imported(
                    gs[i as int].presets,
                    sv,
                ),
                strings_view(names@) + imported_names(presets_view(presets@), sv.skip(k as int))
                    == imported_names(gs[i as int].presets, sv),
            decreases stems.len() - k,
        {
            let ghost rest = sv.skip(k as int);
            assert(rest[0] == opt_view(stems@[k as int]));
            assert(rest.drop_first() =~= sv.skip(k + 1));
            let base = match &stems[k] {
                Some(stem) => sanitize_import_name(stem.as_str()),
                None => "Imported Preset".to_owned(),
            };
            assert(base@ == import_base(rest[0]));
            let name = unique_preset_name(&presets, base.as_str());
            let order = presets.len();
            let ghost before = presets_view(presets@);
            presets.push(PresetMetadata { name: name.clone(), order });
            assert(presets_view(presets@) =~= before.push(PresetMeta { name: name@, order: before.len() }));
            let ghost names_before = strings_view(names@);
            names.push(name);
            assert(strings_view(names@) =~= names_before.push(name@));
            assert(strings_view(names@) + imported_names(presets_view(presets@), sv.skip(k + 1))
                =~= names_before + imported_names(before, rest));
            k = k + 1;
        }
        assert(sv.skip(k as int) =~= Seq::<Option<Seq<char>>>::empty());
        assert(strings_view(names@) + Seq::<Seq<char>>::empty() =~= strings_view(names@));
        let mut g = self.metadata.groups[i].copy();
        g.presets = presets;
        let groups = replace_group(copy_groups(&self.metadata.groups), i, g);
        assert(groups_view(groups@) =~= gs.update(
            i as int,
            with_presets(gs[i as int], imported(gs[i as int].presets, sv)),
        ));
        self.commit_groups(groups);
        Ok(names)
    }

    /// Rebuilds the groups from the group folders and preset files found on
    /// disk: groups and presets that are gone are dropped, new ones are
    /// appended in the order found, and known ones keep their order, emoji
    /// and active preset.
    pub fn sync_metadata_with_disk(&mut self, disk: &Vec<DiskGroup>)
        ensures
            final(self)@ == with_metadata(
                old(self)@,
                with_groups(
                    old(self)@.metadata,
                    settled(synced(old(self)@.metadata.groups, disk_view(disk@))),
                ),
            ),
    {
        let ghost gv = old(self)@.metadata.groups;
        let ghost dv = disk_view(disk@);
        let meta_names = group_names_exec(&self.metadata.groups);
        let disk_names = disk_names_exec(disk);
        let ordered = kept_then_new_exec(&meta_names, &disk_names);
        let ghost target = synced(gv, dv);
        let mut rebuilt: Vec<GroupMetadata> = Vec::new();
        let mut k: usize = 0;
        while k < ordered.len()
            invariant
                k <= ordered@.len(),
                gv == groups_view(self.metadata.groups@),
                dv == disk_view(disk@),
                target == synced(gv, dv),
                strings_view(ordered@) == kept_then_new(
                    group_names(gv),
                    dv.map_values(|d: (Seq<char>, Seq<Seq<char>>)| d.0),
                ),
                groups_view(rebuilt@) == target.take(k as int),
            decreases ordered.len() - k,
        {
            let g = synced_group_exec(&self.metadata.groups, disk, &ordered[k], k);
            let ghost before = groups_view(rebuilt@);
            rebuilt.push(g);
            assert(groups_view(rebuilt@) =~= before.push(g@));
            assert(strings_view(ordered@)[k as int] == ordered@[k as int]@);
            k = k + 1;
            assert(groups_view(rebuilt@) =~= target.take(k as int));
        }
        assert(target.take(k as int) =~= target);
        self.commit_groups(rebuilt);
    }

    /// Records the config folders found at runtime: the Equalizer APO
    /// installation's (if any) and the one its registry names (if any). The
    /// current config folder becomes the registry's, else the installation's,
    /// else the library's default.
    pub fn refresh_runtime_paths(
        &mut self,
        detected_install_config_path: Option<String>,
        registry_config_path: Option<String>,
    )
        ensures
            final(self)@ == (LibraryState {
                detected_install_config_path: opt_view(detected_install_config_path),
                current_config_path: match registry_config_path {
                    Some(p) => p@,
                    None => match detected_install_config_path {
                        Some(p) => p@,
                        None => old(self)@.default_config_path,
                    },
                },
                ..old(self)@
            }),
    {
        let current = match registry_config_path {
            Some(p) => p,
            None => match &detected_install_config_path {
                Some(p) => p.clone(),
                None => self.default_config_path.clone(),
            },
        };
        proof {
            use_type_invariant(&*self);
        }
        self.detected_install_config_path = detected_install_config_path;
        self.current_config_path = current;
    }

    /// Makes a requested config folder current, once Equalizer APO has been
    /// pointed at it. `requested` is the folder asked for and `confirmed` the
    /// folder Equalizer APO reads afterwards (on platforms without a registry,
    /// the same folder). The current folder becomes `confirmed`, without
    /// trailing separators; when that differs from `requested` (likewise
    /// normalised) the change is reported as an error naming both.
    pub fn set_config_path(&mut self, requested: &str, confirmed: &str) -> (r: Result<(), AppError>)
        ensures
            final(self)@ == (LibraryState {
                current_config_path: without_trailing_separators(confirmed@),
                ..old(self)@
            }),
            r is Ok == (without_trailing_separators(confirmed@) == without_trailing_separators(
                requested@,
            )),
            r is Err ==> (r->Err_0 matches AppError::Message(m) && m@ == config_path_mismatch(
                without_trailing_separators(confirmed@),
                requested@,
            )),
    {
        let actual = normalize_path(confirmed);
        let expected = normalize_path(requested);
        let same = str_eq(actual.as_str(), expected.as_str());
        let result = if same {
            Ok(())
        } else {
            let mut v: Vec<char> = Vec::new();
            extend_str(&mut v, "Equalizer APO ConfigPath was updated to '");
            extend_str(&mut v, actual.as_str());
            extend_str(&mut v, "', but the requested path was '");
            extend_str(&mut v, requested);
            extend_str(
                &mut v,
                "'. This may indicate another process modified the registry.",
            );
            Err(AppError::Message(string_of(&v)))
        };
        proof {
            use_type_invariant(&*self);
        }
        self.current_config_path = actual;
        result
    }

    /// Replaces the groups with those restored from a backup (settled) and
    /// records whether the backup's user was asked about the config path.
    pub fn install_backup(&mut self, groups: Vec<GroupMetadata>, config_path_prompted: bool)
        ensures
            final(self)@ == with_metadata(
                old(self)@,
                MetadataModel {
                    config_path_prompted,
                    groups: settled(groups_view(groups@)),
                    ..old(self)@.metadata
                },
            ),
    {
        self.commit_groups(groups);
        proof {
            use_type_invariant(&*self);
        }
        self.metadata.config_path_prompted = config_path_prompted;
    }

    /// The library as the user interface shows it. `files[i][j]` is the
    /// file read for preset `j` of group `i` (`None` where it does not
    /// exist; missing rows count as `None`), and `needs_config_migration`
    /// tells whether the current config folder cannot be written.
    pub fn snapshot(
        &self,
        files: &Vec<Vec<Option<PresetFileSnapshot>>>,
        needs_config_migration: bool,
    ) -> (r: PresetLibrary)
        ensures
            r@ == library_view(self@, files_view(files@), needs_config_migration),
    {
        let ghost fv = files_view(files@);
        let mut groups: Vec<PresetGroup> = Vec::new();
        let mut i: usize = 0;
        while i < self.metadata.groups.len()
            invariant
                i <= self.metadata.groups@.len(),
                fv == files_view(files@),
                groups@.len() == i,
                forall|k: int|
                    0 <= k < i ==> #[trigger] groups@[k]@ == library_view(
                        self@,
                        fv,
                        needs_config_migration,
                    ).groups[k],
            decreases self.metadata.groups.len() - i,
        {
            let g = shown_group_exec(&self.metadata.groups[i], i, files);
            assert(self.metadata.groups@[i as int]@ == self@.metadata.groups[i as int]);
            proof {
                if i < files@.len() {
                    assert(fv[i as int] == row_view(files@[i as int]@));
                }
            }
            let ghost before = groups@;
            groups.push(g);
            proof {
                assert forall|k: int| 0 <= k < i + 1 implies #[trigger] groups@[k]@ == library_view(
                    self@,
                    fv,
                    needs_config_migration,
                ).groups[k] by {
                    if k < i {
                        assert(groups@[k] == before[k]);
                    }
                }
            }
            i = i + 1;
        }
        let r = PresetLibrary {
            app_data_dir: self.app_data_dir.clone(),
            config_path: self.current_config_path.clone(),
            default_config_path: self.default_config_path.clone(),
            installed_config_path: copy_opt(&self.detected_install_config_path),
            groups,
            needs_config_migration,
            config_path_prompted: self.metadata.config_path_prompted,
            eq_disabled: self.metadata.eq_disabled,
        };
        assert(r@.groups =~= library_view(self@, fv, needs_config_migration).groups);
        r
    }

    /// The tray targets currently recorded.
    pub fn tray_targets(&self) -> (r: &Vec<(String, TraySelection)>)
        ensures
            targets_view(r@) == self@.tray_targets,
    {
        &self.tray_menu_targets
    }

    /// Records the targets of a newly built tray menu.
    pub fn replace_tray_targets(&mut self, targets: Vec<(String, TraySelection)>)
        ensures
            final(self)@ == (LibraryState { tray_targets: targets_view(targets@), ..old(self)@ }),
    {
        proof {
            use_type_invariant(&*self);
        }
        self.tray_menu_targets = targets;
    }
}

} // verus!
