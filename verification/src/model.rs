//! The data the library keeps and hands out, with their mathematical views.
use vstd::prelude::*;

verus! {

// ---------------------------------------------------------------------------
// Persisted metadata
// ---------------------------------------------------------------------------

/// A preset's entry in the persisted metadata.
#[derive(Debug, Clone, Default)]
pub struct PresetMetadata {
    pub name: String,
    pub order: usize,
}

/// A group's entry in the persisted metadata.
#[derive(Debug, Clone, Default)]
pub struct GroupMetadata {
    pub name: String,
    pub order: usize,
    pub emoji: Option<String>,
    pub active_preset: Option<String>,
    pub presets: Vec<PresetMetadata>,
}

/// The metadata persisted beside the preset files.
#[derive(Debug, Clone, Default)]
pub struct PresetsMetadata {
    pub config_path_prompted: bool,
    pub eq_disabled: bool,
    pub groups: Vec<GroupMetadata>,
}

/// The view of a preset entry.
pub ghost struct PresetMeta {
    pub name: Seq<char>,
    pub order: nat,
}

/// The view of a group entry.
pub ghost struct GroupMeta {
    pub name: Seq<char>,
    pub order: nat,
    pub emoji: Option<Seq<char>>,
    pub active_preset: Option<Seq<char>>,
    pub presets: Seq<PresetMeta>,
}

/// The view of the persisted metadata.
pub ghost struct MetadataModel {
    pub config_path_prompted: bool,
    pub eq_disabled: bool,
    pub groups: Seq<GroupMeta>,
}

/// The view of an optional string.
pub open spec fn opt_view(o: Option<String>) -> Option<Seq<char>> {
    match o {
        Some(s) => Some(s@),
        None => None,
    }
}

impl View for PresetMetadata {
    type V = PresetMeta;

    open spec fn view(&self) -> PresetMeta {
        PresetMeta { name: self.name@, order: self.order as nat }
    }
}

impl View for GroupMetadata {
    type V = GroupMeta;

    open spec fn view(&self) -> GroupMeta {
        GroupMeta {
            name: self.name@,
            order: self.order as nat,
            emoji: opt_view(self.emoji),
            active_preset: opt_view(self.active_preset),
            presets: self.presets@.map_values(|p: PresetMetadata| p@),
        }
    }
}

impl View for PresetsMetadata {
    type V = MetadataModel;

    open spec fn view(&self) -> MetadataModel {
        MetadataModel {
            config_path_prompted: self.config_path_prompted,
            eq_disabled: self.eq_disabled,
            groups: self.groups@.map_values(|g: GroupMetadata| g@),
        }
    }
}

/// A copy of an optional string.
pub fn copy_opt(o: &Option<String>) -> (r: Option<String>)
    ensures
        r == *o,
{
    match o {
        Some(s) => Some(s.clone()),
        None => None,
    }
}

impl PresetMetadata {
    /// A copy of this entry.
    pub fn copy(&self) -> (r: Self)
        ensures
            r == *self,
    {
        PresetMetadata { name: self.name.clone(), order: self.order }
    }
}

/// A copy of a list of preset entries.
pub fn copy_presets(v: &Vec<PresetMetadata>) -> (r: Vec<PresetMetadata>)
    ensures
        r@ == v@,
{
    let mut r: Vec<PresetMetadata> = Vec::new();
    let mut i: usize = 0;
    while i < v.len()
        invariant
            i <= v.len(),
            r@ == v@.take(i as int),
        decreases v.len() - i,
    {
        r.push(v[i].copy());
        i = i + 1;
        assert(r@ =~= v@.take(i as int));
    }
    assert(v@.take(v@.len() as int) =~= v@);
    r
}

impl GroupMetadata {
    /// A copy of this entry.
    pub fn copy(&self) -> (r: Self)
        ensures
            r@ == self@,
    {
        let presets = copy_presets(&self.presets);
        let r = GroupMetadata {
            name: self.name.clone(),
            order: self.order,
            emoji: copy_opt(&self.emoji),
            active_preset: copy_opt(&self.active_preset),
            presets,
        };
        assert(r@.presets =~= self@.presets);
        r
    }
}

/// The views of a list of group entries.
pub open spec fn groups_view(v: Seq<GroupMetadata>) -> Seq<GroupMeta> {
    v.map_values(|g: GroupMetadata| g@)
}

/// The views of a list of preset entries.
pub open spec fn presets_view(v: Seq<PresetMetadata>) -> Seq<PresetMeta> {
    v.map_values(|p: PresetMetadata| p@)
}

/// A copy of a list of group entries.
pub fn copy_groups(v: &Vec<GroupMetadata>) -> (r: Vec<GroupMetadata>)
    ensures
        groups_view(r@) == groups_view(v@),
        r@.len() == v@.len(),
{
    let mut r: Vec<GroupMetadata> = Vec::new();
    let mut i: usize = 0;
    while i < v.len()
        invariant
            i <= v.len(),
            r@.len() == i,
            groups_view(r@) == groups_view(v@.take(i as int)),
        decreases v.len() - i,
    {
        let ghost old_r = r@;
        let g = v[i].copy();
        r.push(g);
        proof {
            assert forall|j: int| 0 <= j < i + 1 implies #[trigger] groups_view(r@)[j]
                == groups_view(v@.take(i + 1))[j] by {
                if j < i {
                    assert(groups_view(old_r)[j] == groups_view(v@.take(i as int))[j]);
                    assert(r@[j] == old_r[j]);
                }
            }
        }
        i = i + 1;
        assert(groups_view(r@) =~= groups_view(v@.take(i as int)));
    }
    assert(v@.take(v@.len() as int) =~= v@);
    r
}

// ---------------------------------------------------------------------------
// The library as the user interface sees it
// ---------------------------------------------------------------------------

/// A `.wav` file that a preset convolves with, as shown to the user.
#[derive(Debug, Clone, Default)]
pub struct PresetConvolution {
    pub wav_path: String,
    pub wav_base64: Option<String>,
    pub error: Option<String>,
}

/// A preset with its content.
#[derive(Debug, Clone, Default)]
pub struct PresetItem {
    pub name: String,
    pub order: usize,
    pub content: String,
    pub convolution: Option<PresetConvolution>,
}

/// A group with its presets.
#[derive(Debug, Clone, Default)]
pub struct PresetGroup {
    pub name: String,
    pub order: usize,
    pub emoji: Option<String>,
    pub active_preset: Option<String>,
    pub presets: Vec<PresetItem>,
}

/// Everything the user interface shows of the library.
#[derive(Debug, Clone, Default)]
pub struct PresetLibrary {
    pub app_data_dir: String,
    pub config_path: String,
    pub default_config_path: String,
    pub installed_config_path: Option<String>,
    pub groups: Vec<PresetGroup>,
    pub needs_config_migration: bool,
    pub config_path_prompted: bool,
    pub eq_disabled: bool,
}

/// Runtime settings shown beside the library.
#[derive(Debug, Clone, Default)]
pub struct AppRuntimeSettings {
    pub autorun_enabled: bool,
}

/// The view of a convolution reference.
pub ghost struct ConvolutionView {
    pub wav_path: Seq<char>,
    pub wav_base64: Option<Seq<char>>,
    pub error: Option<Seq<char>>,
}

/// The view of a preset with its content.
pub ghost struct PresetItemView {
    pub name: Seq<char>,
    pub order: nat,
    pub content: Seq<char>,
    pub convolution: Option<ConvolutionView>,
}

/// The view of a group with its presets.
pub ghost struct PresetGroupView {
    pub name: Seq<char>,
    pub order: nat,
    pub emoji: Option<Seq<char>>,
    pub active_preset: Option<Seq<char>>,
    pub presets: Seq<PresetItemView>,
}

/// The view of the whole library.
pub ghost struct PresetLibraryView {
    pub app_data_dir: Seq<char>,
    pub config_path: Seq<char>,
    pub default_config_path: Seq<char>,
    pub installed_config_path: Option<Seq<char>>,
    pub groups: Seq<PresetGroupView>,
    pub needs_config_migration: bool,
    pub config_path_prompted: bool,
    pub eq_disabled: bool,
}

impl View for PresetConvolution {
    type V = ConvolutionView;

    open spec fn view(&self) -> ConvolutionView {
        ConvolutionView {
            wav_path: self.wav_path@,
            wav_base64: opt_view(self.wav_base64),
            error: opt_view(self.error),
        }
    }
}

impl PresetConvolution {
    /// A copy of this reference.
    pub fn copy(&self) -> (r: Self)
        ensures
            r@ == self@,
    {
        PresetConvolution {
            wav_path: self.wav_path.clone(),
            wav_base64: copy_opt(&self.wav_base64),
            error: copy_opt(&self.error),
        }
    }
}

/// A copy of an optional convolution reference.
pub fn copy_convolution(c: &Option<PresetConvolution>) -> (r: Option<PresetConvolution>)
    ensures
        convolution_view(r) == convolution_view(*c),
{
    match c {
        Some(c) => Some(c.copy()),
        None => None,
    }
}

/// The view of an optional convolution reference.
pub open spec fn convolution_view(c: Option<PresetConvolution>) -> Option<ConvolutionView> {
    match c {
        Some(c) => Some(c@),
        None => None,
    }
}

impl View for PresetItem {
    type V = PresetItemView;

    open spec fn view(&self) -> PresetItemView {
        PresetItemView {
            name: self.name@,
            order: self.order as nat,
            content: self.content@,
            convolution: convolution_view(self.convolution),
        }
    }
}

impl View for PresetGroup {
    type V = PresetGroupView;

    open spec fn view(&self) -> PresetGroupView {
        PresetGroupView {
            name: self.name@,
            order: self.order as nat,
            emoji: opt_view(self.emoji),
            active_preset: opt_view(self.active_preset),
            presets: self.presets@.map_values(|p: PresetItem| p@),
        }
    }
}

impl View for PresetLibrary {
    type V = PresetLibraryView;

    open spec fn view(&self) -> PresetLibraryView {
        PresetLibraryView {
            app_data_dir: self.app_data_dir@,
            config_path: self.config_path@,
            default_config_path: self.default_config_path@,
            installed_config_path: opt_view(self.installed_config_path),
            groups: self.groups@.map_values(|g: PresetGroup| g@),
            needs_config_migration: self.needs_config_migration,
            config_path_prompted: self.config_path_prompted,
            eq_disabled: self.eq_disabled,
        }
    }
}

// ---------------------------------------------------------------------------
// Tray menu targets
// ---------------------------------------------------------------------------

/// The preset that a tray menu item applies.
#[derive(Debug, Clone)]
pub struct TraySelection {
    pub group: String,
    pub preset: String,
}

impl View for TraySelection {
    type V = (Seq<char>, Seq<char>);

    open spec fn view(&self) -> (Seq<char>, Seq<char>) {
        (self.group@, self.preset@)
    }
}

impl TraySelection {
    /// A copy of this selection.
    pub fn copy(&self) -> (r: Self)
        ensures
            r == *self,
    {
        TraySelection { group: self.group.clone(), preset: self.preset.clone() }
    }
}

/// The view of a list of tray menu targets: each item's id and selection.
pub open spec fn targets_view(t: Seq<(String, TraySelection)>) -> Seq<(Seq<char>, (Seq<char>, Seq<char>))> {
    t.map_values(|e: (String, TraySelection)| (e.0@, e.1@))
}

/// A group folder found on disk with the preset files (their stems) in it.
#[derive(Debug, Clone, Default)]
pub struct DiskGroup {
    pub name: String,
    pub presets: Vec<String>,
}

impl View for DiskGroup {
    type V = (Seq<char>, Seq<Seq<char>>);

    open spec fn view(&self) -> (Seq<char>, Seq<Seq<char>>) {
        (self.name@, self.presets@.map_values(|p: String| p@))
    }
}

/// What reading a referenced `.wav` file gave.
#[derive(Debug, Clone)]
pub enum WavRead {
    /// The file does not exist (or is no file); the path as it is displayed.
    Missing(String),
    /// The file's bytes.
    Bytes(Vec<u8>),
    /// Reading failed with this message.
    Failed(String),
}

/// A preset file as it was read from disk: its content and, when it refers
/// to a `.wav` file, what the library shows of that file.
#[derive(Debug, Clone, Default)]
pub struct PresetFileSnapshot {
    pub content: String,
    pub convolution: Option<PresetConvolution>,
}

/// The view of a preset file as read.
pub open spec fn file_view(f: Option<PresetFileSnapshot>) -> Option<(Seq<char>, Option<ConvolutionView>)> {
    match f {
        Some(f) => Some((f.content@, convolution_view(f.convolution))),
        None => None,
    }
}

} // verus!
