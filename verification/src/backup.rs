//! Backups of the whole library: what goes into one (the `.wav` files a
//! preset convolves with, embedded as base64), and how the metadata and the
//! preset files are rebuilt from one.
use vstd::prelude::*;

use crate::encoding::{base64_standard_decode, base64_standard_encode, standard_decoding, standard_encoding};
use crate::error::AppError;
use crate::library::{
    find_preset, first_where, lemma_first_where, library_view, normalized_emoji, preset_pos,
    shown_group, shown_presets, well_formed, FileView, LibraryState,
};
use crate::model::{
    groups_view, opt_view, presets_view, ConvolutionView, GroupMeta, GroupMetadata, PresetConvolution,
    PresetGroup, PresetGroupView, PresetMeta, PresetMetadata, PresetLibrary, PresetLibraryView,
    WavRead,
};
use crate::names::{is_valid_name, refused_name_text, validate_name};
use crate::preset_text::{replace_convolution_path, with_convolution_path};
use crate::text::{extend_str, string_of, trim, trim_str};

verus! {

/// The config folder a backup names, trimmed; an error when it is blank.
pub fn imported_config_path(backup: &PresetLibrary) -> (r: Result<String, AppError>)
    ensures
        trim(backup@.config_path).len() > 0 ==> (r matches Ok(p) && p@ == trim(backup@.config_path)),
        trim(backup@.config_path).len() == 0 ==> (r matches Err(AppError::Message(m)) && m@
            == "The imported backup is missing a config path."@),
{
    let t = trim_str(backup.config_path.as_str());
    if t.as_str().is_empty() {
        Err(AppError::Message("The imported backup is missing a config path.".to_owned()))
    } else {
        Ok(t)
    }
}

/// The names a backup is checked by, in the order they are checked: each
/// group's name, then the names of its presets.
pub open spec fn backup_names(gs: Seq<PresetGroupView>) -> Seq<Seq<char>>
    decreases gs.len(),
{
    if gs.len() == 0 {
        Seq::empty()
    } else {
        backup_names(gs.drop_last()) + seq![gs.last().name] + gs.last().presets.map_values(
            |p: crate::model::PresetItemView| p.name,
        )
    }
}

/// The position of the first name of a backup that is not a valid name.
pub open spec fn first_invalid_name(names: Seq<Seq<char>>) -> nat {
    first_where(names, |n: Seq<char>| !is_valid_name(n))
}

/// The preset a restored group keeps active: the backup's choice, trimmed,
/// when it names one of the group's presets.
pub open spec fn restored_active(g: PresetGroupView) -> Option<Seq<char>> {
    match g.active_preset {
        Some(a) => if trim(a).len() > 0 && exists|j: int|
            0 <= j < g.presets.len() && trim(#[trigger] g.presets[j].name) == trim(a) {
            Some(trim(a))
        } else {
            None
        },
        None => None,
    }
}

/// The metadata entry restored for the `i`-th group of a backup: names
/// trimmed, orders set to positions, the emoji normalised.
pub open spec fn restored_group(g: PresetGroupView, i: int) -> GroupMeta {
    GroupMeta {
        name: trim(g.name),
        order: i as nat,
        emoji: normalized_emoji(g.emoji),
        active_preset: restored_active(g),
        presets: Seq::new(
            g.presets.len(),
            |j: int| PresetMeta { name: trim(g.presets[j].name), order: j as nat },
        ),
    }
}

/// The metadata restored from a backup's groups.
pub open spec fn restored_groups(gs: Seq<PresetGroupView>) -> Seq<GroupMeta> {
    Seq::new(gs.len(), |i: int| restored_group(gs[i], i))
}

/// The names of the first `i` groups come first among the names of all.
proof fn lemma_backup_names_prefix(gs: Seq<PresetGroupView>, i: int)
    requires
        0 <= i <= gs.len(),
    ensures
        backup_names(gs.take(i)).len() <= backup_names(gs).len(),
        forall|k: int|
            0 <= k < backup_names(gs.take(i)).len() ==> backup_names(gs)[k] == #[trigger] backup_names(
                gs.take(i),
            )[k],
    decreases gs.len() - i,
{
    if i < gs.len() {
        lemma_backup_names_prefix(gs, i + 1);
        assert(gs.take(i + 1).drop_last() =~= gs.take(i));
        let a = backup_names(gs.take(i));
        let b = backup_names(gs.take(i + 1));
        assert forall|k: int| 0 <= k < a.len() implies backup_names(gs)[k] == #[trigger] a[k] by {
            assert(b[k] == a[k]);
        }
    } else {
        assert(gs.take(i) =~= gs);
    }
}

/// When the first `k` names are valid and the `k`-th is not, it is the first
/// invalid one.
proof fn lemma_first_invalid_at(names: Seq<Seq<char>>, k: int)
    requires
        0 <= k < names.len(),
        !is_valid_name(names[k]),
        forall|j: int| 0 <= j < k ==> is_valid_name(#[trigger] names[j]),
    ensures
        first_invalid_name(names) == k,
{
    let p = |n: Seq<char>| !is_valid_name(n);
    lemma_first_where(names, p);
    if first_where(names, p) < k {
        assert(is_valid_name(names[first_where(names, p) as int]));
    }
    if first_where(names, p) > k {
        assert(!p(names[k]));
    }
}

/// When all names are valid, none is the first invalid one.
proof fn lemma_no_invalid(names: Seq<Seq<char>>)
    requires
        forall|j: int| 0 <= j < names.len() ==> is_valid_name(#[trigger] names[j]),
    ensures
        first_invalid_name(names) == names.len(),
{
    let p = |n: Seq<char>| !is_valid_name(n);
    lemma_first_where(names, p);
    if first_where(names, p) < names.len() {
        assert(is_valid_name(names[first_where(names, p) as int]));
    }
}

/// A preset is found among entries exactly when one has its name.
proof fn lemma_preset_pos_found(ps: Seq<PresetMeta>, name: Seq<char>)
    ensures
        preset_pos(ps, name) < ps.len() <==> exists|j: int| 0 <= j < ps.len() && #[trigger] ps[j].name == name,
{
    let p = |q: PresetMeta| q.name == name;
    lemma_first_where(ps, p);
    if exists|j: int| 0 <= j < ps.len() && #[trigger] ps[j].name == name {
        let j = choose|j: int| 0 <= j < ps.len() && #[trigger] ps[j].name == name;
        if preset_pos(ps, name) >= ps.len() {
            assert(p(ps[j]));
        }
    }
}

/// Rebuilds the metadata of a backup's groups: every group and preset name
/// is checked, in order, and the first that is not valid refuses the
/// backup; otherwise names are trimmed, orders renumbered, emojis normalised
/// and an active preset kept only when it names one of its group's presets.
pub fn rebuild_groups_from_backup(groups: &Vec<PresetGroup>) -> (r: Result<Vec<GroupMetadata>, AppError>)
    ensures
        ({
            let gs = groups@.map_values(|g: PresetGroup| g@);
            let names = backup_names(gs);
            &&& first_invalid_name(names) < names.len() ==> (r matches Err(AppError::InvalidName(m))
                && m@ == refused_name_text(names[first_invalid_name(names) as int]))
            &&& first_invalid_name(names) == names.len() ==> (r matches Ok(v) && groups_view(v@)
                == restored_groups(gs))
        }),
{
    let ghost gs = groups@.map_values(|g: PresetGroup| g@);
    let ghost names = backup_names(gs);
    let mut out: Vec<GroupMetadata> = Vec::new();
    let mut i: usize = 0;
    proof {
        assert(gs.take(0) =~= Seq::<PresetGroupView>::empty());
    }
    while i < groups.len()
        invariant
            i <= groups@.len() == gs.len(),
            gs == groups@.map_values(|g: PresetGroup| g@),
            names == backup_names(gs),
            out@.len() == i,
            forall|k: int| 0 <= k < i ==> #[trigger] out@[k]@ == restored_group(gs[k], k),
            forall|k: int|
                0 <= k < backup_names(gs.take(i as int)).len() ==> is_valid_name(
                    #[trigger] backup_names(gs.take(i as int))[k],
                ),
        decreases groups.len() - i,
    {
        let g = &groups[i];
        let ghost gv = gs[i as int];
        let ghost done = backup_names(gs.take(i as int));
        assert(gv == g@);
        proof {
            lemma_backup_names_prefix(gs, i as int);
            lemma_backup_names_prefix(gs, i + 1);
            assert(gs.take(i + 1).drop_last() =~= gs.take(i as int));
            assert(gs.take(i + 1).last() == gv);
        }
        let ghost row = gv.presets.map_values(|p: crate::model::PresetItemView| p.name);
        assert(backup_names(gs.take(i + 1)) == done + seq![gv.name] + row);
        let name = match validate_name(g.name.as_str()) {
            Ok(n) => n,
            Err(e) => {
                proof {
                    assert(names[done.len() as int] == backup_names(gs.take(i + 1))[done.len() as int]);
                    assert forall|j: int| 0 <= j < done.len() implies is_valid_name(#[trigger] names[j]) by {
                        assert(names[j] == done[j]);
                    }
                    lemma_first_invalid_at(names, done.len() as int);
                }
                return Err(e);
            },
        };
        let mut presets: Vec<PresetMetadata> = Vec::new();
        let mut j: usize = 0;
        while j < g.presets.len()
            invariant
                i < groups@.len() == gs.len(),
                gs == groups@.map_values(|g: PresetGroup| g@),
                names == backup_names(gs),
                gv == gs[i as int],
                gv == g@,
                row == gv.presets.map_values(|p: crate::model::PresetItemView| p.name),
                done == backup_names(gs.take(i as int)),
                backup_names(gs.take(i + 1)) == done + seq![gv.name] + row,
                backup_names(gs.take(i + 1)).len() <= names.len(),
                forall|k: int|
                    0 <= k < backup_names(gs.take(i + 1)).len() ==> names[k] == #[trigger] backup_names(
                        gs.take(i + 1),
                    )[k],
                forall|k: int| 0 <= k < done.len() ==> is_valid_name(#[trigger] done[k]),
                is_valid_name(gv.name),
                j <= g.presets@.len(),
                presets@.len() == j,
                forall|k: int|
                    0 <= k < j ==> #[trigger] presets@[k]@ == (PresetMeta {
                        name: trim(gv.presets[k].name),
                        order: k as nat,
                    }),
                forall|k: int| 0 <= k < j ==> is_valid_name(#[trigger] row[k]),
            decreases g.presets.len() - j,
        {
            assert(gv.presets[j as int] == g.presets@[j as int]@);
            let pname = match validate_name(g.presets[j].name.as_str()) {
                Ok(n) => n,
                Err(e) => {
                    proof {
                        let at = done.len() + 1 + j;
                        let bn = backup_names(gs.take(i + 1));
                        assert(bn[at] == row[j as int]);
                        assert(names[at] == row[j as int]);
                        assert forall|q: int| 0 <= q < at implies is_valid_name(#[trigger] names[q]) by {
                            assert(names[q] == bn[q]);
                            if q < done.len() {
                                assert(bn[q] == done[q]);
                            } else if q == done.len() {
                                assert(bn[q] == gv.name);
                            } else {
                                assert(bn[q] == row[q - done.len() - 1]);
                            }
                        }
                        lemma_first_invalid_at(names, at);
                    }
                    return Err(e);
                },
            };
            presets.push(PresetMetadata { name: pname, order: j });
            j = j + 1;
        }
        let ghost rebuilt = presets_view(presets@);
        assert(rebuilt =~= Seq::new(
            gv.presets.len(),
            |k: int| PresetMeta { name: trim(gv.presets[k].name), order: k as nat },
        ));
        let emoji = match &g.emoji {
            Some(e) => {
                let t = trim_str(e.as_str());
                if t.as_str().is_empty() {
                    None
                } else {
                    Some(t)
                }
            },
            None => None,
        };
        let active = match &g.active_preset {
            Some(a) => {
                let t = trim_str(a.as_str());
                if t.as_str().is_empty() {
                    None
                } else {
                    let found = find_preset(&presets, t.as_str());
                    proof {
                        lemma_preset_pos_found(rebuilt, t@);
                        if exists|q: int| 0 <= q < gv.presets.len() && trim(#[trigger] gv.presets[q].name) == t@ {
                            let q = choose|q: int| 0 <= q < gv.presets.len() && trim(#[trigger] gv.presets[q].name) == t@;
                            assert(rebuilt[q].name == t@);
                        }
                        if exists|q: int| 0 <= q < rebuilt.len() && #[trigger] rebuilt[q].name == t@ {
                            let q = choose|q: int| 0 <= q < rebuilt.len() && #[trigger] rebuilt[q].name == t@;
                            assert(trim(gv.presets[q].name) == t@);
                        }
                    }
                    match found {
                        Some(_) => Some(t),
                        None => None,
                    }
                }
            },
            None => None,
        };
        assert(opt_view(emoji) == normalized_emoji(gv.emoji));
        assert(opt_view(active) == restored_active(gv));
        let entry = GroupMetadata { name, order: i, emoji, active_preset: active, presets };
        assert(entry@ =~= restored_group(gs[i as int], i as int));
        out.push(entry);
        proof {
            let bn = backup_names(gs.take(i + 1));
            assert forall|k: int| 0 <= k < bn.len() implies is_valid_name(#[trigger] bn[k]) by {
                if k < done.len() {
                    assert(bn[k] == done[k]);
                } else if k == done.len() {
                    assert(bn[k] == gv.name);
                } else {
                    assert(bn[k] == row[k - done.len() - 1]);
                }
            }
        }
        i = i + 1;
    }
    proof {
        assert(gs.take(gs.len() as int) =~= gs);
        lemma_no_invalid(names);
    }
    assert(groups_view(out@) =~= restored_groups(gs));
    Ok(out)
}


/// Where the `.wav` file of a preset restored from a backup comes from.
#[derive(Debug, Clone)]
pub enum RestoreSource {
    /// The preset has no `.wav` file to restore.
    Nothing,
    /// The bytes embedded in the backup.
    Decoded(Vec<u8>),
    /// The file the preset referred to; it is read if it still exists.
    ReadReference(String),
}

/// Where the `.wav` file of a restored preset comes from: the backup's
/// embedded bytes when they decode, else the referenced file when the
/// preset names one.
pub open spec fn restore_source(c: Option<ConvolutionView>) -> Option<Result<Seq<u8>, Seq<char>>> {
    match c {
        None => None,
        Some(c) => {
            let decoded = match c.wav_base64 {
                Some(b) => standard_decoding(b),
                None => None,
            };
            match decoded {
                Some(bytes) => Some(Ok(bytes)),
                None => if trim(c.wav_path).len() > 0 {
                    Some(Err(c.wav_path))
                } else {
                    None
                },
            }
        },
    }
}

/// Decides where the `.wav` file of a restored preset comes from.
pub fn restore_source_of(convolution: &Option<PresetConvolution>) -> (r: RestoreSource)
    ensures
        match restore_source(crate::model::convolution_view(*convolution)) {
            None => r is Nothing,
            Some(Ok(bytes)) => r matches RestoreSource::Decoded(b) && b@ == bytes,
            Some(Err(path)) => r matches RestoreSource::ReadReference(p) && p@ == path,
        },
{
    match convolution {
        None => RestoreSource::Nothing,
        Some(c) => {
            let decoded = match &c.wav_base64 {
                Some(b) => base64_standard_decode(b.as_str()),
                None => None,
            };
            match decoded {
                Some(bytes) => RestoreSource::Decoded(bytes),
                None => {
                    let t = trim_str(c.wav_path.as_str());
                    if t.as_str().is_empty() {
                        RestoreSource::Nothing
                    } else {
                        RestoreSource::ReadReference(c.wav_path.clone())
                    }
                },
            }
        },
    }
}

/// The content written for a restored preset: when its `.wav` file was
/// restored to `convolution_path`, its `Convolution:` line points there.
pub fn restored_preset_content(content: &str, wav_restored: bool, convolution_path: &str) -> (r: String)
    ensures
        r@ == (if wav_restored {
            with_convolution_path(content@, convolution_path@)
        } else {
            content@
        }),
{
    if wav_restored {
        replace_convolution_path(content, convolution_path)
    } else {
        content.to_owned()
    }
}

/// Whether a backup should embed the bytes of a preset's `.wav` file: it
/// has none yet, no error was recorded, and it names a file.
pub open spec fn needs_wav_bytes(c: ConvolutionView) -> bool {
    c.error is None && c.wav_base64 is None && trim(c.wav_path).len() > 0
}

/// Whether a backup should embed the bytes of this `.wav` file.
pub fn needs_backup_bytes(c: &PresetConvolution) -> (r: bool)
    ensures
        r == needs_wav_bytes(c@),
{
    if c.error.is_some() || c.wav_base64.is_some() {
        return false;
    }
    let t = trim_str(c.wav_path.as_str());
    !t.as_str().is_empty()
}

/// The view of what reading a `.wav` file for a backup gave, if it was read.
pub open spec fn backup_read_view(r: Option<Result<Vec<u8>, String>>) -> Option<Result<Seq<u8>, Seq<char>>> {
    match r {
        Some(Ok(b)) => Some(Ok(b@)),
        Some(Err(e)) => Some(Err(e@)),
        None => None,
    }
}

/// The read for preset `j` of group `i`, if one was made.
pub open spec fn read_at(reads: Seq<Seq<Option<Result<Seq<u8>, Seq<char>>>>>, i: int, j: int) -> Option<
    Result<Seq<u8>, Seq<char>>,
> {
    if 0 <= i < reads.len() && 0 <= j < reads[i].len() {
        reads[i][j]
    } else {
        None
    }
}

/// The views of all reads.
pub open spec fn reads_view(reads: Seq<Vec<Option<Result<Vec<u8>, String>>>>) -> Seq<
    Seq<Option<Result<Seq<u8>, Seq<char>>>>,
> {
    reads.map_values(
        |row: Vec<Option<Result<Vec<u8>, String>>>|
            row@.map_values(|r: Option<Result<Vec<u8>, String>>| backup_read_view(r)),
    )
}

/// A convolution reference once its file was read for a backup: the bytes
/// embedded as base64, or the read's error recorded; unchanged when it did
/// not need its bytes or nothing was read.
pub open spec fn filled_convolution(c: Option<ConvolutionView>, read: Option<Result<Seq<u8>, Seq<char>>>) -> Option<
    ConvolutionView,
> {
    match c {
        Some(c) => if needs_wav_bytes(c) {
            match read {
                Some(Ok(bytes)) => Some(ConvolutionView { wav_base64: Some(standard_encoding(bytes)), ..c }),
                Some(Err(e)) => Some(ConvolutionView { error: Some(e), ..c }),
                None => Some(c),
            }
        } else {
            Some(c)
        },
        None => None,
    }
}

/// A library with the `.wav` files read for a backup filled in.
pub open spec fn filled_library(lib: PresetLibraryView, reads: Seq<Seq<Option<Result<Seq<u8>, Seq<char>>>>>) -> PresetLibraryView {
    PresetLibraryView {
        groups: Seq::new(
            lib.groups.len(),
            |i: int|
                PresetGroupView {
                    presets: Seq::new(
                        lib.groups[i].presets.len(),
                        |j: int|
                            crate::model::PresetItemView {
                                convolution: filled_convolution(
                                    lib.groups[i].presets[j].convolution,
                                    read_at(reads, i, j),
                                ),
                                ..lib.groups[i].presets[j]
                            },
                    ),
                    ..lib.groups[i]
                },
        ),
        ..lib
    }
}

/// Whether every byte string read is short enough to encode.
pub open spec fn reads_encodable(reads: Seq<Vec<Option<Result<Vec<u8>, String>>>>) -> bool {
    forall|i: int, j: int|
        0 <= i < reads.len() && 0 <= j < reads[i]@.len() ==> match #[trigger] reads[i]@[j] {
            Some(Ok(b)) => b@.len() <= isize::MAX,
            _ => true,
        }
}

/// Whether every `.wav` file embedded in `after` restores to the bytes that
/// were read for it.
pub open spec fn embedded_bytes_restore(
    before: PresetLibraryView,
    after: PresetLibraryView,
    reads: Seq<Seq<Option<Result<Seq<u8>, Seq<char>>>>>,
) -> bool {
    forall|i: int, j: int|
        0 <= i < before.groups.len() && 0 <= j < before.groups[i].presets.len() && (
        #[trigger] before.groups[i].presets[j].convolution matches Some(c) && needs_wav_bytes(c))
            ==> (read_at(reads, i, j) matches Some(Ok(b)) ==> restore_source(
            after.groups[i].presets[j].convolution,
        ) == Some(Ok::<Seq<u8>, Seq<char>>(b)))
}

/// A convolution reference with what was read for it filled in.
fn filled_convolution_exec(c: &Option<PresetConvolution>, read: Option<&Result<Vec<u8>, String>>) -> (r: Option<
    PresetConvolution,
>)
    requires
        match read {
            Some(Ok(b)) => b@.len() <= isize::MAX,
            _ => true,
        },
    ensures
        crate::model::convolution_view(r) == filled_convolution(
            crate::model::convolution_view(*c),
            match read {
                Some(x) => backup_read_view(Some(*x)),
                None => None,
            },
        ),
        match (c, read) {
            (Some(conv), Some(Ok(b))) => needs_wav_bytes(conv@) ==> restore_source(
                crate::model::convolution_view(r),
            ) == Some(Ok::<Seq<u8>, Seq<char>>(b@)),
            _ => true,
        },
{
    match c {
        None => None,
        Some(conv) => {
            let mut out = conv.copy();
            if needs_backup_bytes(conv) {
                match read {
                    Some(Ok(bytes)) => {
                        out.wav_base64 = Some(base64_standard_encode(bytes.as_slice()));
                    },
                    Some(Err(e)) => {
                        out.error = Some(e.clone());
                    },
                    None => {},
                }
            }
            Some(out)
        },
    }
}

/// Embeds, for a backup, the `.wav` files that were read: `reads[i][j]` is
/// what reading the file of preset `j` of group `i` gave (`None` where it
/// was not read). A preset that needs its bytes gets them as base64, or the
/// read's error; every other preset is left as it was.
pub fn populate_backup_convolution_bytes(
    snapshot: &mut PresetLibrary,
    reads: &Vec<Vec<Option<Result<Vec<u8>, String>>>>,
)
    requires
        reads_encodable(reads@),
    ensures
        final(snapshot)@ == filled_library(old(snapshot)@, reads_view(reads@)),
        embedded_bytes_restore(old(snapshot)@, final(snapshot)@, reads_view(reads@)),
{
    let ghost lib = snapshot@;
    let ghost rv = reads_view(reads@);
    let mut groups: Vec<PresetGroup> = Vec::new();
    let mut i: usize = 0;
    while i < snapshot.groups.len()
        invariant
            lib == old(snapshot)@,
            snapshot@ == lib,
            rv == reads_view(reads@),
            reads_encodable(reads@),
            i <= snapshot.groups@.len(),
            groups@.len() == i,
            forall|k: int|
                0 <= k < i ==> #[trigger] groups@[k]@ == filled_library(lib, rv).groups[k],
            forall|k: int, q: int|
                0 <= k < i && 0 <= q < lib.groups[k].presets.len() && (
                #[trigger] lib.groups[k].presets[q].convolution matches Some(c) && needs_wav_bytes(c))
                    ==> (read_at(rv, k, q) matches Some(Ok(b)) ==> restore_source(
                    groups@[k]@.presets[q].convolution,
                ) == Some(Ok::<Seq<u8>, Seq<char>>(b))),
        decreases snapshot.groups.len() - i,
    {
        let g = &snapshot.groups[i];
        assert(g@ == lib.groups[i as int]);
        let mut items: Vec<crate::model::PresetItem> = Vec::new();
        let mut j: usize = 0;
        while j < g.presets.len()
            invariant
                lib == old(snapshot)@,
                snapshot@ == lib,
                rv == reads_view(reads@),
                reads_encodable(reads@),
                i < snapshot.groups@.len(),
                g == snapshot.groups@[i as int],
                g@ == lib.groups[i as int],
                j <= g.presets@.len(),
                items@.len() == j,
                forall|k: int|
                    0 <= k < j ==> #[trigger] items@[k]@ == filled_library(lib, rv).groups[i as int].presets[k],
                forall|q: int|
                    0 <= q < j && (#[trigger] lib.groups[i as int].presets[q].convolution matches Some(c)
                        && needs_wav_bytes(c)) ==> (read_at(rv, i as int, q) matches Some(Ok(b))
                        ==> restore_source(items@[q]@.convolution) == Some(Ok::<Seq<u8>, Seq<char>>(b))),
            decreases g.presets.len() - j,
        {
            let p = &g.presets[j];
            assert(p@ == lib.groups[i as int].presets[j as int]);
            let read: Option<&Result<Vec<u8>, String>> = if i < reads.len() && j < reads[i].len() {
                match &reads[i][j] {
                    Some(x) => Some(x),
                    None => None,
                }
            } else {
                None
            };
            proof {
                if i < reads@.len() && j < reads@[i as int]@.len() {
                    assert(rv[i as int] == reads@[i as int]@.map_values(
                        |r: Option<Result<Vec<u8>, String>>| backup_read_view(r),
                    ));
                    assert(rv[i as int][j as int] == backup_read_view(reads@[i as int]@[j as int]));
                    assert(match reads@[i as int]@[j as int] {
                        Some(Ok(b)) => b@.len() <= isize::MAX,
                        _ => true,
                    });
                }
            }
            let conv = filled_convolution_exec(&p.convolution, read);
            let item = crate::model::PresetItem {
                name: p.name.clone(),
                order: p.order,
                content: p.content.clone(),
                convolution: conv,
            };
            assert(item@ == filled_library(lib, rv).groups[i as int].presets[j as int]);
            proof {
                if i < reads@.len() && j < reads@[i as int]@.len() {
                    assert(read_at(rv, i as int, j as int) == backup_read_view(reads@[i as int]@[j as int]));
                } else {
                    assert(read_at(rv, i as int, j as int) is None);
                }
            }
            let ghost before_items = items@;
            items.push(item);
            proof {
                assert forall|q: int|
                    0 <= q < j + 1 && (#[trigger] lib.groups[i as int].presets[q].convolution matches Some(c)
                        && needs_wav_bytes(c)) implies (read_at(rv, i as int, q) matches Some(Ok(b))
                        ==> restore_source(items@[q]@.convolution) == Some(Ok::<Seq<u8>, Seq<char>>(b))) by {
                    if q < j {
                        assert(items@[q] == before_items[q]);
                    }
                }
            }
            j = j + 1;
        }
        let ng = PresetGroup {
            name: g.name.clone(),
            order: g.order,
            emoji: crate::model::copy_opt(&g.emoji),
            active_preset: crate::model::copy_opt(&g.active_preset),
            presets: items,
        };
        assert(ng@.presets =~= filled_library(lib, rv).groups[i as int].presets);
        assert(ng@ == filled_library(lib, rv).groups[i as int]);
        let ghost before_groups = groups@;
        groups.push(ng);
        proof {
            assert forall|k: int, q: int|
                0 <= k < i + 1 && 0 <= q < lib.groups[k].presets.len() && (
                #[trigger] lib.groups[k].presets[q].convolution matches Some(c) && needs_wav_bytes(c))
                    implies (read_at(rv, k, q) matches Some(Ok(b)) ==> restore_source(
                    groups@[k]@.presets[q].convolution,
                ) == Some(Ok::<Seq<u8>, Seq<char>>(b))) by {
                if k < i {
                    assert(groups@[k] == before_groups[k]);
                } else {
                    assert(groups@[k]@.presets[q] == ng@.presets[q]);
                    assert(ng@.presets[q] == items@[q]@);
                }
            }
        }
        i = i + 1;
    }
    snapshot.groups = groups;
    assert(snapshot@.groups =~= filled_library(lib, rv).groups);
}

/// What the library shows of the `.wav` file a preset refers to, given
/// what reading it gave: the bytes as base64, or why they are missing.
pub open spec fn convolution_state(wav_path: Seq<char>, read: WavRead) -> ConvolutionView {
    match read {
        WavRead::Missing(display) => ConvolutionView {
            wav_path,
            wav_base64: None,
            error: Some("The file or folder does not exist: "@ + display@),
        },
        WavRead::Bytes(bytes) => ConvolutionView {
            wav_path,
            wav_base64: Some(standard_encoding(bytes@)),
            error: None,
        },
        WavRead::Failed(message) => ConvolutionView { wav_path, wav_base64: None, error: Some(message@) },
    }
}

/// Builds what the library shows of a preset's `.wav` file from its path
/// (as the preset names it) and what reading the file gave.
pub fn build_convolution_state(wav_path: String, read: WavRead) -> (r: PresetConvolution)
    requires
        read matches WavRead::Bytes(b) ==> b@.len() <= isize::MAX,
    ensures
        r@ == convolution_state(wav_path@, read),
{
    match read {
        WavRead::Missing(display) => {
            let mut v: Vec<char> = Vec::new();
            extend_str(&mut v, "The file or folder does not exist: ");
            extend_str(&mut v, display.as_str());
            PresetConvolution { wav_path, wav_base64: None, error: Some(string_of(&v)) }
        },
        WavRead::Bytes(bytes) => {
            let encoded = base64_standard_encode(bytes.as_slice());
            PresetConvolution { wav_path, wav_base64: Some(encoded), error: None }
        },
        WavRead::Failed(message) => PresetConvolution { wav_path, wav_base64: None, error: Some(message) },
    }
}


/// Whether a library's metadata survives a backup unchanged: it is well
/// formed, its names are valid and trimmed, its emojis normalised, and each
/// active preset names one of its group's presets.
pub open spec fn backup_ready(gs: Seq<GroupMeta>) -> bool {
    &&& well_formed(gs)
    &&& forall|i: int|
        0 <= i < gs.len() ==> is_valid_name((#[trigger] gs[i]).name) && trim(gs[i].name) == gs[i].name
            && normalized_emoji(gs[i].emoji) == gs[i].emoji
    &&& forall|i: int, j: int|
        0 <= i < gs.len() && 0 <= j < gs[i].presets.len() ==> is_valid_name(
            (#[trigger] gs[i].presets[j]).name,
        ) && trim(gs[i].presets[j].name) == gs[i].presets[j].name
    &&& forall|i: int|
        0 <= i < gs.len() && (#[trigger] gs[i]).active_preset is Some ==> exists|j: int|
            0 <= j < gs[i].presets.len() && #[trigger] gs[i].presets[j].name == gs[i].active_preset->0
}

/// Whether the file of every preset was read.
pub open spec fn all_files_read(gs: Seq<GroupMeta>, files: Seq<Seq<FileView>>) -> bool {
    forall|i: int, j: int|
        0 <= i < gs.len() && 0 <= j < gs[i].presets.len() ==> i < files.len() && j < files[i].len()
            && (#[trigger] files[i][j]) is Some
}

/// With every file read, all presets are shown, in order.
proof fn lemma_all_shown(presets: Seq<PresetMeta>, row: Seq<FileView>, n: nat)
    requires
        n <= presets.len(),
        forall|j: int| 0 <= j < n ==> j < row.len() && (#[trigger] row[j]) is Some,
    ensures
        shown_presets(presets, row, n).len() == n,
        forall|j: int|
            0 <= j < n ==> (#[trigger] shown_presets(presets, row, n)[j]).name == presets[j].name
                && shown_presets(presets, row, n)[j].order == j,
    decreases n,
{
    if n > 0 {
        lemma_all_shown(presets, row, (n - 1) as nat);
        assert(row[n - 1] is Some);
        let prev = shown_presets(presets, row, (n - 1) as nat);
        let cur = shown_presets(presets, row, n);
        assert forall|j: int| 0 <= j < n implies (#[trigger] cur[j]).name == presets[j].name
            && cur[j].order == j by {
            if j < n - 1 {
                assert(cur[j] == prev[j]);
            }
        }
    }
}

/// When every group and preset name is valid, so is every name checked.
proof fn lemma_backup_names_valid(gs: Seq<PresetGroupView>)
    requires
        forall|i: int| 0 <= i < gs.len() ==> is_valid_name((#[trigger] gs[i]).name),
        forall|i: int, j: int|
            0 <= i < gs.len() && 0 <= j < gs[i].presets.len() ==> is_valid_name(
                (#[trigger] gs[i].presets[j]).name,
            ),
    ensures
        forall|k: int| 0 <= k < backup_names(gs).len() ==> is_valid_name(#[trigger] backup_names(gs)[k]),
    decreases gs.len(),
{
    if gs.len() > 0 {
        let init = gs.drop_last();
        assert forall|i: int| 0 <= i < init.len() implies is_valid_name((#[trigger] init[i]).name) by {
            assert(init[i] == gs[i]);
        }
        assert forall|i: int, j: int|
            0 <= i < init.len() && 0 <= j < init[i].presets.len() implies is_valid_name(
                (#[trigger] init[i].presets[j]).name,
            ) by {
            assert(init[i] == gs[i]);
        }
        lemma_backup_names_valid(init);
        let a = backup_names(init);
        let last = gs.last();
        let row = last.presets.map_values(|p: crate::model::PresetItemView| p.name);
        let all = backup_names(gs);
        assert(all == a + seq![last.name] + row);
        assert forall|k: int| 0 <= k < all.len() implies is_valid_name(#[trigger] all[k]) by {
            if k < a.len() {
                assert(all[k] == a[k]);
            } else if k == a.len() {
                assert(all[k] == last.name);
            } else {
                assert(all[k] == row[k - a.len() - 1]);
                assert(last.presets[k - a.len() - 1] == gs[gs.len() - 1].presets[k - a.len() - 1]);
            }
        }
    }
}

/// The files read for group `i` (none past the end).
pub open spec fn row_of(files: Seq<Seq<FileView>>, i: int) -> Seq<FileView> {
    if i < files.len() {
        files[i]
    } else {
        Seq::empty()
    }
}

/// With every file read, a group is shown with all its presets.
proof fn lemma_group_shown(gs: Seq<GroupMeta>, files: Seq<Seq<FileView>>, i: int)
    requires
        all_files_read(gs, files),
        0 <= i < gs.len(),
    ensures
        shown_presets(gs[i].presets, row_of(files, i), gs[i].presets.len()).len() == gs[i].presets.len(),
        forall|j: int|
            0 <= j < gs[i].presets.len() ==> (#[trigger] shown_presets(
                gs[i].presets,
                row_of(files, i),
                gs[i].presets.len(),
            )[j]).name == gs[i].presets[j].name && shown_presets(
                gs[i].presets,
                row_of(files, i),
                gs[i].presets.len(),
            )[j].order == j,
{
    let row = row_of(files, i);
    assert forall|j: int| 0 <= j < gs[i].presets.len() implies j < row.len() && (
    #[trigger] row[j]) is Some by {
        assert(files[i][j] is Some);
    }
    lemma_all_shown(gs[i].presets, row, gs[i].presets.len());
}

/// A backup of a library (with every preset file read) restores its
/// metadata: every name in it is accepted, and rebuilding the groups from it
/// gives the library's groups back.
pub proof fn lemma_backup_round_trip(s: LibraryState, files: Seq<Seq<FileView>>, needs_config_migration: bool)
    requires
        backup_ready(s.metadata.groups),
        all_files_read(s.metadata.groups, files),
    ensures
        ({
            let shown = library_view(s, files, needs_config_migration).groups;
            &&& first_invalid_name(backup_names(shown)) == backup_names(shown).len()
            &&& restored_groups(shown) == s.metadata.groups
        }),
{
    let gs = s.metadata.groups;
    let shown = library_view(s, files, needs_config_migration).groups;
    assert forall|i: int| 0 <= i < shown.len() implies is_valid_name((#[trigger] shown[i]).name) by {
        assert(shown[i].name == gs[i].name);
    }
    assert forall|i: int, j: int|
        0 <= i < shown.len() && 0 <= j < shown[i].presets.len() implies is_valid_name(
            (#[trigger] shown[i].presets[j]).name,
        ) by {
        lemma_group_shown(gs, files, i);
        let row = row_of(files, i);
        assert(shown[i] == shown_group(gs[i], i, row));
        let sp = shown_presets(gs[i].presets, row, gs[i].presets.len());
        assert(shown[i].presets == sp);
        assert(sp[j].name == gs[i].presets[j].name);
    }
    lemma_backup_names_valid(shown);
    lemma_no_invalid(backup_names(shown));
    assert forall|i: int| 0 <= i < gs.len() implies #[trigger] restored_group(shown[i], i) == gs[i] by {
        let g = gs[i];
        let sg = shown[i];
        lemma_group_shown(gs, files, i);
        let row = row_of(files, i);
        assert(sg == shown_group(gs[i], i, row));
        assert(sg.presets.len() == g.presets.len());
        assert forall|j: int| 0 <= j < g.presets.len() implies trim(#[trigger] sg.presets[j].name)
            == g.presets[j].name && g.presets[j].order == j by {
            let sp = shown_presets(gs[i].presets, row, gs[i].presets.len());
            assert(sg.presets == sp);
            assert(sp[j].name == gs[i].presets[j].name);
            assert(g.presets[j] == gs[i].presets[j]);
        }
        assert(Seq::new(
            sg.presets.len(),
            |j: int| PresetMeta { name: trim(sg.presets[j].name), order: j as nat },
        ) =~= g.presets);
        match g.active_preset {
            Some(a) => {
                let j = choose|j: int| 0 <= j < g.presets.len() && #[trigger] g.presets[j].name == a;
                assert(trim(sg.presets[j].name) == trim(a));
                assert(trim(a).len() > 0);
                assert(restored_active(sg) == Some(trim(a)));
            },
            None => {},
        }
        assert(restored_group(sg, i) =~= g);
    }
    assert(restored_groups(shown) =~= gs);
}

} // verus!
