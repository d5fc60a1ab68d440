//! The Linux system equalizer: what is exported of the active preset for
//! PipeWire's filter-chain, and the text parts of reading a GraphicEQ line.
use vstd::prelude::*;

use crate::library::{first_where, lemma_first_where};
use crate::model::{PresetGroupView, PresetItemView, PresetLibrary};
use crate::text::{
    chars_of, ends_with, extend_chars, extend_str, first_index, lemma_first_index, lines, lines_exec,
    lower_chars, lower_seq, replace_char, replace_char_exec, slice_chars, split_on, split_on_exec,
    starts_with, starts_with_str, string_of, trim, trim_chars, trim_start, trim_start_chars, words,
    words_exec,
};

verus! {

/// `value` escaped for a double-quoted PipeWire string: backslashes
/// doubled, then double quotes escaped.
pub open spec fn pipewire_escaped(value: Seq<char>) -> Seq<char> {
    replace_char(replace_char(value, '\\', "\\\\"@), '"', "\\\""@)
}

/// Escapes `value` for a double-quoted PipeWire string.
pub fn pipewire_string(value: &str) -> (r: String)
    ensures
        r@ == pipewire_escaped(value@),
{
    let v = chars_of(value);
    let a = replace_char_exec(&v, '\\', "\\\\");
    let b = replace_char_exec(&a, '"', "\\\"");
    string_of(&b)
}

/// Whether a line starts (after leading whitespace, in any ASCII case) with
/// `filter`.
pub open spec fn is_filter_line(line: Seq<char>) -> bool {
    starts_with(lower_seq(trim_start(line)), "filter"@)
}

/// Whether a preset has parametric `Filter` lines.
pub open spec fn has_filter_lines(content: Seq<char>) -> bool {
    exists|k: int| 0 <= k < lines(content).len() && is_filter_line(#[trigger] lines(content)[k])
}

/// Whether a preset has parametric `Filter` lines, which PipeWire's
/// `param_eq` reads directly.
pub fn has_parametric_filter_lines(content: &str) -> (r: bool)
    ensures
        r == has_filter_lines(content@),
{
    let v = chars_of(content);
    let ls = lines_exec(&v);
    let ghost lv = lines(content@);
    let mut k: usize = 0;
    while k < ls.len()
        invariant
            k <= ls@.len() == lv.len(),
            lv == lines(content@),
            forall|j: int| 0 <= j < ls@.len() ==> #[trigger] ls@[j]@ == lv[j],
            forall|j: int| 0 <= j < k ==> !is_filter_line(#[trigger] lv[j]),
        decreases ls.len() - k,
    {
        let t = trim_start_chars(&ls[k]);
        let l = lower_chars(&t);
        if starts_with_str(&l, "filter") {
            assert(is_filter_line(lv[k as int]));
            return true;
        }
        k = k + 1;
    }
    false
}

/// `s` without any number of trailing copies of `suffix`
/// (`str::trim_end_matches`).
pub open spec fn without_suffix(s: Seq<char>, suffix: Seq<char>) -> Seq<char>
    decreases s.len(),
{
    if suffix.len() > 0 && ends_with(s, suffix) {
        without_suffix(s.take(s.len() - suffix.len()), suffix)
    } else {
        s
    }
}

/// `s` without trailing copies of `suffix`.
fn without_suffix_exec(s: &Vec<char>, suffix: &str) -> (r: Vec<char>)
    requires
        suffix@.len() > 0,
    ensures
        r@ == without_suffix(s@, suffix@),
{
    let sv = chars_of(suffix);
    let mut n: usize = s.len();
    let ghost full = s@;
    assert(full.take(n as int) =~= full);
    while n >= sv.len() && crate::text::ends_with_exec(&slice_chars(s, 0, n), &sv)
        invariant
            n <= s@.len(),
            full == s@,
            sv@ == suffix@,
            sv@.len() > 0,
            without_suffix(full.take(n as int), suffix@) == without_suffix(full, suffix@),
        decreases n,
    {
        assert(full.take(n as int).take(n - sv.len()) =~= full.take(n - sv.len()));
        n = n - sv.len();
    }
    let r = slice_chars(s, 0, n);
    proof {
        assert(r@ =~= full.take(n as int));
        if n < sv@.len() {
            assert(!ends_with(full.take(n as int), suffix@));
        }
    }
    r
}

/// The frequency and gain texts of one `;`-separated piece of a GraphicEQ
/// line: its first two words, without `Hz` and `dB` suffixes.
pub open spec fn graphic_pair(piece: Seq<char>) -> Option<(Seq<char>, Seq<char>)> {
    let w = words(piece);
    if w.len() >= 2 {
        Some((without_suffix(w[0], "Hz"@), without_suffix(w[1], "dB"@)))
    } else {
        None
    }
}

/// The pairs of the pieces that have two words, in order.
pub open spec fn graphic_pairs_of(pieces: Seq<Seq<char>>) -> Seq<(Seq<char>, Seq<char>)>
    decreases pieces.len(),
{
    if pieces.len() == 0 {
        Seq::empty()
    } else {
        match graphic_pair(pieces.last()) {
            Some(p) => graphic_pairs_of(pieces.drop_last()).push(p),
            None => graphic_pairs_of(pieces.drop_last()),
        }
    }
}

/// Whether a line is a GraphicEQ command: before its first `:`, trimmed and
/// lower-cased, `graphiceq` (or `graphicq`).
pub open spec fn is_graphic_command(line: Seq<char>) -> bool {
    let k = first_index(line, ':');
    k < line.len() && (lower_seq(trim(line.take(k as int))) == "graphiceq"@ || lower_seq(
        trim(line.take(k as int)),
    ) == "graphicq"@)
}

/// The frequency and gain texts of one line.
pub open spec fn line_graphic_pairs(line: Seq<char>) -> Seq<(Seq<char>, Seq<char>)> {
    if is_graphic_command(line) {
        graphic_pairs_of(split_on(line.skip(first_index(line, ':') as int + 1), ';'))
    } else {
        Seq::empty()
    }
}

/// The frequency and gain texts of the lines `ls`, in order.
pub open spec fn graphic_pairs_of_lines(ls: Seq<Seq<char>>) -> Seq<(Seq<char>, Seq<char>)>
    decreases ls.len(),
{
    if ls.len() == 0 {
        Seq::empty()
    } else {
        graphic_pairs_of_lines(ls.drop_last()) + line_graphic_pairs(ls.last())
    }
}

/// The views of a list of text pairs.
pub open spec fn pairs_view(v: Seq<(String, String)>) -> Seq<(Seq<char>, Seq<char>)> {
    v.map_values(|p: (String, String)| (p.0@, p.1@))
}

/// Appends the pairs of one line.
fn push_line_pairs(out: &mut Vec<(String, String)>, line: &Vec<char>)
    ensures
        pairs_view(final(out)@) == pairs_view(old(out)@) + line_graphic_pairs(line@),
{
    let ghost start = pairs_view(out@);
    let k = crate::text::first_index_exec(line, ':');
    proof {
        lemma_first_index(line@, ':');
    }
    if k >= line.len() {
        assert(pairs_view(out@) =~= start + line_graphic_pairs(line@));
        return;
    }
    let head = slice_chars(line, 0, k);
    let th = trim_chars(&head);
    let cmd = lower_chars(&th);
    let cs = string_of(&cmd);
    assert(head@ =~= line@.take(k as int));
    if !(crate::text::str_eq(cs.as_str(), "graphiceq") || crate::text::str_eq(cs.as_str(), "graphicq")) {
        assert(pairs_view(out@) =~= start + line_graphic_pairs(line@));
        return;
    }
    let payload = slice_chars(line, k + 1, line.len());
    assert(payload@ =~= line@.skip(k + 1));
    let pieces = split_on_exec(&payload, ';');
    let ghost pv = split_on(payload@, ';');
    let mut i: usize = 0;
    assert(pv.take(0) =~= Seq::<Seq<char>>::empty());
    assert(start + graphic_pairs_of(pv.take(0)) =~= start);
    while i < pieces.len()
        invariant
            i <= pieces@.len() == pv.len(),
            pv == split_on(payload@, ';'),
            forall|j: int| 0 <= j < pieces@.len() ==> #[trigger] pieces@[j]@ == pv[j],
            pairs_view(out@) == start + graphic_pairs_of(pv.take(i as int)),
        decreases pieces.len() - i,
    {
        assert(pv.take(i + 1).drop_last() =~= pv.take(i as int));
        assert(pv.take(i + 1).last() == pieces@[i as int]@);
        let ws = words_exec(&pieces[i]);
        proof {
            reveal_strlit("Hz");
            reveal_strlit("dB");
        }
        if ws.len() >= 2 {
            let f = without_suffix_exec(&ws[0], "Hz");
            let g = without_suffix_exec(&ws[1], "dB");
            let ghost before = pairs_view(out@);
            out.push((string_of(&f), string_of(&g)));
            assert(pairs_view(out@) =~= before.push((f@, g@)));
        }
        i = i + 1;
    }
    assert(pv.take(i as int) =~= pv);
}

/// The frequency and gain texts of a preset's GraphicEQ lines, in order:
/// for each line whose command is `GraphicEQ`, each `;`-separated piece
/// with at least two words gives its first two words, without `Hz` and
/// `dB` suffixes.
pub fn graphic_eq_pairs(content: &str) -> (r: Vec<(String, String)>)
    ensures
        pairs_view(r@) == graphic_pairs_of_lines(lines(content@)),
{
    let v = chars_of(content);
    let ls = lines_exec(&v);
    let ghost lv = lines(content@);
    let mut out: Vec<(String, String)> = Vec::new();
    let mut k: usize = 0;
    assert(lv.take(0) =~= Seq::<Seq<char>>::empty());
    assert(pairs_view(out@) =~= graphic_pairs_of_lines(lv.take(0)));
    while k < ls.len()
        invariant
            k <= ls@.len() == lv.len(),
            lv == lines(content@),
            forall|j: int| 0 <= j < ls@.len() ==> #[trigger] ls@[j]@ == lv[j],
            pairs_view(out@) == graphic_pairs_of_lines(lv.take(k as int)),
        decreases ls.len() - k,
    {
        assert(lv.take(k + 1).drop_last() =~= lv.take(k as int));
        assert(lv.take(k + 1).last() == ls@[k as int]@);
        push_line_pairs(&mut out, &ls[k]);
        k = k + 1;
    }
    assert(lv.take(k as int) =~= lv);
    out
}

/// The text of the PipeWire filter-chain snippet up to the path of the
/// parametric preset file.
pub open spec fn filter_chain_head() -> Seq<char> {
    "# Autogenerated by SmartEQPresetSwitcher.\n# Restart PipeWire or log out/in after first setup:\n#   systemctl --user restart pipewire pipewire-pulse wireplumber\n#\n# This creates a virtual sink backed by PipeWire filter-chain and the builtin\n# param_eq filter. Route audio to \"SmartEQPresetSwitcher EQ\" in your desktop\n# sound settings, or set it as default with:\n#   pactl set-default-sink smart-eq-preset-switcher.eq\n\ncontext.modules = [\n  {\n    name = libpipewire-module-filter-chain\n    args = {\n      node.description = \"SmartEQPresetSwitcher EQ\"\n      media.name = \"SmartEQPresetSwitcher EQ\"\n      filter.graph = {\n        nodes = [\n          {\n            type = builtin\n            name = eq\n            label = param_eq\n            config = {\n              filename = \""@
}

/// The text of the PipeWire filter-chain snippet after the path of the
/// parametric preset file.
pub open spec fn filter_chain_tail() -> Seq<char> {
    "\"\n            }\n          }\n        ]\n      }\n      capture.props = {\n        node.name = \"smart-eq-preset-switcher.eq\"\n        node.description = \"SmartEQPresetSwitcher EQ\"\n        media.class = \"Audio/Sink\"\n        audio.channels = 2\n        audio.position = [ FL FR ]\n      }\n      playback.props = {\n        node.passive = true\n        audio.channels = 2\n        audio.position = [ FL FR ]\n      }\n    }\n  }\n]\n"@
}

/// The PipeWire filter-chain snippet that creates a virtual sink running
/// `param_eq` on the parametric preset file at `parametric_config_path`.
pub fn pipewire_filter_chain_config(parametric_config_path: &str) -> (r: String)
    ensures
        r@ == filter_chain_head() + pipewire_escaped(parametric_config_path@) + filter_chain_tail(),
{
    let mut v: Vec<char> = Vec::new();
    extend_str(&mut v, "# Autogenerated by SmartEQPresetSwitcher.\n# Restart PipeWire or log out/in after first setup:\n#   systemctl --user restart pipewire pipewire-pulse wireplumber\n#\n# This creates a virtual sink backed by PipeWire filter-chain and the builtin\n# param_eq filter. Route audio to \"SmartEQPresetSwitcher EQ\" in your desktop\n# sound settings, or set it as default with:\n#   pactl set-default-sink smart-eq-preset-switcher.eq\n\ncontext.modules = [\n  {\n    name = libpipewire-module-filter-chain\n    args = {\n      node.description = \"SmartEQPresetSwitcher EQ\"\n      media.name = \"SmartEQPresetSwitcher EQ\"\n      filter.graph = {\n        nodes = [\n          {\n            type = builtin\n            name = eq\n            label = param_eq\n            config = {\n              filename = \"");
    let escaped = pipewire_string(parametric_config_path);
    extend_str(&mut v, escaped.as_str());
    extend_str(&mut v, "\"\n            }\n          }\n        ]\n      }\n      capture.props = {\n        node.name = \"smart-eq-preset-switcher.eq\"\n        node.description = \"SmartEQPresetSwitcher EQ\"\n        media.class = \"Audio/Sink\"\n        audio.channels = 2\n        audio.position = [ FL FR ]\n      }\n      playback.props = {\n        node.passive = true\n        audio.channels = 2\n        audio.position = [ FL FR ]\n      }\n    }\n  }\n]\n");
    string_of(&v)
}

/// The name of the PipeWire configuration snippet.
pub fn pipewire_conf_name() -> (r: &'static str)
    ensures
        r@ == "99-smart-eq-preset-switcher-parametric-eq.conf"@,
{
    "99-smart-eq-preset-switcher-parametric-eq.conf"
}

/// The note written in place of a parametric preset that could not be
/// derived.
pub fn underivable_preset_note() -> (r: &'static str)
    ensures
        r@ == "# SmartEQPresetSwitcher could not derive a PipeWire-compatible parametric preset from the active preset.\n"@,
{
    "# SmartEQPresetSwitcher could not derive a PipeWire-compatible parametric preset from the active preset.\n"
}

/// The content of the active preset: that of the first group whose active
/// preset names one of its presets (the first preset of that name).
pub open spec fn active_content(gs: Seq<PresetGroupView>) -> Option<Seq<char>>
    decreases gs.len(),
{
    if gs.len() == 0 {
        None
    } else {
        match gs[0].active_preset {
            Some(a) => {
                let k = first_where(gs[0].presets, |p: PresetItemView| p.name == a);
                if k < gs[0].presets.len() {
                    Some(gs[0].presets[k as int].content)
                } else {
                    active_content(gs.drop_first())
                }
            },
            None => active_content(gs.drop_first()),
        }
    }
}

/// The content of the active preset, if a group's active preset names one
/// of its presets.
pub fn extract_active_preset_content(snapshot: &PresetLibrary) -> (r: Option<String>)
    ensures
        crate::model::opt_view(r) == active_content(snapshot@.groups),
{
    let ghost gv = snapshot@.groups;
    let mut i: usize = 0;
    assert(gv.skip(0) =~= gv);
    while i < snapshot.groups.len()
        invariant
            i <= snapshot.groups@.len() == gv.len(),
            gv == snapshot@.groups,
            active_content(gv.skip(i as int)) == active_content(gv),
        decreases snapshot.groups.len() - i,
    {
        let g = &snapshot.groups[i];
        let ghost rest = gv.skip(i as int);
        assert(rest[0] == g@);
        assert(rest.drop_first() =~= gv.skip(i + 1));
        if let Some(active) = &g.active_preset {
            let ghost p = |q: PresetItemView| q.name == active@;
            proof {
                lemma_first_where(g@.presets, p);
            }
            let mut j: usize = 0;
            while j < g.presets.len()
                invariant
                    i < snapshot.groups@.len() == gv.len(),
                    gv == snapshot@.groups,
                    rest == gv.skip(i as int),
                    rest.len() > 0,
                    rest[0] == g@,
                    g@.active_preset == Some(active@),
                    active_content(rest) == active_content(gv),
                    j <= g.presets@.len(),
                    p == (|q: PresetItemView| q.name == active@),
                    first_where(g@.presets, p) <= g@.presets.len(),
                    first_where(g@.presets, p) < g@.presets.len() ==> p(
                        g@.presets[first_where(g@.presets, p) as int],
                    ),
                    forall|q: int| 0 <= q < first_where(g@.presets, p) ==> !p(#[trigger] g@.presets[q]),
                    forall|q: int| 0 <= q < j ==> !p(#[trigger] g@.presets[q]),
                decreases g.presets.len() - j,
            {
                assert(g@.presets[j as int] == g.presets@[j as int]@);
                if crate::text::str_eq(g.presets[j].name.as_str(), active.as_str()) {
                    assert(first_where(g@.presets, p) == j);
                    let c = g.presets[j].content.clone();
                    proof {
                        assert(rest[0].active_preset == Some(active@));
                        assert(p == (|q: PresetItemView| q.name == rest[0].active_preset->0));
                        assert(active_content(rest) == Some(rest[0].presets[j as int].content));
                        assert(c@ == rest[0].presets[j as int].content);
                    }
                    return Some(c);
                }
                j = j + 1;
            }
        }
        i = i + 1;
    }
    assert(gv.skip(i as int) =~= Seq::<PresetGroupView>::empty());
    None
}

/// What the Linux export does with the active preset.
#[derive(Debug, Clone, Copy, PartialEq, Eq, Structural)]
pub enum LinuxExportKind {
    /// No preset is active: the exported files are removed.
    Clear,
    /// The preset has `Filter` lines and is used as the parametric preset.
    Parametric,
    /// The preset is converted from its GraphicEQ line, if it has one.
    Graphic,
}

/// Decides what the Linux export does with the active preset's content.
pub fn linux_export_kind(content: &Option<String>) -> (r: LinuxExportKind)
    ensures
        r == (match content {
            None => LinuxExportKind::Clear,
            Some(c) => if has_filter_lines(c@) {
                LinuxExportKind::Parametric
            } else {
                LinuxExportKind::Graphic
            },
        }),
{
    match content {
        None => LinuxExportKind::Clear,
        Some(c) => if has_parametric_filter_lines(c.as_str()) {
            LinuxExportKind::Parametric
        } else {
            LinuxExportKind::Graphic
        },
    }
}

} // verus!
