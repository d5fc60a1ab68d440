//! The text of presets and of Equalizer APO's `config.txt`: line endings,
//! the `Convolution:` line that links a preset to a `.wav` file, and the
//! managed block that includes the active preset.
use vstd::prelude::*;

use crate::text::{
    chars_of, contains, contains_str, crlf, crlf_normalize_chars, crlf_normalized, ends_with,
    ends_with_str, eq_ignore_case, extend_chars, extend_str, first_index, first_index_exec, join,
    join_exec, leading_ws, leading_ws_len, lemma_first_index, lemma_trim_start_skip, lines,
    lines_exec, replace_char, replace_char_exec, slice_chars, split_crlf, split_crlf_exec,
    starts_with, starts_with_str, string_of, trim, trim_chars, trim_start, trim_start_chars,
    all_unbroken, is_ws, lemma_join_front, lemma_lines_of_join, lemma_normalized_join,
    lemma_split_crlf_nonempty, lemma_split_normalized, no_breaks, trim_end,
};

verus! {

/// The first line of the block that the library manages inside `config.txt`.
pub const MANAGED_BLOCK_START: &'static str = "# >>> SmartEQPresetSwitcher >>>";

/// The last line of the managed block.
pub const MANAGED_BLOCK_END: &'static str = "# <<< SmartEQPresetSwitcher <<<";

/// The first line of the managed block as earlier releases wrote it.
pub const LEGACY_MANAGED_BLOCK_START: &'static str = "# >>> SmartEqualizerAPOPresetsManager >>>";

/// The last line of the managed block as earlier releases wrote it.
pub const LEGACY_MANAGED_BLOCK_END: &'static str = "# <<< SmartEqualizerAPOPresetsManager <<<";

// ---------------------------------------------------------------------------
// Line endings
// ---------------------------------------------------------------------------

/// `s` with its line endings normalized and ending in `\r\n`.
pub open spec fn with_trailing_crlf(s: Seq<char>) -> Seq<char> {
    let n = crlf_normalized(s);
    if ends_with(n, crlf()) {
        n
    } else {
        n + crlf()
    }
}

/// Writes every line ending of `value` as `\r\n`.
pub fn normalize_windows_newlines(value: &str) -> (r: String)
    ensures
        r@ == crlf_normalized(value@),
{
    let v = chars_of(value);
    let n = crlf_normalize_chars(&v);
    string_of(&n)
}

fn with_trailing_crlf_chars(value: &Vec<char>) -> (out: Vec<char>)
    ensures
        out@ == with_trailing_crlf(value@),
{
    let mut n = crlf_normalize_chars(value);
    if !ends_with_str(&n, "\r\n") {
        extend_str(&mut n, "\r\n");
    }
    proof {
        reveal_strlit("\r\n");
        assert("\r\n"@ =~= crlf());
    }
    n
}

/// Normalizes the line endings of `value` and makes sure it ends in `\r\n`.
pub fn ensure_trailing_newline(value: &str) -> (r: String)
    ensures
        r@ == with_trailing_crlf(value@),
{
    let v = chars_of(value);
    let out = with_trailing_crlf_chars(&v);
    string_of(&out)
}

// ---------------------------------------------------------------------------
// The `Convolution:` line
// ---------------------------------------------------------------------------

/// The part of `line` before its first `:`, once leading whitespace is gone;
/// `None` when the line holds no `:`.
pub open spec fn line_key(line: Seq<char>) -> Option<Seq<char>> {
    let t = trim_start(line);
    let i = first_index(t, ':');
    if i < t.len() {
        Some(t.take(i as int))
    } else {
        None
    }
}

/// The part of `line` after its first `:`, once leading whitespace is gone.
pub open spec fn line_value(line: Seq<char>) -> Seq<char> {
    let t = trim_start(line);
    t.skip(first_index(t, ':') + 1int)
}

/// Whether `line` is an Equalizer APO `Convolution:` command (the key is
/// compared without surrounding whitespace and without regard to ASCII case).
pub open spec fn is_convolution_line(line: Seq<char>) -> bool {
    match line_key(line) {
        Some(key) => eq_ignore_case(trim(key), "Convolution"@),
        None => false,
    }
}

/// Whether `line` is a `Convolution:` command.
pub fn is_convolution_line_exec(line: &Vec<char>) -> (r: bool)
    ensures
        r == is_convolution_line(line@),
{
    let t = trim_start_chars(line);
    let i = first_index_exec(&t, ':');
    if i < t.len() {
        let key = slice_chars(&t, 0, i);
        assert(key@ =~= t@.take(i as int));
        let k = trim_chars(&key);
        let word = chars_of("Convolution");
        crate::text::chars_eq_ignore_case(&k, &word)
    } else {
        false
    }
}

/// Whether `value`, trimmed, is a single quote character (which
/// `strip_wrapping_quotes` cannot take apart).
pub open spec fn is_lone_quote(value: Seq<char>) -> bool {
    let t = trim(value);
    t.len() == 1 && (t[0] == '"' || t[0] == '\'')
}

/// `value` trimmed, without one pair of matching quotes around it, and
/// trimmed again inside the quotes.
pub open spec fn unquoted(value: Seq<char>) -> Seq<char> {
    let t = trim(value);
    if t.len() > 0 && ((t[0] == '"' && t.last() == '"') || (t[0] == '\'' && t.last() == '\'')) {
        trim(t.subrange(1, t.len() - 1))
    } else {
        t
    }
}

/// Removes surrounding whitespace and one pair of wrapping quotes.
pub fn strip_wrapping_quotes(value: &str) -> (r: String)
    requires
        !is_lone_quote(value@),
    ensures
        r@ == unquoted(value@),
{
    let v = chars_of(value);
    let out = unquoted_chars(&v);
    string_of(&out)
}

fn unquoted_chars(v: &Vec<char>) -> (out: Vec<char>)
    requires
        !is_lone_quote(v@),
    ensures
        out@ == unquoted(v@),
{
    let t = trim_chars(v);
    if t.len() > 0 && ((t[0] == '"' && t[t.len() - 1] == '"') || (t[0] == '\'' && t[t.len() - 1]
        == '\'')) {
        let inner = slice_chars(&t, 1, t.len() - 1);
        trim_chars(&inner)
    } else {
        t
    }
}

/// The quoted path that a `Convolution:` line refers to.
pub open spec fn convolution_value(line: Seq<char>) -> Seq<char> {
    unquoted(line_value(line))
}

/// Whether the scan for a convolution path through `ls` reaches a
/// `Convolution:` line whose value is a lone quote before it finds a path.
pub open spec fn convolution_scan_stalls(ls: Seq<Seq<char>>) -> bool
    decreases ls.len(),
{
    if ls.len() == 0 {
        false
    } else if is_convolution_line(ls[0]) && is_lone_quote(line_value(ls[0])) {
        true
    } else if is_convolution_line(ls[0]) && convolution_value(ls[0]).len() > 0 {
        false
    } else {
        convolution_scan_stalls(ls.drop_first())
    }
}

/// The path named by the first `Convolution:` line of `ls` that names one.
pub open spec fn first_convolution_value(ls: Seq<Seq<char>>) -> Option<Seq<char>>
    decreases ls.len(),
{
    if ls.len() == 0 {
        None
    } else if is_convolution_line(ls[0]) && convolution_value(ls[0]).len() > 0 {
        Some(convolution_value(ls[0]))
    } else {
        first_convolution_value(ls.drop_first())
    }
}

/// Whether extracting the convolution path from `content` cannot complete.
pub open spec fn convolution_extraction_stalls(content: Seq<char>) -> bool {
    convolution_scan_stalls(lines(content))
}

/// The `.wav` path that `content` refers to, if any.
pub open spec fn convolution_path_of(content: Seq<char>) -> Option<Seq<char>> {
    first_convolution_value(lines(content))
}

/// Whether extracting the convolution path from `content` cannot complete;
/// callers test this before `extract_convolution_path`.
pub fn convolution_extraction_stalls_exec(content: &str) -> (r: bool)
    ensures
        r == convolution_extraction_stalls(content@),
{
    let v = chars_of(content);
    let ls = lines_exec(&v);
    let ghost lv = lines(content@);
    let mut k: usize = 0;
    assert(lv.skip(0) =~= lv);
    while k < ls.len()
        invariant
            k <= ls@.len() == lv.len(),
            forall|j: int| 0 <= j < ls@.len() ==> #[trigger] ls@[j]@ == lv[j],
            lv == lines(content@),
            convolution_scan_stalls(lv.skip(k as int)) == convolution_scan_stalls(lv),
        decreases ls.len() - k,
    {
        let line = &ls[k];
        let ghost rest = lv.skip(k as int);
        assert(rest[0] == line@);
        assert(rest.drop_first() =~= lv.skip(k + 1));
        if is_convolution_line_exec(line) {
            let t = trim_start_chars(line);
            let i = first_index_exec(&t, ':');
            proof {
                lemma_first_index(t@, ':');
                assert(line_key(line@) is Some);
                assert(i < t@.len());
            }
            let value = slice_chars(&t, i + 1, t.len());
            assert(value@ =~= line_value(line@));
            let tv = trim_chars(&value);
            if tv.len() == 1 && (tv[0] == '"' || tv[0] == '\'') {
                return true;
            }
            let u = unquoted_chars(&value);
            if u.len() > 0 {
                return false;
            }
        }
        k = k + 1;
    }
    assert(lv.skip(k as int) =~= Seq::<Seq<char>>::empty());
    false
}

/// The `.wav` path that the first `Convolution:` line naming one refers to.
pub fn extract_convolution_path(content: &str) -> (r: Option<String>)
    requires
        !convolution_extraction_stalls(content@),
    ensures
        r.is_some() == convolution_path_of(content@).is_some(),
        r is Some ==> r->0@ == convolution_path_of(content@)->0,
{
    let v = chars_of(content);
    let ls = lines_exec(&v);
    let ghost lv = lines(content@);
    let mut k: usize = 0;
    assert(lv.skip(0) =~= lv);
    while k < ls.len()
        invariant
            k <= ls@.len() == lv.len(),
            forall|j: int| 0 <= j < ls@.len() ==> #[trigger] ls@[j]@ == lv[j],
            lv == lines(content@),
            !convolution_scan_stalls(lv.skip(k as int)),
            first_convolution_value(lv.skip(k as int)) == first_convolution_value(lv),
        decreases ls.len() - k,
    {
        let line = &ls[k];
        let ghost rest = lv.skip(k as int);
        assert(rest[0] == line@);
        assert(rest.drop_first() =~= lv.skip(k + 1));
        if is_convolution_line_exec(line) {
            let t = trim_start_chars(line);
            let i = first_index_exec(&t, ':');
            proof {
                lemma_first_index(t@, ':');
                assert(line_key(line@) is Some);
                assert(i < t@.len());
            }
            let value = slice_chars(&t, i + 1, t.len());
            assert(value@ =~= line_value(line@));
            let u = unquoted_chars(&value);
            if u.len() > 0 {
                return Some(string_of(&u));
            }
        }
        k = k + 1;
    }
    assert(lv.skip(k as int) =~= Seq::<Seq<char>>::empty());
    None
}

/// A path as it is written inside the quotes of a `Convolution:` line: every
/// `"` escaped as `\"`.
pub open spec fn quoted_path_text(path: Seq<char>) -> Seq<char> {
    replace_char(path, '"', "\\\""@)
}

/// Escapes the quotes of a path for a `Convolution:` line.
pub fn format_convolution_path(path: &str) -> (r: String)
    ensures
        r@ == quoted_path_text(path@),
{
    let v = chars_of(path);
    let out = replace_char_exec(&v, '"', "\\\"");
    string_of(&out)
}

/// The `Convolution:` command that points at `path`.
pub open spec fn convolution_command(path: Seq<char>) -> Seq<char> {
    "Convolution: \""@ + quoted_path_text(path) + "\""@
}

fn convolution_command_chars(path: &str) -> (out: Vec<char>)
    ensures
        out@ == convolution_command(path@),
{
    let mut out: Vec<char> = Vec::new();
    extend_str(&mut out, "Convolution: \"");
    let v = chars_of(path);
    let q = replace_char_exec(&v, '"', "\\\"");
    extend_chars(&mut out, &q);
    extend_str(&mut out, "\"");
    out
}

/// The content of a preset made from a `.wav` file alone.
pub fn build_convolution_preset_content(wav_path: &str) -> (r: String)
    ensures
        r@ == convolution_command(wav_path@) + crlf(),
{
    let mut out = convolution_command_chars(wav_path);
    extend_str(&mut out, "\r\n");
    proof {
        reveal_strlit("\r\n");
    }
    string_of(&out)
}

/// The leading whitespace of `line`.
pub open spec fn indent(line: Seq<char>) -> Seq<char> {
    line.take(leading_ws(line) as int)
}

/// The position of the first `Convolution:` line among `parts`, or
/// `parts.len()` when there is none.
pub open spec fn first_convolution_line(parts: Seq<Seq<char>>) -> nat
    decreases parts.len(),
{
    if parts.len() == 0 {
        0
    } else if is_convolution_line(parts[0]) {
        0
    } else {
        1 + first_convolution_line(parts.drop_first())
    }
}

pub proof fn lemma_first_convolution_line(parts: Seq<Seq<char>>)
    ensures
        first_convolution_line(parts) <= parts.len(),
        first_convolution_line(parts) < parts.len() ==> is_convolution_line(
            parts[first_convolution_line(parts) as int],
        ),
        forall|i: int| 0 <= i < first_convolution_line(parts) ==> !is_convolution_line(parts[i]),
    decreases parts.len(),
{
    if parts.len() > 0 && !is_convolution_line(parts[0]) {
        lemma_first_convolution_line(parts.drop_first());
        assert forall|i: int| 0 <= i < first_convolution_line(parts) implies !is_convolution_line(
            parts[i],
        ) by {
            if i > 0 {
                assert(parts[i] == parts.drop_first()[i - 1]);
            }
        }
    }
}

/// `content` with its first `Convolution:` line pointing at `wav_path`
/// (keeping the line's indentation), or with such a line appended when it has
/// none; line endings are written as `\r\n`.
pub open spec fn with_convolution_path(content: Seq<char>, wav_path: Seq<char>) -> Seq<char> {
    let normalized = crlf_normalized(content);
    let replacement = convolution_command(wav_path);
    let parts = split_crlf(normalized);
    let k = first_convolution_line(parts);
    if k == parts.len() {
        let base = if normalized.len() > 0 && !ends_with(normalized, crlf()) {
            normalized + crlf()
        } else {
            normalized
        };
        base + replacement + crlf()
    } else {
        let joined = join(parts.update(k as int, indent(parts[k as int]) + replacement), crlf());
        if joined.len() == 0 {
            joined
        } else {
            with_trailing_crlf(joined)
        }
    }
}

fn pieces_view(parts: &Vec<Vec<char>>) -> (r: Ghost<Seq<Seq<char>>>)
    ensures
        r@ == parts@.map_values(|p: Vec<char>| p@),
{
    Ghost(parts@.map_values(|p: Vec<char>| p@))
}

/// Points the first `Convolution:` line of `content` at `wav_path`, or
/// appends such a line.
pub fn replace_convolution_path(content: &str, wav_path: &str) -> (r: String)
    ensures
        r@ == with_convolution_path(content@, wav_path@),
{
    proof {
        reveal_strlit("\r\n");
        assert("\r\n"@ =~= crlf());
    }
    let v = chars_of(content);
    let normalized = crlf_normalize_chars(&v);
    let replacement = convolution_command_chars(wav_path);
    let mut parts = split_crlf_exec(&normalized);
    let ghost pv = split_crlf(normalized@);
    proof {
        lemma_first_convolution_line(pv);
    }
    let mut k: usize = 0;
    while k < parts.len() && !is_convolution_line_exec(&parts[k])
        invariant
            k <= parts@.len() == pv.len(),
            forall|j: int| 0 <= j < parts@.len() ==> #[trigger] parts@[j]@ == pv[j],
            first_convolution_line(pv) <= pv.len(),
            first_convolution_line(pv) < pv.len() ==> is_convolution_line(
                pv[first_convolution_line(pv) as int],
            ),
            forall|i: int| 0 <= i < first_convolution_line(pv) ==> !is_convolution_line(pv[i]),
            forall|i: int| 0 <= i < k ==> !is_convolution_line(pv[i]),
        decreases parts.len() - k,
    {
        k = k + 1;
    }
    assert(k == first_convolution_line(pv));
    if k == parts.len() {
        let mut appended = normalized;
        if appended.len() > 0 && !ends_with_str(&appended, "\r\n") {
            extend_str(&mut appended, "\r\n");
        }
        extend_chars(&mut appended, &replacement);
        extend_str(&mut appended, "\r\n");
        return string_of(&appended);
    }
    let line = slice_chars(&parts[k], 0, parts[k].len());
    assert(line@ =~= pv[k as int]);
    let n = leading_ws_len(&line);
    proof {
        lemma_trim_start_skip(line@);
    }
    let mut new_line = slice_chars(&line, 0, n);
    extend_chars(&mut new_line, &replacement);
    let ghost before = parts@;
    parts.set(k, new_line);
    let ghost updated = pv.update(k as int, indent(pv[k as int]) + convolution_command(wav_path@));
    assert(parts@.map_values(|p: Vec<char>| p@) =~= updated) by {
        assert forall|j: int| 0 <= j < parts@.len() implies #[trigger] parts@[j]@ == updated[j] by {
            if j != k {
                assert(parts@[j] == before[j]);
            }
        }
    }
    let joined = join_exec(&parts, "\r\n");
    if joined.len() == 0 {
        string_of(&joined)
    } else {
        let out = with_trailing_crlf_chars(&joined);
        string_of(&out)
    }
}

/// `content` without its `Convolution:` lines; line endings are written as
/// `\r\n`.
pub open spec fn without_convolution_lines(content: Seq<char>) -> Seq<char> {
    let parts = split_crlf(crlf_normalized(content));
    let kept = parts.filter(|p: Seq<char>| !is_convolution_line(p));
    let joined = join(kept, crlf());
    if joined.len() == 0 {
        joined
    } else {
        with_trailing_crlf(joined)
    }
}

/// Removes every `Convolution:` line from `content`.
pub fn remove_convolution_path(content: &str) -> (r: String)
    ensures
        r@ == without_convolution_lines(content@),
{
    proof {
        reveal_strlit("\r\n");
        assert("\r\n"@ =~= crlf());
    }
    let v = chars_of(content);
    let normalized = crlf_normalize_chars(&v);
    let parts = split_crlf_exec(&normalized);
    let ghost pv = split_crlf(normalized@);
    let ghost pred = |p: Seq<char>| !is_convolution_line(p);
    let mut kept: Vec<Vec<char>> = Vec::new();
    let mut k: usize = 0;
    while k < parts.len()
        invariant
            k <= parts@.len() == pv.len(),
            forall|j: int| 0 <= j < parts@.len() ==> #[trigger] parts@[j]@ == pv[j],
            pred == (|p: Seq<char>| !is_convolution_line(p)),
            kept@.map_values(|p: Vec<char>| p@) == pv.take(k as int).filter(pred),
        decreases parts.len() - k,
    {
        proof {
            reveal_with_fuel(Seq::<_>::filter, 1);
            assert(pv.take(k + 1).drop_last() =~= pv.take(k as int));
        }
        if !is_convolution_line_exec(&parts[k]) {
            let piece = slice_chars(&parts[k], 0, parts[k].len());
            assert(piece@ =~= pv[k as int]);
            kept.push(piece);
            assert(kept@.map_values(|p: Vec<char>| p@) =~= pv.take(k + 1).filter(pred));
        } else {
            assert(kept@.map_values(|p: Vec<char>| p@) =~= pv.take(k + 1).filter(pred));
        }
        k = k + 1;
    }
    assert(pv.take(pv.len() as int) =~= pv);
    let joined = join_exec(&kept, "\r\n");
    if joined.len() == 0 {
        string_of(&joined)
    } else {
        let out = with_trailing_crlf_chars(&joined);
        string_of(&out)
    }
}

// ---------------------------------------------------------------------------
// The managed block inside `config.txt`
// ---------------------------------------------------------------------------

/// The managed block that includes the active preset from `include_path`.
pub open spec fn managed_block(include_path: Seq<char>) -> Seq<char> {
    MANAGED_BLOCK_START@ + "\r\nInclude: "@ + include_path + "\r\n"@ + MANAGED_BLOCK_END@
}

/// The `config.txt` that the library writes: the managed block alone, with
/// `\r\n` line endings and a final line ending.
pub open spec fn managed_config(include_path: Seq<char>) -> Seq<char> {
    with_trailing_crlf(crlf_normalized(managed_block(include_path)))
}

/// Whether `existing` holds a managed block marker, current or legacy.
pub open spec fn has_managed_marker(existing: Seq<char>) -> bool {
    ||| contains(existing, MANAGED_BLOCK_START@)
    ||| contains(existing, MANAGED_BLOCK_END@)
    ||| contains(existing, LEGACY_MANAGED_BLOCK_START@)
    ||| contains(existing, LEGACY_MANAGED_BLOCK_END@)
}

/// The managed block to write when `existing_config` already holds one.
pub fn replace_existing_managed_block(existing_config: &str, managed_block: &str) -> (r: Option<
    String,
>)
    ensures
        r.is_some() == has_managed_marker(existing_config@),
        r is Some ==> r->0@ == managed_block@,
{
    let e = chars_of(existing_config);
    if contains_str(&e, MANAGED_BLOCK_START) || contains_str(&e, MANAGED_BLOCK_END)
        || contains_str(&e, LEGACY_MANAGED_BLOCK_START) || contains_str(
        &e,
        LEGACY_MANAGED_BLOCK_END,
    ) {
        Some(managed_block.to_owned())
    } else {
        None
    }
}

/// Whether `existing` is a whole config that an earlier release generated.
pub open spec fn is_legacy_config(existing: Seq<char>) -> bool {
    let t = trim(existing);
    (starts_with(t, "# SmartEQPresetSwitcher"@) || starts_with(
        t,
        "# SmartEqualizerAPOPresetsManager"@,
    )) && (contains(t, "# Active preset:"@) || contains(t, "# No active preset selected."@))
}

/// Whether `existing_config` is a whole config that an earlier release
/// generated.
pub fn is_legacy_managed_config(existing_config: &str) -> (r: bool)
    ensures
        r == is_legacy_config(existing_config@),
{
    let e = chars_of(existing_config);
    let t = trim_chars(&e);
    (starts_with_str(&t, "# SmartEQPresetSwitcher") || starts_with_str(
        &t,
        "# SmartEqualizerAPOPresetsManager",
    )) && (contains_str(&t, "# Active preset:") || contains_str(
        &t,
        "# No active preset selected.",
    ))
}

/// The `config.txt` content that includes the active preset from
/// `include_path`. Whatever `existing_config` holds (an earlier managed
/// block, a config an earlier release generated, or Equalizer APO's own
/// defaults), the result is the managed block alone, so that no other EQ
/// settings stack with the preset.
pub fn build_config_with_managed_include(existing_config: &str, include_path: &str) -> (r: String)
    ensures
        r@ == managed_config(include_path@),
{
    let mut block: Vec<char> = Vec::new();
    extend_str(&mut block, MANAGED_BLOCK_START);
    extend_str(&mut block, "\r\nInclude: ");
    extend_str(&mut block, include_path);
    extend_str(&mut block, "\r\n");
    extend_str(&mut block, MANAGED_BLOCK_END);
    let block_text = string_of(&block);
    let normalized_existing = normalize_windows_newlines(existing_config);
    let normalized_block = normalize_windows_newlines(block_text.as_str());
    if let Some(updated) = replace_existing_managed_block(
        normalized_existing.as_str(),
        normalized_block.as_str(),
    ) {
        return ensure_trailing_newline(updated.as_str());
    }
    if is_legacy_managed_config(normalized_existing.as_str()) {
        return ensure_trailing_newline(normalized_block.as_str());
    }
    ensure_trailing_newline(normalized_block.as_str())
}

/// The header line of every generated preset payload.
pub open spec fn payload_header() -> Seq<char> {
    "# Generated by SmartEQPresetSwitcher\r\n"@
}

/// The managed preset file's content: a header naming the active preset
/// followed by its content, or a header saying that none is selected when
/// there is no active preset or its file could not be found.
pub open spec fn managed_payload(
    active: Option<(Seq<char>, Seq<char>)>,
    content: Option<Seq<char>>,
) -> Seq<char> {
    let payload = match (active, content) {
        (Some((g, p)), Some(c)) => payload_header() + "# Active preset: "@ + g + " / "@ + p
            + "\r\n\r\n"@ + crlf_normalized(c),
        _ => payload_header() + "# No active preset selected.\r\n"@,
    };
    with_trailing_crlf(payload)
}

/// Builds the managed preset file's content from the active selection and,
/// when its file exists, the active preset's content.
pub fn build_managed_preset_payload(
    active: Option<(String, String)>,
    content: Option<String>,
) -> (r: String)
    ensures
        r@ == managed_payload(
            match active {
                Some((g, p)) => Some((g@, p@)),
                None => None,
            },
            match content {
                Some(c) => Some(c@),
                None => None,
            },
        ),
{
    let mut payload: Vec<char> = Vec::new();
    extend_str(&mut payload, "# Generated by SmartEQPresetSwitcher\r\n");
    match (active, content) {
        (Some((g, p)), Some(c)) => {
            extend_str(&mut payload, "# Active preset: ");
            extend_str(&mut payload, g.as_str());
            extend_str(&mut payload, " / ");
            extend_str(&mut payload, p.as_str());
            extend_str(&mut payload, "\r\n\r\n");
            let cv = chars_of(c.as_str());
            let cn = crlf_normalize_chars(&cv);
            extend_chars(&mut payload, &cn);
        },
        _ => {
            extend_str(&mut payload, "# No active preset selected.\r\n");
        },
    }
    let out = with_trailing_crlf_chars(&payload);
    string_of(&out)
}


// ---------------------------------------------------------------------------
// Reading back the convolution path
// ---------------------------------------------------------------------------

/// Whether `path` can stand in a `Convolution:` line and be read back as it
/// is: not blank, without surrounding whitespace, line breaks or quotes.
pub open spec fn plain_wav_path(path: Seq<char>) -> bool {
    &&& path.len() > 0
    &&& trim(path) == path
    &&& no_breaks(path)
    &&& forall|i: int| 0 <= i < path.len() ==> path[i] != '"'
}

/// A path without quotes is written into the line as it is.
proof fn lemma_quoted_plain(path: Seq<char>)
    requires
        forall|i: int| 0 <= i < path.len() ==> path[i] != '"',
    ensures
        quoted_path_text(path) == path,
    decreases path.len(),
{
    if path.len() > 0 {
        lemma_quoted_plain(path.drop_last());
        assert(path.drop_last().push(path.last()) =~= path);
    }
}

/// Leading whitespace does not change what `trim_start` gives.
proof fn lemma_trim_start_after_ws(w: Seq<char>, t: Seq<char>)
    requires
        forall|i: int| 0 <= i < w.len() ==> is_ws(w[i]),
    ensures
        trim_start(w + t) == trim_start(t),
    decreases w.len(),
{
    if w.len() > 0 {
        assert((w + t).drop_first() =~= w.drop_first() + t);
        lemma_trim_start_after_ws(w.drop_first(), t);
    } else {
        assert(w + t =~= t);
    }
}

/// The indentation of a line is whitespace.
proof fn lemma_indent_ws(line: Seq<char>)
    ensures
        forall|i: int| 0 <= i < indent(line).len() ==> is_ws(#[trigger] indent(line)[i]),
{
    lemma_trim_start_skip(line);
}

/// An indented `Convolution:` line written for a plain path is a
/// convolution line whose value reads back as that path.
proof fn lemma_command_reads_back(w: Seq<char>, path: Seq<char>)
    requires
        forall|i: int| 0 <= i < w.len() ==> is_ws(w[i]),
        plain_wav_path(path),
    ensures
        is_convolution_line(w + convolution_command(path)),
        !is_lone_quote(line_value(w + convolution_command(path))),
        convolution_value(w + convolution_command(path)) == path,
{
    reveal_strlit("Convolution: \"");
    reveal_strlit("\"");
    reveal_strlit("Convolution");
    lemma_quoted_plain(path);
    let cmd = convolution_command(path);
    let line = w + cmd;
    assert(cmd =~= "Convolution: \""@ + path + "\""@);
    lemma_trim_start_after_ws(w, cmd);
    assert(!is_ws(cmd[0]));
    assert(trim_start(cmd) == cmd);
    let t = trim_start(line);
    assert(t == cmd);
    lemma_first_index(cmd, ':');
    assert(cmd[11] == ':');
    assert forall|i: int| 0 <= i < 11 implies cmd[i] != ':' by {
        assert(cmd[i] == "Convolution"@[i]);
    }
    assert(first_index(cmd, ':') == 11);
    let key = cmd.take(11);
    assert(key =~= "Convolution"@);
    assert(trim_start(key) == key);
    assert(!is_ws(key.last()));
    assert(trim_end(key) == key);
    assert(line_key(line) == Some(key));
    assert(is_convolution_line(line));
    let value = cmd.skip(12);
    assert(line_value(line) == value);
    let quoted = "\""@ + path + "\""@;
    assert(value =~= seq![' '] + quoted);
    assert(is_ws(' '));
    assert(value.drop_first() =~= quoted);
    assert(!is_ws(quoted[0]));
    assert(trim_start(quoted) == quoted);
    assert(trim_start(value) == trim_start(value.drop_first()));
    assert(trim_start(value) == quoted);
    assert(!is_ws(quoted.last()));
    assert(trim_end(quoted) == quoted);
    assert(trim(value) == quoted);
    assert(quoted.subrange(1, quoted.len() - 1) =~= path);
    assert(unquoted(value) == trim(path));
}

/// Skipping lines that are no convolution lines changes neither the path
/// found nor whether the scan stalls.
proof fn lemma_scan_skips(ls: Seq<Seq<char>>, k: int)
    requires
        0 <= k <= ls.len(),
        forall|j: int| 0 <= j < k ==> !is_convolution_line(#[trigger] ls[j]),
    ensures
        first_convolution_value(ls) == first_convolution_value(ls.skip(k)),
        convolution_scan_stalls(ls) == convolution_scan_stalls(ls.skip(k)),
    decreases k,
{
    if k > 0 {
        assert(!is_convolution_line(ls[0]));
        lemma_scan_skips(ls.drop_first(), k - 1);
        assert(ls.drop_first().skip(k - 1) =~= ls.skip(k));
    } else {
        assert(ls.skip(0) =~= ls);
    }
}

/// Text whose lines are `qs` (joined with `\r\n` and ending in one), where
/// line `k` is an indented `Convolution:` line for a plain path and no line
/// before it is a convolution line, reads back that path.
proof fn lemma_joined_reads_back(qs: Seq<Seq<char>>, k: int, w: Seq<char>, path: Seq<char>)
    requires
        all_unbroken(qs),
        0 <= k < qs.len(),
        forall|j: int| 0 <= j < k ==> !is_convolution_line(#[trigger] qs[j]),
        qs[k] == w + convolution_command(path),
        forall|i: int| 0 <= i < w.len() ==> is_ws(w[i]),
        plain_wav_path(path),
    ensures
        !convolution_extraction_stalls(join(qs, crlf()) + crlf()),
        convolution_path_of(join(qs, crlf()) + crlf()) == Some(path),
{
    lemma_lines_of_join(qs);
    lemma_scan_skips(qs, k);
    lemma_command_reads_back(w, path);
    let rest = qs.skip(k);
    assert(rest[0] == qs[k]);
}

/// Joined unbroken pieces end in `\r\n` only when there are several and
/// the last one is empty.
proof fn lemma_join_ends_crlf(ps: Seq<Seq<char>>)
    requires
        ps.len() >= 1,
        all_unbroken(ps),
        ends_with(join(ps, crlf()), crlf()),
    ensures
        ps.len() >= 2,
        ps.last().len() == 0,
        join(ps, crlf()) == join(ps.drop_last(), crlf()) + crlf(),
{
    let j = join(ps, crlf());
    assert(j[j.len() - 1] == '\n');
    assert(no_breaks(ps.last()));
    if ps.len() == 1 {
        assert(j == ps[0]);
    } else {
        assert(j == join(ps.drop_last(), crlf()) + crlf() + ps.last());
        if ps.last().len() > 0 {
            assert(j[j.len() - 1] == ps.last()[ps.last().len() - 1]);
        }
        assert(ps.last() =~= Seq::<char>::empty());
        assert(j =~= join(ps.drop_last(), crlf()) + crlf());
    }
}

/// Pointing a preset at a plain `.wav` path and reading the path back gives
/// that path: whether the preset had a `Convolution:` line (the first one
/// is replaced) or not (one is appended), reading finds it, and does not
/// stall on the way.
pub proof fn lemma_convolution_path_round_trip(content: Seq<char>, wav_path: Seq<char>)
    requires
        plain_wav_path(wav_path),
    ensures
        !convolution_extraction_stalls(with_convolution_path(content, wav_path)),
        convolution_path_of(with_convolution_path(content, wav_path)) == Some(wav_path),
{
    let normalized = crlf_normalized(content);
    let cmd = convolution_command(wav_path);
    let parts = split_crlf(normalized);
    let k = first_convolution_line(parts);
    lemma_split_normalized(content);
    lemma_split_crlf_nonempty(normalized);
    lemma_first_convolution_line(parts);
    assert(no_breaks(cmd)) by {
        reveal_strlit("Convolution: \"");
        reveal_strlit("\"");
        lemma_quoted_plain(wav_path);
        assert(cmd =~= "Convolution: \""@ + wav_path + "\""@);
        assert forall|i: int| 0 <= i < cmd.len() implies cmd[i] != '\r' && cmd[i] != '\n' by {
            if 14 <= i < 14 + wav_path.len() {
                assert(cmd[i] == wav_path[i - 14]);
            }
        }
    }
    let empty_w = Seq::<char>::empty();
    assert(empty_w + cmd =~= cmd);
    if k == parts.len() {
        if normalized.len() == 0 {
            let qs = seq![cmd];
            assert(join(qs, crlf()) == cmd);
            lemma_joined_reads_back(qs, 0, empty_w, wav_path);
            assert(with_convolution_path(content, wav_path) =~= join(qs, crlf()) + crlf());
        } else {
            let prefix = if ends_with(normalized, crlf()) {
                lemma_join_ends_crlf(parts);
                parts.drop_last()
            } else {
                parts
            };
            assert(prefix.len() >= 1);
            let qs = prefix.push(cmd);
            assert(qs.drop_last() =~= prefix);
            assert(join(qs, crlf()) == join(prefix, crlf()) + crlf() + cmd);
            assert(all_unbroken(qs)) by {
                assert forall|i: int| 0 <= i < qs.len() implies no_breaks(#[trigger] qs[i]) by {
                    if i < prefix.len() {
                        assert(qs[i] == parts[i]);
                    }
                }
            }
            assert forall|j: int| 0 <= j < prefix.len() implies !is_convolution_line(#[trigger] qs[j]) by {
                assert(qs[j] == parts[j]);
            }
            lemma_joined_reads_back(qs, prefix.len() as int, empty_w, wav_path);
            let base = if normalized.len() > 0 && !ends_with(normalized, crlf()) {
                normalized + crlf()
            } else {
                normalized
            };
            assert(base == join(prefix, crlf()) + crlf());
            assert(with_convolution_path(content, wav_path) == base + cmd + crlf());
            assert(base + cmd + crlf() =~= join(qs, crlf()) + crlf());
        }
    } else {
        let w = indent(parts[k as int]);
        lemma_indent_ws(parts[k as int]);
        lemma_trim_start_skip(parts[k as int]);
        let updated = parts.update(k as int, w + cmd);
        let joined = join(updated, crlf());
        assert(all_unbroken(updated)) by {
            assert forall|i: int| 0 <= i < updated.len() implies no_breaks(#[trigger] updated[i]) by {
                if i == k {
                    let line = w + cmd;
                    assert(no_breaks(parts[k as int]));
                    assert forall|m: int| 0 <= m < line.len() implies line[m] != '\r' && line[m]
                        != '\n' by {
                        if m < w.len() {
                            assert(w[m] == parts[k as int][m]);
                            assert(line[m] == parts[k as int][m]);
                        } else {
                            assert(line[m] == cmd[m - w.len()]);
                        }
                    }
                }
            }
        }
        lemma_normalized_join(updated);
        assert(joined.len() > 0) by {
            lemma_command_reads_back(w, wav_path);
            if joined.len() == 0 {
                assert(updated.len() == 1 ==> joined == updated[0]);
                if updated.len() > 1 {
                    assert(joined == join(updated.drop_last(), crlf()) + crlf() + updated.last());
                }
            }
        }
        let qs = if ends_with(joined, crlf()) {
            lemma_join_ends_crlf(updated);
            updated.drop_last()
        } else {
            updated
        };
        assert(with_convolution_path(content, wav_path) == join(qs, crlf()) + crlf());
        assert(k < qs.len()) by {
            if ends_with(joined, crlf()) {
                lemma_command_reads_back(w, wav_path);
                assert(updated[k as int].len() > 0);
            }
        }
        assert(all_unbroken(qs)) by {
            assert forall|i: int| 0 <= i < qs.len() implies no_breaks(#[trigger] qs[i]) by {
                assert(qs[i] == updated[i]);
            }
        }
        assert forall|j: int| 0 <= j < k implies !is_convolution_line(#[trigger] qs[j]) by {
            assert(qs[j] == parts[j]);
        }
        lemma_joined_reads_back(qs, k as int, w, wav_path);
    }
}


/// Removing the `Convolution:` lines of a preset leaves nothing to read
/// back: reading the path finds none, and does not stall.
pub proof fn lemma_removed_convolution_reads_none(content: Seq<char>)
    ensures
        !convolution_extraction_stalls(without_convolution_lines(content)),
        convolution_path_of(without_convolution_lines(content)) is None,
{
    let parts = split_crlf(crlf_normalized(content));
    let kept = parts.filter(|p: Seq<char>| !is_convolution_line(p));
    let joined = join(kept, crlf());
    lemma_split_normalized(content);
    assert forall|i: int| 0 <= i < kept.len() implies no_breaks(#[trigger] kept[i]) && !is_convolution_line(
        kept[i],
    ) by {
        parts.lemma_filter_pred(|p: Seq<char>| !is_convolution_line(p), i);
        assert(kept.contains(kept[i]));
        parts.lemma_filter_contains_rev(|p: Seq<char>| !is_convolution_line(p), kept[i]);
        let m = choose|m: int| 0 <= m < parts.len() && parts[m] == kept[i];
        assert(no_breaks(parts[m]));
    }
    if kept.len() == 0 || joined.len() == 0 {
        assert(kept.len() == 0 ==> joined.len() == 0);
        assert(without_convolution_lines(content) == joined);
        assert(lines(joined) =~= Seq::<Seq<char>>::empty());
    } else {
        lemma_normalized_join(kept);
        let qs = if ends_with(joined, crlf()) {
            lemma_join_ends_crlf(kept);
            kept.drop_last()
        } else {
            kept
        };
        assert(without_convolution_lines(content) == join(qs, crlf()) + crlf());
        assert(qs.len() >= 1);
        assert(all_unbroken(qs)) by {
            assert forall|i: int| 0 <= i < qs.len() implies no_breaks(#[trigger] qs[i]) by {
                assert(qs[i] == kept[i]);
            }
        }
        assert forall|j: int| 0 <= j < qs.len() implies !is_convolution_line(#[trigger] qs[j]) by {
            assert(qs[j] == kept[j]);
        }
        lemma_lines_of_join(qs);
        lemma_scan_skips(qs, qs.len() as int);
        assert(qs.skip(qs.len() as int) =~= Seq::<Seq<char>>::empty());
    }
}


/// The pieces of the managed block hold no line breaks.
proof fn lemma_block_pieces_unbroken(include_path: Seq<char>)
    requires
        no_breaks(include_path),
    ensures
        all_unbroken(seq![MANAGED_BLOCK_START@, "Include: "@ + include_path, MANAGED_BLOCK_END@]),
{
    reveal_strlit("# >>> SmartEQPresetSwitcher >>>");
    reveal_strlit("# <<< SmartEQPresetSwitcher <<<");
    reveal_strlit("Include: ");
    assert(MANAGED_BLOCK_START@ == "# >>> SmartEQPresetSwitcher >>>"@);
    assert(MANAGED_BLOCK_END@ == "# <<< SmartEQPresetSwitcher <<<"@);
    let inc = "Include: "@ + include_path;
    assert forall|i: int| 0 <= i < inc.len() implies inc[i] != '\r' && inc[i] != '\n' by {
        if i >= 9 {
            assert(inc[i] == include_path[i - 9]);
        }
    }
}

/// The `config.txt` written for a preset file whose path holds no line
/// break has exactly three lines: the start marker, `Include: ` with that
/// path, and the end marker, whatever the file held before.
pub proof fn lemma_config_includes_preset(include_path: Seq<char>)
    requires
        no_breaks(include_path),
    ensures
        lines(managed_config(include_path)) == seq![
            MANAGED_BLOCK_START@,
            "Include: "@ + include_path,
            MANAGED_BLOCK_END@,
        ],
{
    let ps = seq![MANAGED_BLOCK_START@, "Include: "@ + include_path, MANAGED_BLOCK_END@];
    lemma_block_pieces_unbroken(include_path);
    assert(ps.drop_last() =~= seq![MANAGED_BLOCK_START@, "Include: "@ + include_path]);
    assert(ps.drop_last().drop_last() =~= seq![MANAGED_BLOCK_START@]);
    assert(join(ps.drop_last(), crlf()) == join(ps.drop_last().drop_last(), crlf()) + crlf() + (
    "Include: "@ + include_path));
    reveal_strlit("\r\nInclude: ");
    reveal_strlit("\r\n");
    reveal_strlit("Include: ");
    assert(join(ps.drop_last().drop_last(), crlf()) == MANAGED_BLOCK_START@);
    assert(join(ps, crlf()) == join(ps.drop_last(), crlf()) + crlf() + MANAGED_BLOCK_END@);
    assert("\r\nInclude: "@ =~= crlf() + "Include: "@);
    assert("\r\n"@ =~= crlf());
    assert(join(ps, crlf()) =~= managed_block(include_path));
    lemma_normalized_join(ps);
    let j = join(ps, crlf());
    assert(MANAGED_BLOCK_END@.len() > 0 && j.last() == MANAGED_BLOCK_END@.last()) by {
        reveal_strlit("# <<< SmartEQPresetSwitcher <<<");
        assert(MANAGED_BLOCK_END@ == "# <<< SmartEQPresetSwitcher <<<"@);
    }
    assert(!ends_with(j, crlf())) by {
        reveal_strlit("# <<< SmartEQPresetSwitcher <<<");
        assert(MANAGED_BLOCK_END@ == "# <<< SmartEQPresetSwitcher <<<"@);
        if ends_with(j, crlf()) {
            assert(j[j.len() - 1] == crlf()[1]);
        }
    }
    assert(managed_config(include_path) == j + crlf());
    lemma_lines_of_join(ps);
}

} // verus!
