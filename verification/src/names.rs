//! Group and preset names: what a valid name is, and how an imported file
//! name is turned into one.
use vstd::prelude::*;

use crate::error::AppError;
use crate::text::{
    chars_eq_ignore_case, chars_of, collapse_ws, collapse_ws_exec, eq_ignore_case, join, string_of,
    trim, trim_chars, word_run, words, lemma_word_run,
};

verus! {

/// The characters that a Windows file name cannot hold.
pub open spec fn is_forbidden_name_char(c: char) -> bool {
    c == '<' || c == '>' || c == ':' || c == '"' || c == '/' || c == '\\' || c == '|' || c == '?'
        || c == '*'
}

/// Whether `c` cannot stand in a Windows file name.
pub fn forbidden_name_char(c: char) -> (r: bool)
    ensures
        r == is_forbidden_name_char(c),
{
    c == '<' || c == '>' || c == ':' || c == '"' || c == '/' || c == '\\' || c == '|' || c == '?'
        || c == '*'
}

/// Whether `s` holds a character that a Windows file name cannot hold.
pub open spec fn has_forbidden_char(s: Seq<char>) -> bool {
    exists|i: int| 0 <= i < s.len() && is_forbidden_name_char(#[trigger] s[i])
}

/// Whether `s` is one of the device names that Windows reserves, in any
/// ASCII case.
pub open spec fn is_reserved_device_name(s: Seq<char>) -> bool {
    ||| eq_ignore_case("CON"@, s)
    ||| eq_ignore_case("PRN"@, s)
    ||| eq_ignore_case("AUX"@, s)
    ||| eq_ignore_case("NUL"@, s)
    ||| eq_ignore_case("COM1"@, s)
    ||| eq_ignore_case("COM2"@, s)
    ||| eq_ignore_case("COM3"@, s)
    ||| eq_ignore_case("COM4"@, s)
    ||| eq_ignore_case("COM5"@, s)
    ||| eq_ignore_case("COM6"@, s)
    ||| eq_ignore_case("COM7"@, s)
    ||| eq_ignore_case("COM8"@, s)
    ||| eq_ignore_case("COM9"@, s)
    ||| eq_ignore_case("LPT1"@, s)
    ||| eq_ignore_case("LPT2"@, s)
    ||| eq_ignore_case("LPT3"@, s)
    ||| eq_ignore_case("LPT4"@, s)
    ||| eq_ignore_case("LPT5"@, s)
    ||| eq_ignore_case("LPT6"@, s)
    ||| eq_ignore_case("LPT7"@, s)
    ||| eq_ignore_case("LPT8"@, s)
    ||| eq_ignore_case("LPT9"@, s)
}

/// Whether `name` is accepted as a group or preset name: once trimmed it is
/// not empty, holds no forbidden character and is no reserved device name.
pub open spec fn is_valid_name(name: Seq<char>) -> bool {
    let t = trim(name);
    t.len() > 0 && !has_forbidden_char(t) && !is_reserved_device_name(t)
}

/// The text that the error for a refused name carries: the name as given
/// when it is blank, else the trimmed name.
pub open spec fn refused_name_text(name: Seq<char>) -> Seq<char> {
    if trim(name).len() == 0 {
        name
    } else {
        trim(name)
    }
}

/// The outcome of `validate_name` on `name`.
pub open spec fn validated(name: Seq<char>, r: Result<String, AppError>) -> bool {
    match r {
        Ok(v) => is_valid_name(name) && v@ == trim(name),
        Err(AppError::InvalidName(m)) => !is_valid_name(name) && m@ == refused_name_text(name),
        Err(_) => false,
    }
}

fn has_forbidden_char_exec(t: &Vec<char>) -> (r: bool)
    ensures
        r == has_forbidden_char(t@),
{
    let mut i: usize = 0;
    while i < t.len()
        invariant
            i <= t.len(),
            forall|k: int| 0 <= k < i ==> !is_forbidden_name_char(#[trigger] t@[k]),
        decreases t.len() - i,
    {
        if forbidden_name_char(t[i]) {
            return true;
        }
        i = i + 1;
    }
    false
}

fn eq_ic(lit: &str, t: &Vec<char>) -> (r: bool)
    ensures
        r == eq_ignore_case(lit@, t@),
{
    let l = chars_of(lit);
    chars_eq_ignore_case(&l, t)
}

fn is_reserved_device_name_exec(t: &Vec<char>) -> (r: bool)
    ensures
        r == is_reserved_device_name(t@),
{
    eq_ic("CON", t) || eq_ic("PRN", t) || eq_ic("AUX", t) || eq_ic("NUL", t) || eq_ic("COM1", t)
        || eq_ic("COM2", t) || eq_ic("COM3", t) || eq_ic("COM4", t) || eq_ic("COM5", t) || eq_ic(
        "COM6",
        t,
    ) || eq_ic("COM7", t) || eq_ic("COM8", t) || eq_ic("COM9", t) || eq_ic("LPT1", t) || eq_ic(
        "LPT2",
        t,
    ) || eq_ic("LPT3", t) || eq_ic("LPT4", t) || eq_ic("LPT5", t) || eq_ic("LPT6", t) || eq_ic(
        "LPT7",
        t,
    ) || eq_ic("LPT8", t) || eq_ic("LPT9", t)
}

/// Checks a group or preset name and returns it trimmed.
pub fn validate_name(name: &str) -> (r: Result<String, AppError>)
    ensures
        validated(name@, r),
{
    let v = chars_of(name);
    let t = trim_chars(&v);
    if t.len() == 0 {
        return Err(AppError::InvalidName(string_of(&v)));
    }
    if has_forbidden_char_exec(&t) || is_reserved_device_name_exec(&t) {
        return Err(AppError::InvalidName(string_of(&t)));
    }
    Ok(string_of(&t))
}

/// `c`, or a space where `c` is a forbidden name character.
pub open spec fn blank_forbidden(c: char) -> char {
    if is_forbidden_name_char(c) {
        ' '
    } else {
        c
    }
}

/// The preset name made from an imported file's stem: forbidden characters
/// become spaces, runs of whitespace collapse to one space, and a name that
/// ends up blank becomes "Imported Preset".
pub open spec fn import_name(stem: Seq<char>) -> Seq<char> {
    let cleaned = collapse_ws(stem.map_values(|c: char| blank_forbidden(c)));
    if trim(cleaned).len() == 0 {
        "Imported Preset"@
    } else {
        cleaned
    }
}

/// Turns an imported file's stem into a preset name.
pub fn sanitize_import_name(name: &str) -> (r: String)
    ensures
        r@ == import_name(name@),
{
    let v = chars_of(name);
    let mut blanked: Vec<char> = Vec::new();
    let mut i: usize = 0;
    while i < v.len()
        invariant
            i <= v.len(),
            v@ == name@,
            blanked@ == v@.take(i as int).map_values(|c: char| blank_forbidden(c)),
        decreases v.len() - i,
    {
        if forbidden_name_char(v[i]) {
            blanked.push(' ');
        } else {
            blanked.push(v[i]);
        }
        i = i + 1;
        assert(blanked@ =~= v@.take(i as int).map_values(|c: char| blank_forbidden(c)));
    }
    assert(v@.take(v@.len() as int) =~= v@);
    let cleaned = collapse_ws_exec(&blanked);
    let t = trim_chars(&cleaned);
    if t.len() == 0 {
        "Imported Preset".to_owned()
    } else {
        string_of(&cleaned)
    }
}


/// Whether a file extension names a `.wav` file, in any ASCII case.
pub fn is_wav_extension(extension: Option<String>) -> (r: bool)
    ensures
        r == (match extension {
            Some(e) => crate::text::lower_seq(e@) == "wav"@,
            None => false,
        }),
{
    match extension {
        Some(e) => {
            let v = chars_of(e.as_str());
            let l = crate::text::lower_chars(&v);
            let s = string_of(&l);
            crate::text::str_eq(s.as_str(), "wav")
        },
        None => false,
    }
}


/// Every character of a word of `s` is a character of `s`.
proof fn lemma_word_chars(s: Seq<char>)
    ensures
        forall|w: int, j: int|
            0 <= w < words(s).len() && 0 <= j < words(s)[w].len() ==> s.contains(
                #[trigger] words(s)[w][j],
            ),
    decreases s.len(),
{
    if s.len() > 0 {
        if is_ws_first(s) {
            lemma_word_chars(s.skip(1));
            assert forall|w: int, j: int|
                0 <= w < words(s).len() && 0 <= j < words(s)[w].len() implies s.contains(
                #[trigger] words(s)[w][j],
            ) by {
                assert(words(s) == words(s.skip(1)));
                let c = words(s)[w][j];
                assert(c == words(s.skip(1))[w][j]);
                assert(s.skip(1).contains(c));
                let m = choose|m: int| 0 <= m < s.skip(1).len() && s.skip(1)[m] == c;
                assert(s[m + 1] == c);
            }
        } else {
            lemma_word_run(s);
            let k = word_run(s) as int;
            lemma_word_chars(s.skip(k));
            assert forall|w: int, j: int|
                0 <= w < words(s).len() && 0 <= j < words(s)[w].len() implies s.contains(
                #[trigger] words(s)[w][j],
            ) by {
                let c = words(s)[w][j];
                if w == 0 {
                    assert(s[j] == c);
                } else {
                    assert(words(s)[w] == words(s.skip(k))[w - 1]);
                    let m = choose|m: int| 0 <= m < s.skip(k).len() && s.skip(k)[m] == c;
                    assert(s[m + k] == c);
                }
            }
        }
    }
}

/// Whether `s` starts with whitespace.
spec fn is_ws_first(s: Seq<char>) -> bool {
    crate::text::is_ws(s[0])
}

/// Every character of words joined with spaces is a space or a character
/// of one of the words.
proof fn lemma_join_chars(ws: Seq<Seq<char>>)
    ensures
        forall|i: int|
            0 <= i < join(ws, seq![' ']).len() ==> #[trigger] join(ws, seq![' '])[i] == ' ' || exists|
                w: int,
                j: int,
            | 0 <= w < ws.len() && 0 <= j < ws[w].len() && ws[w][j] == join(ws, seq![' '])[i],
    decreases ws.len(),
{
    if ws.len() == 1 {
        assert forall|i: int| 0 <= i < join(ws, seq![' ']).len() implies #[trigger] join(
            ws,
            seq![' '],
        )[i] == ' ' || exists|w: int, j: int|
            0 <= w < ws.len() && 0 <= j < ws[w].len() && ws[w][j] == join(ws, seq![' '])[i] by {
            assert(ws[0][i] == join(ws, seq![' '])[i]);
        }
    } else if ws.len() > 1 {
        let init = ws.drop_last();
        lemma_join_chars(init);
        let a = join(init, seq![' ']);
        let full = join(ws, seq![' ']);
        assert(full == a + seq![' '] + ws.last());
        assert forall|i: int| 0 <= i < full.len() implies #[trigger] full[i] == ' ' || exists|
            w: int,
            j: int,
        | 0 <= w < ws.len() && 0 <= j < ws[w].len() && ws[w][j] == full[i] by {
            if i < a.len() {
                assert(full[i] == a[i]);
                if a[i] != ' ' {
                    let (w, j) = choose|w: int, j: int|
                        0 <= w < init.len() && 0 <= j < init[w].len() && init[w][j] == a[i];
                    assert(ws[w] == init[w]);
                }
            } else if i > a.len() {
                let j = i - a.len() - 1;
                assert(full[i] == ws.last()[j]);
                assert(ws[ws.len() - 1][j] == full[i]);
            }
        }
    }
}

/// A name made from an imported file's stem is never refused for its
/// characters: it holds no character that a Windows file name forbids, and
/// it is never blank.
pub proof fn lemma_import_name_clean(stem: Seq<char>)
    ensures
        !has_forbidden_char(import_name(stem)),
        trim(import_name(stem)).len() > 0,
{
    let blanked = stem.map_values(|c: char| blank_forbidden(c));
    let cleaned = collapse_ws(blanked);
    if trim(cleaned).len() == 0 {
        reveal_strlit("Imported Preset");
        let n = "Imported Preset"@;
        assert forall|i: int| 0 <= i < n.len() implies !is_forbidden_name_char(#[trigger] n[i]) by {}
        assert(!crate::text::is_ws(n[0]));
        assert(crate::text::trim_start(n) == n);
        assert(!crate::text::is_ws(n.last()));
        assert(crate::text::trim_end(n) == n);
    } else {
        lemma_word_chars(blanked);
        lemma_join_chars(words(blanked));
        assert forall|i: int| 0 <= i < cleaned.len() implies !is_forbidden_name_char(
            #[trigger] cleaned[i],
        ) by {
            if cleaned[i] != ' ' {
                let (w, j) = choose|w: int, j: int|
                    0 <= w < words(blanked).len() && 0 <= j < words(blanked)[w].len()
                        && words(blanked)[w][j] == cleaned[i];
                assert(blanked.contains(words(blanked)[w][j]));
                let m = choose|m: int| 0 <= m < blanked.len() && blanked[m] == cleaned[i];
                assert(blanked[m] == blank_forbidden(stem[m]));
            }
        }
    }
}


/// An accepted name comes back trimmed, non-blank and without forbidden
/// characters, so that it is accepted again as it is.
pub proof fn lemma_accepted_name_is_clean(name: Seq<char>, r: Result<String, AppError>)
    requires
        validated(name, r),
        r is Ok,
    ensures
        trim(r->Ok_0@) == r->Ok_0@,
        r->Ok_0@.len() > 0,
        !has_forbidden_char(r->Ok_0@),
        is_valid_name(r->Ok_0@),
{
    crate::text::lemma_trim_idempotent(name);
}

} // verus!
