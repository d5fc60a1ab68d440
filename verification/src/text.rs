//! Character-level text primitives shared by the library: whitespace
//! trimming, ASCII case folding, substring tests, escaping and decimal
//! formatting. Every operation is stated over `Seq<char>`, the view of
//! `String` and `&str`.
use vstd::prelude::*;

verus! {

// ---------------------------------------------------------------------------
// Whitespace
// ---------------------------------------------------------------------------

/// The characters with the Unicode `White_Space` property, which is the set
/// that `char::is_whitespace` (and therefore `str::trim`) recognises.
pub open spec fn is_ws(c: char) -> bool {
    let u = c as u32;
    ||| (0x09 <= u && u <= 0x0d)
    ||| u == 0x20
    ||| u == 0x85
    ||| u == 0xa0
    ||| u == 0x1680
    ||| (0x2000 <= u && u <= 0x200a)
    ||| u == 0x2028
    ||| u == 0x2029
    ||| u == 0x202f
    ||| u == 0x205f
    ||| u == 0x3000
}

/// Whether `c` is a whitespace character.
pub fn char_is_whitespace(c: char) -> (r: bool)
    ensures
        r == is_ws(c),
{
    let u = c as u32;
    (0x09 <= u && u <= 0x0d) || u == 0x20 || u == 0x85 || u == 0xa0 || u == 0x1680 || (0x2000 <= u
        && u <= 0x200a) || u == 0x2028 || u == 0x2029 || u == 0x202f || u == 0x205f || u == 0x3000
}

/// `s` without its leading whitespace.
pub open spec fn trim_start(s: Seq<char>) -> Seq<char>
    decreases s.len(),
{
    if s.len() > 0 && is_ws(s[0]) {
        trim_start(s.drop_first())
    } else {
        s
    }
}

/// `s` without its trailing whitespace.
pub open spec fn trim_end(s: Seq<char>) -> Seq<char>
    decreases s.len(),
{
    if s.len() > 0 && is_ws(s.last()) {
        trim_end(s.drop_last())
    } else {
        s
    }
}

/// `s` without leading and trailing whitespace, as `str::trim` gives it.
pub open spec fn trim(s: Seq<char>) -> Seq<char> {
    trim_end(trim_start(s))
}

/// The number of leading whitespace characters of `s`.
pub open spec fn leading_ws(s: Seq<char>) -> nat
    decreases s.len(),
{
    if s.len() > 0 && is_ws(s[0]) {
        1 + leading_ws(s.drop_first())
    } else {
        0
    }
}

/// The number of trailing whitespace characters of `s`.
pub open spec fn trailing_ws(s: Seq<char>) -> nat
    decreases s.len(),
{
    if s.len() > 0 && is_ws(s.last()) {
        1 + trailing_ws(s.drop_last())
    } else {
        0
    }
}

pub proof fn lemma_trim_start_skip(s: Seq<char>)
    ensures
        leading_ws(s) <= s.len(),
        trim_start(s) == s.skip(leading_ws(s) as int),
        forall|i: int| 0 <= i < leading_ws(s) ==> is_ws(#[trigger] s[i]),
        leading_ws(s) < s.len() ==> !is_ws(s[leading_ws(s) as int]),
    decreases s.len(),
{
    if s.len() > 0 && is_ws(s[0]) {
        lemma_trim_start_skip(s.drop_first());
        assert(s.drop_first().skip(leading_ws(s.drop_first()) as int) =~= s.skip(
            leading_ws(s) as int,
        ));
        assert forall|i: int| 0 <= i < leading_ws(s) implies is_ws(#[trigger] s[i]) by {
            if i > 0 {
                assert(s[i] == s.drop_first()[i - 1]);
            }
        }
    } else {
        assert(s.skip(0) =~= s);
    }
}

pub proof fn lemma_trim_end_take(s: Seq<char>)
    ensures
        trailing_ws(s) <= s.len(),
        trim_end(s) == s.take(s.len() - trailing_ws(s)),
        forall|i: int| s.len() - trailing_ws(s) <= i < s.len() ==> is_ws(#[trigger] s[i]),
        trailing_ws(s) < s.len() ==> !is_ws(s[s.len() - trailing_ws(s) - 1]),
    decreases s.len(),
{
    if s.len() > 0 && is_ws(s.last()) {
        lemma_trim_end_take(s.drop_last());
        assert(s.drop_last().take(s.drop_last().len() - trailing_ws(s.drop_last())) =~= s.take(
            s.len() - trailing_ws(s),
        ));
        assert forall|i: int| s.len() - trailing_ws(s) <= i < s.len() implies is_ws(
            #[trigger] s[i],
        ) by {
            if i < s.len() - 1 {
                assert(s[i] == s.drop_last()[i]);
            }
        }
    } else {
        assert(s.take(s.len() as int) =~= s);
    }
}

/// The position of the first character of `s` that is not whitespace (or
/// `s.len()` when there is none).
pub fn leading_ws_len(s: &Vec<char>) -> (n: usize)
    ensures
        n == leading_ws(s@),
{
    proof {
        lemma_trim_start_skip(s@);
    }
    let mut i: usize = 0;
    while i < s.len() && char_is_whitespace(s[i])
        invariant
            i <= s.len(),
            leading_ws(s@) <= s@.len(),
            forall|k: int| 0 <= k < leading_ws(s@) ==> is_ws(#[trigger] s@[k]),
            leading_ws(s@) < s@.len() ==> !is_ws(s@[leading_ws(s@) as int]),
            forall|k: int| 0 <= k < i ==> is_ws(#[trigger] s@[k]),
        decreases s.len() - i,
    {
        i = i + 1;
    }
    i
}

/// The number of trailing whitespace characters of `s`.
pub fn trailing_ws_len(s: &Vec<char>) -> (n: usize)
    ensures
        n == trailing_ws(s@),
{
    proof {
        lemma_trim_end_take(s@);
    }
    let mut n: usize = 0;
    while n < s.len() && char_is_whitespace(s[s.len() - 1 - n])
        invariant
            n <= s.len(),
            trailing_ws(s@) <= s@.len(),
            forall|k: int|
                s@.len() - trailing_ws(s@) <= k < s@.len() ==> is_ws(#[trigger] s@[k]),
            trailing_ws(s@) < s@.len() ==> !is_ws(s@[s@.len() - trailing_ws(s@) - 1]),
            forall|k: int| s@.len() - n <= k < s@.len() ==> is_ws(#[trigger] s@[k]),
        decreases s.len() - n,
    {
        n = n + 1;
    }
    n
}

/// The characters of `s[from..to]`.
pub fn slice_chars(s: &Vec<char>, from: usize, to: usize) -> (out: Vec<char>)
    requires
        from <= to <= s.len(),
    ensures
        out@ == s@.subrange(from as int, to as int),
{
    let mut out: Vec<char> = Vec::new();
    let mut i = from;
    while i < to
        invariant
            from <= i <= to <= s.len(),
            out@ == s@.subrange(from as int, i as int),
        decreases to - i,
    {
        out.push(s[i]);
        i = i + 1;
        assert(out@ =~= s@.subrange(from as int, i as int));
    }
    out
}

/// `s` without leading whitespace.
pub fn trim_start_chars(s: &Vec<char>) -> (out: Vec<char>)
    ensures
        out@ == trim_start(s@),
{
    proof {
        lemma_trim_start_skip(s@);
    }
    let n = leading_ws_len(s);
    slice_chars(s, n, s.len())
}

/// Trimmed text starts and ends with non-whitespace, and trimming it again
/// changes nothing.
pub proof fn lemma_trim_idempotent(s: Seq<char>)
    ensures
        trim(s).len() > 0 ==> !is_ws(trim(s)[0]) && !is_ws(trim(s).last()),
        trim(trim(s)) == trim(s),
{
    lemma_trim_start_skip(s);
    let ts = trim_start(s);
    lemma_trim_end_take(ts);
    let t = trim(s);
    if t.len() > 0 {
        assert(t[0] == ts[0]);
        assert(ts[0] == s[leading_ws(s) as int]);
        assert(t.last() == ts[ts.len() - trailing_ws(ts) - 1]);
        assert(trim_start(t) == t);
        assert(trim_end(t) == t);
    } else {
        assert(trim_start(t) == t);
    }
}

/// `s` without leading or trailing whitespace.
pub fn trim_chars(s: &Vec<char>) -> (out: Vec<char>)
    ensures
        out@ == trim(s@),
{
    let t = trim_start_chars(s);
    let n = trailing_ws_len(&t);
    proof {
        lemma_trim_end_take(t@);
    }
    slice_chars(&t, 0, t.len() - n)
}

// ---------------------------------------------------------------------------
// Conversions between `String`, `&str` and `Vec<char>`
// ---------------------------------------------------------------------------

/// Appends one character to a `String` (`String::push`).
#[verifier::external_body]
pub(crate) fn string_push(s: &mut String, c: char)
    ensures
        final(s)@ == old(s)@.push(c),
{
    s.push(c);
}

/// Copies the characters of a string slice into a vector.
pub fn chars_of(s: &str) -> (out: Vec<char>)
    ensures
        out@ == s@,
{
    let mut out: Vec<char> = Vec::new();
    for c in it: s.chars()
        invariant
            out@ == it.seq().take(it.index() as int),
    {
        out.push(c);
    }
    out
}

/// Builds a `String` holding the given characters.
pub fn string_of(v: &Vec<char>) -> (s: String)
    ensures
        s@ == v@,
{
    let mut s = String::new();
    let mut i: usize = 0;
    while i < v.len()
        invariant
            i <= v.len(),
            s@ == v@.take(i as int),
        decreases v.len() - i,
    {
        string_push(&mut s, v[i]);
        i = i + 1;
        assert(s@ =~= v@.take(i as int));
    }
    assert(v@.take(v@.len() as int) =~= v@);
    s
}

/// A copy of a string slice as an owned `String`.
pub fn owned(s: &str) -> (r: String)
    ensures
        r@ == s@,
{
    s.to_owned()
}

/// Appends the characters of `src` to `dst`.
pub fn extend_chars(dst: &mut Vec<char>, src: &Vec<char>)
    ensures
        final(dst)@ == old(dst)@ + src@,
{
    let ghost start = dst@;
    let mut i: usize = 0;
    while i < src.len()
        invariant
            i <= src.len(),
            dst@ == start + src@.take(i as int),
        decreases src.len() - i,
    {
        dst.push(src[i]);
        i = i + 1;
        assert(dst@ =~= start + src@.take(i as int));
    }
    assert(src@.take(src@.len() as int) =~= src@);
}

/// Appends the characters of a string slice to `dst`.
pub fn extend_str(dst: &mut Vec<char>, src: &str)
    ensures
        final(dst)@ == old(dst)@ + src@,
{
    let v = chars_of(src);
    extend_chars(dst, &v);
}

/// `s` trimmed, as a new `String`.
pub fn trim_str(s: &str) -> (r: String)
    ensures
        r@ == trim(s@),
{
    let v = chars_of(s);
    let t = trim_chars(&v);
    string_of(&t)
}

/// Whether `s` is empty once surrounding whitespace is removed.
pub fn is_blank(s: &str) -> (r: bool)
    ensures
        r == (trim(s@).len() == 0),
{
    let t = trim_str(s);
    t.as_str().is_empty()
}

// ---------------------------------------------------------------------------
// ASCII case folding
// ---------------------------------------------------------------------------

/// The ASCII lower-case form of `c` (`char::to_ascii_lowercase`).
pub open spec fn lower(c: char) -> char {
    if 'A' <= c && c <= 'Z' {
        ((c as u32) + 32) as char
    } else {
        c
    }
}

/// `s` with every ASCII upper-case letter lowered (`str::to_ascii_lowercase`).
pub open spec fn lower_seq(s: Seq<char>) -> Seq<char> {
    s.map_values(|c: char| lower(c))
}

/// The ASCII lower-case form of `c`.
pub fn lower_char(c: char) -> (r: char)
    ensures
        r == lower(c),
{
    if 'A' <= c && c <= 'Z' {
        let b = c as u8;
        assert(65 <= b <= 90);
        let r = (b + 32) as char;
        assert(r as u32 == (c as u32) + 32);
        r
    } else {
        c
    }
}

/// `s` with ASCII letters lowered.
pub fn lower_chars(s: &Vec<char>) -> (out: Vec<char>)
    ensures
        out@ == lower_seq(s@),
{
    let mut out: Vec<char> = Vec::new();
    let mut i: usize = 0;
    while i < s.len()
        invariant
            i <= s.len(),
            out@ == lower_seq(s@.take(i as int)),
        decreases s.len() - i,
    {
        out.push(lower_char(s[i]));
        i = i + 1;
        assert(out@ =~= lower_seq(s@.take(i as int)));
    }
    assert(s@.take(s@.len() as int) =~= s@);
    out
}

/// Whether `a` and `b` are equal up to ASCII case (`str::eq_ignore_ascii_case`).
pub open spec fn eq_ignore_case(a: Seq<char>, b: Seq<char>) -> bool {
    lower_seq(a) == lower_seq(b)
}

/// Whether two character sequences are equal.
pub fn chars_eq(a: &Vec<char>, b: &Vec<char>) -> (r: bool)
    ensures
        r == (a@ == b@),
{
    if a.len() != b.len() {
        return false;
    }
    let mut i: usize = 0;
    while i < a.len()
        invariant
            i <= a.len() == b.len(),
            forall|k: int| 0 <= k < i ==> a@[k] == b@[k],
        decreases a.len() - i,
    {
        if a[i] != b[i] {
            return false;
        }
        i = i + 1;
    }
    assert(a@ =~= b@);
    true
}

/// Whether the two sequences are equal up to ASCII case.
pub fn chars_eq_ignore_case(a: &Vec<char>, b: &Vec<char>) -> (r: bool)
    ensures
        r == eq_ignore_case(a@, b@),
{
    let la = lower_chars(a);
    let lb = lower_chars(b);
    chars_eq(&la, &lb)
}

// ---------------------------------------------------------------------------
// Prefixes, suffixes and infixes
// ---------------------------------------------------------------------------

/// Whether `s` begins with `p`.
pub open spec fn starts_with(s: Seq<char>, p: Seq<char>) -> bool {
    p.len() <= s.len() && s.take(p.len() as int) == p
}

/// Whether `s` ends with `p`.
pub open spec fn ends_with(s: Seq<char>, p: Seq<char>) -> bool {
    p.len() <= s.len() && s.skip(s.len() - p.len()) == p
}

/// Whether `p` occurs in `s` at position `i`.
pub open spec fn occurs_at(s: Seq<char>, p: Seq<char>, i: int) -> bool {
    0 <= i && i + p.len() <= s.len() && s.subrange(i, i + p.len()) == p
}

/// Whether `p` occurs somewhere in `s` (`str::contains`).
pub open spec fn contains(s: Seq<char>, p: Seq<char>) -> bool {
    exists|i: int| occurs_at(s, p, i)
}

/// Whether `p` occurs in `s` at position `i`.
pub fn occurs_at_exec(s: &Vec<char>, p: &Vec<char>, i: usize) -> (r: bool)
    ensures
        r == occurs_at(s@, p@, i as int),
{
    if i > s.len() || p.len() > s.len() - i {
        return false;
    }
    let mut k: usize = 0;
    while k < p.len()
        invariant
            k <= p.len(),
            i + p.len() <= s.len(),
            forall|j: int| 0 <= j < k ==> s@[i + j] == p@[j],
        decreases p.len() - k,
    {
        if s[i + k] != p[k] {
            assert(s@.subrange(i as int, i + p.len())[k as int] != p@[k as int]);
            return false;
        }
        k = k + 1;
    }
    assert(s@.subrange(i as int, i + p.len()) =~= p@);
    true
}

/// Whether `s` begins with `p`.
pub fn starts_with_exec(s: &Vec<char>, p: &Vec<char>) -> (r: bool)
    ensures
        r == starts_with(s@, p@),
{
    let r = occurs_at_exec(s, p, 0);
    assert(s@.take(p@.len() as int) =~= s@.subrange(0, p@.len() as int));
    r
}

/// Whether `s` ends with `p`.
pub fn ends_with_exec(s: &Vec<char>, p: &Vec<char>) -> (r: bool)
    ensures
        r == ends_with(s@, p@),
{
    if p.len() > s.len() {
        return false;
    }
    let r = occurs_at_exec(s, p, s.len() - p.len());
    assert(s@.skip(s@.len() - p@.len()) =~= s@.subrange(s@.len() - p@.len(), s@.len() as int));
    r
}

/// Whether `p` occurs anywhere in `s`.
pub fn contains_exec(s: &Vec<char>, p: &Vec<char>) -> (r: bool)
    ensures
        r == contains(s@, p@),
{
    if p.len() > s.len() {
        assert forall|i: int| !occurs_at(s@, p@, i) by {}
        return false;
    }
    let last = s.len() - p.len();
    let mut i: usize = 0;
    loop
        invariant
            p.len() <= s.len(),
            last == s.len() - p.len(),
            i <= last,
            forall|j: int| 0 <= j < i ==> !occurs_at(s@, p@, j),
        ensures
            forall|j: int| 0 <= j <= last ==> !occurs_at(s@, p@, j),
        decreases last - i,
    {
        if occurs_at_exec(s, p, i) {
            return true;
        }
        if i == last {
            break;
        }
        i = i + 1;
    }
    assert forall|j: int| !occurs_at(s@, p@, j) by {}
    false
}

/// Whether the string slice `p` occurs in `s`.
pub fn contains_str(s: &Vec<char>, p: &str) -> (r: bool)
    ensures
        r == contains(s@, p@),
{
    let pv = chars_of(p);
    contains_exec(s, &pv)
}

/// Whether `s` begins with the string slice `p`.
pub fn starts_with_str(s: &Vec<char>, p: &str) -> (r: bool)
    ensures
        r == starts_with(s@, p@),
{
    let pv = chars_of(p);
    starts_with_exec(s, &pv)
}

/// Whether `s` ends with the string slice `p`.
pub fn ends_with_str(s: &Vec<char>, p: &str) -> (r: bool)
    ensures
        r == ends_with(s@, p@),
{
    let pv = chars_of(p);
    ends_with_exec(s, &pv)
}

/// Whether the two string slices are equal.
pub fn str_eq(a: &str, b: &str) -> (r: bool)
    ensures
        r == (a@ == b@),
{
    let av = chars_of(a);
    let bv = chars_of(b);
    chars_eq(&av, &bv)
}

// ---------------------------------------------------------------------------
// Escaping: replacing single characters by strings
// ---------------------------------------------------------------------------

/// `s` with every occurrence of `from` replaced by `to`
/// (`str::replace` with a single-character pattern).
pub open spec fn replace_char(s: Seq<char>, from: char, to: Seq<char>) -> Seq<char>
    decreases s.len(),
{
    if s.len() == 0 {
        Seq::empty()
    } else {
        replace_char(s.drop_last(), from, to) + (if s.last() == from {
            to
        } else {
            seq![s.last()]
        })
    }
}

/// `s` with every `from` replaced by the characters of `to`.
pub fn replace_char_exec(s: &Vec<char>, from: char, to: &str) -> (out: Vec<char>)
    ensures
        out@ == replace_char(s@, from, to@),
{
    let tv = chars_of(to);
    let mut out: Vec<char> = Vec::new();
    let mut i: usize = 0;
    while i < s.len()
        invariant
            i <= s.len(),
            tv@ == to@,
            out@ == replace_char(s@.take(i as int), from, to@),
        decreases s.len() - i,
    {
        proof {
            assert(s@.take(i + 1).drop_last() =~= s@.take(i as int));
        }
        if s[i] == from {
            extend_chars(&mut out, &tv);
        } else {
            out.push(s[i]);
        }
        i = i + 1;
    }
    assert(s@.take(s@.len() as int) =~= s@);
    out
}

// ---------------------------------------------------------------------------
// Decimal formatting
// ---------------------------------------------------------------------------

/// The decimal digit for `d` (`0 <= d < 10`).
pub open spec fn digit(d: nat) -> char {
    (('0' as u32) + d) as char
}

/// The decimal representation of `n`, as `format!("{n}")` writes it.
pub open spec fn decimal(n: nat) -> Seq<char>
    decreases n,
{
    if n < 10 {
        seq![digit(n)]
    } else {
        decimal(n / 10) + seq![digit(n % 10)]
    }
}

/// A decimal representation has one digit below ten and more from ten on.
pub proof fn lemma_decimal_len(n: nat)
    ensures
        n < 10 ==> decimal(n).len() == 1,
        n >= 10 ==> decimal(n).len() >= 2,
    decreases n,
{
    if n >= 10 {
        lemma_decimal_len(n / 10);
    }
}

/// Distinct numbers have distinct decimal representations.
pub proof fn lemma_decimal_injective(a: nat, b: nat)
    requires
        decimal(a) == decimal(b),
    ensures
        a == b,
    decreases a + b,
{
    lemma_decimal_len(a);
    lemma_decimal_len(b);
    if a < 10 && b < 10 {
        assert(decimal(a) == seq![digit(a)]);
        assert(decimal(b) == seq![digit(b)]);
        assert(seq![digit(a)][0] == digit(a));
        assert(seq![digit(b)][0] == digit(b));
        assert(digit(a) == digit(b));
        assert(digit(a) as u32 == 48 + a);
        assert(digit(b) as u32 == 48 + b);
    } else if a >= 10 && b >= 10 {
        let da = decimal(a / 10);
        let db = decimal(b / 10);
        assert(decimal(a) == da + seq![digit(a % 10)]);
        assert(decimal(b) == db + seq![digit(b % 10)]);
        assert(da.len() == db.len());
        assert(da =~= decimal(a).take(da.len() as int));
        assert(db =~= decimal(b).take(db.len() as int));
        lemma_decimal_injective(a / 10, b / 10);
        assert(decimal(a)[da.len() as int] == digit(a % 10));
        assert(decimal(b)[db.len() as int] == digit(b % 10));
        assert((('0' as u32) + (a % 10)) as char as u32 == ('0' as u32) + (a % 10));
        assert((('0' as u32) + (b % 10)) as char as u32 == ('0' as u32) + (b % 10));
    }
}


/// The decimal digit character for `d`.
fn digit_char(d: u128) -> (c: char)
    requires
        d < 10,
    ensures
        c == digit(d as nat),
{
    let b = (d as u8) + 48;
    let c = b as char;
    assert(c as u32 == 48 + d);
    c
}

/// Appends the decimal representation of `n` to `out`.
pub fn push_decimal(out: &mut Vec<char>, n: u128)
    ensures
        final(out)@ == old(out)@ + decimal(n as nat),
    decreases n,
{
    if n < 10 {
        out.push(digit_char(n));
        assert(decimal(n as nat) =~= seq![digit(n as nat)]);
    } else {
        push_decimal(out, n / 10);
        out.push(digit_char(n % 10));
    }
}

/// The decimal representation of an integer, with a leading `-` when it is
/// negative.
pub open spec fn signed_decimal(n: int) -> Seq<char> {
    if n < 0 {
        seq!['-'] + decimal((-n) as nat)
    } else {
        decimal(n as nat)
    }
}

/// Appends the decimal representation of `n`, sign included, to `out`.
pub fn push_signed_decimal(out: &mut Vec<char>, n: i64)
    ensures
        final(out)@ == old(out)@ + signed_decimal(n as int),
{
    let ghost start = out@;
    if n < 0 {
        out.push('-');
        let wide: i128 = n as i128;
        let m: u128 = (0 - wide) as u128;
        push_decimal(out, m);
        assert(out@ =~= start + signed_decimal(n as int));
    } else {
        push_decimal(out, n as u128);
    }
}

/// The decimal representation of `n`.
pub fn decimal_string(n: usize) -> (s: String)
    ensures
        s@ == decimal(n as nat),
{
    let mut v: Vec<char> = Vec::new();
    push_decimal(&mut v, n as u128);
    assert(v@ =~= decimal(n as nat));
    string_of(&v)
}


// ---------------------------------------------------------------------------
// Searching for a character
// ---------------------------------------------------------------------------

/// The position of the first `c` in `s`, or `s.len()` when `c` does not occur.
pub open spec fn first_index(s: Seq<char>, c: char) -> nat
    decreases s.len(),
{
    if s.len() == 0 {
        0
    } else if s[0] == c {
        0
    } else {
        1 + first_index(s.drop_first(), c)
    }
}

pub proof fn lemma_first_index(s: Seq<char>, c: char)
    ensures
        first_index(s, c) <= s.len(),
        first_index(s, c) < s.len() ==> s[first_index(s, c) as int] == c,
        forall|i: int| 0 <= i < first_index(s, c) ==> s[i] != c,
    decreases s.len(),
{
    if s.len() > 0 && s[0] != c {
        lemma_first_index(s.drop_first(), c);
        assert forall|i: int| 0 <= i < first_index(s, c) implies s[i] != c by {
            if i > 0 {
                assert(s[i] == s.drop_first()[i - 1]);
            }
        }
    }
}

/// The position of the first `c` in `s`, or `s.len()`.
pub fn first_index_exec(s: &Vec<char>, c: char) -> (n: usize)
    ensures
        n == first_index(s@, c),
{
    proof {
        lemma_first_index(s@, c);
    }
    let mut i: usize = 0;
    while i < s.len() && s[i] != c
        invariant
            i <= s.len(),
            forall|k: int| 0 <= k < i ==> s@[k] != c,
            first_index(s@, c) <= s@.len(),
            first_index(s@, c) < s@.len() ==> s@[first_index(s@, c) as int] == c,
            forall|k: int| 0 <= k < first_index(s@, c) ==> s@[k] != c,
        decreases s.len() - i,
    {
        i = i + 1;
    }
    i
}

/// Whether `c` occurs in `s`.
pub fn has_char(s: &Vec<char>, c: char) -> (r: bool)
    ensures
        r == s@.contains(c),
{
    let i = first_index_exec(s, c);
    proof {
        lemma_first_index(s@, c);
        if i == s@.len() {
            assert forall|k: int| 0 <= k < s@.len() implies s@[k] != c by {}
        } else {
            assert(s@[i as int] == c);
        }
    }
    i < s.len()
}

// ---------------------------------------------------------------------------
// Line endings
// ---------------------------------------------------------------------------

/// `s` with every line ending (`\r\n`, a lone `\r` or a lone `\n`) written
/// as `\r\n`.
pub open spec fn crlf_normalized(s: Seq<char>) -> Seq<char>
    decreases s.len(),
{
    if s.len() == 0 {
        Seq::empty()
    } else if s[0] == '\r' && s.len() > 1 && s[1] == '\n' {
        crlf() + crlf_normalized(s.skip(2))
    } else if s[0] == '\r' || s[0] == '\n' {
        crlf() + crlf_normalized(s.skip(1))
    } else {
        seq![s[0]] + crlf_normalized(s.skip(1))
    }
}

/// `s` with every line ending written as `\r\n`.
pub fn crlf_normalize_chars(s: &Vec<char>) -> (out: Vec<char>)
    ensures
        out@ == crlf_normalized(s@),
{
    let mut out: Vec<char> = Vec::new();
    let mut i: usize = 0;
    assert(s@.skip(0) =~= s@);
    while i < s.len()
        invariant
            i <= s.len(),
            out@ + crlf_normalized(s@.skip(i as int)) == crlf_normalized(s@),
        decreases s.len() - i,
    {
        let ghost rest = s@.skip(i as int);
        if s[i] == '\r' && i + 1 < s.len() && s[i + 1] == '\n' {
            assert(rest[0] == '\r' && rest[1] == '\n');
            assert(rest.skip(2) =~= s@.skip(i + 2));
            out.push('\r');
            out.push('\n');
            i = i + 2;
            assert(out@ + crlf_normalized(s@.skip(i as int)) =~= crlf_normalized(s@));
        } else if s[i] == '\r' || s[i] == '\n' {
            assert(rest[0] == s@[i as int]);
            assert(rest.skip(1) =~= s@.skip(i + 1));
            out.push('\r');
            out.push('\n');
            i = i + 1;
            assert(out@ + crlf_normalized(s@.skip(i as int)) =~= crlf_normalized(s@));
        } else {
            assert(rest[0] == s@[i as int]);
            assert(rest.skip(1) =~= s@.skip(i + 1));
            out.push(s[i]);
            i = i + 1;
            assert(out@ + crlf_normalized(s@.skip(i as int)) =~= crlf_normalized(s@));
        }
    }
    assert(s@.skip(i as int) =~= Seq::<char>::empty());
    assert(out@ + Seq::<char>::empty() =~= out@);
    out
}

/// The pieces of `s` between occurrences of `\r\n` (`str::split("\r\n")`).
pub open spec fn split_crlf(s: Seq<char>) -> Seq<Seq<char>>
    decreases s.len(),
{
    if s.len() == 0 {
        seq![Seq::empty()]
    } else if s.len() >= 2 && s[0] == '\r' && s[1] == '\n' {
        seq![Seq::empty()] + split_crlf(s.skip(2))
    } else {
        let rest = split_crlf(s.skip(1));
        rest.update(0, seq![s[0]] + rest[0])
    }
}

pub proof fn lemma_split_crlf_nonempty(s: Seq<char>)
    ensures
        split_crlf(s).len() >= 1,
    decreases s.len(),
{
    if s.len() == 0 {
    } else if s.len() >= 2 && s[0] == '\r' && s[1] == '\n' {
        lemma_split_crlf_nonempty(s.skip(2));
    } else {
        lemma_split_crlf_nonempty(s.skip(1));
    }
}

/// The pieces of `s` between occurrences of `\n` (`str::split('\n')`).
pub open spec fn split_lf(s: Seq<char>) -> Seq<Seq<char>>
    decreases s.len(),
{
    if s.len() == 0 {
        seq![Seq::empty()]
    } else if s[0] == '\n' {
        seq![Seq::empty()] + split_lf(s.skip(1))
    } else {
        let rest = split_lf(s.skip(1));
        rest.update(0, seq![s[0]] + rest[0])
    }
}

pub proof fn lemma_split_lf_nonempty(s: Seq<char>)
    ensures
        split_lf(s).len() >= 1,
    decreases s.len(),
{
    if s.len() > 0 {
        lemma_split_lf_nonempty(s.skip(1));
    }
}

/// The pieces of `s` between occurrences of `c` (`str::split(c)`).
pub open spec fn split_on(s: Seq<char>, c: char) -> Seq<Seq<char>>
    decreases s.len(),
{
    if s.len() == 0 {
        seq![Seq::empty()]
    } else if s[0] == c {
        seq![Seq::empty()] + split_on(s.skip(1), c)
    } else {
        let rest = split_on(s.skip(1), c);
        rest.update(0, seq![s[0]] + rest[0])
    }
}

pub proof fn lemma_split_on_nonempty(s: Seq<char>, c: char)
    ensures
        split_on(s, c).len() >= 1,
    decreases s.len(),
{
    if s.len() > 0 {
        lemma_split_on_nonempty(s.skip(1), c);
    }
}

/// Puts `cur` in front of the first piece of `pieces`.
pub open spec fn prepend_first(cur: Seq<char>, pieces: Seq<Seq<char>>) -> Seq<Seq<char>> {
    pieces.update(0, cur + pieces[0])
}

/// The pieces of `s` between occurrences of `\r\n`.
pub fn split_crlf_exec(s: &Vec<char>) -> (out: Vec<Vec<char>>)
    ensures
        out@.len() == split_crlf(s@).len(),
        forall|k: int| 0 <= k < out@.len() ==> #[trigger] out@[k]@ == split_crlf(s@)[k],
{
    let mut done: Vec<Vec<char>> = Vec::new();
    let mut cur: Vec<char> = Vec::new();
    let mut i: usize = 0;
    let ghost done_v: Seq<Seq<char>> = Seq::empty();
    proof {
        assert(s@.skip(0) =~= s@);
        lemma_split_crlf_nonempty(s@);
        assert(prepend_first(Seq::empty(), split_crlf(s@)) =~= split_crlf(s@));
    }
    while i < s.len()
        invariant
            i <= s.len(),
            done@.len() == done_v.len(),
            forall|k: int| 0 <= k < done_v.len() ==> #[trigger] done@[k]@ == done_v[k],
            done_v + prepend_first(cur@, split_crlf(s@.skip(i as int))) == split_crlf(s@),
        decreases s.len() - i,
    {
        let ghost rest = s@.skip(i as int);
        proof {
            lemma_split_crlf_nonempty(rest);
        }
        if s[i] == '\r' && i + 1 < s.len() && s[i + 1] == '\n' {
            assert(rest[0] == '\r' && rest[1] == '\n');
            assert(rest.skip(2) =~= s@.skip(i + 2));
            proof {
                lemma_split_crlf_nonempty(s@.skip(i + 2));
                let r2 = split_crlf(s@.skip(i + 2));
                assert(prepend_first(cur@, split_crlf(rest)) =~= seq![cur@] + r2);
                assert(prepend_first(Seq::empty(), r2) =~= r2);
                assert((done_v.push(cur@)) + prepend_first(Seq::empty(), r2) =~= done_v
                    + prepend_first(cur@, split_crlf(rest)));
                done_v = done_v.push(cur@);
            }
            done.push(cur);
            cur = Vec::new();
            i = i + 2;
        } else {
            assert(rest[0] == s@[i as int]);
            assert(rest.skip(1) =~= s@.skip(i + 1));
            proof {
                lemma_split_crlf_nonempty(s@.skip(i + 1));
                let r1 = split_crlf(s@.skip(i + 1));
                assert(split_crlf(rest) == r1.update(0, seq![rest[0]] + r1[0]));
                assert(cur@ + (seq![rest[0]] + r1[0]) =~= cur@.push(s@[i as int]) + r1[0]);
                assert(prepend_first(cur@, split_crlf(rest)) =~= prepend_first(
                    cur@.push(s@[i as int]),
                    r1,
                ));
            }
            cur.push(s[i]);
            i = i + 1;
        }
    }
    proof {
        assert(s@.skip(i as int) =~= Seq::<char>::empty());
        assert(prepend_first(cur@, split_crlf(Seq::<char>::empty())) =~= seq![cur@]);
        done_v = done_v.push(cur@);
    }
    done.push(cur);
    done
}

/// The pieces of `s` between occurrences of `\n`.
pub fn split_lf_exec(s: &Vec<char>) -> (out: Vec<Vec<char>>)
    ensures
        out@.len() == split_lf(s@).len(),
        forall|k: int| 0 <= k < out@.len() ==> #[trigger] out@[k]@ == split_lf(s@)[k],
{
    let mut done: Vec<Vec<char>> = Vec::new();
    let mut cur: Vec<char> = Vec::new();
    let mut i: usize = 0;
    let ghost done_v: Seq<Seq<char>> = Seq::empty();
    proof {
        assert(s@.skip(0) =~= s@);
        lemma_split_lf_nonempty(s@);
        assert(prepend_first(Seq::empty(), split_lf(s@)) =~= split_lf(s@));
    }
    while i < s.len()
        invariant
            i <= s.len(),
            done@.len() == done_v.len(),
            forall|k: int| 0 <= k < done_v.len() ==> #[trigger] done@[k]@ == done_v[k],
            done_v + prepend_first(cur@, split_lf(s@.skip(i as int))) == split_lf(s@),
        decreases s.len() - i,
    {
        let ghost rest = s@.skip(i as int);
        assert(rest[0] == s@[i as int]);
        assert(rest.skip(1) =~= s@.skip(i + 1));
        proof {
            lemma_split_lf_nonempty(s@.skip(i + 1));
        }
        if s[i] == '\n' {
            proof {
                let r1 = split_lf(s@.skip(i + 1));
                assert(prepend_first(cur@, split_lf(rest)) =~= seq![cur@] + r1);
                assert(prepend_first(Seq::empty(), r1) =~= r1);
                assert((done_v.push(cur@)) + prepend_first(Seq::empty(), r1) =~= done_v
                    + prepend_first(cur@, split_lf(rest)));
                done_v = done_v.push(cur@);
            }
            done.push(cur);
            cur = Vec::new();
            i = i + 1;
        } else {
            proof {
                let r1 = split_lf(s@.skip(i + 1));
                assert(split_lf(rest) == r1.update(0, seq![rest[0]] + r1[0]));
                assert(cur@ + (seq![rest[0]] + r1[0]) =~= cur@.push(s@[i as int]) + r1[0]);
                assert(prepend_first(cur@, split_lf(rest)) =~= prepend_first(
                    cur@.push(s@[i as int]),
                    r1,
                ));
            }
            cur.push(s[i]);
            i = i + 1;
        }
    }
    proof {
        assert(s@.skip(i as int) =~= Seq::<char>::empty());
        assert(prepend_first(cur@, split_lf(Seq::<char>::empty())) =~= seq![cur@]);
        done_v = done_v.push(cur@);
    }
    done.push(cur);
    done
}

/// The pieces of `s` between occurrences of `c`.
pub fn split_on_exec(s: &Vec<char>, c: char) -> (out: Vec<Vec<char>>)
    ensures
        out@.len() == split_on(s@, c).len(),
        forall|k: int| 0 <= k < out@.len() ==> #[trigger] out@[k]@ == split_on(s@, c)[k],
{
    let mut done: Vec<Vec<char>> = Vec::new();
    let mut cur: Vec<char> = Vec::new();
    let mut i: usize = 0;
    let ghost done_v: Seq<Seq<char>> = Seq::empty();
    proof {
        assert(s@.skip(0) =~= s@);
        lemma_split_on_nonempty(s@, c);
        assert(prepend_first(Seq::empty(), split_on(s@, c)) =~= split_on(s@, c));
    }
    while i < s.len()
        invariant
            i <= s.len(),
            done@.len() == done_v.len(),
            forall|k: int| 0 <= k < done_v.len() ==> #[trigger] done@[k]@ == done_v[k],
            done_v + prepend_first(cur@, split_on(s@.skip(i as int), c)) == split_on(s@, c),
        decreases s.len() - i,
    {
        let ghost rest = s@.skip(i as int);
        assert(rest[0] == s@[i as int]);
        assert(rest.skip(1) =~= s@.skip(i + 1));
        proof {
            lemma_split_on_nonempty(s@.skip(i + 1), c);
        }
        if s[i] == c {
            proof {
                let r1 = split_on(s@.skip(i + 1), c);
                assert(prepend_first(cur@, split_on(rest, c)) =~= seq![cur@] + r1);
                assert(prepend_first(Seq::empty(), r1) =~= r1);
                assert((done_v.push(cur@)) + prepend_first(Seq::empty(), r1) =~= done_v
                    + prepend_first(cur@, split_on(rest, c)));
                done_v = done_v.push(cur@);
            }
            done.push(cur);
            cur = Vec::new();
            i = i + 1;
        } else {
            proof {
                let r1 = split_on(s@.skip(i + 1), c);
                assert(split_on(rest, c) == r1.update(0, seq![rest[0]] + r1[0]));
                assert(cur@ + (seq![rest[0]] + r1[0]) =~= cur@.push(s@[i as int]) + r1[0]);
                assert(prepend_first(cur@, split_on(rest, c)) =~= prepend_first(
                    cur@.push(s@[i as int]),
                    r1,
                ));
            }
            cur.push(s[i]);
            i = i + 1;
        }
    }
    proof {
        assert(s@.skip(i as int) =~= Seq::<char>::empty());
        assert(prepend_first(cur@, split_on(Seq::<char>::empty(), c)) =~= seq![cur@]);
        done_v = done_v.push(cur@);
    }
    done.push(cur);
    done
}

/// `piece` without one trailing `\r`.
pub open spec fn strip_cr(piece: Seq<char>) -> Seq<char> {
    if piece.len() > 0 && piece.last() == '\r' {
        piece.drop_last()
    } else {
        piece
    }
}

/// The lines of `s` as `str::lines` yields them: split at `\n`, a `\r`
/// directly before a `\n` dropped, and no empty line after a final `\n`.
pub open spec fn lines(s: Seq<char>) -> Seq<Seq<char>> {
    let parts = split_lf(s);
    let n = parts.len();
    let count: int = if s.len() == 0 {
        0
    } else if s.last() == '\n' {
        n - 1
    } else {
        n as int
    };
    Seq::new(count as nat, |k: int| if k < n - 1 { strip_cr(parts[k]) } else { parts[k] })
}

/// `piece` without one trailing `\r`.
fn strip_cr_exec(piece: Vec<char>) -> (out: Vec<char>)
    ensures
        out@ == strip_cr(piece@),
{
    let mut piece = piece;
    if piece.len() > 0 && piece[piece.len() - 1] == '\r' {
        piece.pop();
    }
    piece
}

/// The lines of `s`.
pub fn lines_exec(s: &Vec<char>) -> (out: Vec<Vec<char>>)
    ensures
        out@.len() == lines(s@).len(),
        forall|k: int| 0 <= k < out@.len() ==> #[trigger] out@[k]@ == lines(s@)[k],
{
    let parts = split_lf_exec(s);
    proof {
        lemma_split_lf_nonempty(s@);
    }
    let n = parts.len();
    let count: usize = if s.len() == 0 {
        0
    } else if s[s.len() - 1] == '\n' {
        n - 1
    } else {
        n
    };
    let mut out: Vec<Vec<char>> = Vec::new();
    let mut k: usize = 0;
    while k < count
        invariant
            count <= n,
            n == parts@.len(),
            n == split_lf(s@).len(),
            count == lines(s@).len(),
            forall|j: int| 0 <= j < n ==> #[trigger] parts@[j]@ == split_lf(s@)[j],
            k <= count,
            out@.len() == k,
            forall|j: int| 0 <= j < k ==> #[trigger] out@[j]@ == lines(s@)[j],
        decreases count - k,
    {
        let piece = slice_chars(&parts[k], 0, parts[k].len());
        assert(piece@ =~= parts@[k as int]@);
        if k + 1 < n {
            out.push(strip_cr_exec(piece));
        } else {
            out.push(piece);
        }
        k = k + 1;
    }
    out
}

// ---------------------------------------------------------------------------
// Joining
// ---------------------------------------------------------------------------

/// The pieces joined with `sep` between neighbours (`[..].join(sep)`).
pub open spec fn join(parts: Seq<Seq<char>>, sep: Seq<char>) -> Seq<char>
    decreases parts.len(),
{
    if parts.len() == 0 {
        Seq::empty()
    } else if parts.len() == 1 {
        parts[0]
    } else {
        join(parts.drop_last(), sep) + sep + parts.last()
    }
}

/// The pieces joined with `sep`.
pub fn join_exec(parts: &Vec<Vec<char>>, sep: &str) -> (out: Vec<char>)
    ensures
        out@ == join(parts@.map_values(|p: Vec<char>| p@), sep@),
{
    let ghost pv = parts@.map_values(|p: Vec<char>| p@);
    let sv = chars_of(sep);
    let mut out: Vec<char> = Vec::new();
    let mut k: usize = 0;
    while k < parts.len()
        invariant
            k <= parts.len(),
            pv == parts@.map_values(|p: Vec<char>| p@),
            sv@ == sep@,
            out@ == join(pv.take(k as int), sep@),
        decreases parts.len() - k,
    {
        assert(pv.take(k + 1).drop_last() =~= pv.take(k as int));
        assert(pv.take(k + 1).last() == parts@[k as int]@);
        if k > 0 {
            extend_chars(&mut out, &sv);
        } else {
            assert(pv.take(1) =~= seq![parts@[0]@]);
        }
        extend_chars(&mut out, &parts[k]);
        k = k + 1;
    }
    assert(pv.take(parts@.len() as int) =~= pv);
    out
}


// ---------------------------------------------------------------------------
// Whitespace-separated words
// ---------------------------------------------------------------------------

/// The length of the run of non-whitespace characters at the start of `s`.
pub open spec fn word_run(s: Seq<char>) -> nat
    decreases s.len(),
{
    if s.len() > 0 && !is_ws(s[0]) {
        1 + word_run(s.drop_first())
    } else {
        0
    }
}

pub proof fn lemma_word_run(s: Seq<char>)
    ensures
        word_run(s) <= s.len(),
        forall|i: int| 0 <= i < word_run(s) ==> !is_ws(#[trigger] s[i]),
        word_run(s) < s.len() ==> is_ws(s[word_run(s) as int]),
    decreases s.len(),
{
    if s.len() > 0 && !is_ws(s[0]) {
        lemma_word_run(s.drop_first());
        assert forall|i: int| 0 <= i < word_run(s) implies !is_ws(#[trigger] s[i]) by {
            if i > 0 {
                assert(s[i] == s.drop_first()[i - 1]);
            }
        }
    }
}

/// The whitespace-separated words of `s` (`str::split_whitespace`).
pub open spec fn words(s: Seq<char>) -> Seq<Seq<char>>
    decreases s.len(),
{
    if s.len() == 0 {
        Seq::empty()
    } else if is_ws(s[0]) {
        words(s.skip(1))
    } else {
        let k = word_run(s);
        proof {
            lemma_word_run(s);
        }
        seq![s.take(k as int)] + words(s.skip(k as int))
    }
}

/// `s` with its words joined by single spaces
/// (`s.split_whitespace().collect::<Vec<_>>().join(" ")`).
pub open spec fn collapse_ws(s: Seq<char>) -> Seq<char> {
    join(words(s), seq![' '])
}

/// The length of the run of non-whitespace characters of `s` starting at `from`.
fn word_run_from(s: &Vec<char>, from: usize) -> (k: usize)
    requires
        from <= s.len(),
    ensures
        k == word_run(s@.skip(from as int)),
        from + k <= s.len(),
{
    let ghost r = s@.skip(from as int);
    proof {
        lemma_word_run(r);
    }
    let mut k: usize = 0;
    while from + k < s.len() && !char_is_whitespace(s[from + k])
        invariant
            from + k <= s.len(),
            r == s@.skip(from as int),
            word_run(r) <= r.len(),
            forall|i: int| 0 <= i < word_run(r) ==> !is_ws(#[trigger] r[i]),
            word_run(r) < r.len() ==> is_ws(r[word_run(r) as int]),
            forall|i: int| 0 <= i < k ==> !is_ws(#[trigger] r[i]),
        decreases s.len() - from - k,
    {
        assert(r[k as int] == s@[from + k]);
        k = k + 1;
    }
    proof {
        if from + k < s.len() {
            assert(r[k as int] == s@[from + k]);
        }
    }
    k
}

/// The whitespace-separated words of `s`.
pub fn words_exec(s: &Vec<char>) -> (out: Vec<Vec<char>>)
    ensures
        out@.len() == words(s@).len(),
        forall|k: int| 0 <= k < out@.len() ==> #[trigger] out@[k]@ == words(s@)[k],
{
    let mut out: Vec<Vec<char>> = Vec::new();
    let ghost done: Seq<Seq<char>> = Seq::empty();
    let mut i: usize = 0;
    assert(s@.skip(0) =~= s@);
    while i < s.len()
        invariant
            i <= s.len(),
            out@.len() == done.len(),
            forall|k: int| 0 <= k < done.len() ==> #[trigger] out@[k]@ == done[k],
            done + words(s@.skip(i as int)) == words(s@),
        decreases s.len() - i,
    {
        let ghost rest = s@.skip(i as int);
        assert(rest[0] == s@[i as int]);
        if char_is_whitespace(s[i]) {
            assert(rest.skip(1) =~= s@.skip(i + 1));
            i = i + 1;
        } else {
            let k = word_run_from(s, i);
            proof {
                lemma_word_run(rest);
            }
            let w = slice_chars(s, i, i + k);
            assert(rest.take(k as int) =~= w@);
            assert(rest.skip(k as int) =~= s@.skip(i + k));
            proof {
                assert(done.push(w@) + words(s@.skip(i + k)) =~= done + words(rest));
                done = done.push(w@);
            }
            out.push(w);
            i = i + k;
        }
    }
    assert(s@.skip(i as int) =~= Seq::<char>::empty());
    assert(done + Seq::<Seq<char>>::empty() =~= done);
    out
}

/// `s` with its words joined by single spaces.
pub fn collapse_ws_exec(s: &Vec<char>) -> (out: Vec<char>)
    ensures
        out@ == collapse_ws(s@),
{
    let ws = words_exec(s);
    let out = join_exec(&ws, " ");
    proof {
        assert(ws@.map_values(|p: Vec<char>| p@) =~= words(s@));
        reveal_strlit(" ");
        assert(" "@ =~= seq![' ']);
    }
    out
}


// ---------------------------------------------------------------------------
// Lines of text written with `\r\n`
// ---------------------------------------------------------------------------

/// The line ending that preset and config files are written with.
pub open spec fn crlf() -> Seq<char> {
    seq!['\r', '\n']
}

/// Whether `s` holds no `\r` and no `\n`.
pub open spec fn no_breaks(s: Seq<char>) -> bool {
    forall|i: int| 0 <= i < s.len() ==> s[i] != '\r' && s[i] != '\n'
}

/// Whether every piece of `ps` holds no line break.
pub open spec fn all_unbroken(ps: Seq<Seq<char>>) -> bool {
    forall|k: int| 0 <= k < ps.len() ==> no_breaks(#[trigger] ps[k])
}

/// Joining `a` in front of at least one piece puts a separator after it.
pub proof fn lemma_join_front(a: Seq<char>, rest: Seq<Seq<char>>, sep: Seq<char>)
    requires
        rest.len() >= 1,
    ensures
        join(seq![a] + rest, sep) == a + sep + join(rest, sep),
    decreases rest.len(),
{
    let ps = seq![a] + rest;
    if rest.len() == 1 {
        assert(ps.drop_last() =~= seq![a]);
        assert(join(ps.drop_last(), sep) == a);
        assert(ps.last() == rest[0]);
        assert(join(rest, sep) == rest[0]);
    } else {
        assert(ps.drop_last() =~= seq![a] + rest.drop_last());
        lemma_join_front(a, rest.drop_last(), sep);
        assert(ps.last() == rest.last());
        assert(join(ps, sep) == join(ps.drop_last(), sep) + sep + ps.last());
        assert(join(rest, sep) == join(rest.drop_last(), sep) + sep + rest.last());
        assert(a + sep + join(rest.drop_last(), sep) + sep + rest.last() =~= a + sep + (join(
            rest.drop_last(),
            sep,
        ) + sep + rest.last()));
    }
}

/// `\r\n`-normalizing leaves text without line breaks in front as it is.
pub proof fn lemma_normalized_prefix(x: Seq<char>, y: Seq<char>)
    requires
        no_breaks(x),
    ensures
        crlf_normalized(x + y) == x + crlf_normalized(y),
    decreases x.len(),
{
    if x.len() > 0 {
        let s = x + y;
        assert(s.skip(1) =~= x.skip(1) + y);
        assert(s[0] == x[0]);
        lemma_normalized_prefix(x.skip(1), y);
        assert(seq![x[0]] + x.skip(1) =~= x);
    } else {
        assert(x + y =~= y);
    }
}

/// Text joined from unbroken pieces with `\r\n` is already normalized.
pub proof fn lemma_normalized_join(ps: Seq<Seq<char>>)
    requires
        ps.len() >= 1,
        all_unbroken(ps),
    ensures
        crlf_normalized(join(ps, crlf())) == join(ps, crlf()),
    decreases ps.len(),
{
    let sep = crlf();
    if ps.len() == 1 {
        assert(no_breaks(ps[0]));
        lemma_normalized_prefix(ps[0], Seq::empty());
        assert(ps[0] + Seq::<char>::empty() =~= ps[0]);
    } else {
        let rest = ps.drop_first();
        assert(ps =~= seq![ps[0]] + rest);
        lemma_join_front(ps[0], rest, sep);
        assert(all_unbroken(rest)) by {
            assert forall|k: int| 0 <= k < rest.len() implies no_breaks(#[trigger] rest[k]) by {
                assert(rest[k] == ps[k + 1]);
            }
        }
        lemma_normalized_join(rest);
        let tail = sep + join(rest, sep);
        assert(no_breaks(ps[0]));
        lemma_normalized_prefix(ps[0], tail);
        assert(tail[0] == '\r' && tail[1] == '\n');
        assert(tail.skip(2) =~= join(rest, sep));
        assert(ps[0] + sep + join(rest, sep) =~= ps[0] + tail);
    }
}

/// Splitting at `\n` text that starts with an unbroken piece and a `\n`
/// gives that piece first.
pub proof fn lemma_split_lf_front(x: Seq<char>, y: Seq<char>)
    requires
        forall|i: int| 0 <= i < x.len() ==> x[i] != '\n',
    ensures
        split_lf(x + seq!['\n'] + y) == seq![x] + split_lf(y),
    decreases x.len(),
{
    let s = x + seq!['\n'] + y;
    if x.len() == 0 {
        assert(s[0] == '\n');
        assert(s.skip(1) =~= y);
        assert(x =~= Seq::<char>::empty());
    } else {
        assert(s[0] == x[0]);
        assert(s.skip(1) =~= x.skip(1) + seq!['\n'] + y);
        lemma_split_lf_front(x.skip(1), y);
        let rest = split_lf(s.skip(1));
        assert(rest == seq![x.skip(1)] + split_lf(y));
        assert(seq![x[0]] + x.skip(1) =~= x);
        assert(rest.update(0, seq![s[0]] + rest[0]) =~= seq![x] + split_lf(y));
    }
}

/// The lines of text joined from unbroken pieces with `\r\n`, ending in
/// `\r\n`, are the pieces.
pub proof fn lemma_lines_of_join(ps: Seq<Seq<char>>)
    requires
        ps.len() >= 1,
        all_unbroken(ps),
    ensures
        lines(join(ps, crlf()) + crlf()) == ps,
{
    let sep = crlf();
    let s = join(ps, sep) + sep;
    lemma_split_lf_of_join(ps);
    let parts = split_lf(s);
    assert(s.last() == '\n');
    assert(lines(s) =~= ps) by {
        assert forall|k: int| 0 <= k < ps.len() implies #[trigger] lines(s)[k] == ps[k] by {
            assert(parts[k] == ps[k].push('\r'));
            assert(strip_cr(ps[k].push('\r')) =~= ps[k]);
        }
    }
}

/// Splitting at `\n` the text joined from unbroken pieces with `\r\n` and
/// ending in `\r\n` gives each piece with a `\r`, then an empty piece.
proof fn lemma_split_lf_of_join(ps: Seq<Seq<char>>)
    requires
        ps.len() >= 1,
        all_unbroken(ps),
    ensures
        split_lf(join(ps, crlf()) + crlf()).len() == ps.len() + 1,
        forall|k: int|
            0 <= k < ps.len() ==> #[trigger] split_lf(join(ps, crlf()) + crlf())[k]
                == ps[k].push('\r'),
    decreases ps.len(),
{
    let sep = crlf();
    let x = ps[0].push('\r');
    assert(no_breaks(ps[0]));
    if ps.len() == 1 {
        let s = join(ps, sep) + sep;
        assert(s =~= x + seq!['\n'] + Seq::<char>::empty());
        lemma_split_lf_front(x, Seq::empty());
    } else {
        let rest = ps.drop_first();
        assert(ps =~= seq![ps[0]] + rest);
        lemma_join_front(ps[0], rest, sep);
        assert(all_unbroken(rest)) by {
            assert forall|k: int| 0 <= k < rest.len() implies no_breaks(#[trigger] rest[k]) by {
                assert(rest[k] == ps[k + 1]);
            }
        }
        lemma_split_lf_of_join(rest);
        let y = join(rest, sep) + sep;
        let s = join(ps, sep) + sep;
        assert(s =~= x + seq!['\n'] + y);
        lemma_split_lf_front(x, y);
        assert forall|k: int| 0 <= k < ps.len() implies #[trigger] split_lf(s)[k] == ps[k].push('\r') by {
            if k > 0 {
                assert(split_lf(s)[k] == split_lf(y)[k - 1]);
                assert(rest[k - 1] == ps[k]);
            }
        }
    }
}


/// Putting `x` in front of the first piece puts it in front of the joined
/// text.
pub proof fn lemma_join_update_first(ps: Seq<Seq<char>>, x: Seq<char>, sep: Seq<char>)
    requires
        ps.len() >= 1,
    ensures
        join(ps.update(0, x + ps[0]), sep) == x + join(ps, sep),
    decreases ps.len(),
{
    let q = ps.update(0, x + ps[0]);
    if ps.len() == 1 {
        assert(join(q, sep) == q[0]);
        assert(join(ps, sep) == ps[0]);
    } else {
        assert(q.drop_last() =~= ps.drop_last().update(0, x + ps.drop_last()[0]));
        lemma_join_update_first(ps.drop_last(), x, sep);
        assert(join(q, sep) == join(q.drop_last(), sep) + sep + q.last());
        assert(join(ps, sep) == join(ps.drop_last(), sep) + sep + ps.last());
        assert(x + join(ps.drop_last(), sep) + sep + ps.last() =~= x + (join(ps.drop_last(), sep)
            + sep + ps.last()));
    }
}

/// The `\r\n`-separated pieces of normalized text hold no line breaks and
/// join back to it.
pub proof fn lemma_split_normalized(c: Seq<char>)
    ensures
        all_unbroken(split_crlf(crlf_normalized(c))),
        join(split_crlf(crlf_normalized(c)), crlf()) == crlf_normalized(c),
    decreases c.len(),
{
    let n = crlf_normalized(c);
    if c.len() == 0 {
        assert(n =~= Seq::<char>::empty());
        assert(split_crlf(n) == seq![Seq::<char>::empty()]);
    } else {
        let rest = if c[0] == '\r' && c.len() > 1 && c[1] == '\n' {
            c.skip(2)
        } else {
            c.skip(1)
        };
        lemma_split_normalized(rest);
        let nr = crlf_normalized(rest);
        let r = split_crlf(nr);
        lemma_split_crlf_nonempty(nr);
        if c[0] == '\r' || c[0] == '\n' {
            assert(n == crlf() + nr);
            assert(n[0] == '\r' && n[1] == '\n');
            assert(n.skip(2) =~= nr);
            assert(split_crlf(n) == seq![Seq::<char>::empty()] + r);
            lemma_join_front(Seq::empty(), r, crlf());
            assert(Seq::<char>::empty() + crlf() + join(r, crlf()) =~= n);
            assert forall|k: int| 0 <= k < split_crlf(n).len() implies no_breaks(
                #[trigger] split_crlf(n)[k],
            ) by {
                if k > 0 {
                    assert(split_crlf(n)[k] == r[k - 1]);
                }
            }
        } else {
            assert(n == seq![c[0]] + nr);
            assert(n.skip(1) =~= nr);
            assert(split_crlf(n) == r.update(0, seq![c[0]] + r[0]));
            lemma_join_update_first(r, seq![c[0]], crlf());
            assert forall|k: int| 0 <= k < split_crlf(n).len() implies no_breaks(
                #[trigger] split_crlf(n)[k],
            ) by {
                if k == 0 {
                    assert(no_breaks(r[0]));
                    let p = seq![c[0]] + r[0];
                    assert forall|i: int| 0 <= i < p.len() implies p[i] != '\r' && p[i] != '\n' by {
                        if i > 0 {
                            assert(p[i] == r[0][i - 1]);
                        }
                    }
                }
            }
        }
    }
}

} // verus!
