//! Config folder paths: how a requested path is checked and normalised, and
//! how a relative path from the config folder to a file is found from the
//! two paths' components.
use vstd::prelude::*;

use crate::error::AppError;
use crate::text::{chars_of, contains, has_char, slice_chars, string_of};

verus! {

/// Whether `c` separates path components (either slash).
pub open spec fn is_separator(c: char) -> bool {
    c == '\\' || c == '/'
}

/// `s` without its trailing separators.
pub open spec fn without_trailing_separators(s: Seq<char>) -> Seq<char>
    decreases s.len(),
{
    if s.len() > 0 && is_separator(s.last()) {
        without_trailing_separators(s.drop_last())
    } else {
        s
    }
}

/// A normalised path never ends with a separator, and normalising it again
/// changes nothing.
pub proof fn lemma_normalized_path(s: Seq<char>)
    ensures
        without_trailing_separators(s).len() > 0 ==> !is_separator(
            without_trailing_separators(s).last(),
        ),
        without_trailing_separators(without_trailing_separators(s)) == without_trailing_separators(s),
        without_trailing_separators(s).len() <= s.len(),
        without_trailing_separators(s) == s.take(without_trailing_separators(s).len() as int),
    decreases s.len(),
{
    if s.len() > 0 && is_separator(s.last()) {
        lemma_normalized_path(s.drop_last());
        assert(s.drop_last().take(without_trailing_separators(s).len() as int) =~= s.take(
            without_trailing_separators(s).len() as int,
        ));
    } else {
        assert(s.take(s.len() as int) =~= s);
    }
}

/// `path` without trailing `\` or `/`.
pub fn normalize_path(path: &str) -> (r: String)
    ensures
        r@ == without_trailing_separators(path@),
{
    let v = chars_of(path);
    let mut n: usize = v.len();
    proof {
        assert(v@.take(n as int) =~= v@);
    }
    while n > 0 && (v[n - 1] == '\\' || v[n - 1] == '/')
        invariant
            n <= v@.len(),
            v@ == path@,
            without_trailing_separators(v@.take(n as int)) == without_trailing_separators(path@),
        decreases n,
    {
        assert(v@.take(n as int).drop_last() =~= v@.take(n - 1));
        n = n - 1;
    }
    let out = slice_chars(&v, 0, n);
    assert(out@ =~= v@.take(n as int));
    string_of(&out)
}

/// Whether a path holds a character that Windows forbids in paths.
pub open spec fn has_forbidden_path_char(s: Seq<char>) -> bool {
    s.contains('<') || s.contains('>') || s.contains('|') || s.contains('?') || s.contains('*')
}

/// What checking a requested config path gives: the normalised path, or the
/// message of the error that refuses it.
pub open spec fn config_path_outcome(path: Seq<char>, absolute: bool) -> Result<Seq<char>, Seq<char>> {
    if !absolute {
        Err("Config path must be an absolute path (e.g., C:\\folder\\config)"@)
    } else if has_forbidden_path_char(without_trailing_separators(path)) {
        Err("Config path contains invalid characters"@)
    } else {
        Ok(without_trailing_separators(path))
    }
}

/// Whether a result holds what `outcome` says: the same path, or a message
/// error with the same text.
pub open spec fn path_result_is(r: Result<String, AppError>, outcome: Result<Seq<char>, Seq<char>>) -> bool {
    match r {
        Ok(p) => outcome is Ok && p@ == outcome->Ok_0,
        Err(e) => outcome is Err && (e matches AppError::Message(m) && m@ == outcome->Err_0),
    }
}

/// Checks a requested config path, given whether it is absolute: it must
/// be, and once normalised it must not hold `<`, `>`, `|`, `?` or `*`.
pub fn validate_config_path(path: &str, absolute: bool) -> (r: Result<String, AppError>)
    ensures
        path_result_is(r, config_path_outcome(path@, absolute)),
{
    if !absolute {
        return Err(
            AppError::Message("Config path must be an absolute path (e.g., C:\\folder\\config)".to_owned()),
        );
    }
    let normalized = normalize_path(path);
    let v = chars_of(normalized.as_str());
    if has_char(&v, '<') || has_char(&v, '>') || has_char(&v, '|') || has_char(&v, '?') || has_char(
        &v,
        '*',
    ) {
        return Err(AppError::Message("Config path contains invalid characters".to_owned()));
    }
    Ok(normalized)
}

/// Whether `path` is relative on every platform: it neither starts with
/// `/` or `\` nor holds a `:` (so it has neither a Unix root nor a Windows
/// drive or share prefix).
pub open spec fn relative_everywhere(path: Seq<char>) -> bool {
    !(path.len() > 0 && (path[0] == '/' || path[0] == '\\')) && !path.contains(':')
}

/// Whether `path` is absolute on this platform (`Path::is_absolute`). What
/// counts as absolute differs between platforms (a leading `/` on Unix, a
/// drive or share prefix with a root on Windows); the contract states only
/// what holds on both: a path with neither a leading separator nor a `:`
/// is not absolute.
#[verifier::external_body]
fn path_is_absolute(path: &str) -> (r: bool)
    ensures
        relative_everywhere(path@) ==> !r,
{
    std::path::Path::new(path).is_absolute()
}

/// Checks and normalises a requested config path on this platform. Whether
/// the path counts as absolute is the platform's decision; whatever it
/// decides, the result is what `validate_config_path` gives for it, and a
/// path that is relative on every platform is refused as not absolute.
pub fn validate_and_normalize_path(path: &str) -> (r: Result<String, AppError>)
    ensures
        path_result_is(r, config_path_outcome(path@, true)) || path_result_is(
            r,
            config_path_outcome(path@, false),
        ),
        relative_everywhere(path@) ==> path_result_is(r, config_path_outcome(path@, false)),
{
    let absolute = path_is_absolute(path);
    validate_config_path(path, absolute)
}

/// One component of a parsed path, as `std::path::Component` splits it.
/// A prefix is held by the text that identifies it (a drive letter in upper
/// case, or a share), so that equal prefixes hold equal text.
#[derive(Debug, Clone)]
pub enum PathComponent {
    Prefix(String),
    RootDir,
    CurDir,
    ParentDir,
    Normal(String),
}

/// A component as a kind number and its text.
pub open spec fn component_view(c: PathComponent) -> (nat, Seq<char>) {
    match c {
        PathComponent::Prefix(s) => (0, s@),
        PathComponent::RootDir => (1, Seq::empty()),
        PathComponent::CurDir => (2, Seq::empty()),
        PathComponent::ParentDir => (3, Seq::empty()),
        PathComponent::Normal(s) => (4, s@),
    }
}

/// The components of a path.
pub open spec fn components_view(cs: Seq<PathComponent>) -> Seq<(nat, Seq<char>)> {
    cs.map_values(|c: PathComponent| component_view(c))
}

/// Whether two components are the same.
fn same_component(a: &PathComponent, b: &PathComponent) -> (r: bool)
    ensures
        r == (component_view(*a) == component_view(*b)),
{
    match (a, b) {
        (PathComponent::Prefix(x), PathComponent::Prefix(y)) => crate::text::str_eq(x.as_str(), y.as_str()),
        (PathComponent::RootDir, PathComponent::RootDir) => true,
        (PathComponent::CurDir, PathComponent::CurDir) => true,
        (PathComponent::ParentDir, PathComponent::ParentDir) => true,
        (PathComponent::Normal(x), PathComponent::Normal(y)) => crate::text::str_eq(x.as_str(), y.as_str()),
        _ => false,
    }
}

/// The length of the longest common prefix of `a` and `b`, counted from
/// `k` on (both equal before `k`).
pub open spec fn common_len_from(a: Seq<(nat, Seq<char>)>, b: Seq<(nat, Seq<char>)>, k: nat) -> nat
    decreases a.len() - k,
{
    if k < a.len() && k < b.len() && a[k as int] == b[k as int] {
        common_len_from(a, b, k + 1)
    } else {
        k
    }
}

/// The length of the longest common prefix of two component lists.
pub open spec fn common_len(a: Seq<(nat, Seq<char>)>, b: Seq<(nat, Seq<char>)>) -> nat {
    common_len_from(a, b, 0)
}

/// The common prefix is common, and the components after it differ (or one
/// list has ended).
pub proof fn lemma_common_len_from(a: Seq<(nat, Seq<char>)>, b: Seq<(nat, Seq<char>)>, k: nat)
    requires
        k <= a.len(),
        k <= b.len(),
        forall|j: int| 0 <= j < k ==> a[j] == b[j],
    ensures
        k <= common_len_from(a, b, k) <= a.len(),
        common_len_from(a, b, k) <= b.len(),
        forall|j: int| 0 <= j < common_len_from(a, b, k) ==> a[j] == b[j],
        common_len_from(a, b, k) < a.len() && common_len_from(a, b, k) < b.len() ==> a[common_len_from(
            a,
            b,
            k,
        ) as int] != b[common_len_from(a, b, k) as int],
    decreases a.len() - k,
{
    if k < a.len() && k < b.len() && a[k as int] == b[k as int] {
        lemma_common_len_from(a, b, k + 1);
    }
}

/// Whether two paths start at the same root: the same prefix, or both at
/// the root directory.
pub open spec fn same_root(a: Seq<(nat, Seq<char>)>, b: Seq<(nat, Seq<char>)>) -> bool {
    a.len() > 0 && b.len() > 0 && ((a[0].0 == 0 && b[0].0 == 0 && a[0] == b[0]) || (a[0].0 == 1
        && b[0].0 == 1))
}

/// How many `..` steps leave the components `cs[from..]`: one for each
/// ordinary, `.` or `..` component (prefixes and roots give none).
pub open spec fn up_steps(cs: Seq<(nat, Seq<char>)>, from: int) -> nat
    decreases cs.len() - from,
{
    if from < 0 || from >= cs.len() {
        0
    } else {
        (if cs[from].0 >= 2 {
            1nat
        } else {
            0nat
        }) + up_steps(cs, from + 1)
    }
}

/// The steps of a relative path from one folder to a target: `ups` times
/// `..`, then the target's components from index `common` on.
#[derive(Debug, Clone, Copy)]
pub struct RelativeSteps {
    pub ups: usize,
    pub common: usize,
}

/// The relative path from the folder `from` to `target`, as steps; `None`
/// when either is empty or they do not share a root.
pub open spec fn relative_steps(from: Seq<(nat, Seq<char>)>, target: Seq<(nat, Seq<char>)>) -> Option<
    (nat, nat),
> {
    if from.len() == 0 || target.len() == 0 || !same_root(from, target) {
        None
    } else {
        let c = common_len(from, target);
        Some((up_steps(from, c as int), c))
    }
}

/// The relative path from the folder `from` to `target`, by their
/// components.
pub fn relative_path(from: &Vec<PathComponent>, target: &Vec<PathComponent>) -> (r: Option<RelativeSteps>)
    ensures
        match relative_steps(components_view(from@), components_view(target@)) {
            None => r is None,
            Some((u, c)) => r matches Some(s) && s.ups == u && s.common == c,
        },
{
    let ghost fv = components_view(from@);
    let ghost tv = components_view(target@);
    if from.len() == 0 || target.len() == 0 {
        return None;
    }
    let mut common: usize = 0;
    while common < from.len() && common < target.len() && same_component(
        &from[common],
        &target[common],
    )
        invariant
            fv == components_view(from@),
            tv == components_view(target@),
            common <= from@.len(),
            common <= target@.len(),
            forall|j: int| 0 <= j < common ==> fv[j] == tv[j],
            common_len_from(fv, tv, common as nat) == common_len(fv, tv),
        decreases from.len() - common,
    {
        assert(fv[common as int] == component_view(from@[common as int]));
        assert(tv[common as int] == component_view(target@[common as int]));
        common = common + 1;
    }
    proof {
        if common < from@.len() && common < target@.len() {
            assert(fv[common as int] == component_view(from@[common as int]));
            assert(tv[common as int] == component_view(target@[common as int]));
        }
        assert(common_len_from(fv, tv, common as nat) == common);
    }
    let rooted = match (&from[0], &target[0]) {
        (PathComponent::Prefix(a), PathComponent::Prefix(b)) => crate::text::str_eq(
            a.as_str(),
            b.as_str(),
        ),
        (PathComponent::RootDir, PathComponent::RootDir) => true,
        _ => false,
    };
    assert(fv[0] == component_view(from@[0]));
    assert(tv[0] == component_view(target@[0]));
    if !rooted {
        return None;
    }
    let mut ups: usize = 0;
    let mut k: usize = from.len();
    while k > common
        invariant
            fv == components_view(from@),
            common <= k <= from@.len(),
            fv.len() == from@.len(),
            ups as nat == up_steps(fv, k as int),
            ups <= from@.len() - k,
        decreases k - common,
    {
        k = k - 1;
        assert(fv[k as int] == component_view(from@[k as int]));
        assert(ups < from.len());
        match &from[k] {
            PathComponent::Prefix(_) | PathComponent::RootDir => {},
            _ => {
                ups = ups + 1;
            },
        }
    }
    Some(RelativeSteps { ups, common })
}

/// A file under the folder `from` (`from`'s components followed by more)
/// is reached without any `..`, by the components that follow.
pub proof fn lemma_relative_path_below(from: Seq<(nat, Seq<char>)>, rest: Seq<(nat, Seq<char>)>)
    requires
        from.len() > 0,
        from[0].0 <= 1,
    ensures
        relative_steps(from, from + rest) == Some((0nat, from.len())),
{
    let target = from + rest;
    assert(same_root(from, target)) by {
        assert(target[0] == from[0]);
    }
    assert forall|j: int| 0 <= j < from.len() implies from[j] == target[j] by {}
    lemma_common_full(from, target, 0);
    lemma_up_steps_past_end(from, from.len() as int);
}

/// When `a` is a prefix of `b`, their common prefix is all of `a`.
proof fn lemma_common_full(a: Seq<(nat, Seq<char>)>, b: Seq<(nat, Seq<char>)>, k: nat)
    requires
        k <= a.len() <= b.len(),
        forall|j: int| 0 <= j < a.len() ==> a[j] == b[j],
    ensures
        common_len_from(a, b, k) == a.len(),
    decreases a.len() - k,
{
    if k < a.len() {
        lemma_common_full(a, b, k + 1);
    }
}

/// No steps leave an empty tail.
proof fn lemma_up_steps_past_end(cs: Seq<(nat, Seq<char>)>, from: int)
    requires
        from >= cs.len(),
    ensures
        up_steps(cs, from) == 0,
{
}

} // verus!
