//! AutoEQ presets: the index entries, which preset variants are tried and in
//! what order, the progress the user is shown, when cached downloads are
//! used, and how a preset file is found in the AutoEQ package archive.
use vstd::prelude::*;

use std::io::Read;

use crate::backend::HostPlatform;
use crate::error::AppError;
use crate::text::{
    chars_of, extend_str, is_ws, lower_chars, lower_seq, str_eq, string_of, trim, trim_chars,
    trim_end, trim_start,
};

verus! {

/// One headphone entry of the AutoEQ index: its name, its measurement
/// source, and two numbers the index carries.
#[derive(Debug, Clone)]
pub struct AutoEqIndexEntry {
    pub n: String,
    pub s: String,
    pub r: i32,
    pub i: u32,
}

/// Which kind of AutoEQ preset the user asks for.
#[derive(Debug, Clone, Copy, PartialEq, Eq, Structural)]
pub enum AutoEqPresetVariant {
    Auto,
    Parametric,
    Graphic,
}

/// A kind of preset file in the AutoEQ package.
#[derive(Debug, Clone, Copy, PartialEq, Eq, Structural)]
pub enum AutoEqPresetKind {
    Parametric,
    Graphic,
}

/// What an AutoEQ progress event is about.
#[derive(Debug, Clone, Copy, PartialEq, Eq, Structural)]
pub enum AutoEqProgressOperation {
    Index,
    Preset,
}

/// The step an AutoEQ operation has reached.
#[derive(Debug, Clone, Copy, PartialEq, Eq, Structural)]
pub enum AutoEqProgressPhase {
    Start,
    CheckCache,
    FetchIndex,
    FetchVersion,
    DownloadArchive,
    ExtractPreset,
    CacheHit,
    Done,
    Error,
}

/// Where the data of an AutoEQ operation came from.
#[derive(Debug, Clone, Copy, PartialEq, Eq, Structural)]
pub enum AutoEqProgressSource {
    Cache,
    Network,
    StaleCache,
}

/// A progress event of an AutoEQ operation, as the user interface receives
/// it.
#[derive(Debug, Clone)]
pub struct AutoEqProgressPayload {
    pub operation: AutoEqProgressOperation,
    pub phase: AutoEqProgressPhase,
    pub message: String,
    pub source: Option<AutoEqProgressSource>,
    pub preset_name: Option<String>,
    pub preset_source: Option<String>,
}

/// The package metadata of the AutoEQ archive: where the archive is and
/// which commit it was built from.
#[derive(Debug, Clone)]
pub struct AutoEqVersionEntry {
    pub package_url: String,
    pub commit: String,
}

/// Where a cached artifact (the archive) came from.
#[derive(Debug, Clone, Copy, PartialEq, Eq, Structural)]
pub enum CachedArtifactSource {
    Cache,
    Network,
    StaleCache,
}

impl CachedArtifactSource {
    /// The progress source this artifact source is reported as.
    pub fn progress_source(self) -> (r: AutoEqProgressSource)
        ensures
            r == (match self {
                CachedArtifactSource::Cache => AutoEqProgressSource::Cache,
                CachedArtifactSource::Network => AutoEqProgressSource::Network,
                CachedArtifactSource::StaleCache => AutoEqProgressSource::StaleCache,
            }),
    {
        match self {
            CachedArtifactSource::Cache => AutoEqProgressSource::Cache,
            CachedArtifactSource::Network => AutoEqProgressSource::Network,
            CachedArtifactSource::StaleCache => AutoEqProgressSource::StaleCache,
        }
    }
}

/// The kinds tried for a variant, in order: `Auto` prefers the parametric
/// preset on Linux and Windows and the graphic one elsewhere.
pub open spec fn kind_order(variant: AutoEqPresetVariant, platform: HostPlatform) -> Seq<AutoEqPresetKind> {
    match variant {
        AutoEqPresetVariant::Auto => if platform == HostPlatform::Linux || platform
            == HostPlatform::Windows {
            seq![AutoEqPresetKind::Parametric, AutoEqPresetKind::Graphic]
        } else {
            seq![AutoEqPresetKind::Graphic, AutoEqPresetKind::Parametric]
        },
        AutoEqPresetVariant::Parametric => seq![AutoEqPresetKind::Parametric],
        AutoEqPresetVariant::Graphic => seq![AutoEqPresetKind::Graphic],
    }
}

impl AutoEqPresetVariant {
    /// The kinds of preset file tried for this variant, in order.
    pub fn preferred_order(self, platform: HostPlatform) -> (r: Vec<AutoEqPresetKind>)
        ensures
            r@ == kind_order(self, platform),
    {
        let mut r: Vec<AutoEqPresetKind> = Vec::new();
        match self {
            AutoEqPresetVariant::Auto => {
                if platform == HostPlatform::Linux || platform == HostPlatform::Windows {
                    r.push(AutoEqPresetKind::Parametric);
                    r.push(AutoEqPresetKind::Graphic);
                } else {
                    r.push(AutoEqPresetKind::Graphic);
                    r.push(AutoEqPresetKind::Parametric);
                }
            },
            AutoEqPresetVariant::Parametric => r.push(AutoEqPresetKind::Parametric),
            AutoEqPresetVariant::Graphic => r.push(AutoEqPresetKind::Graphic),
        }
        assert(r@ =~= kind_order(self, platform));
        r
    }

    /// The variant's name as progress messages show it.
    pub fn label(self) -> (r: &'static str)
        ensures
            r@ == (match self {
                AutoEqPresetVariant::Auto => "Auto-selected"@,
                AutoEqPresetVariant::Parametric => "ParametricEQ"@,
                AutoEqPresetVariant::Graphic => "GraphicEQ"@,
            }),
    {
        match self {
            AutoEqPresetVariant::Auto => "Auto-selected",
            AutoEqPresetVariant::Parametric => "ParametricEQ",
            AutoEqPresetVariant::Graphic => "GraphicEQ",
        }
    }
}

/// The name of a preset kind.
pub open spec fn kind_label(kind: AutoEqPresetKind) -> Seq<char> {
    match kind {
        AutoEqPresetKind::Parametric => "ParametricEQ"@,
        AutoEqPresetKind::Graphic => "GraphicEQ"@,
    }
}

/// The message shown when a preset of `kind` is ready from `source`.
pub open spec fn ready_text(kind: AutoEqPresetKind, source: CachedArtifactSource) -> Seq<char> {
    kind_label(kind) + match source {
        CachedArtifactSource::Cache => " preset ready from cache."@,
        CachedArtifactSource::Network => " preset ready from downloaded package."@,
        CachedArtifactSource::StaleCache => " preset ready from stale cached package."@,
    }
}

impl AutoEqPresetKind {
    /// The folder of the extracted-preset cache for this kind.
    pub fn cache_key(self) -> (r: &'static str)
        ensures
            r@ == (match self {
                AutoEqPresetKind::Parametric => "parametric"@,
                AutoEqPresetKind::Graphic => "graphic"@,
            }),
    {
        match self {
            AutoEqPresetKind::Parametric => "parametric",
            AutoEqPresetKind::Graphic => "graphic",
        }
    }

    /// The kind's name.
    pub fn label(self) -> (r: &'static str)
        ensures
            r@ == kind_label(self),
    {
        match self {
            AutoEqPresetKind::Parametric => "ParametricEQ",
            AutoEqPresetKind::Graphic => "GraphicEQ",
        }
    }

    /// The message shown when a preset of this kind is ready from `source`.
    pub fn ready_message(self, source: CachedArtifactSource) -> (r: String)
        ensures
            r@ == ready_text(self, source),
    {
        let mut v: Vec<char> = Vec::new();
        extend_str(&mut v, self.label());
        match source {
            CachedArtifactSource::Cache => extend_str(&mut v, " preset ready from cache."),
            CachedArtifactSource::Network => extend_str(&mut v, " preset ready from downloaded package."),
            CachedArtifactSource::StaleCache => extend_str(
                &mut v,
                " preset ready from stale cached package.",
            ),
        }
        string_of(&v)
    }
}

/// The variant a request names, by its trimmed, ASCII-lower-cased text.
pub open spec fn variant_named(text: Seq<char>) -> Option<AutoEqPresetVariant> {
    let t = lower_seq(trim(text));
    if t == "auto"@ || t == "auto-target"@ || t == "auto_target"@ {
        Some(AutoEqPresetVariant::Auto)
    } else if t == "parametric"@ || t == "parametric-eq"@ || t == "parametriceq"@ || t == "filter"@
        || t == "filters"@ {
        Some(AutoEqPresetVariant::Parametric)
    } else if t == "graphic"@ || t == "graphic-eq"@ || t == "graphiceq"@ {
        Some(AutoEqPresetVariant::Graphic)
    } else {
        None
    }
}

/// Reads the variant a request names; an error names the unknown text
/// (trimmed and lower-cased).
pub fn parse_autoeq_variant(value: &str) -> (r: Result<AutoEqPresetVariant, AppError>)
    ensures
        match variant_named(value@) {
            Some(v) => r == Ok::<AutoEqPresetVariant, AppError>(v),
            None => r matches Err(AppError::Message(m)) && m@ == "Unknown AutoEQ preset variant '"@
                + lower_seq(trim(value@)) + "'. Expected auto, parametric, or graphic."@,
        },
{
    let v = chars_of(value);
    let t = trim_chars(&v);
    let l = lower_chars(&t);
    let s = string_of(&l);
    let x = s.as_str();
    if str_eq(x, "auto") || str_eq(x, "auto-target") || str_eq(x, "auto_target") {
        Ok(AutoEqPresetVariant::Auto)
    } else if str_eq(x, "parametric") || str_eq(x, "parametric-eq") || str_eq(x, "parametriceq")
        || str_eq(x, "filter") || str_eq(x, "filters") {
        Ok(AutoEqPresetVariant::Parametric)
    } else if str_eq(x, "graphic") || str_eq(x, "graphic-eq") || str_eq(x, "graphiceq") {
        Ok(AutoEqPresetVariant::Graphic)
    } else {
        let mut m: Vec<char> = Vec::new();
        extend_str(&mut m, "Unknown AutoEQ preset variant '");
        extend_str(&mut m, x);
        extend_str(&mut m, "'. Expected auto, parametric, or graphic.");
        Err(AppError::Message(string_of(&m)))
    }
}

/// The lower-case ASCII letters and `-` stay as they are when lowered.
proof fn lemma_lower_plain(t: Seq<char>)
    requires
        forall|i: int| 0 <= i < t.len() ==> (('a' <= #[trigger] t[i] && t[i] <= 'z') || t[i] == '-'),
    ensures
        lower_seq(t) == t,
{
    assert(lower_seq(t) =~= t);
}

/// Each variant's own name, and each kind's name, is accepted: a request
/// whose trimmed, lower-cased text is `auto`, `parametric` or `graphic`
/// (the names the error message lists), or one of their other spellings,
/// asks for that variant, in any case and with any surrounding whitespace;
/// and the variant named by a kind's name tries exactly that kind.
pub proof fn lemma_variant_names_accepted(text: Seq<char>, platform: HostPlatform)
    ensures
        lower_seq(trim(text)) == "auto"@ ==> variant_named(text) == Some(AutoEqPresetVariant::Auto),
        lower_seq(trim(text)) == "parametric"@ ==> variant_named(text) == Some(
            AutoEqPresetVariant::Parametric,
        ),
        lower_seq(trim(text)) == "graphic"@ ==> variant_named(text) == Some(
            AutoEqPresetVariant::Graphic,
        ),
        lower_seq(trim(text)) == "auto-target"@ || lower_seq(trim(text)) == "auto_target"@
            ==> variant_named(text) == Some(AutoEqPresetVariant::Auto),
        lower_seq(trim(text)) == "parametric-eq"@ || lower_seq(trim(text)) == "parametriceq"@
            || lower_seq(trim(text)) == "filter"@ || lower_seq(trim(text)) == "filters"@
            ==> variant_named(text) == Some(AutoEqPresetVariant::Parametric),
        lower_seq(trim(text)) == "graphic-eq"@ || lower_seq(trim(text)) == "graphiceq"@
            ==> variant_named(text) == Some(AutoEqPresetVariant::Graphic),
        variant_named("parametric"@) matches Some(v) && kind_order(v, platform) == seq![
            AutoEqPresetKind::Parametric,
        ],
        variant_named("graphic"@) matches Some(v) && kind_order(v, platform) == seq![
            AutoEqPresetKind::Graphic,
        ],
{
    reveal_strlit("auto");
    reveal_strlit("auto-target");
    reveal_strlit("auto_target");
    reveal_strlit("parametric");
    reveal_strlit("parametric-eq");
    reveal_strlit("parametriceq");
    reveal_strlit("filter");
    reveal_strlit("filters");
    reveal_strlit("graphic");
    reveal_strlit("graphic-eq");
    reveal_strlit("graphiceq");
    assert("auto"@.len() == 4 && "auto-target"@.len() == 11 && "auto_target"@.len() == 11);
    assert("parametric"@.len() == 10 && "parametric-eq"@.len() == 13 && "parametriceq"@.len() == 12);
    assert("filter"@.len() == 6 && "filters"@.len() == 7);
    assert("graphic"@.len() == 7 && "graphic-eq"@.len() == 10 && "graphiceq"@.len() == 9);
    assert("parametric"@[0] != "graphic-eq"@[0]);
    assert("graphic"@[0] != "filters"@[0]);
    assert("parametric"@ != "graphic-eq"@);
    assert("graphic"@ != "filters"@);
    let p = "parametric"@;
    let g = "graphic"@;
    assert(!is_ws(p[0]) && !is_ws(p.last()));
    assert(!is_ws(g[0]) && !is_ws(g.last()));
    assert(trim_start(p) == p);
    assert(trim_end(p) == p);
    assert(trim_start(g) == g);
    assert(trim_end(g) == g);
    lemma_lower_plain(p);
    lemma_lower_plain(g);
}

/// What looking up a preset of a variant does next.
#[derive(Debug, Clone, Copy, PartialEq, Eq, Structural)]
pub enum LookupStep {
    /// Read the extracted preset of this kind from the cache.
    UseCache(AutoEqPresetKind),
    /// The cache does not settle it: make sure the package archive is
    /// current and find out which kinds it holds.
    ConsultArchive,
    /// Extract the preset of this kind from the archive (and cache it).
    ExtractFromArchive(AutoEqPresetKind),
    /// No kind of the variant is available.
    Missing,
}

/// An optional list of flags, by its view.
pub open spec fn opt_flags(o: Option<Vec<bool>>) -> Option<Seq<bool>> {
    match o {
        Some(v) => Some(v@),
        None => None,
    }
}

/// The lookup from position `i` of the preference order: the first kind
/// that is available from either source wins, its cached file before the
/// archive; a kind that is not cached needs the archive to be consulted
/// before any less preferred kind is taken.
pub open spec fn lookup_from(
    order: Seq<AutoEqPresetKind>,
    cached: Seq<bool>,
    in_archive: Option<Seq<bool>>,
    i: int,
) -> LookupStep
    decreases order.len() - i,
{
    if i < 0 || i >= order.len() {
        LookupStep::Missing
    } else if cached[i] {
        LookupStep::UseCache(order[i])
    } else {
        match in_archive {
            None => LookupStep::ConsultArchive,
            Some(a) => if a[i] {
                LookupStep::ExtractFromArchive(order[i])
            } else {
                lookup_from(order, cached, in_archive, i + 1)
            },
        }
    }
}

/// What looking up a preset does next, given the kinds in preference order,
/// which of them have a usable extracted file in the cache, and (once the
/// archive was consulted) which of them the archive holds.
pub open spec fn lookup_step(
    order: Seq<AutoEqPresetKind>,
    cached: Seq<bool>,
    in_archive: Option<Seq<bool>>,
) -> LookupStep {
    lookup_from(order, cached, in_archive, 0)
}

/// Whether neither source has the kind at position `j`.
pub open spec fn unavailable(cached: Seq<bool>, in_archive: Seq<bool>, j: int) -> bool {
    !cached[j] && !in_archive[j]
}

proof fn lemma_lookup_from(
    order: Seq<AutoEqPresetKind>,
    cached: Seq<bool>,
    in_archive: Seq<bool>,
    i: int,
)
    requires
        0 <= i <= order.len(),
        cached.len() == order.len(),
        in_archive.len() == order.len(),
    ensures
        match lookup_from(order, cached, Some(in_archive), i) {
            LookupStep::UseCache(k) => exists|m: int|
                i <= m < order.len() && #[trigger] order[m] == k && cached[m] && forall|j: int|
                    i <= j < m ==> #[trigger] unavailable(cached, in_archive, j),
            LookupStep::ExtractFromArchive(k) => exists|m: int|
                i <= m < order.len() && #[trigger] order[m] == k && !cached[m] && in_archive[m]
                    && forall|j: int| i <= j < m ==> #[trigger] unavailable(cached, in_archive, j),
            LookupStep::ConsultArchive => false,
            LookupStep::Missing => forall|j: int|
                i <= j < order.len() ==> #[trigger] unavailable(cached, in_archive, j),
        },
    decreases order.len() - i,
{
    if i < order.len() && !cached[i] && !in_archive[i] {
        lemma_lookup_from(order, cached, in_archive, i + 1);
        let r = lookup_from(order, cached, Some(in_archive), i + 1);
        assert(unavailable(cached, in_archive, i));
        match r {
            LookupStep::UseCache(k) => {
                let m = choose|m: int|
                    i + 1 <= m < order.len() && #[trigger] order[m] == k && cached[m] && forall|j: int|
                        i + 1 <= j < m ==> #[trigger] unavailable(cached, in_archive, j);
                assert(order[m] == k);
                assert forall|j: int| i <= j < m implies #[trigger] unavailable(cached, in_archive, j) by {
                    if j > i {
                        assert(unavailable(cached, in_archive, j));
                    }
                }
            },
            LookupStep::ExtractFromArchive(k) => {
                let m = choose|m: int|
                    i + 1 <= m < order.len() && #[trigger] order[m] == k && !cached[m] && in_archive[m]
                        && forall|j: int| i + 1 <= j < m ==> #[trigger] unavailable(cached, in_archive, j);
                assert(order[m] == k);
                assert forall|j: int| i <= j < m implies #[trigger] unavailable(cached, in_archive, j) by {
                    if j > i {
                        assert(unavailable(cached, in_archive, j));
                    }
                }
            },
            _ => {},
        }
    } else if i < order.len() {
        assert(order[i] == order[i]);
    }
}

/// Once the archive was consulted, the lookup takes the most preferred kind
/// that either source has: its cached file when there is one, else the
/// archive's; a less preferred kind is taken only when every more
/// preferred one is in neither; and it finds nothing only when no kind is
/// available at all.
pub proof fn lemma_lookup_prefers_order(
    order: Seq<AutoEqPresetKind>,
    cached: Seq<bool>,
    in_archive: Seq<bool>,
)
    requires
        cached.len() == order.len(),
        in_archive.len() == order.len(),
    ensures
        match lookup_step(order, cached, Some(in_archive)) {
            LookupStep::UseCache(k) => exists|m: int|
                0 <= m < order.len() && #[trigger] order[m] == k && cached[m] && forall|j: int|
                    0 <= j < m ==> #[trigger] unavailable(cached, in_archive, j),
            LookupStep::ExtractFromArchive(k) => exists|m: int|
                0 <= m < order.len() && #[trigger] order[m] == k && !cached[m] && in_archive[m]
                    && forall|j: int| 0 <= j < m ==> #[trigger] unavailable(cached, in_archive, j),
            LookupStep::ConsultArchive => false,
            LookupStep::Missing => forall|j: int|
                0 <= j < order.len() ==> #[trigger] unavailable(cached, in_archive, j),
        },
{
    lemma_lookup_from(order, cached, in_archive, 0);
}

/// Before the archive is consulted, only the most preferred kind's cached
/// file is taken; otherwise the archive must be consulted.
pub proof fn lemma_lookup_before_archive(order: Seq<AutoEqPresetKind>, cached: Seq<bool>)
    requires
        cached.len() == order.len(),
        order.len() > 0,
    ensures
        lookup_step(order, cached, None) == (if cached[0] {
            LookupStep::UseCache(order[0])
        } else {
            LookupStep::ConsultArchive
        }),
{
}

/// Decides what looking up a preset does next.
pub fn next_lookup_step(
    order: &Vec<AutoEqPresetKind>,
    cache_usable: &Vec<bool>,
    in_archive: &Option<Vec<bool>>,
) -> (r: LookupStep)
    requires
        cache_usable@.len() == order@.len(),
        match in_archive {
            Some(a) => a@.len() == order@.len(),
            None => true,
        },
    ensures
        r == lookup_step(order@, cache_usable@, opt_flags(*in_archive)),
{
    let ghost o = order@;
    let ghost c = cache_usable@;
    let ghost a = opt_flags(*in_archive);
    let mut i: usize = 0;
    while i < order.len()
        invariant
            i <= order@.len(),
            o == order@,
            c == cache_usable@,
            a == opt_flags(*in_archive),
            c.len() == o.len(),
            match in_archive {
                Some(v) => v@.len() == o.len(),
                None => true,
            },
            lookup_from(o, c, a, i as int) == lookup_from(o, c, a, 0),
        decreases order.len() - i,
    {
        if cache_usable[i] {
            return LookupStep::UseCache(order[i]);
        }
        match in_archive {
            None => {
                return LookupStep::ConsultArchive;
            },
            Some(flags) => {
                if flags[i] {
                    return LookupStep::ExtractFromArchive(order[i]);
                }
            },
        }
        i = i + 1;
    }
    LookupStep::Missing
}

/// The error when no file of the requested variant was found.
pub open spec fn variant_missing_text(variant: AutoEqPresetVariant) -> Seq<char> {
    match variant {
        AutoEqPresetVariant::Auto => "No compatible AutoEQ preset variant was found. Tried ParametricEQ first, then GraphicEQ fallback."@,
        AutoEqPresetVariant::Parametric => "ParametricEQ preset not found for this AutoEQ entry."@,
        AutoEqPresetVariant::Graphic => "GraphicEQ preset not found for this AutoEQ entry."@,
    }
}

/// The error when no file of the requested variant was found.
pub fn variant_missing_message(variant: AutoEqPresetVariant) -> (r: String)
    ensures
        r@ == variant_missing_text(variant),
{
    match variant {
        AutoEqPresetVariant::Auto => "No compatible AutoEQ preset variant was found. Tried ParametricEQ first, then GraphicEQ fallback.".to_owned(),
        AutoEqPresetVariant::Parametric => "ParametricEQ preset not found for this AutoEQ entry.".to_owned(),
        AutoEqPresetVariant::Graphic => "GraphicEQ preset not found for this AutoEQ entry.".to_owned(),
    }
}

/// A progress event of the index operation.
pub fn index_progress(
    phase: AutoEqProgressPhase,
    message: &str,
    source: Option<AutoEqProgressSource>,
) -> (r: AutoEqProgressPayload)
    ensures
        r.operation == AutoEqProgressOperation::Index,
        r.phase == phase,
        r.message@ == message@,
        r.source == source,
        r.preset_name is None,
        r.preset_source is None,
{
    AutoEqProgressPayload {
        operation: AutoEqProgressOperation::Index,
        phase,
        message: message.to_owned(),
        source,
        preset_name: None,
        preset_source: None,
    }
}

/// A progress event of a preset operation for the entry `preset_name` /
/// `preset_source`.
pub fn preset_progress(
    preset_name: &str,
    preset_source: &str,
    phase: AutoEqProgressPhase,
    message: &str,
    source: Option<AutoEqProgressSource>,
) -> (r: AutoEqProgressPayload)
    ensures
        r.operation == AutoEqProgressOperation::Preset,
        r.phase == phase,
        r.message@ == message@,
        r.source == source,
        r.preset_name matches Some(n) && n@ == preset_name@,
        r.preset_source matches Some(s) && s@ == preset_source@,
{
    AutoEqProgressPayload {
        operation: AutoEqProgressOperation::Preset,
        phase,
        message: message.to_owned(),
        source,
        preset_name: Some(preset_name.to_owned()),
        preset_source: Some(preset_source.to_owned()),
    }
}

/// How long a cached index or package metadata counts as fresh: twelve
/// hours, in nanoseconds.
pub open spec fn cache_ttl_nanos() -> int {
    43_200_000_000_000
}

/// Whether a cached file is fresh, given its age in nanoseconds (`None`
/// when the age could not be determined).
pub fn is_cache_recent(age_nanos: Option<u128>) -> (r: bool)
    ensures
        r == (match age_nanos {
            Some(a) => a < cache_ttl_nanos(),
            None => false,
        }),
{
    match age_nanos {
        Some(a) => a < 43_200_000_000_000u128,
        None => false,
    }
}

/// Whether the cached index is used without fetching a new one: only when
/// no refresh was asked for and the cache exists and is fresh.
pub fn use_cached_index(force_refresh: bool, cache_exists: bool, cache_recent: bool) -> (r: bool)
    ensures
        r == (!force_refresh && cache_exists && cache_recent),
{
    !force_refresh && cache_exists && cache_recent
}

/// What happens when fetching fails: a stale cache is used when there is
/// one; otherwise the operation fails with this message.
pub fn fetch_failure(what: &str, error_text: &str, cache_exists: bool) -> (r: Option<AppError>)
    ensures
        cache_exists ==> r is None,
        !cache_exists ==> (r matches Some(AppError::Message(m)) && m@ == what@ + error_text@),
{
    if cache_exists {
        None
    } else {
        let mut v: Vec<char> = Vec::new();
        extend_str(&mut v, what);
        extend_str(&mut v, error_text);
        Some(AppError::Message(string_of(&v)))
    }
}

/// Whether an extracted preset in the cache can be used: it and the
/// archive exist, and it is not older than the archive. Modification times
/// are in nanoseconds since the epoch; `None` where one could not be read,
/// in which case the cached preset is used.
pub fn can_use_extracted_cache(
    extracted_exists: bool,
    archive_exists: bool,
    extracted_modified: Option<i128>,
    archive_modified: Option<i128>,
) -> (r: bool)
    ensures
        r == (extracted_exists && archive_exists && match (extracted_modified, archive_modified) {
            (Some(e), Some(a)) => e >= a,
            _ => true,
        }),
{
    if !extracted_exists || !archive_exists {
        return false;
    }
    match (extracted_modified, archive_modified) {
        (Some(e), Some(a)) => e >= a,
        _ => true,
    }
}

/// Whether the cached archive is used without looking at the package
/// metadata: the archive and the metadata exist and the metadata is fresh.
pub fn use_cached_archive(archive_exists: bool, version_exists: bool, version_recent: bool) -> (r: bool)
    ensures
        r == (archive_exists && version_exists && version_recent),
{
    archive_exists && version_exists && version_recent
}

/// The first entry of the package metadata, or an error when it has none.
pub fn first_version_entry(entries: Vec<AutoEqVersionEntry>) -> (r: Result<AutoEqVersionEntry, AppError>)
    ensures
        entries@.len() > 0 ==> r == Ok::<AutoEqVersionEntry, AppError>(entries@[0]),
        entries@.len() == 0 ==> (r matches Err(AppError::Message(m)) && m@
            == "AutoEQ package metadata was empty."@),
{
    let mut entries = entries;
    if entries.len() == 0 {
        Err(AppError::Message("AutoEQ package metadata was empty.".to_owned()))
    } else {
        Ok(entries.remove(0))
    }
}

/// Whether the archive must be downloaded: it is missing, there is no cached
/// metadata, or the remote metadata names another commit or package.
pub fn should_download_archive(
    archive_exists: bool,
    cached: &Option<AutoEqVersionEntry>,
    remote: &AutoEqVersionEntry,
) -> (r: bool)
    ensures
        r == (!archive_exists || match cached {
            Some(c) => c.commit@ != remote.commit@ || c.package_url@ != remote.package_url@,
            None => true,
        }),
{
    if !archive_exists {
        return true;
    }
    match cached {
        Some(c) => !str_eq(c.commit.as_str(), remote.commit.as_str()) || !str_eq(
            c.package_url.as_str(),
            remote.package_url.as_str(),
        ),
        None => true,
    }
}

/// The archive of the AutoEQ package, where the metadata names none.
pub open spec fn fallback_archive_url() -> Seq<char> {
    "https://raw.githubusercontent.com/timschneeb/AutoEqPackages/main/archive.tar.gz"@
}

/// The archive of the AutoEQ package, where the metadata names none.
pub fn archive_url_fallback() -> (r: String)
    ensures
        r@ == fallback_archive_url(),
{
    "https://raw.githubusercontent.com/timschneeb/AutoEqPackages/main/archive.tar.gz".to_owned()
}

/// Where the archive is downloaded from: the metadata's package address,
/// or the fallback when that is blank.
pub fn archive_url(remote: &AutoEqVersionEntry) -> (r: String)
    ensures
        r@ == (if trim(remote.package_url@).len() == 0 {
            fallback_archive_url()
        } else {
            remote.package_url@
        }),
{
    let v = chars_of(remote.package_url.as_str());
    let t = trim_chars(&v);
    if t.len() == 0 {
        archive_url_fallback()
    } else {
        remote.package_url.clone()
    }
}

/// Whether a failed download from `url` is tried again from `fallback_url`:
/// only when they differ.
pub fn retry_from_fallback(url: &str, fallback_url: &str) -> (r: bool)
    ensures
        r == (url@ != fallback_url@),
{
    !str_eq(url, fallback_url)
}

/// Where the archive came from, when it was just checked against the
/// metadata.
pub fn checked_archive_source(downloaded: bool) -> (r: CachedArtifactSource)
    ensures
        r == (if downloaded {
            CachedArtifactSource::Network
        } else {
            CachedArtifactSource::Cache
        }),
{
    if downloaded {
        CachedArtifactSource::Network
    } else {
        CachedArtifactSource::Cache
    }
}


// ---------------------------------------------------------------------------
// Finding a preset file in the package archive
// ---------------------------------------------------------------------------

/// `s` without its leading `./` prefixes.
pub open spec fn without_dot_slash(s: Seq<char>) -> Seq<char>
    decreases s.len(),
{
    if s.len() >= 2 && s[0] == '.' && s[1] == '/' {
        without_dot_slash(s.skip(2))
    } else {
        s
    }
}

/// An archive path as entries are compared: backslashes become slashes and
/// leading `./` prefixes go.
pub open spec fn archive_path(s: Seq<char>) -> Seq<char> {
    without_dot_slash(crate::text::replace_char(s, '\\', "/"@))
}

/// Normalises an archive path.
pub fn normalize_archive_path(path: &str) -> (r: String)
    ensures
        r@ == archive_path(path@),
{
    let v = chars_of(path);
    let slashed = crate::text::replace_char_exec(&v, '\\', "/");
    let ghost sv = slashed@;
    let mut k: usize = 0;
    assert(sv.skip(0) =~= sv);
    while slashed.len() - k >= 2 && slashed[k] == '.' && slashed[k + 1] == '/'
        invariant
            k <= slashed@.len(),
            sv == slashed@,
            without_dot_slash(sv.skip(k as int)) == without_dot_slash(sv),
        decreases slashed.len() - k,
    {
        assert(sv.skip(k as int).skip(2) =~= sv.skip(k + 2));
        k = k + 2;
    }
    let out = crate::text::slice_chars(&slashed, k, slashed.len());
    assert(out@ =~= sv.skip(k as int));
    string_of(&out)
}

/// Two archive paths joined as `Path::join` joins them with `/`: a second
/// part that starts at the root replaces the first, and a `/` goes between
/// them unless the first is empty or ends with one.
pub open spec fn archive_join(a: Seq<char>, b: Seq<char>) -> Seq<char> {
    if b.len() > 0 && b[0] == '/' {
        b
    } else if a.len() == 0 {
        b
    } else if a.last() == '/' {
        a + b
    } else {
        a + "/"@ + b
    }
}

/// Joins two archive paths.
fn archive_join_exec(a: &Vec<char>, b: &str) -> (r: Vec<char>)
    ensures
        r@ == archive_join(a@, b@),
{
    let bv = chars_of(b);
    if bv.len() > 0 && bv[0] == '/' {
        return bv;
    }
    if a.len() == 0 {
        return bv;
    }
    let mut out: Vec<char> = Vec::new();
    crate::text::extend_chars(&mut out, a);
    if a[a.len() - 1] != '/' {
        out.push('/');
        proof {
            reveal_strlit("/");
        }
        assert(out@ =~= a@ + "/"@);
    }
    crate::text::extend_chars(&mut out, &bv);
    out
}

/// The folder of an AutoEQ entry in the archive.
pub open spec fn entry_base(name: Seq<char>, source: Seq<char>) -> Seq<char> {
    archive_path(archive_join(name, source))
}

/// The folder of an AutoEQ entry under `export/` in the archive.
pub open spec fn export_base(name: Seq<char>, source: Seq<char>) -> Seq<char> {
    archive_path(archive_join(archive_join("export"@, name), source))
}

/// The file names a preset of `kind` may have, most likely first.
pub open spec fn kind_file_names(kind: AutoEqPresetKind) -> Seq<Seq<char>> {
    match kind {
        AutoEqPresetKind::Graphic => seq!["graphic.txt"@, "graphiceq.txt"@, "graphic_eq.txt"@, "GraphicEQ.txt"@],
        AutoEqPresetKind::Parametric => seq![
            "parametric.txt"@,
            "parametric_eq.txt"@,
            "parametriceq.txt"@,
            "ParametricEQ.txt"@,
            "filters.txt"@,
            "Filters.txt"@,
            "eqapo.txt"@,
            "equalizerapo.txt"@,
            "EqualizerAPO.txt"@,
        ],
    }
}

/// The archive paths a preset of `kind` of an entry may have exactly: for
/// each file name in turn, under the entry's folder and under `export/`.
pub open spec fn exact_candidates(name: Seq<char>, source: Seq<char>, kind: AutoEqPresetKind) -> Seq<Seq<char>> {
    let files = kind_file_names(kind);
    Seq::new(
        2 * files.len(),
        |i: int|
            if i % 2 == 0 {
                archive_path(archive_join(archive_join(name, source), files[i / 2]))
            } else {
                archive_path(
                    archive_join(archive_join(archive_join("export"@, name), source), files[i / 2]),
                )
            },
    )
}

/// The file names for a kind, as strings.
fn kind_file_names_exec(kind: AutoEqPresetKind) -> (r: Vec<&'static str>)
    ensures
        r@.map_values(|f: &str| f@) == kind_file_names(kind),
{
    let mut r: Vec<&'static str> = Vec::new();
    match kind {
        AutoEqPresetKind::Graphic => {
            r.push("graphic.txt");
            r.push("graphiceq.txt");
            r.push("graphic_eq.txt");
            r.push("GraphicEQ.txt");
        },
        AutoEqPresetKind::Parametric => {
            r.push("parametric.txt");
            r.push("parametric_eq.txt");
            r.push("parametriceq.txt");
            r.push("ParametricEQ.txt");
            r.push("filters.txt");
            r.push("Filters.txt");
            r.push("eqapo.txt");
            r.push("equalizerapo.txt");
            r.push("EqualizerAPO.txt");
        },
    }
    assert(r@.map_values(|f: &str| f@) =~= kind_file_names(kind));
    r
}

/// The archive paths a preset of `kind` of the entry `name` / `source` may
/// have exactly.
pub fn archive_exact_candidates(name: &str, source: &str, kind: AutoEqPresetKind) -> (r: Vec<String>)
    ensures
        r@.map_values(|c: String| c@) == exact_candidates(name@, source@, kind),
{
    let files = kind_file_names_exec(kind);
    let ghost fv = files@.map_values(|f: &str| f@);
    let ghost want = exact_candidates(name@, source@, kind);
    let nv = chars_of(name);
    let base = archive_join_exec(&nv, source);
    let export = chars_of("export");
    let e1 = archive_join_exec(&export, name);
    let export_dir = archive_join_exec(&e1, source);
    let mut out: Vec<String> = Vec::new();
    let mut i: usize = 0;
    while i < files.len()
        invariant
            i <= files@.len(),
            fv == files@.map_values(|f: &str| f@),
            fv == kind_file_names(kind),
            want == exact_candidates(name@, source@, kind),
            base@ == archive_join(name@, source@),
            export_dir@ == archive_join(archive_join("export"@, name@), source@),
            out@.len() == 2 * i,
            forall|k: int| 0 <= k < 2 * i ==> #[trigger] out@[k]@ == want[k],
        decreases files.len() - i,
    {
        let f = files[i];
        assert(f@ == fv[i as int]);
        let p1 = archive_join_exec(&base, f);
        let s1 = normalize_archive_path(string_of(&p1).as_str());
        let p2 = archive_join_exec(&export_dir, f);
        let s2 = normalize_archive_path(string_of(&p2).as_str());
        assert(s1@ == want[2 * i]);
        assert(s2@ == want[2 * i + 1]);
        out.push(s1);
        out.push(s2);
        i = i + 1;
    }
    assert(out@.map_values(|c: String| c@) =~= want);
    out
}

/// The part of a path after its last `/`.
pub open spec fn last_segment(s: Seq<char>) -> Seq<char>
    decreases s.len(),
{
    if s.len() == 0 {
        s
    } else if s.last() == '/' {
        Seq::empty()
    } else {
        last_segment(s.drop_last()).push(s.last())
    }
}

/// Whether a (lower-cased) file name looks like a preset of `kind`.
pub open spec fn names_kind(file_name: Seq<char>, kind: AutoEqPresetKind) -> bool {
    match kind {
        AutoEqPresetKind::Graphic => crate::text::contains(file_name, "graphic"@),
        AutoEqPresetKind::Parametric => crate::text::contains(file_name, "parametric"@)
            || crate::text::contains(file_name, "filter"@) || crate::text::contains(file_name, "eqapo"@)
            || crate::text::contains(file_name, "equalizerapo"@),
    }
}

/// Whether an archive path is a loose match for a preset of `kind`: a
/// `.txt` file (in any ASCII case) in the entry's folder or its `export/`
/// folder whose name mentions the kind.
pub open spec fn loose_match(path: Seq<char>, base: Seq<char>, export_base: Seq<char>, kind: AutoEqPresetKind) -> bool {
    &&& (crate::text::starts_with(path, base + "/"@) || crate::text::starts_with(path, export_base + "/"@))
    &&& crate::text::ends_with(lower_seq(path), ".txt"@)
    &&& names_kind(lower_seq(last_segment(path)), kind)
}

/// The part of `s` after its last `/`.
fn last_segment_exec(s: &Vec<char>) -> (r: Vec<char>)
    ensures
        r@ == last_segment(s@),
{
    let mut k: usize = s.len();
    let ghost sv = s@;
    assert(sv.take(k as int) =~= sv);
    while k > 0 && s[k - 1] != '/'
        invariant
            k <= s@.len(),
            sv == s@,
            last_segment(sv) == last_segment(sv.take(k as int)) + sv.subrange(k as int, sv.len() as int),
        decreases k,
    {
        assert(sv.take(k as int).drop_last() =~= sv.take(k - 1));
        assert(sv.take(k as int).last() == sv[k - 1]);
        assert(last_segment(sv.take(k as int)) == last_segment(sv.take(k - 1)).push(sv[k - 1]));
        assert(last_segment(sv.take(k - 1)).push(sv[k - 1]) + sv.subrange(k as int, sv.len() as int)
            =~= last_segment(sv.take(k - 1)) + sv.subrange(k - 1, sv.len() as int));
        k = k - 1;
    }
    if k > 0 {
        assert(sv.take(k as int).last() == '/');
        assert(last_segment(sv.take(k as int)) =~= Seq::<char>::empty());
    } else {
        assert(sv.take(0) =~= Seq::<char>::empty());
    }
    let out = crate::text::slice_chars(s, k, s.len());
    assert(out@ =~= last_segment(sv));
    out
}

/// Whether an archive path is a loose match for a preset of `kind` of the
/// entry whose folders are `base` and `export_base`.
pub fn archive_entry_matches_variant(
    normalized_path: &str,
    base: &str,
    export_base: &str,
    kind: AutoEqPresetKind,
) -> (r: bool)
    ensures
        r == loose_match(normalized_path@, base@, export_base@, kind),
{
    let pv = chars_of(normalized_path);
    let mut b: Vec<char> = Vec::new();
    extend_str(&mut b, base);
    extend_str(&mut b, "/");
    let mut e: Vec<char> = Vec::new();
    extend_str(&mut e, export_base);
    extend_str(&mut e, "/");
    let in_dir = crate::text::starts_with_exec(&pv, &b) || crate::text::starts_with_exec(&pv, &e);
    if !in_dir {
        return false;
    }
    let lowered = lower_chars(&pv);
    if !crate::text::ends_with_str(&lowered, ".txt") {
        return false;
    }
    let seg = last_segment_exec(&pv);
    let f = lower_chars(&seg);
    match kind {
        AutoEqPresetKind::Graphic => crate::text::contains_str(&f, "graphic"),
        AutoEqPresetKind::Parametric => crate::text::contains_str(&f, "parametric")
            || crate::text::contains_str(&f, "filter") || crate::text::contains_str(&f, "eqapo")
            || crate::text::contains_str(&f, "equalizerapo"),
    }
}

/// The entries of a gzip-compressed tar archive, in order, as
/// `tar::Archive` over `flate2::read::GzDecoder` reads them: each entry's
/// path (lossily as text) with its content read as text (or the error of
/// that read), and an error in place of an entry that could not be read.
pub uninterp spec fn tar_gz_listing(archive: Seq<u8>) -> Seq<Result<(Seq<char>, Result<Seq<char>, Seq<char>>), Seq<char>>>;

/// The view of a listed archive item.
pub open spec fn item_view(item: Result<(String, Result<String, String>), String>) -> Result<
    (Seq<char>, Result<Seq<char>, Seq<char>>),
    Seq<char>,
> {
    match item {
        Ok((path, Ok(text))) => Ok((path@, Ok(text@))),
        Ok((path, Err(e))) => Ok((path@, Err(e@))),
        Err(e) => Err(e@),
    }
}

/// The views of listed archive items.
pub open spec fn items_view(items: Seq<Result<(String, Result<String, String>), String>>) -> Seq<
    Result<(Seq<char>, Result<Seq<char>, Seq<char>>), Seq<char>>,
> {
    items.map_values(|i: Result<(String, Result<String, String>), String>| item_view(i))
}

/// Lists a gzip-compressed tar archive with `tar::Archive::entries` over
/// `flate2::read::GzDecoder`, reading each entry's path and content. The
/// contract names the listing; the entries iterator of `tar` stops after
/// its first error, so the listing does too, except that an entry whose
/// path cannot be read is listed as an error and the listing goes on.
#[verifier::external_body]
fn tar_gz_items(archive: &[u8]) -> (r: Vec<Result<(String, Result<String, String>), String>>)
    ensures
        items_view(r@) == tar_gz_listing(archive@),
{
    let mut tar = tar::Archive::new(flate2::read::GzDecoder::new(archive));
    match tar.entries() {
        Err(e) => vec![Err(e.to_string())],
        Ok(entries) => entries.map(|entry| entry.and_then(|mut e| {
            let path = e.path()?.to_string_lossy().into_owned();
            let mut text = String::new();
            Ok((path, e.read_to_string(&mut text).map(|_| text).map_err(|x| x.to_string())))
        }).map_err(|e| e.to_string())).collect(),
    }
}

/// How looking for a preset in an archive ends.
pub ghost enum ArchivePick {
    /// The preset's content.
    Found(Seq<char>),
    /// Reading the archive failed with this text.
    Failed(Seq<char>),
    /// No file matched.
    Missing,
}

/// Looks through archive items in order: the first whose path is one of
/// the exact candidates gives the preset at once; otherwise the first loose
/// match is kept and given at the end. A read error on the way ends the
/// search.
pub open spec fn pick_from(
    items: Seq<Result<(Seq<char>, Result<Seq<char>, Seq<char>>), Seq<char>>>,
    exact: Seq<Seq<char>>,
    base: Seq<char>,
    export: Seq<char>,
    kind: AutoEqPresetKind,
    loose: Option<Seq<char>>,
) -> ArchivePick
    decreases items.len(),
{
    if items.len() == 0 {
        match loose {
            Some(c) => ArchivePick::Found(c),
            None => ArchivePick::Missing,
        }
    } else {
        match items[0] {
            Err(e) => ArchivePick::Failed(e),
            Ok((path, content)) => {
                let p = archive_path(path);
                if exact.contains(p) {
                    match content {
                        Ok(c) => ArchivePick::Found(c),
                        Err(e) => ArchivePick::Failed(e),
                    }
                } else if loose is None && loose_match(p, base, export, kind) {
                    match content {
                        Ok(c) => pick_from(items.drop_first(), exact, base, export, kind, Some(c)),
                        Err(e) => ArchivePick::Failed(e),
                    }
                } else {
                    pick_from(items.drop_first(), exact, base, export, kind, loose)
                }
            },
        }
    }
}

/// The preset of `kind` for the entry `name` / `source` among archive items.
pub open spec fn archive_pick(
    items: Seq<Result<(Seq<char>, Result<Seq<char>, Seq<char>>), Seq<char>>>,
    name: Seq<char>,
    source: Seq<char>,
    kind: AutoEqPresetKind,
) -> ArchivePick {
    pick_from(
        items,
        exact_candidates(name, source, kind),
        entry_base(name, source),
        export_base(name, source),
        kind,
        None,
    )
}

/// Whether every archive item was listed and read.
pub open spec fn all_read(items: Seq<Result<(Seq<char>, Result<Seq<char>, Seq<char>>), Seq<char>>>) -> bool {
    forall|i: int| 0 <= i < items.len() ==> (#[trigger] items[i]) matches Ok((_, Ok(_)))
}

/// The path of a listed item.
pub open spec fn item_path(item: Result<(Seq<char>, Result<Seq<char>, Seq<char>>), Seq<char>>) -> Seq<char> {
    archive_path(item->Ok_0.0)
}

/// The text of a read item.
pub open spec fn item_text(item: Result<(Seq<char>, Result<Seq<char>, Seq<char>>), Seq<char>>) -> Seq<char> {
    item->Ok_0.1->Ok_0
}

proof fn lemma_pick_from_order(
    items: Seq<Result<(Seq<char>, Result<Seq<char>, Seq<char>>), Seq<char>>>,
    exact: Seq<Seq<char>>,
    base: Seq<char>,
    export: Seq<char>,
    kind: AutoEqPresetKind,
    loose: Option<Seq<char>>,
)
    requires
        all_read(items),
    ensures
        forall|m: int|
            0 <= m < items.len() && exact.contains(#[trigger] item_path(items[m])) && (forall|j: int|
                0 <= j < m ==> !exact.contains(item_path(items[j]))) ==> pick_from(
                items,
                exact,
                base,
                export,
                kind,
                loose,
            ) == ArchivePick::Found(item_text(items[m])),
        (forall|j: int| 0 <= j < items.len() ==> !exact.contains(item_path(#[trigger] items[j])))
            ==> match loose {
            Some(c) => pick_from(items, exact, base, export, kind, loose) == ArchivePick::Found(c),
            None => (forall|m: int|
                0 <= m < items.len() && loose_match(#[trigger] item_path(items[m]), base, export, kind)
                    && (forall|j: int| 0 <= j < m ==> !loose_match(item_path(items[j]), base, export, kind))
                    ==> pick_from(items, exact, base, export, kind, loose) == ArchivePick::Found(
                    item_text(items[m]),
                )) && ((forall|j: int|
                0 <= j < items.len() ==> !loose_match(item_path(#[trigger] items[j]), base, export, kind))
                ==> pick_from(items, exact, base, export, kind, loose) == ArchivePick::Missing),
        },
    decreases items.len(),
{
    if items.len() > 0 {
        let rest = items.drop_first();
        assert(items[0] matches Ok((_, Ok(_))));
        assert(all_read(rest)) by {
            assert forall|i: int| 0 <= i < rest.len() implies (#[trigger] rest[i]) matches Ok((_, Ok(_))) by {
                assert(rest[i] == items[i + 1]);
            }
        }
        let p0 = item_path(items[0]);
        let next = if !exact.contains(p0) && loose is None && loose_match(p0, base, export, kind) {
            Some(item_text(items[0]))
        } else {
            loose
        };
        lemma_pick_from_order(rest, exact, base, export, kind, next);
        assert forall|m: int|
            0 <= m < items.len() && exact.contains(#[trigger] item_path(items[m])) && (forall|j: int|
                0 <= j < m ==> !exact.contains(item_path(items[j]))) implies pick_from(
            items,
            exact,
            base,
            export,
            kind,
            loose,
        ) == ArchivePick::Found(item_text(items[m])) by {
            if m > 0 {
                assert(!exact.contains(item_path(items[0])));
                assert(rest[m - 1] == items[m]);
                assert forall|j: int| 0 <= j < m - 1 implies !exact.contains(item_path(rest[j])) by {
                    assert(rest[j] == items[j + 1]);
                }
            }
        }
        if forall|j: int| 0 <= j < items.len() ==> !exact.contains(item_path(#[trigger] items[j])) {
            assert(!exact.contains(p0));
            assert forall|j: int| 0 <= j < rest.len() implies !exact.contains(item_path(#[trigger] rest[j])) by {
                assert(rest[j] == items[j + 1]);
            }
            if loose is None {
                assert forall|m: int|
                    0 <= m < items.len() && loose_match(#[trigger] item_path(items[m]), base, export, kind)
                        && (forall|j: int| 0 <= j < m ==> !loose_match(item_path(items[j]), base, export, kind))
                    implies pick_from(items, exact, base, export, kind, loose) == ArchivePick::Found(
                    item_text(items[m]),
                ) by {
                    if m > 0 {
                        assert(!loose_match(p0, base, export, kind));
                        assert(rest[m - 1] == items[m]);
                        assert forall|j: int| 0 <= j < m - 1 implies !loose_match(
                            item_path(rest[j]),
                            base,
                            export,
                            kind,
                        ) by {
                            assert(rest[j] == items[j + 1]);
                        }
                    }
                }
                if forall|j: int|
                    0 <= j < items.len() ==> !loose_match(item_path(#[trigger] items[j]), base, export, kind) {
                    assert(!loose_match(p0, base, export, kind));
                    assert forall|j: int| 0 <= j < rest.len() implies !loose_match(
                        item_path(#[trigger] rest[j]),
                        base,
                        export,
                        kind,
                    ) by {
                        assert(rest[j] == items[j + 1]);
                    }
                }
            }
        }
    }
}

/// Finding a preset in a fully readable archive: the first file at one of
/// the exact paths for the entry and kind wins, wherever other matching
/// files stand; without one, the first file in the entry's folder whose
/// name names the kind is taken; without that, nothing is found.
pub proof fn lemma_archive_pick_order(
    items: Seq<Result<(Seq<char>, Result<Seq<char>, Seq<char>>), Seq<char>>>,
    name: Seq<char>,
    source: Seq<char>,
    kind: AutoEqPresetKind,
)
    requires
        all_read(items),
    ensures
        ({
            let exact = exact_candidates(name, source, kind);
            let base = entry_base(name, source);
            let export = export_base(name, source);
            let pick = archive_pick(items, name, source, kind);
            &&& forall|m: int|
                0 <= m < items.len() && exact.contains(#[trigger] item_path(items[m])) && (forall|j: int|
                    0 <= j < m ==> !exact.contains(item_path(items[j]))) ==> pick == ArchivePick::Found(
                    item_text(items[m]),
                )
            &&& (forall|j: int| 0 <= j < items.len() ==> !exact.contains(item_path(#[trigger] items[j])))
                ==> (forall|m: int|
                0 <= m < items.len() && loose_match(#[trigger] item_path(items[m]), base, export, kind)
                    && (forall|j: int| 0 <= j < m ==> !loose_match(item_path(items[j]), base, export, kind))
                    ==> pick == ArchivePick::Found(item_text(items[m])))
            &&& (forall|j: int|
                0 <= j < items.len() ==> !exact.contains(item_path(#[trigger] items[j])) && !loose_match(
                    item_path(items[j]),
                    base,
                    export,
                    kind,
                )) ==> pick == ArchivePick::Missing
        }),
{
    lemma_pick_from_order(
        items,
        exact_candidates(name, source, kind),
        entry_base(name, source),
        export_base(name, source),
        kind,
        None,
    );
}

/// Whether a result is what a pick gives: the content, an I/O error with
/// the read's text, or the message that no file was found.
pub open spec fn pick_result(r: Result<String, AppError>, pick: ArchivePick, kind: AutoEqPresetKind) -> bool {
    match pick {
        ArchivePick::Found(c) => r matches Ok(s) && s@ == c,
        ArchivePick::Failed(e) => r matches Err(AppError::Io(m)) && m@ == e,
        ArchivePick::Missing => r matches Err(AppError::Message(m)) && m@ == kind_label(kind)
            + " preset file was not found in AutoEQ package."@,
    }
}

/// Whether `s` is among `cands`.
fn among(cands: &Vec<String>, s: &str) -> (r: bool)
    ensures
        r == cands@.map_values(|c: String| c@).contains(s@),
{
    let ghost cv = cands@.map_values(|c: String| c@);
    let mut i: usize = 0;
    while i < cands.len()
        invariant
            i <= cands@.len(),
            cv == cands@.map_values(|c: String| c@),
            forall|k: int| 0 <= k < i ==> cv[k] != s@,
        decreases cands.len() - i,
    {
        assert(cv[i as int] == cands@[i as int]@);
        if str_eq(cands[i].as_str(), s) {
            assert(cv.contains(s@) == true) by {
                assert(cv[i as int] == s@);
            }
            return true;
        }
        i = i + 1;
    }
    false
}

/// Finds the preset of `kind` for the entry `name` / `source` among the
/// items listed from the archive.
pub fn select_archive_preset(
    items: &Vec<Result<(String, Result<String, String>), String>>,
    name: &str,
    source: &str,
    kind: AutoEqPresetKind,
) -> (r: Result<String, AppError>)
    ensures
        pick_result(r, archive_pick(items_view(items@), name@, source@, kind), kind),
{
    let ghost iv = items_view(items@);
    let exact = archive_exact_candidates(name, source, kind);
    let ghost ev = exact@.map_values(|c: String| c@);
    let nv = chars_of(name);
    let b0 = archive_join_exec(&nv, source);
    let base = normalize_archive_path(string_of(&b0).as_str());
    let export = chars_of("export");
    let e1 = archive_join_exec(&export, name);
    let e2 = archive_join_exec(&e1, source);
    let export_dir = normalize_archive_path(string_of(&e2).as_str());
    let mut loose: Option<String> = None;
    let mut i: usize = 0;
    assert(iv.skip(0) =~= iv);
    while i < items.len()
        invariant
            i <= items@.len(),
            iv == items_view(items@),
            ev == exact@.map_values(|c: String| c@),
            ev == exact_candidates(name@, source@, kind),
            base@ == entry_base(name@, source@),
            export_dir@ == export_base(name@, source@),
            pick_from(iv.skip(i as int), ev, base@, export_dir@, kind, crate::model::opt_view(loose))
                == archive_pick(iv, name@, source@, kind),
        decreases items.len() - i,
    {
        let ghost rest = iv.skip(i as int);
        assert(rest[0] == item_view(items@[i as int]));
        assert(rest.drop_first() =~= iv.skip(i + 1));
        match &items[i] {
            Err(e) => {
                return Err(AppError::Io(e.clone()));
            },
            Ok((path, content)) => {
                let p = normalize_archive_path(path.as_str());
                if among(&exact, p.as_str()) {
                    return match content {
                        Ok(c) => Ok(c.clone()),
                        Err(e) => Err(AppError::Io(e.clone())),
                    };
                }
                if loose.is_none() && archive_entry_matches_variant(
                    p.as_str(),
                    base.as_str(),
                    export_dir.as_str(),
                    kind,
                ) {
                    match content {
                        Ok(c) => {
                            loose = Some(c.clone());
                        },
                        Err(e) => {
                            return Err(AppError::Io(e.clone()));
                        },
                    }
                }
            },
        }
        i = i + 1;
    }
    match loose {
        Some(c) => Ok(c),
        None => {
            let mut m: Vec<char> = Vec::new();
            extend_str(&mut m, kind.label());
            extend_str(&mut m, " preset file was not found in AutoEQ package.");
            Err(AppError::Message(string_of(&m)))
        },
    }
}

/// Finds the preset of `kind` for the entry `name` / `source` in a
/// gzip-compressed tar archive.
pub fn extract_preset_from_archive(
    archive: &[u8],
    name: &str,
    source: &str,
    kind: AutoEqPresetKind,
) -> (r: Result<String, AppError>)
    ensures
        pick_result(r, archive_pick(tar_gz_listing(archive@), name@, source@, kind), kind),
{
    let items = tar_gz_items(archive);
    select_archive_preset(&items, name, source, kind)
}

/// The name of the cache file of an extracted preset, from the URL-safe
/// base64 of the entry's name and source on two lines.
pub fn extracted_preset_cache_file_name(name: &str, source: &str) -> (r: String)
    requires
        4 * (name@.len() + source@.len() + 1) <= isize::MAX,
    ensures
        r@ == crate::encoding::url_safe_unpadded_encoding(name@ + "\n"@ + source@) + ".txt"@,
{
    let mut v: Vec<char> = Vec::new();
    extend_str(&mut v, name);
    extend_str(&mut v, "\n");
    extend_str(&mut v, source);
    let key_text = string_of(&v);
    proof {
        reveal_strlit("\n");
        crate::encoding::lemma_utf8_len_bound(key_text@);
        assert(key_text@.len() == name@.len() + 1 + source@.len());
    }
    let key = crate::encoding::base64_url_safe_unpadded_encode(key_text.as_str());
    let mut out: Vec<char> = Vec::new();
    extend_str(&mut out, key.as_str());
    extend_str(&mut out, ".txt");
    string_of(&out)
}

} // verus!
