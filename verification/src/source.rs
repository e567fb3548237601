//! Turning decoded radar payloads into ranked snapshots.
//!
//! The JSON documents of both feeds are decoded by the caller into the plain
//! structures of this module (floating-point statistics stay with the caller and are
//! found again through [`RankedModel::origin`] and the cell indices).  This module
//! validates the payload, normalises every candidate, keeps one candidate per
//! identity, ranks them and names the leaders.
use vstd::prelude::*;
use vstd::multiset::Multiset;
use crate::domain::{parse_rfc3339, rfc3339_timestamp, Attribution, RadarSource, Timestamp};
use crate::text::{
    capitalize_ascii, capitalized, chars_of, eq_ignore_ascii_case, eq_ignore_ascii_case_spec,
    lemma_text_lt_asymmetric, lemma_text_lt_total,
    lemma_text_lt_transitive, non_empty, non_empty_text, owned, push_char, push_text, text_eq,
    text_less, text_lt, text_of,
};

verus! {

pub const PUBLIC_SUMMARY_URL: &'static str = "https://codex-reset-radar.pages.dev/current.json";

pub const ATTRIBUTION_URL: &'static str = "https://codexradar.com";

pub const DISTRIBUTED_TABLE_URL: &'static str = "https://api.codexradar.com/api/v1/table";

pub const DISTRIBUTED_ATTRIBUTION_URL: &'static str = "https://deng.codexradar.com";

pub const SUPPORTED_SCHEMA_VERSION: &'static str = "2.0";

pub const PUBLIC_SUMMARY_TYPE: &'static str = "public_summary";

pub const DEFAULT_ATTRIBUTION_TEXT: &'static str = "数据来自 Codex 雷达 codexradar.com";

pub const DISTRIBUTED_SCHEMA_VERSION: u64 = 1;

pub const DISTRIBUTED_ATTRIBUTION_TEXT: &'static str = "数据来自分布式 Codex 雷达 deng.codexradar.com";

/// Why a payload could not become a snapshot.
#[derive(Debug, Clone, PartialEq, Eq)]
pub enum SourceError {
    /// The bytes were not the expected JSON document; the decoder's message.
    Json(String),
    SchemaVersion { found: Option<String> },
    PayloadType { found: Option<String> },
    Timestamp { value: Option<String> },
    NoCandidates,
}

/// The stable kind string reported for each error.
pub open spec fn source_error_kind(e: SourceError) -> Seq<char> {
    match e {
        SourceError::Json(_) => "json"@,
        SourceError::SchemaVersion { .. } => "schema"@,
        SourceError::PayloadType { .. } => "type"@,
        SourceError::Timestamp { .. } => "timestamp"@,
        SourceError::NoCandidates => "no_candidates"@,
    }
}

impl SourceError {
    /// The stable kind string of this error.
    pub fn kind(&self) -> (r: &'static str)
        ensures
            r@ == source_error_kind(*self),
    {
        match self {
            SourceError::Json(_) => "json",
            SourceError::SchemaVersion { .. } => "schema",
            SourceError::PayloadType { .. } => "type",
            SourceError::Timestamp { .. } => "timestamp",
            SourceError::NoCandidates => "no_candidates",
        }
    }
}

/// What `format!("{:?}", text)` writes for a string: the text quoted, with
/// Rust's escapes.
pub uninterp spec fn debug_quoted_text(text: Seq<char>) -> Seq<char>;

/// The `Debug` form of a string.
///
/// Trusted: calls std's `Debug` formatting of `str` (`format!("{:?}", text)`); the
/// contract claims only that the result depends on the text alone (it is named
/// [`debug_quoted_text`]).
#[verifier::external_body]
fn debug_quoted(text: &str) -> (r: String)
    ensures
        r@ == debug_quoted_text(text@),
{
    format!("{:?}", text)
}

/// The `Debug` form of an optional string: `None`, or `Some(` the quoted text `)`.
pub open spec fn option_debug_text(value: Option<Seq<char>>) -> Seq<char> {
    match value {
        Some(t) => "Some("@ + debug_quoted_text(t) + ")"@,
        None => "None"@,
    }
}

fn option_debug(value: &Option<String>) -> (r: String)
    ensures
        r@ == option_debug_text(text_of(*value)),
{
    match value {
        Some(t) => {
            let mut out = owned("Some(");
            let quoted = debug_quoted(t.as_str());
            push_text(&mut out, quoted.as_str());
            push_text(&mut out, ")");
            out
        },
        None => owned("None"),
    }
}

/// The message reported for each error.
pub open spec fn source_error_message(e: SourceError) -> Seq<char> {
    match e {
        SourceError::Json(m) => "invalid public-summary JSON: "@ + m@,
        SourceError::SchemaVersion { found } => "unsupported or missing schema version: "@
            + option_debug_text(text_of(found)),
        SourceError::PayloadType { found } => "unexpected or missing payload type: "@
            + option_debug_text(text_of(found)),
        SourceError::Timestamp { value } => "source contains no valid update timestamp: "@
            + option_debug_text(text_of(value)),
        SourceError::NoCandidates => "source contains no candidates with a finite score and identity"@,
    }
}

impl SourceError {
    /// The message reported for this error.
    pub fn message(&self) -> (r: String)
        ensures
            r@ == source_error_message(*self),
    {
        match self {
            SourceError::Json(m) => {
                let mut out = owned("invalid public-summary JSON: ");
                push_text(&mut out, m.as_str());
                out
            },
            SourceError::SchemaVersion { found } => {
                let mut out = owned("unsupported or missing schema version: ");
                let tail = option_debug(found);
                push_text(&mut out, tail.as_str());
                out
            },
            SourceError::PayloadType { found } => {
                let mut out = owned("unexpected or missing payload type: ");
                let tail = option_debug(found);
                push_text(&mut out, tail.as_str());
                out
            },
            SourceError::Timestamp { value } => {
                let mut out = owned("source contains no valid update timestamp: ");
                let tail = option_debug(value);
                push_text(&mut out, tail.as_str());
                out
            },
            SourceError::NoCandidates => owned(
                "source contains no candidates with a finite score and identity",
            ),
        }
    }
}

// ---------------------------------------------------------------------------
// Decoded payloads
// ---------------------------------------------------------------------------
/// One reported score of the main feed.
#[derive(Debug, Clone, Default, PartialEq, Eq)]
pub struct RemoteScore {
    pub label: Option<String>,
    pub model: Option<String>,
    pub reasoning_effort: Option<String>,
    /// The score's position in the total order of `f64` (`f64::total_cmp`), present
    /// only when the payload carries a finite score.  Apart from `+0.0` (key `0`)
    /// and `-0.0` (key `-1`), equal keys mean equal scores.
    pub score_key: Option<i64>,
    pub status: Option<String>,
    pub passed: Option<u64>,
    pub tasks: Option<u64>,
    pub valid_tasks: Option<u64>,
    pub average_task_time_human: Option<String>,
    pub wall_time_human: Option<String>,
}

/// A comparison entry of the main feed, with hints for its latest score.
#[derive(Debug, Clone, Default, PartialEq, Eq)]
pub struct Comparison {
    pub label: Option<String>,
    pub model: Option<String>,
    pub reasoning_effort: Option<String>,
    pub latest: Option<RemoteScore>,
}

/// The `model_iq` section of the main feed; `comparisons` in key order.
#[derive(Debug, Clone, Default, PartialEq, Eq)]
pub struct ModelIq {
    pub updated_at: Option<String>,
    pub latest: Option<RemoteScore>,
    pub comparisons: Vec<Comparison>,
}

#[derive(Debug, Clone, Default, PartialEq, Eq)]
pub struct AttributionRequirements {
    pub attribution_text: Option<String>,
}

#[derive(Debug, Clone, Default, PartialEq, Eq)]
pub struct ApiAccess {
    pub requirements: Option<AttributionRequirements>,
}

/// The main feed's public summary document.
#[derive(Debug, Clone, Default, PartialEq, Eq)]
pub struct PublicSummary {
    pub schema_version: Option<String>,
    pub payload_type: Option<String>,
    pub api_access: Option<ApiAccess>,
    pub model_iq: Option<ModelIq>,
}

// ---------------------------------------------------------------------------
// Ranked output
// ---------------------------------------------------------------------------
/// One ranked model of a snapshot.
#[derive(Debug, Clone, PartialEq, Eq)]
pub struct RankedModel {
    pub id: String,
    pub label: String,
    pub model: String,
    pub reasoning_effort: String,
    /// Ordering key of the score: for the main feed the `f64::total_cmp` key of
    /// the reported score, for the distributed feed the whole score itself.
    pub score_key: i64,
    /// Which input this model came from: `0` for `model_iq.latest` and `k + 1` for
    /// comparison `k` of the main feed; the combo index for the distributed feed.
    pub origin: usize,
    pub status: Option<String>,
    pub passed: Option<u64>,
    pub tasks: Option<u64>,
    pub valid_tasks: Option<u64>,
    pub average_task_time_human: Option<String>,
    pub wall_time_human: Option<String>,
    /// Distributed feed: the cells whose latest run's duration enters the average.
    pub duration_cells: Vec<usize>,
    /// Distributed feed: the cells whose latest run's cost enters the average.
    pub cost_cells: Vec<usize>,
}

/// The mathematical content of a [`RankedModel`].
#[verifier::ext_equal]
pub struct ModelEntry {
    pub id: Seq<char>,
    pub label: Seq<char>,
    pub model: Seq<char>,
    pub reasoning_effort: Seq<char>,
    pub score_key: i64,
    pub origin: nat,
    pub status: Option<Seq<char>>,
    pub passed: Option<u64>,
    pub tasks: Option<u64>,
    pub valid_tasks: Option<u64>,
    pub average_task_time_human: Option<Seq<char>>,
    pub wall_time_human: Option<Seq<char>>,
    pub duration_cells: Seq<usize>,
    pub cost_cells: Seq<usize>,
}

impl DeepView for RankedModel {
    type V = ModelEntry;

    open spec fn deep_view(&self) -> ModelEntry {
        ModelEntry {
            id: self.id@,
            label: self.label@,
            model: self.model@,
            reasoning_effort: self.reasoning_effort@,
            score_key: self.score_key,
            origin: self.origin as nat,
            status: text_of(self.status),
            passed: self.passed,
            tasks: self.tasks,
            valid_tasks: self.valid_tasks,
            average_task_time_human: text_of(self.average_task_time_human),
            wall_time_human: text_of(self.wall_time_human),
            duration_cells: self.duration_cells@,
            cost_cells: self.cost_cells@,
        }
    }
}

/// A validated, ranked snapshot of one feed.
#[derive(Debug, Clone, PartialEq, Eq)]
pub struct RankedSnapshot {
    pub source: RadarSource,
    pub schema_version: String,
    pub updated_at: Timestamp,
    pub checked_at: Timestamp,
    pub leader_ids: Vec<String>,
    pub rankings: Vec<RankedModel>,
    pub attribution: Attribution,
    pub source_url: String,
}

// ---------------------------------------------------------------------------
// Display names
// ---------------------------------------------------------------------------
/// `s.split('-')`: the pieces between dashes (always at least one).
pub open spec fn split_dash(s: Seq<char>) -> Seq<Seq<char>>
    decreases s.len(),
{
    if s.len() == 0 {
        seq![Seq::empty()]
    } else {
        let p = split_dash(s.drop_last());
        if s.last() == '-' {
            p.push(Seq::empty())
        } else {
            p.update(p.len() - 1, p.last().push(s.last()))
        }
    }
}

proof fn lemma_split_dash_nonempty(s: Seq<char>)
    ensures
        split_dash(s).len() >= 1,
    decreases s.len(),
{
    if s.len() > 0 {
        lemma_split_dash_nonempty(s.drop_last());
    }
}

/// The display form of the first dash-separated piece of a model name.
pub open spec fn model_head(first: Seq<char>) -> Seq<char> {
    if eq_ignore_ascii_case_spec(first, "gpt"@) {
        "GPT"@
    } else {
        capitalized(first)
    }
}

/// The display form built from the first `k` pieces.
pub open spec fn display_pieces(parts: Seq<Seq<char>>, k: int) -> Seq<char>
    decreases k,
{
    if k <= 1 {
        model_head(parts[0])
    } else {
        let d = display_pieces(parts, k - 1);
        if k == 2 && d == "GPT"@ {
            d + seq!['-'] + parts[1]
        } else {
            d + seq![' '] + capitalized(parts[k - 1])
        }
    }
}

/// How a model identifier is shown when the feed gives no label: `gpt-5.6-sol`
/// becomes `GPT-5.6 Sol`.
pub open spec fn display_model_text(model: Seq<char>) -> Seq<char> {
    display_pieces(split_dash(model), split_dash(model).len() as int)
}

/// The label used when the feed gives none.
pub open spec fn fallback_label_text(model: Seq<char>, effort: Seq<char>) -> Seq<char> {
    display_model_text(model) + seq![' '] + effort
}

/// The views of a sequence of character vectors.
pub open spec fn views_of(v: Seq<Vec<char>>) -> Seq<Seq<char>> {
    Seq::new(v.len(), |i: int| v[i]@)
}

fn split_on_dash(chars: &Vec<char>) -> (parts: Vec<Vec<char>>)
    ensures
        views_of(parts@) == split_dash(chars@),
        parts@.len() >= 1,
{
    let mut parts: Vec<Vec<char>> = Vec::new();
    let mut current: Vec<char> = Vec::new();
    let mut i: usize = 0;
    while i < chars.len()
        invariant
            i <= chars.len(),
            views_of(parts@).push(current@) == split_dash(chars@.take(i as int)),
        decreases chars.len() - i,
    {
        let c = chars[i];
        assert(chars@.take(i + 1).drop_last() == chars@.take(i as int));
        let ghost before = views_of(parts@).push(current@);
        let ghost old_parts = parts@;
        if c == '-' {
            let done = current;
            parts.push(done);
            current = Vec::new();
            assert(views_of(parts@) =~= views_of(old_parts).push(done@));
            assert(views_of(parts@).push(current@) =~= before.push(Seq::empty()));
        } else {
            current.push(c);
            assert(views_of(parts@).push(current@) =~= before.update(
                before.len() - 1,
                before.last().push(c),
            ));
        }
        i = i + 1;
    }
    assert(chars@.take(chars.len() as int) == chars@);
    let ghost old_parts = parts@;
    let last = current;
    parts.push(last);
    assert(views_of(parts@) =~= views_of(old_parts).push(last@));
    parts
}

/// The display form of a model identifier.
pub fn display_model(model: &str) -> (out: String)
    ensures
        out@ == display_model_text(model@),
{
    let chars = chars_of(model);
    let parts = split_on_dash(&chars);
    let ghost pv = views_of(parts@);
    assert(parts[0]@ == pv[0]);
    let mut display = if eq_ignore_ascii_case(&parts[0], "gpt") {
        owned("GPT")
    } else {
        capitalize_ascii(&parts[0])
    };
    let mut k: usize = 1;
    while k < parts.len()
        invariant
            1 <= k <= parts.len(),
            pv == views_of(parts@),
            display@ == display_pieces(pv, k as int),
        decreases parts.len() - k,
    {
        assert(parts[k as int]@ == pv[k as int]);
        let ghost d0 = display@;
        assert(d0 == display_pieces(pv, k as int));
        if k == 1 && text_eq(display.as_str(), "GPT") {
            push_char(&mut display, '-');
            let piece = crate::text::string_from_chars(&parts[k]);
            push_text(&mut display, piece.as_str());
            assert(display@ =~= d0 + seq!['-'] + pv[k as int]);
        } else {
            push_char(&mut display, ' ');
            let piece = capitalize_ascii(&parts[k]);
            push_text(&mut display, piece.as_str());
            assert(display@ =~= d0 + seq![' '] + capitalized(pv[k as int]));
        }
        k = k + 1;
    }
    display
}

/// The label shown for a model without one: its display name and effort.
pub fn fallback_label(model: &str, reasoning_effort: &str) -> (out: String)
    ensures
        out@ == fallback_label_text(model@, reasoning_effort@),
{
    let mut label = display_model(model);
    push_char(&mut label, ' ');
    push_text(&mut label, reasoning_effort);
    assert(label@ =~= fallback_label_text(model@, reasoning_effort@));
    label
}

// ---------------------------------------------------------------------------
// Candidates
// ---------------------------------------------------------------------------
/// The first of two optional texts that is present.
pub open spec fn first_some(a: Option<Seq<char>>, b: Option<Seq<char>>) -> Option<Seq<char>> {
    if a is Some {
        a
    } else {
        b
    }
}

/// The candidate that a reported score stands for, with the hints of its
/// comparison entry; `None` when it lacks an identity or a finite score.
pub open spec fn candidate_entry(
    score: RemoteScore,
    label_hint: Option<Seq<char>>,
    model_hint: Option<Seq<char>>,
    effort_hint: Option<Seq<char>>,
    origin: nat,
) -> Option<ModelEntry> {
    let model = first_some(non_empty_text(text_of(score.model)), non_empty_text(model_hint));
    let effort = first_some(
        non_empty_text(text_of(score.reasoning_effort)),
        non_empty_text(effort_hint),
    );
    match (model, effort, score.score_key) {
        (Some(m), Some(e), Some(k)) => Some(
            ModelEntry {
                id: m + seq![':'] + e,
                label: match first_some(
                    non_empty_text(label_hint),
                    non_empty_text(text_of(score.label)),
                ) {
                    Some(l) => l,
                    None => fallback_label_text(m, e),
                },
                model: m,
                reasoning_effort: e,
                score_key: k,
                origin,
                status: non_empty_text(text_of(score.status)),
                passed: score.passed,
                tasks: score.tasks,
                valid_tasks: score.valid_tasks,
                average_task_time_human: non_empty_text(text_of(score.average_task_time_human)),
                wall_time_human: non_empty_text(text_of(score.wall_time_human)),
                duration_cells: Seq::empty(),
                cost_cells: Seq::empty(),
            },
        ),
        _ => None,
    }
}

fn first_non_empty(a: &Option<String>, b: &Option<String>) -> (r: Option<String>)
    ensures
        text_of(r) == first_some(non_empty_text(text_of(*a)), non_empty_text(text_of(*b))),
{
    match non_empty(a) {
        Some(t) => Some(t),
        None => non_empty(b),
    }
}

/// The model identity `model:effort`.
fn identity(model: &String, effort: &String) -> (id: String)
    ensures
        id@ == model@ + seq![':'] + effort@,
{
    let mut id = owned(model.as_str());
    push_char(&mut id, ':');
    push_text(&mut id, effort.as_str());
    id
}

/// Normalises one reported score into a candidate.
pub fn normalize_candidate(
    score: &RemoteScore,
    label_hint: &Option<String>,
    model_hint: &Option<String>,
    reasoning_effort_hint: &Option<String>,
    origin: usize,
) -> (r: Option<RankedModel>)
    ensures
        r.deep_view() == candidate_entry(
            *score,
            text_of(*label_hint),
            text_of(*model_hint),
            text_of(*reasoning_effort_hint),
            origin as nat,
        ),
{
    let model = match first_non_empty(&score.model, model_hint) {
        Some(m) => m,
        None => return None,
    };
    let effort = match first_non_empty(&score.reasoning_effort, reasoning_effort_hint) {
        Some(e) => e,
        None => return None,
    };
    let key = match score.score_key {
        Some(k) => k,
        None => return None,
    };
    let id = identity(&model, &effort);
    let label = match first_non_empty(label_hint, &score.label) {
        Some(l) => l,
        None => fallback_label(model.as_str(), effort.as_str()),
    };
    let candidate = RankedModel {
        id,
        label,
        model,
        reasoning_effort: effort,
        score_key: key,
        origin,
        status: non_empty(&score.status),
        passed: score.passed,
        tasks: score.tasks,
        valid_tasks: score.valid_tasks,
        average_task_time_human: non_empty(&score.average_task_time_human),
        wall_time_human: non_empty(&score.wall_time_human),
        duration_cells: Vec::new(),
        cost_cells: Vec::new(),
    };
    proof {
        assert(candidate.duration_cells@ =~= Seq::<usize>::empty());
        assert(candidate.cost_cells@ =~= Seq::<usize>::empty());
    }
    Some(candidate)
}

// ---------------------------------------------------------------------------
// Keeping one candidate per identity
// ---------------------------------------------------------------------------
/// The index of the first entry at or after `i` with identity `id`, or `-1`.
pub open spec fn find_id(acc: Seq<ModelEntry>, id: Seq<char>, i: int) -> int
    decreases acc.len() - i,
{
    if i < 0 || i >= acc.len() {
        -1
    } else if acc[i].id == id {
        i
    } else {
        find_id(acc, id, i + 1)
    }
}

/// Adds a candidate: a new identity is appended; an existing one is replaced when
/// the new score is at least as high (in the `total_cmp` order).
pub open spec fn insert_entry(acc: Seq<ModelEntry>, e: ModelEntry) -> Seq<ModelEntry> {
    let i = find_id(acc, e.id, 0);
    if i < 0 {
        acc.push(e)
    } else if e.score_key >= acc[i].score_key {
        acc.update(i, e)
    } else {
        acc
    }
}

/// All candidates of a sequence, merged in order by [`insert_entry`].
pub open spec fn merge_entries(s: Seq<Option<ModelEntry>>) -> Seq<ModelEntry>
    decreases s.len(),
{
    if s.len() == 0 {
        Seq::empty()
    } else {
        let acc = merge_entries(s.drop_last());
        match s.last() {
            Some(e) => insert_entry(acc, e),
            None => acc,
        }
    }
}

/// No two entries share an identity.
pub open spec fn unique_ids(s: Seq<ModelEntry>) -> bool {
    forall|i: int, j: int| 0 <= i < s.len() && 0 <= j < s.len() && i != j ==> #[trigger] s[i].id
        != #[trigger] s[j].id
}

proof fn lemma_find_id(acc: Seq<ModelEntry>, id: Seq<char>, i: int)
    requires
        0 <= i <= acc.len(),
    ensures
        find_id(acc, id, i) == -1 || (i <= find_id(acc, id, i) < acc.len() && acc[find_id(
            acc,
            id,
            i,
        )].id == id),
        find_id(acc, id, i) == -1 ==> forall|k: int| i <= k < acc.len() ==> #[trigger] acc[k].id
            != id,
    decreases acc.len() - i,
{
    if i < acc.len() && acc[i].id != id {
        lemma_find_id(acc, id, i + 1);
    }
}

proof fn lemma_insert_entry_unique(acc: Seq<ModelEntry>, e: ModelEntry)
    requires
        unique_ids(acc),
    ensures
        unique_ids(insert_entry(acc, e)),
{
    lemma_find_id(acc, e.id, 0);
    let r = insert_entry(acc, e);
    let i = find_id(acc, e.id, 0);
    assert forall|a: int, b: int| 0 <= a < r.len() && 0 <= b < r.len() && a != b implies #[trigger] r[a].id
        != #[trigger] r[b].id by {
        if i < 0 {
            if a < acc.len() && b < acc.len() {
            } else if a < acc.len() {
                assert(acc[a].id != e.id);
            } else {
                assert(acc[b].id != e.id);
            }
        } else if e.score_key >= acc[i].score_key {
            if a == i {
                assert(r[b].id == acc[b].id);
                assert(acc[i].id != acc[b].id);
            } else if b == i {
                assert(r[a].id == acc[a].id);
                assert(acc[i].id != acc[a].id);
            }
        }
    }
}

proof fn lemma_merge_unique(s: Seq<Option<ModelEntry>>)
    ensures
        unique_ids(merge_entries(s)),
    decreases s.len(),
{
    if s.len() > 0 {
        lemma_merge_unique(s.drop_last());
        if let Some(e) = s.last() {
            lemma_insert_entry_unique(merge_entries(s.drop_last()), e);
        }
    }
}

/// The index of the candidate with identity `id`, if one is kept.
fn position_of_id(candidates: &Vec<RankedModel>, id: &String) -> (r: Option<usize>)
    ensures
        match r {
            Some(i) => find_id(candidates.deep_view(), id@, 0) == i as int,
            None => find_id(candidates.deep_view(), id@, 0) == -1,
        },
{
    let ghost acc = candidates.deep_view();
    let mut i: usize = 0;
    while i < candidates.len()
        invariant
            i <= candidates.len(),
            acc == candidates.deep_view(),
            find_id(acc, id@, i as int) == find_id(acc, id@, 0),
        decreases candidates.len() - i,
    {
        assert(acc[i as int] == candidates[i as int].deep_view());
        if text_eq(candidates[i].id.as_str(), id.as_str()) {
            return Some(i);
        }
        i = i + 1;
    }
    None
}

/// Adds a candidate to the list of candidates kept so far.
pub fn insert_candidate(candidates: &mut Vec<RankedModel>, candidate: RankedModel)
    ensures
        final(candidates).deep_view() == insert_entry(
            old(candidates).deep_view(),
            candidate.deep_view(),
        ),
{
    let ghost acc = candidates.deep_view();
    let ghost e = candidate.deep_view();
    match position_of_id(candidates, &candidate.id) {
        Some(i) => {
            proof {
                lemma_find_id(acc, e.id, 0);
            }
            assert(acc[i as int] == candidates[i as int].deep_view());
            if candidate.score_key >= candidates[i].score_key {
                candidates.set(i, candidate);
                assert(candidates.deep_view() =~= acc.update(i as int, e));
            }
        },
        None => {
            candidates.push(candidate);
            assert(candidates.deep_view() =~= acc.push(e));
        },
    }
}

// ---------------------------------------------------------------------------
// Ranking
// ---------------------------------------------------------------------------
/// `a` ranks before `b`: a higher score, or the same score and a smaller identity.
pub open spec fn ranks_before(a: ModelEntry, b: ModelEntry) -> bool {
    a.score_key > b.score_key || (a.score_key == b.score_key && text_lt(a.id, b.id))
}

/// Every entry ranks before every later entry.
pub open spec fn ranked(s: Seq<ModelEntry>) -> bool {
    forall|i: int, j: int| 0 <= i < j < s.len() ==> ranks_before(#[trigger] s[i], #[trigger] s[j])
}

proof fn lemma_ranks_before_transitive(a: ModelEntry, b: ModelEntry, c: ModelEntry)
    requires
        ranks_before(a, b),
        ranks_before(b, c),
    ensures
        ranks_before(a, c),
{
    if a.score_key == b.score_key && b.score_key == c.score_key {
        lemma_text_lt_transitive(a.id, b.id, c.id);
    }
}

proof fn lemma_ranks_before_total(a: ModelEntry, b: ModelEntry)
    requires
        a.id != b.id,
    ensures
        ranks_before(a, b) || ranks_before(b, a),
{
    lemma_text_lt_total(a.id, b.id);
}

proof fn lemma_insert_ranked(s: Seq<ModelEntry>, p: int, c: ModelEntry)
    requires
        ranked(s),
        0 <= p <= s.len(),
        forall|k: int| 0 <= k < p ==> ranks_before(#[trigger] s[k], c),
        p < s.len() ==> ranks_before(c, s[p]),
    ensures
        ranked(s.insert(p, c)),
{
    let t = s.insert(p, c);
    s.insert_ensures(p, c);
    assert forall|i: int, j: int| 0 <= i < j < t.len() implies ranks_before(
        #[trigger] t[i],
        #[trigger] t[j],
    ) by {
        if j < p {
            assert(t[i] == s[i] && t[j] == s[j]);
        } else if j == p {
            assert(t[i] == s[i]);
        } else if i < p {
            assert(t[i] == s[i] && t[j] == s[j - 1]);
        } else if i == p {
            assert(t[j] == s[j - 1]);
            if j - 1 > p {
                assert(ranks_before(s[p], s[j - 1]));
                lemma_ranks_before_transitive(c, s[p], s[j - 1]);
            }
        } else {
            assert(t[i] == s[i - 1] && t[j] == s[j - 1]);
        }
    }
}

/// Inserting at position `p` adds one occurrence to the multiset.
pub proof fn lemma_insert_to_multiset<A>(s: Seq<A>, p: int, x: A)
    requires
        0 <= p <= s.len(),
    ensures
        s.insert(p, x).to_multiset() =~= s.to_multiset().insert(x),
{
    broadcast use vstd::seq_lib::group_to_multiset_ensures, vstd::multiset::group_multiset_axioms;

    let t = s.insert(p, x);
    s.insert_ensures(p, x);
    assert(t.remove(p) =~= s);
    vstd::seq_lib::to_multiset_remove(t, p);
    assert(t.contains(x));
    assert(t.to_multiset().count(x) > 0);
    assert forall|y: A| #[trigger] t.to_multiset().count(y) == s.to_multiset().insert(x).count(
        y,
    ) by {
        if y == x {
        } else {
        }
    }
}

fn ranks_before_exec(a: &RankedModel, b: &RankedModel) -> (r: bool)
    ensures
        r == ranks_before(a.deep_view(), b.deep_view()),
{
    if a.score_key != b.score_key {
        a.score_key > b.score_key
    } else {
        let x = chars_of(a.id.as_str());
        let y = chars_of(b.id.as_str());
        text_less(&x, &y)
    }
}

/// Orders candidates by score, highest first, and by identity among equal scores.
pub fn rank_candidates(candidates: Vec<RankedModel>) -> (out: Vec<RankedModel>)
    requires
        unique_ids(candidates.deep_view()),
    ensures
        ranked(out.deep_view()),
        out.deep_view().to_multiset() == candidates.deep_view().to_multiset(),
{
    broadcast use vstd::seq_lib::group_to_multiset_ensures, vstd::multiset::group_multiset_axioms;

    let ghost orig = candidates.deep_view();
    let mut rest = candidates;
    let mut out: Vec<RankedModel> = Vec::new();
    assert(out.deep_view() =~= Seq::<ModelEntry>::empty());
    assert(out.deep_view().to_multiset() =~= Multiset::<ModelEntry>::empty());
    while rest.len() > 0
        invariant
            ranked(out.deep_view()),
            unique_ids(rest.deep_view()),
            forall|i: int, j: int|
                0 <= i < out.len() && 0 <= j < rest.len() ==> #[trigger] out.deep_view()[i].id
                    != #[trigger] rest.deep_view()[j].id,
            out.deep_view().to_multiset().add(rest.deep_view().to_multiset()) == orig.to_multiset(),
        decreases rest.len(),
    {
        let ghost rest_before = rest.deep_view();
        let ghost out_before = out.deep_view();
        let popped = rest.pop();
        let c = match popped {
            Some(c) => c,
            None => {
                assert(false);
                return out;
            },
        };
        let ghost e = c.deep_view();
        assert(rest.deep_view() =~= rest_before.drop_last());
        assert(rest_before =~= rest.deep_view().push(e));
        assert(e == rest_before[rest_before.len() - 1]);
        let mut p: usize = 0;
        while p < out.len() && !ranks_before_exec(&c, &out[p])
            invariant
                p <= out.len(),
                out.deep_view() == out_before,
                ranked(out_before),
                e == c.deep_view(),
                forall|i: int| 0 <= i < out_before.len() ==> #[trigger] out_before[i].id != e.id,
                forall|k: int| 0 <= k < p ==> ranks_before(#[trigger] out_before[k], e),
            decreases out.len() - p,
        {
            assert(out_before[p as int] == out[p as int].deep_view());
            proof {
                lemma_ranks_before_total(e, out_before[p as int]);
            }
            p = p + 1;
        }
        proof {
            if p < out.len() {
                assert(out_before[p as int] == out[p as int].deep_view());
            }
            lemma_insert_ranked(out_before, p as int, e);
            lemma_insert_to_multiset(out_before, p as int, e);
        }
        out.insert(p, c);
        assert(out.deep_view() =~= out_before.insert(p as int, e));
        assert forall|i: int, j: int|
            0 <= i < out.len() && 0 <= j < rest.len() implies #[trigger] out.deep_view()[i].id
            != #[trigger] rest.deep_view()[j].id by {
            out_before.insert_ensures(p as int, e);
            assert(rest.deep_view()[j] == rest_before[j]);
            if i < p {
                assert(out.deep_view()[i] == out_before[i]);
            } else if i == p {
                assert(rest_before[rest_before.len() - 1].id != rest_before[j].id);
            } else {
                assert(out.deep_view()[i] == out_before[i - 1]);
            }
        }
        proof {
            vstd::seq_lib::to_multiset_build(rest.deep_view(), e);
        }
        assert(rest_before.to_multiset() =~= rest.deep_view().to_multiset().insert(e));
        assert(out.deep_view().to_multiset().add(rest.deep_view().to_multiset()) =~= out_before.to_multiset().add(rest_before.to_multiset()));
    }
    assert(rest.deep_view() =~= Seq::<ModelEntry>::empty());
    assert(rest.deep_view().to_multiset() =~= Multiset::<ModelEntry>::empty());
    assert(out.deep_view().to_multiset() =~= out.deep_view().to_multiset().add(rest.deep_view().to_multiset()));
    out
}

// ---------------------------------------------------------------------------
// Leaders
// ---------------------------------------------------------------------------
/// Two score keys stand for equal scores (`+0.0 == -0.0` for `f64`).
pub open spec fn same_score(a: i64, b: i64) -> bool {
    a == b || (a == 0 && b == -1) || (a == -1 && b == 0)
}

/// The end of the run of entries, from `i` on, whose score equals the first one's.
pub open spec fn leader_run(r: Seq<ModelEntry>, i: int) -> int
    decreases r.len() - i,
{
    if i < 0 || i >= r.len() || !same_score(r[i].score_key, r[0].score_key) {
        i
    } else {
        leader_run(r, i + 1)
    }
}

/// How many entries at the head of a ranking share the top score.
pub open spec fn leader_count(r: Seq<ModelEntry>) -> int {
    if r.len() == 0 {
        0
    } else {
        leader_run(r, 0)
    }
}

/// The identities of the entries that share the top score, in ranking order.
pub open spec fn leading_ids(r: Seq<ModelEntry>) -> Seq<Seq<char>> {
    Seq::new(leader_count(r) as nat, |i: int| r[i].id)
}

proof fn lemma_leader_run(r: Seq<ModelEntry>, i: int)
    requires
        0 <= i <= r.len(),
    ensures
        i <= leader_run(r, i) <= r.len(),
        forall|k: int| i <= k < leader_run(r, i) ==> same_score(#[trigger] r[k].score_key, r[0].score_key),
    decreases r.len() - i,
{
    if i < r.len() && same_score(r[i].score_key, r[0].score_key) {
        lemma_leader_run(r, i + 1);
    }
}

fn same_score_exec(a: i64, b: i64) -> (r: bool)
    ensures
        r == same_score(a, b),
{
    a == b || (a == 0 && b == -1) || (a == -1 && b == 0)
}

/// The identities of the models that share the top score, in ranking order.
pub fn leader_ids(rankings: &Vec<RankedModel>) -> (ids: Vec<String>)
    ensures
        ids.deep_view() == leading_ids(rankings.deep_view()),
{
    let ghost r = rankings.deep_view();
    let mut ids: Vec<String> = Vec::new();
    if rankings.len() == 0 {
        assert(ids.deep_view() =~= leading_ids(r));
        return ids;
    }
    proof {
        lemma_leader_run(r, 0);
    }
    let top = rankings[0].score_key;
    assert(top == r[0].score_key);
    let mut i: usize = 0;
    while i < rankings.len() && same_score_exec(rankings[i].score_key, top)
        invariant
            i <= rankings.len(),
            r == rankings.deep_view(),
            r.len() > 0,
            top == r[0].score_key,
            leader_run(r, i as int) == leader_run(r, 0),
            ids.deep_view() == Seq::new(i as nat, |k: int| r[k].id),
        decreases rankings.len() - i,
    {
        assert(r[i as int] == rankings[i as int].deep_view());
        let id = rankings[i].id.clone();
        let ghost iv = id@;
        assert(iv == r[i as int].id);
        let ghost before = ids.deep_view();
        ids.push(id);
        assert(ids.deep_view() =~= before.push(iv));
        assert(ids.deep_view() =~= Seq::new((i + 1) as nat, |k: int| r[k].id));
        i = i + 1;
    }
    assert(ids.deep_view() =~= leading_ids(r));
    ids
}

/// Texts in non-decreasing `str` order.
pub open spec fn texts_sorted(s: Seq<Seq<char>>) -> bool {
    forall|i: int, j: int| 0 <= i < j < s.len() ==> !text_lt(#[trigger] s[j], #[trigger] s[i])
}

proof fn lemma_text_le_transitive(a: Seq<char>, b: Seq<char>, c: Seq<char>)
    requires
        !text_lt(b, a),
        !text_lt(c, b),
    ensures
        !text_lt(c, a),
{
    lemma_text_lt_total(a, b);
    lemma_text_lt_total(b, c);
    if a != b && b != c {
        lemma_text_lt_transitive(a, b, c);
        lemma_text_lt_asymmetric(a, c);
    } else if a == b {
    } else {
    }
}

/// Sorts texts into `str` order.
pub fn sort_texts(texts: Vec<String>) -> (out: Vec<String>)
    ensures
        texts_sorted(out.deep_view()),
        out.deep_view().to_multiset() == texts.deep_view().to_multiset(),
{
    broadcast use vstd::seq_lib::group_to_multiset_ensures, vstd::multiset::group_multiset_axioms;

    let ghost orig = texts.deep_view();
    let mut rest = texts;
    let mut out: Vec<String> = Vec::new();
    assert(out.deep_view() =~= Seq::<Seq<char>>::empty());
    assert(out.deep_view().to_multiset() =~= Multiset::<Seq<char>>::empty());
    while rest.len() > 0
        invariant
            texts_sorted(out.deep_view()),
            out.deep_view().to_multiset().add(rest.deep_view().to_multiset()) == orig.to_multiset(),
        decreases rest.len(),
    {
        let ghost rest_before = rest.deep_view();
        let ghost out_before = out.deep_view();
        let popped = rest.pop();
        let c = match popped {
            Some(c) => c,
            None => {
                assert(false);
                return out;
            },
        };
        let ghost e = c@;
        assert(rest.deep_view() =~= rest_before.drop_last());
        assert(rest_before =~= rest.deep_view().push(e));
        let cs = chars_of(c.as_str());
        let mut p: usize = 0;
        while p < out.len() && !text_less(&cs, &chars_of(out[p].as_str()))
            invariant
                p <= out.len(),
                out.deep_view() == out_before,
                cs@ == e,
                forall|k: int| 0 <= k < p ==> !text_lt(e, #[trigger] out_before[k]),
            decreases out.len() - p,
        {
            assert(out_before[p as int] == out[p as int]@);
            p = p + 1;
        }
        proof {
            let t = out_before.insert(p as int, e);
            out_before.insert_ensures(p as int, e);
            if p < out.len() {
                assert(out_before[p as int] == out[p as int]@);
                assert(text_lt(e, out_before[p as int]));
                lemma_text_lt_asymmetric(e, out_before[p as int]);
            }
            assert forall|i: int, j: int| 0 <= i < j < t.len() implies !text_lt(
                #[trigger] t[j],
                #[trigger] t[i],
            ) by {
                if j < p {
                    assert(t[i] == out_before[i] && t[j] == out_before[j]);
                } else if j == p {
                    assert(t[i] == out_before[i]);
                } else if i < p {
                    assert(t[i] == out_before[i] && t[j] == out_before[j - 1]);
                } else if i == p {
                    assert(t[j] == out_before[j - 1]);
                    if j - 1 > p {
                        lemma_text_le_transitive(e, out_before[p as int], out_before[j - 1]);
                    }
                } else {
                    assert(t[i] == out_before[i - 1] && t[j] == out_before[j - 1]);
                }
            }
            lemma_insert_to_multiset(out_before, p as int, e);
            vstd::seq_lib::to_multiset_build(rest.deep_view(), e);
        }
        out.insert(p, c);
        assert(out.deep_view() =~= out_before.insert(p as int, e));
        assert(out.deep_view().to_multiset().add(rest.deep_view().to_multiset()) =~= out_before.to_multiset().add(rest_before.to_multiset()));
    }
    assert(rest.deep_view() =~= Seq::<Seq<char>>::empty());
    assert(rest.deep_view().to_multiset() =~= Multiset::<Seq<char>>::empty());
    assert(out.deep_view().to_multiset() =~= out.deep_view().to_multiset().add(rest.deep_view().to_multiset()));
    out
}

// ---------------------------------------------------------------------------
// The main feed
// ---------------------------------------------------------------------------
/// The attribution text a summary asks for, or the default one.
pub open spec fn attribution_text(api_access: Option<ApiAccess>) -> Seq<char> {
    let requested = match api_access {
        Some(access) => match access.requirements {
            Some(requirements) => non_empty_text(text_of(requirements.attribution_text)),
            None => None,
        },
        None => None,
    };
    match requested {
        Some(t) => t,
        None => DEFAULT_ATTRIBUTION_TEXT@,
    }
}

/// The candidate of input `k`: `0` is `model_iq.latest`, `k + 1` comparison `k`.
pub open spec fn main_entry(iq: ModelIq, k: int) -> Option<ModelEntry> {
    if k == 0 {
        match iq.latest {
            Some(latest) => candidate_entry(latest, None, None, None, 0),
            None => None,
        }
    } else {
        let c = iq.comparisons@[k - 1];
        match c.latest {
            Some(latest) => candidate_entry(
                latest,
                text_of(c.label),
                text_of(c.model),
                text_of(c.reasoning_effort),
                k as nat,
            ),
            None => None,
        }
    }
}

/// The candidates of the main feed, in input order.
pub open spec fn main_entries(iq: ModelIq) -> Seq<Option<ModelEntry>> {
    Seq::new((iq.comparisons@.len() + 1) as nat, |k: int| main_entry(iq, k))
}

/// The instant an optional RFC 3339 text names.
pub open spec fn timestamp_of(t: Option<String>) -> Option<Timestamp> {
    match t {
        Some(s) => rfc3339_timestamp(s@),
        None => None,
    }
}

/// A snapshot whose rankings are the given candidates in rank order.
pub open spec fn rankings_fit(snap: RankedSnapshot, candidates: Seq<ModelEntry>) -> bool {
    &&& ranked(snap.rankings.deep_view())
    &&& snap.rankings.deep_view().to_multiset() == candidates.to_multiset()
}

/// What a successful parse of the main feed holds.
pub open spec fn main_snapshot_fits(
    snap: RankedSnapshot,
    updated_at: Timestamp,
    checked_at: Timestamp,
    candidates: Seq<ModelEntry>,
    attribution: Seq<char>,
) -> bool {
    &&& snap.source == RadarSource::Main
    &&& snap.schema_version@ == SUPPORTED_SCHEMA_VERSION@
    &&& snap.updated_at == updated_at
    &&& snap.checked_at == checked_at
    &&& rankings_fit(snap, candidates)
    &&& texts_sorted(snap.leader_ids.deep_view())
    &&& snap.leader_ids.deep_view().to_multiset() == leading_ids(
        snap.rankings.deep_view(),
    ).to_multiset()
    &&& snap.attribution.text@ == attribution
    &&& snap.attribution.url@ == ATTRIBUTION_URL@
    &&& snap.source_url@ == PUBLIC_SUMMARY_URL@
}

/// The outcome of parsing a decoded public summary.
pub open spec fn main_parse(
    s: PublicSummary,
    checked_at: Timestamp,
    r: Result<RankedSnapshot, SourceError>,
) -> bool {
    if text_of(s.schema_version) != Some(SUPPORTED_SCHEMA_VERSION@) {
        r == Err::<RankedSnapshot, SourceError>(
            SourceError::SchemaVersion { found: s.schema_version },
        )
    } else if text_of(s.payload_type) != Some(PUBLIC_SUMMARY_TYPE@) {
        r == Err::<RankedSnapshot, SourceError>(SourceError::PayloadType { found: s.payload_type })
    } else {
        match s.model_iq {
            None => r == Err::<RankedSnapshot, SourceError>(SourceError::Timestamp { value: None }),
            Some(iq) => match timestamp_of(iq.updated_at) {
                None => r == Err::<RankedSnapshot, SourceError>(
                    SourceError::Timestamp { value: iq.updated_at },
                ),
                Some(t) => {
                    let candidates = merge_entries(main_entries(iq));
                    if candidates.len() == 0 {
                        r == Err::<RankedSnapshot, SourceError>(SourceError::NoCandidates)
                    } else {
                        r matches Ok(snap) && main_snapshot_fits(
                            snap,
                            t,
                            checked_at,
                            candidates,
                            attribution_text(s.api_access),
                        )
                    }
                },
            },
        }
    }
}

fn is_text(value: &Option<String>, expected: &str) -> (r: bool)
    ensures
        r == (text_of(*value) == Some(expected@)),
{
    match value {
        Some(v) => text_eq(v.as_str(), expected),
        None => false,
    }
}

fn timestamp_from(value: &Option<String>) -> (r: Option<Timestamp>)
    ensures
        r == timestamp_of(*value),
{
    match value {
        Some(v) => parse_rfc3339(v.as_str()),
        None => None,
    }
}

/// The attribution a summary asks for, or the default one.
pub fn normalize_attribution(api_access: &Option<ApiAccess>) -> (a: Attribution)
    ensures
        a.text@ == attribution_text(*api_access),
        a.url@ == ATTRIBUTION_URL@,
{
    let requested = match api_access {
        Some(access) => match &access.requirements {
            Some(requirements) => non_empty(&requirements.attribution_text),
            None => None,
        },
        None => None,
    };
    let text = match requested {
        Some(t) => t,
        None => owned(DEFAULT_ATTRIBUTION_TEXT),
    };
    Attribution { text, url: owned(ATTRIBUTION_URL) }
}

fn collect_main_candidates(iq: &ModelIq) -> (candidates: Vec<RankedModel>)
    ensures
        candidates.deep_view() == merge_entries(main_entries(*iq)),
{
    let ghost entries = main_entries(*iq);
    let mut candidates: Vec<RankedModel> = Vec::new();
    assert(entries.take(0) =~= Seq::<Option<ModelEntry>>::empty());
    assert(candidates.deep_view() =~= Seq::<ModelEntry>::empty());
    assert(entries.take(1).drop_last() =~= entries.take(0));
    assert(entries.take(1).last() == main_entry(*iq, 0));
    assert(merge_entries(entries.take(0)) =~= Seq::<ModelEntry>::empty());
    match &iq.latest {
        Some(latest) => {
            match normalize_candidate(latest, &None, &None, &None, 0) {
                Some(c) => insert_candidate(&mut candidates, c),
                None => {},
            }
        },
        None => {},
    }
    let mut k: usize = 0;
    while k < iq.comparisons.len()
        invariant
            k <= iq.comparisons@.len(),
            entries == main_entries(*iq),
            candidates.deep_view() == merge_entries(entries.take(k + 1)),
        decreases iq.comparisons.len() - k,
    {
        let comparison = &iq.comparisons[k];
        assert(entries.take(k + 2).drop_last() =~= entries.take(k + 1));
        assert(entries.take(k + 2).last() == main_entry(*iq, k + 1));
        match &comparison.latest {
            Some(latest) => {
                match normalize_candidate(
                    latest,
                    &comparison.label,
                    &comparison.model,
                    &comparison.reasoning_effort,
                    k + 1,
                ) {
                    Some(c) => insert_candidate(&mut candidates, c),
                    None => {},
                }
            },
            None => {},
        }
        k = k + 1;
    }
    assert(entries.take(iq.comparisons@.len() as int + 1) =~= entries);
    candidates
}

/// Validates and ranks a decoded public summary of the main feed.  `summary` is
/// the decoder's result; its error message becomes [`SourceError::Json`].
pub fn parse_snapshot(summary: Result<PublicSummary, String>, checked_at: Timestamp) -> (r: Result<
    RankedSnapshot,
    SourceError,
>)
    ensures
        match summary {
            Err(message) => r == Err::<RankedSnapshot, SourceError>(SourceError::Json(message)),
            Ok(s) => main_parse(s, checked_at, r),
        },
{
    let summary = match summary {
        Ok(s) => s,
        Err(message) => return Err(SourceError::Json(message)),
    };
    let PublicSummary { schema_version, payload_type, api_access, model_iq } = summary;
    if !is_text(&schema_version, SUPPORTED_SCHEMA_VERSION) {
        return Err(SourceError::SchemaVersion { found: schema_version });
    }
    if !is_text(&payload_type, PUBLIC_SUMMARY_TYPE) {
        return Err(SourceError::PayloadType { found: payload_type });
    }
    let attribution = normalize_attribution(&api_access);
    let iq = match model_iq {
        Some(iq) => iq,
        None => return Err(SourceError::Timestamp { value: None }),
    };
    let updated_at = match timestamp_from(&iq.updated_at) {
        Some(t) => t,
        None => return Err(SourceError::Timestamp { value: iq.updated_at }),
    };
    let candidates = collect_main_candidates(&iq);
    if candidates.len() == 0 {
        return Err(SourceError::NoCandidates);
    }
    proof {
        lemma_merge_unique(main_entries(iq));
    }
    let rankings = rank_candidates(candidates);
    let leaders = sort_texts(leader_ids(&rankings));
    Ok(
        RankedSnapshot {
            source: RadarSource::Main,
            schema_version: owned(SUPPORTED_SCHEMA_VERSION),
            updated_at,
            checked_at,
            leader_ids: leaders,
            rankings,
            attribution,
            source_url: owned(PUBLIC_SUMMARY_URL),
        },
    )
}

// ---------------------------------------------------------------------------
// The distributed feed
// ---------------------------------------------------------------------------
/// A model and reasoning effort that the distributed table measures.
#[derive(Debug, Clone, Default, PartialEq, Eq)]
pub struct DistributedCombo {
    pub model: Option<String>,
    pub effort: Option<String>,
}

/// A task of the distributed table.
#[derive(Debug, Clone, Default, PartialEq, Eq)]
pub struct DistributedTask {
    pub id: Option<String>,
}

/// One graded run (its duration and cost stay with the caller).
#[derive(Debug, Clone, Default, PartialEq, Eq)]
pub struct DistributedRun {
    pub passed: bool,
    pub graded_at: Option<String>,
    pub cost_complete: bool,
}

/// The runs of one task for one combo; `key` is `task|model|effort`.
#[derive(Debug, Clone, Default, PartialEq, Eq)]
pub struct DistributedCell {
    pub key: String,
    pub last_graded_at: Option<String>,
    pub ran_by: Vec<DistributedRun>,
}

/// The distributed feed's table document.
#[derive(Debug, Clone, Default, PartialEq, Eq)]
pub struct DistributedTable {
    /// `schema` read as an unsigned integer, when it is one.
    pub schema: Option<u64>,
    /// `schema` as the document wrote it, when present (reported on a mismatch).
    pub schema_text: Option<String>,
    pub combos: Vec<DistributedCombo>,
    pub tasks: Vec<DistributedTask>,
    /// The cells in key order (their keys are distinct).
    pub cells: Vec<DistributedCell>,
    pub baseline_generated_at: Option<String>,
}

/// Keeps the later of a current instant and a candidate (an equal one does not
/// replace the current).
pub open spec fn later_of(current: Option<Timestamp>, next: Option<Timestamp>) -> Option<
    Timestamp,
> {
    match next {
        Some(n) => match current {
            Some(c) => if c.earlier_than(n) {
                Some(n)
            } else {
                current
            },
            None => Some(n),
        },
        None => current,
    }
}

/// The grading instant of a cell's latest run.
pub open spec fn latest_run_graded_at(cell: DistributedCell) -> Option<Timestamp> {
    if cell.ran_by@.len() > 0 {
        timestamp_of(cell.ran_by@[0].graded_at)
    } else {
        None
    }
}

/// The latest instant named by the baseline and the first `n` cells.
pub open spec fn latest_instant(table: DistributedTable, n: int) -> Option<Timestamp>
    decreases n,
{
    if n <= 0 {
        later_of(None, timestamp_of(table.baseline_generated_at))
    } else {
        let cell = table.cells@[n - 1];
        later_of(
            later_of(latest_instant(table, n - 1), timestamp_of(cell.last_graded_at)),
            latest_run_graded_at(cell),
        )
    }
}

/// The table's update instant: the latest instant it names anywhere.
pub open spec fn table_updated_at(table: DistributedTable) -> Option<Timestamp> {
    latest_instant(table, table.cells@.len() as int)
}

/// The non-blank task identifiers among the first `n` tasks, trimmed.
pub open spec fn task_ids_upto(tasks: Seq<DistributedTask>, n: int) -> Seq<Seq<char>>
    decreases n,
{
    if n <= 0 {
        Seq::empty()
    } else {
        let ids = task_ids_upto(tasks, n - 1);
        match non_empty_text(text_of(tasks[n - 1].id)) {
            Some(id) => ids.push(id),
            None => ids,
        }
    }
}

/// The non-blank task identifiers of the table, trimmed.
pub open spec fn task_ids(table: DistributedTable) -> Seq<Seq<char>> {
    task_ids_upto(table.tasks@, table.tasks@.len() as int)
}

proof fn lemma_task_ids_len(tasks: Seq<DistributedTask>, n: int)
    requires
        0 <= n <= tasks.len(),
    ensures
        task_ids_upto(tasks, n).len() <= n,
    decreases n,
{
    if n > 0 {
        lemma_task_ids_len(tasks, n - 1);
    }
}

/// The index of the first cell at or after `i` whose key is `key`, or `-1`.
pub open spec fn find_cell(cells: Seq<DistributedCell>, key: Seq<char>, i: int) -> int
    decreases cells.len() - i,
{
    if i < 0 || i >= cells.len() {
        -1
    } else if cells[i].key@ == key {
        i
    } else {
        find_cell(cells, key, i + 1)
    }
}

proof fn lemma_find_cell(cells: Seq<DistributedCell>, key: Seq<char>, i: int)
    requires
        0 <= i <= cells.len(),
    ensures
        find_cell(cells, key, i) == -1 || (i <= find_cell(cells, key, i) < cells.len()
            && cells[find_cell(cells, key, i)].key@ == key),
    decreases cells.len() - i,
{
    if i < cells.len() && cells[i].key@ != key {
        lemma_find_cell(cells, key, i + 1);
    }
}

/// The key of the cell holding task `task`'s runs for a combo.
pub open spec fn cell_key(task: Seq<char>, model: Seq<char>, effort: Seq<char>) -> Seq<char> {
    task + seq!['|'] + model + seq!['|'] + effort
}

/// What the latest runs of a combo add up to over a set of tasks.
pub struct ComboStats {
    pub passed: nat,
    pub sampled: nat,
    pub duration_cells: Seq<usize>,
    pub cost_cells: Seq<usize>,
}

/// The statistics of a combo over the first `n` task identifiers: each task with
/// a run counts once, and its latest run is the one that counts.
pub open spec fn combo_stats(
    table: DistributedTable,
    model: Seq<char>,
    effort: Seq<char>,
    ids: Seq<Seq<char>>,
    n: int,
) -> ComboStats
    decreases n,
{
    if n <= 0 {
        ComboStats {
            passed: 0,
            sampled: 0,
            duration_cells: Seq::empty(),
            cost_cells: Seq::empty(),
        }
    } else {
        let st = combo_stats(table, model, effort, ids, n - 1);
        let ci = find_cell(table.cells@, cell_key(ids[n - 1], model, effort), 0);
        if ci < 0 || table.cells@[ci].ran_by@.len() == 0 {
            st
        } else {
            let run = table.cells@[ci].ran_by@[0];
            ComboStats {
                passed: st.passed + if run.passed {
                    1nat
                } else {
                    0nat
                },
                sampled: st.sampled + 1,
                duration_cells: st.duration_cells.push(ci as usize),
                cost_cells: if !eq_ignore_ascii_case_spec(effort, "ultra"@) || run.cost_complete {
                    st.cost_cells.push(ci as usize)
                } else {
                    st.cost_cells
                },
            }
        }
    }
}

proof fn lemma_combo_stats_bounds(
    table: DistributedTable,
    model: Seq<char>,
    effort: Seq<char>,
    ids: Seq<Seq<char>>,
    n: int,
)
    requires
        0 <= n,
    ensures
        combo_stats(table, model, effort, ids, n).passed <= combo_stats(
            table,
            model,
            effort,
            ids,
            n,
        ).sampled <= n,
    decreases n,
{
    if n > 0 {
        lemma_combo_stats_bounds(table, model, effort, ids, n - 1);
    }
}

/// The whole IQ score: the pass rate scaled to 150, rounded half up.
pub open spec fn iq_score(passed: nat, sampled: nat) -> nat {
    (passed * 150 + sampled / 2) / sampled
}

/// The candidate that combo `k` stands for, if it has a name and a sampled task.
pub open spec fn combo_entry(table: DistributedTable, k: int) -> Option<ModelEntry> {
    let combo = table.combos@[k];
    match (non_empty_text(text_of(combo.model)), non_empty_text(text_of(combo.effort))) {
        (Some(m), Some(e)) => {
            let ids = task_ids(table);
            let st = combo_stats(table, m, e, ids, ids.len() as int);
            if st.sampled == 0 {
                None
            } else {
                Some(
                    ModelEntry {
                        id: m + seq![':'] + e,
                        label: fallback_label_text(m, e),
                        model: m,
                        reasoning_effort: e,
                        score_key: iq_score(st.passed, st.sampled) as i64,
                        origin: k as nat,
                        status: None,
                        passed: Some(st.passed as u64),
                        tasks: Some(st.sampled as u64),
                        valid_tasks: Some(st.sampled as u64),
                        average_task_time_human: None,
                        wall_time_human: None,
                        duration_cells: st.duration_cells,
                        cost_cells: st.cost_cells,
                    },
                )
            }
        },
        _ => None,
    }
}

/// The candidates of the distributed feed, in combo order.
pub open spec fn distributed_entries(table: DistributedTable) -> Seq<Option<ModelEntry>> {
    Seq::new(table.combos@.len(), |k: int| combo_entry(table, k))
}

/// What a successful parse of the distributed feed holds.
pub open spec fn distributed_snapshot_fits(
    snap: RankedSnapshot,
    updated_at: Timestamp,
    checked_at: Timestamp,
    candidates: Seq<ModelEntry>,
) -> bool {
    &&& snap.source == RadarSource::Distributed
    &&& snap.schema_version@ == SUPPORTED_SCHEMA_VERSION@
    &&& snap.updated_at == updated_at
    &&& snap.checked_at == checked_at
    &&& rankings_fit(snap, candidates)
    &&& snap.leader_ids.deep_view() == leading_ids(snap.rankings.deep_view())
    &&& snap.attribution.text@ == DISTRIBUTED_ATTRIBUTION_TEXT@
    &&& snap.attribution.url@ == DISTRIBUTED_ATTRIBUTION_URL@
    &&& snap.source_url@ == DISTRIBUTED_TABLE_URL@
}

/// The outcome of parsing a decoded distributed table.
pub open spec fn distributed_parse(
    t: DistributedTable,
    checked_at: Timestamp,
    r: Result<RankedSnapshot, SourceError>,
) -> bool {
    if t.schema != Some(DISTRIBUTED_SCHEMA_VERSION) {
        r == Err::<RankedSnapshot, SourceError>(SourceError::SchemaVersion { found: t.schema_text })
    } else {
        match table_updated_at(t) {
            None => r == Err::<RankedSnapshot, SourceError>(
                SourceError::Timestamp { value: t.baseline_generated_at },
            ),
            Some(u) => {
                let candidates = merge_entries(distributed_entries(t));
                if candidates.len() == 0 {
                    r == Err::<RankedSnapshot, SourceError>(SourceError::NoCandidates)
                } else {
                    r matches Ok(snap) && distributed_snapshot_fits(snap, u, checked_at, candidates)
                }
            },
        }
    }
}

fn later(current: Option<Timestamp>, next: Option<Timestamp>) -> (r: Option<Timestamp>)
    ensures
        r == later_of(current, next),
{
    match next {
        Some(n) => match current {
            Some(c) => if c.is_earlier_than(&n) {
                Some(n)
            } else {
                current
            },
            None => Some(n),
        },
        None => current,
    }
}

/// The instants a table names, in the order they are folded: the baseline, then
/// for each of the first `n` cells its last grading and its latest run's grading.
pub open spec fn table_instants(table: DistributedTable, n: int) -> Seq<Option<Timestamp>>
    decreases n,
{
    if n <= 0 {
        seq![timestamp_of(table.baseline_generated_at)]
    } else {
        let cell = table.cells@[n - 1];
        table_instants(table, n - 1).push(timestamp_of(cell.last_graded_at)).push(
            latest_run_graded_at(cell),
        )
    }
}

/// The latest of a sequence of optional instants, folded from the front: an
/// equal later instant does not replace an earlier one, and absent ones are skipped.
pub open spec fn latest_of(instants: Seq<Option<Timestamp>>) -> Option<Timestamp>
    decreases instants.len(),
{
    if instants.len() == 0 {
        None
    } else {
        later_of(latest_of(instants.drop_last()), instants.last())
    }
}

proof fn lemma_table_instants(table: DistributedTable, n: int)
    requires
        0 <= n <= table.cells@.len(),
    ensures
        latest_of(table_instants(table, n)) == latest_instant(table, n),
    decreases n,
{
    if n == 0 {
        let s = table_instants(table, 0);
        assert(s.drop_last() =~= Seq::<Option<Timestamp>>::empty());
        assert(latest_of(s.drop_last()) == None::<Timestamp>);
        assert(s.last() == timestamp_of(table.baseline_generated_at));
    } else {
        lemma_table_instants(table, n - 1);
        let cell = table.cells@[n - 1];
        let before = table_instants(table, n - 1);
        let with_last = before.push(timestamp_of(cell.last_graded_at));
        let all = with_last.push(latest_run_graded_at(cell));
        assert(all.drop_last() =~= with_last);
        assert(with_last.drop_last() =~= before);
        assert(all == table_instants(table, n));
        assert(latest_of(with_last) == later_of(latest_of(before), timestamp_of(cell.last_graded_at)));
        assert(latest_of(all) == later_of(latest_of(with_last), latest_run_graded_at(cell)));
    }
}

/// The latest of the parsed instants, folded from the front (see [`latest_of`]).
pub fn latest_instant_of(instants: &Vec<Option<Timestamp>>) -> (r: Option<Timestamp>)
    ensures
        r == latest_of(instants@),
{
    let mut latest: Option<Timestamp> = None;
    let mut i: usize = 0;
    assert(instants@.take(0) =~= Seq::<Option<Timestamp>>::empty());
    while i < instants.len()
        invariant
            i <= instants@.len(),
            latest == latest_of(instants@.take(i as int)),
        decreases instants.len() - i,
    {
        assert(instants@.take(i + 1).drop_last() =~= instants@.take(i as int));
        latest = later(latest, instants[i]);
        i = i + 1;
    }
    assert(instants@.take(instants@.len() as int) =~= instants@);
    latest
}

fn table_instant(table: &DistributedTable) -> (r: Option<Timestamp>)
    ensures
        r == table_updated_at(*table),
{
    let mut instants: Vec<Option<Timestamp>> = Vec::new();
    instants.push(timestamp_from(&table.baseline_generated_at));
    assert(instants@ =~= table_instants(*table, 0));
    let mut i: usize = 0;
    while i < table.cells.len()
        invariant
            i <= table.cells@.len(),
            instants@ == table_instants(*table, i as int),
        decreases table.cells.len() - i,
    {
        let cell = &table.cells[i];
        instants.push(timestamp_from(&cell.last_graded_at));
        let run_instant = if cell.ran_by.len() > 0 {
            timestamp_from(&cell.ran_by[0].graded_at)
        } else {
            None
        };
        instants.push(run_instant);
        i = i + 1;
    }
    proof {
        lemma_table_instants(*table, table.cells@.len() as int);
    }
    latest_instant_of(&instants)
}

fn collect_task_ids(table: &DistributedTable) -> (ids: Vec<String>)
    ensures
        ids.deep_view() == task_ids(*table),
{
    let mut ids: Vec<String> = Vec::new();
    let mut i: usize = 0;
    assert(ids.deep_view() =~= task_ids_upto(table.tasks@, 0));
    while i < table.tasks.len()
        invariant
            i <= table.tasks@.len(),
            ids.deep_view() == task_ids_upto(table.tasks@, i as int),
        decreases table.tasks.len() - i,
    {
        let ghost before = ids.deep_view();
        match non_empty(&table.tasks[i].id) {
            Some(id) => {
                let ghost iv = id@;
                ids.push(id);
                assert(ids.deep_view() =~= before.push(iv));
            },
            None => {},
        }
        i = i + 1;
    }
    ids
}

fn find_cell_exec(cells: &Vec<DistributedCell>, key: &String) -> (r: Option<usize>)
    ensures
        match r {
            Some(i) => find_cell(cells@, key@, 0) == i as int,
            None => find_cell(cells@, key@, 0) == -1,
        },
{
    let mut i: usize = 0;
    while i < cells.len()
        invariant
            i <= cells@.len(),
            find_cell(cells@, key@, i as int) == find_cell(cells@, key@, 0),
        decreases cells.len() - i,
    {
        if text_eq(cells[i].key.as_str(), key.as_str()) {
            return Some(i);
        }
        i = i + 1;
    }
    None
}

fn make_cell_key(task: &String, model: &String, effort: &String) -> (key: String)
    ensures
        key@ == cell_key(task@, model@, effort@),
{
    let mut key = owned(task.as_str());
    push_char(&mut key, '|');
    push_text(&mut key, model.as_str());
    push_char(&mut key, '|');
    push_text(&mut key, effort.as_str());
    assert(key@ =~= cell_key(task@, model@, effort@));
    key
}

fn combo_candidate(table: &DistributedTable, ids: &Vec<String>, k: usize) -> (r: Option<
    RankedModel,
>)
    requires
        k < table.combos@.len(),
        ids.deep_view() == task_ids(*table),
        table.tasks@.len() * 151 <= u64::MAX,
    ensures
        r.deep_view() == combo_entry(*table, k as int),
{
    let combo = &table.combos[k];
    let model = match non_empty(&combo.model) {
        Some(m) => m,
        None => return None,
    };
    let effort = match non_empty(&combo.effort) {
        Some(e) => e,
        None => return None,
    };
    let effort_chars = chars_of(effort.as_str());
    let ultra = eq_ignore_ascii_case(&effort_chars, "ultra");
    let ghost iv = ids.deep_view();
    proof {
        lemma_task_ids_len(table.tasks@, table.tasks@.len() as int);
        lemma_combo_stats_bounds(*table, model@, effort@, iv, iv.len() as int);
    }
    let mut passed: u64 = 0;
    let mut sampled: u64 = 0;
    let mut duration_cells: Vec<usize> = Vec::new();
    let mut cost_cells: Vec<usize> = Vec::new();
    let mut t: usize = 0;
    while t < ids.len()
        invariant
            t <= ids@.len(),
            iv == ids.deep_view(),
            iv.len() <= table.tasks@.len(),
            table.tasks@.len() * 151 <= u64::MAX,
            ultra == eq_ignore_ascii_case_spec(effort@, "ultra"@),
            ({
                let st = combo_stats(*table, model@, effort@, iv, t as int);
                &&& passed as nat == st.passed
                &&& sampled as nat == st.sampled
                &&& duration_cells@ == st.duration_cells
                &&& cost_cells@ == st.cost_cells
            }),
        decreases ids.len() - t,
    {
        proof {
            lemma_combo_stats_bounds(*table, model@, effort@, iv, t as int);
        }
        assert(ids[t as int]@ == iv[t as int]);
        let key = make_cell_key(&ids[t], &model, &effort);
        match find_cell_exec(&table.cells, &key) {
            Some(ci) => {
                proof {
                    lemma_find_cell(table.cells@, key@, 0);
                }
                let cell = &table.cells[ci];
                if cell.ran_by.len() > 0 {
                    let run = &cell.ran_by[0];
                    sampled = sampled + 1;
                    if run.passed {
                        passed = passed + 1;
                    }
                    duration_cells.push(ci);
                    if !ultra || run.cost_complete {
                        cost_cells.push(ci);
                    }
                }
            },
            None => {},
        }
        t = t + 1;
    }
    if sampled == 0 {
        return None;
    }
    assert(passed * 150 + sampled / 2 <= u64::MAX) by (nonlinear_arith)
        requires
            passed <= sampled,
            sampled <= table.tasks@.len(),
            table.tasks@.len() * 151 <= u64::MAX,
    ;
    let score = (passed * 150 + sampled / 2) / sampled;
    assert(score <= 150) by (nonlinear_arith)
        requires
            passed <= sampled,
            sampled > 0,
            score as int == (passed * 150 + sampled / 2) / (sampled as int),
    ;
    let id = identity(&model, &effort);
    let label = fallback_label(model.as_str(), effort.as_str());
    Some(
        RankedModel {
            id,
            label,
            model,
            reasoning_effort: effort,
            score_key: score as i64,
            origin: k,
            status: None,
            passed: Some(passed),
            tasks: Some(sampled),
            valid_tasks: Some(sampled),
            average_task_time_human: None,
            wall_time_human: None,
            duration_cells,
            cost_cells,
        },
    )
}

fn collect_distributed_candidates(table: &DistributedTable) -> (candidates: Vec<RankedModel>)
    requires
        table.tasks@.len() * 151 <= u64::MAX,
    ensures
        candidates.deep_view() == merge_entries(distributed_entries(*table)),
{
    let ghost entries = distributed_entries(*table);
    let ids = collect_task_ids(table);
    let mut candidates: Vec<RankedModel> = Vec::new();
    assert(candidates.deep_view() =~= merge_entries(entries.take(0)));
    let mut k: usize = 0;
    while k < table.combos.len()
        invariant
            k <= table.combos@.len(),
            entries == distributed_entries(*table),
            ids.deep_view() == task_ids(*table),
            table.tasks@.len() * 151 <= u64::MAX,
            candidates.deep_view() == merge_entries(entries.take(k as int)),
        decreases table.combos.len() - k,
    {
        assert(entries.take(k + 1).drop_last() =~= entries.take(k as int));
        assert(entries.take(k + 1).last() == combo_entry(*table, k as int));
        match combo_candidate(table, &ids, k) {
            Some(c) => insert_candidate(&mut candidates, c),
            None => {},
        }
        k = k + 1;
    }
    assert(entries.take(table.combos@.len() as int) =~= entries);
    candidates
}

/// Validates and ranks a decoded table of the distributed feed.  `table` is the
/// decoder's result; its error message becomes [`SourceError::Json`].
pub fn parse_distributed_snapshot(
    table: Result<DistributedTable, String>,
    checked_at: Timestamp,
) -> (r: Result<RankedSnapshot, SourceError>)
    requires
        table matches Ok(t) ==> t.tasks@.len() * 151 <= u64::MAX,
    ensures
        match table {
            Err(message) => r == Err::<RankedSnapshot, SourceError>(SourceError::Json(message)),
            Ok(t) => distributed_parse(t, checked_at, r),
        },
{
    let table = match table {
        Ok(t) => t,
        Err(message) => return Err(SourceError::Json(message)),
    };
    let schema_ok = match table.schema {
        Some(v) => v == DISTRIBUTED_SCHEMA_VERSION,
        None => false,
    };
    if !schema_ok {
        return Err(SourceError::SchemaVersion { found: table.schema_text });
    }
    let updated_at = match table_instant(&table) {
        Some(t) => t,
        None => return Err(SourceError::Timestamp { value: table.baseline_generated_at }),
    };
    let candidates = collect_distributed_candidates(&table);
    if candidates.len() == 0 {
        return Err(SourceError::NoCandidates);
    }
    proof {
        lemma_merge_unique(distributed_entries(table));
    }
    let rankings = rank_candidates(candidates);
    let leaders = leader_ids(&rankings);
    Ok(
        RankedSnapshot {
            source: RadarSource::Distributed,
            schema_version: owned(SUPPORTED_SCHEMA_VERSION),
            updated_at,
            checked_at,
            leader_ids: leaders,
            rankings,
            attribution: Attribution {
                text: owned(DISTRIBUTED_ATTRIBUTION_TEXT),
                url: owned(DISTRIBUTED_ATTRIBUTION_URL),
            },
            source_url: owned(DISTRIBUTED_TABLE_URL),
        },
    )
}

/// An entry that occurs twice in `a` occurs at two positions of any sequence with
/// the same elements.
proof fn lemma_repeated_in_multiset(a: Seq<ModelEntry>, b: Seq<ModelEntry>, i: int, j: int)
    requires
        a.to_multiset() == b.to_multiset(),
        0 <= i < a.len(),
        0 <= j < a.len(),
        i != j,
        a[i] == a[j],
    ensures
        exists|k: int, m: int|
            0 <= k < b.len() && 0 <= m < b.len() && k != m && #[trigger] b[k] == a[i] && #[trigger] b[m]
                == a[i],
{
    broadcast use vstd::seq_lib::group_to_multiset_ensures;

    let x = a[i];
    let rest = a.remove(i);
    vstd::seq_lib::to_multiset_remove(a, i);
    let jj = if j < i {
        j
    } else {
        j - 1
    };
    assert(rest[jj] == x);
    assert(rest.contains(x));
    assert(rest.to_multiset().count(x) > 0);
    assert(a.to_multiset().count(x) >= 2);
    assert(b.to_multiset().count(x) >= 2);
    assert(b.contains(x));
    let k = choose|k: int| 0 <= k < b.len() && b[k] == x;
    let brest = b.remove(k);
    vstd::seq_lib::to_multiset_remove(b, k);
    assert(brest.to_multiset().count(x) > 0);
    assert(brest.contains(x));
    let mm = choose|mm: int| 0 <= mm < brest.len() && brest[mm] == x;
    let m = if mm < k {
        mm
    } else {
        mm + 1
    };
    assert(b[m] == x);
}

/// Sequences with the same elements agree on having distinct identities.
proof fn lemma_unique_ids_by_multiset(a: Seq<ModelEntry>, b: Seq<ModelEntry>)
    requires
        a.to_multiset() == b.to_multiset(),
        unique_ids(b),
    ensures
        unique_ids(a),
{
    broadcast use vstd::seq_lib::group_to_multiset_ensures;

    assert forall|i: int, j: int|
        0 <= i < a.len() && 0 <= j < a.len() && i != j implies #[trigger] a[i].id != #[trigger] a[j].id by {
        if a[i].id == a[j].id {
            if a[i] == a[j] {
                lemma_repeated_in_multiset(a, b, i, j);
                let (k, m) = choose|k: int, m: int|
                    0 <= k < b.len() && 0 <= m < b.len() && k != m && #[trigger] b[k] == a[i]
                        && #[trigger] b[m] == a[i];
                assert(b[k].id == b[m].id);
            } else {
                assert(a.contains(a[i]));
                assert(a.to_multiset().count(a[i]) > 0);
                assert(b.contains(a[i]));
                assert(a.contains(a[j]));
                assert(a.to_multiset().count(a[j]) > 0);
                assert(b.contains(a[j]));
                let k = choose|k: int| 0 <= k < b.len() && b[k] == a[i];
                let m = choose|m: int| 0 <= m < b.len() && b[m] == a[j];
                assert(b[k].id == b[m].id);
            }
        }
    }
}

/// A parsed snapshot ranks every identity at most once, whichever feed it came from.
pub proof fn lemma_snapshot_identities_unique(
    summary: PublicSummary,
    table: DistributedTable,
    checked_at: Timestamp,
    snap: RankedSnapshot,
)
    requires
        main_parse(summary, checked_at, Ok(snap)) || distributed_parse(table, checked_at, Ok(snap)),
    ensures
        unique_ids(snap.rankings.deep_view()),
{
    if main_parse(summary, checked_at, Ok(snap)) {
        let iq = summary.model_iq->0;
        lemma_merge_unique(main_entries(iq));
        lemma_unique_ids_by_multiset(snap.rankings.deep_view(), merge_entries(main_entries(iq)));
    } else {
        lemma_merge_unique(distributed_entries(table));
        lemma_unique_ids_by_multiset(
            snap.rankings.deep_view(),
            merge_entries(distributed_entries(table)),
        );
    }
}

/// Every merged candidate is one of the input candidates.
proof fn lemma_merge_members(s: Seq<Option<ModelEntry>>, j: int)
    requires
        0 <= j < merge_entries(s).len(),
    ensures
        exists|k: int| 0 <= k < s.len() && #[trigger] s[k] == Some(merge_entries(s)[j]),
    decreases s.len(),
{
    let prefix = s.drop_last();
    let acc = merge_entries(prefix);
    match s.last() {
        Some(e) => {
            lemma_find_id(acc, e.id, 0);
            let r = insert_entry(acc, e);
            let i = find_id(acc, e.id, 0);
            if (i < 0 && j == acc.len()) || (i >= 0 && e.score_key >= acc[i].score_key && j == i) {
                assert(r[j] == e);
                assert(s[s.len() - 1] == Some(e));
            } else {
                assert(r[j] == acc[j]);
                lemma_merge_members(prefix, j);
                let k = choose|k: int| 0 <= k < prefix.len() && #[trigger] prefix[k] == Some(acc[j]);
                assert(s[k] == prefix[k]);
            }
        },
        None => {
            lemma_merge_members(prefix, j);
            let k = choose|k: int| 0 <= k < prefix.len() && #[trigger] prefix[k] == Some(acc[j]);
            assert(s[k] == prefix[k]);
        },
    }
}

/// Every ranked model of a snapshot whose rankings hold the merged candidates of
/// `s` is one of the candidates of `s`.
proof fn lemma_ranked_member(snap: RankedSnapshot, s: Seq<Option<ModelEntry>>, i: int)
    requires
        snap.rankings.deep_view().to_multiset() == merge_entries(s).to_multiset(),
        0 <= i < snap.rankings.deep_view().len(),
    ensures
        exists|k: int| 0 <= k < s.len() && #[trigger] s[k] == Some(snap.rankings.deep_view()[i]),
{
    broadcast use vstd::seq_lib::group_to_multiset_ensures;

    let r = snap.rankings.deep_view();
    let m = merge_entries(s);
    assert(r.contains(r[i]));
    assert(r.to_multiset().count(r[i]) > 0);
    assert(m.contains(r[i]));
    let j = choose|j: int| 0 <= j < m.len() && m[j] == r[i];
    lemma_merge_members(s, j);
}

/// Each model ranked from the main feed carries the counts of the score it was
/// reported with: `model_iq.latest` for origin 0, and the latest score of
/// comparison `origin - 1` otherwise.
pub proof fn lemma_main_rankings_keep_reported_counts(
    summary: PublicSummary,
    checked_at: Timestamp,
    snap: RankedSnapshot,
    i: int,
)
    requires
        main_parse(summary, checked_at, Ok(snap)),
        0 <= i < snap.rankings@.len(),
    ensures
        ({
            let model = snap.rankings@[i];
            let iq = summary.model_iq->0;
            let reported = if model.origin == 0 {
                iq.latest
            } else {
                iq.comparisons@[model.origin - 1].latest
            };
            &&& model.origin <= iq.comparisons@.len()
            &&& reported is Some
            &&& model.passed == reported->0.passed
            &&& model.tasks == reported->0.tasks
            &&& model.valid_tasks == reported->0.valid_tasks
            &&& Some(model.score_key) == reported->0.score_key
        }),
{
    let iq = summary.model_iq->0;
    let entries = main_entries(iq);
    let r = snap.rankings.deep_view();
    lemma_ranked_member(snap, entries, i);
    let k = choose|k: int| 0 <= k < entries.len() && #[trigger] entries[k] == Some(r[i]);
    assert(entries[k] == main_entry(iq, k));
    assert(r[i] == snap.rankings@[i].deep_view());
}

/// The combo statistics over the first `n` task identifiers: every sampled task
/// lists its cell as a duration cell, and only those cells, each holding a run
/// and keyed by a task of the combo; without the ultra rule, cost cells are the
/// duration cells.
proof fn lemma_combo_stats_cells(
    table: DistributedTable,
    model: Seq<char>,
    effort: Seq<char>,
    ids: Seq<Seq<char>>,
    n: int,
)
    requires
        0 <= n <= ids.len(),
    ensures
        ({
            let st = combo_stats(table, model, effort, ids, n);
            &&& st.duration_cells.len() == st.sampled
            &&& forall|j: int|
                0 <= j < st.duration_cells.len() ==> {
                    let ci = #[trigger] st.duration_cells[j] as int;
                    &&& 0 <= ci < table.cells@.len()
                    &&& table.cells@[ci].ran_by@.len() > 0
                    &&& exists|t: int|
                        0 <= t < n && table.cells@[ci].key@ == cell_key(ids[t], model, effort)
                }
            &&& !eq_ignore_ascii_case_spec(effort, "ultra"@) ==> st.cost_cells
                == st.duration_cells
        }),
    decreases n,
{
    if n > 0 {
        lemma_combo_stats_cells(table, model, effort, ids, n - 1);
        let st = combo_stats(table, model, effort, ids, n - 1);
        let key = cell_key(ids[n - 1], model, effort);
        lemma_find_cell(table.cells@, key, 0);
        let ci = find_cell(table.cells@, key, 0);
        let next = combo_stats(table, model, effort, ids, n);
        if !(ci < 0 || table.cells@[ci].ran_by@.len() == 0) {
            assert forall|j: int| 0 <= j < next.duration_cells.len() implies {
                let c = #[trigger] next.duration_cells[j] as int;
                &&& 0 <= c < table.cells@.len()
                &&& table.cells@[c].ran_by@.len() > 0
                &&& exists|t: int|
                    0 <= t < n && table.cells@[c].key@ == cell_key(ids[t], model, effort)
            } by {
                if j < st.duration_cells.len() {
                    assert(next.duration_cells[j] == st.duration_cells[j]);
                    let c = st.duration_cells[j] as int;
                    let t = choose|t: int|
                        0 <= t < n - 1 && table.cells@[c].key@ == cell_key(ids[t], model, effort);
                    assert(0 <= t < n);
                } else {
                    assert(table.cells@.len() == table.cells.len());
                    assert(next.duration_cells[j] == ci as usize);
                    assert(next.duration_cells[j] as int == ci);
                    assert(table.cells@[ci].key@ == cell_key(ids[n - 1], model, effort));
                }
            }
        } else {
            assert forall|j: int| 0 <= j < next.duration_cells.len() implies {
                let c = #[trigger] next.duration_cells[j] as int;
                &&& 0 <= c < table.cells@.len()
                &&& table.cells@[c].ran_by@.len() > 0
                &&& exists|t: int|
                    0 <= t < n && table.cells@[c].key@ == cell_key(ids[t], model, effort)
            } by {
                let c = st.duration_cells[j] as int;
                let t = choose|t: int|
                    0 <= t < n - 1 && table.cells@[c].key@ == cell_key(ids[t], model, effort);
                assert(0 <= t < n);
            }
        }
    }
}

/// Each model ranked from the distributed feed averages the duration of every
/// sampled task, whatever its effort or cost completeness: it lists one duration
/// cell per sampled task, each a cell of one of its tasks that holds a run; its
/// cost cells are those same cells unless its effort is `ultra`, where they are
/// a part of them.
pub proof fn lemma_distributed_rankings_sample_every_duration(
    table: DistributedTable,
    checked_at: Timestamp,
    snap: RankedSnapshot,
    i: int,
)
    requires
        distributed_parse(table, checked_at, Ok(snap)),
        0 <= i < snap.rankings@.len(),
    ensures
        ({
            let model = snap.rankings@[i];
            &&& model.tasks == Some(model.duration_cells@.len() as u64)
            &&& forall|j: int|
                0 <= j < model.duration_cells@.len() ==> {
                    let ci = #[trigger] model.duration_cells@[j] as int;
                    &&& 0 <= ci < table.cells@.len()
                    &&& table.cells@[ci].ran_by@.len() > 0
                    &&& exists|task: Seq<char>|
                        table.cells@[ci].key@ == cell_key(
                            task,
                            model.model@,
                            model.reasoning_effort@,
                        )
                }
            &&& !eq_ignore_ascii_case_spec(model.reasoning_effort@, "ultra"@) ==> model.cost_cells@
                == model.duration_cells@
        }),
{
    let entries = distributed_entries(table);
    let r = snap.rankings.deep_view();
    lemma_ranked_member(snap, entries, i);
    let k = choose|k: int| 0 <= k < entries.len() && #[trigger] entries[k] == Some(r[i]);
    assert(entries[k] == combo_entry(table, k));
    assert(r[i] == snap.rankings@[i].deep_view());
    let combo = table.combos@[k];
    let m = non_empty_text(text_of(combo.model))->0;
    let e = non_empty_text(text_of(combo.effort))->0;
    let ids = task_ids(table);
    lemma_combo_stats_cells(table, m, e, ids, ids.len() as int);
    let st = combo_stats(table, m, e, ids, ids.len() as int);
    lemma_combo_stats_bounds(table, m, e, ids, ids.len() as int);
    let model = snap.rankings@[i];
    assert(model.duration_cells@ == st.duration_cells);
    assert forall|j: int| 0 <= j < model.duration_cells@.len() implies {
        let ci = #[trigger] model.duration_cells@[j] as int;
        &&& 0 <= ci < table.cells@.len()
        &&& table.cells@[ci].ran_by@.len() > 0
        &&& exists|task: Seq<char>|
            table.cells@[ci].key@ == cell_key(task, model.model@, model.reasoning_effort@)
    } by {
        assert(model.duration_cells@[j] == st.duration_cells[j]);
        let ci = st.duration_cells[j] as int;
        let t = choose|t: int|
            0 <= t < ids.len() && table.cells@[ci].key@ == cell_key(ids[t], m, e);
        assert(table.cells@[ci].key@ == cell_key(ids[t], model.model@, model.reasoning_effort@));
    }
}

/// The instant of a table is never earlier than the first `n` cells' instants
/// or the baseline, and is one of them.
proof fn lemma_latest_instant_bounds(table: DistributedTable, n: int)
    requires
        0 <= n <= table.cells@.len(),
    ensures
        ({
            let latest = latest_instant(table, n);
            &&& timestamp_of(table.baseline_generated_at) matches Some(b) ==> (latest matches Some(
                x,
            ) && !x.earlier_than(b))
            &&& forall|k: int|
                0 <= k < n ==> (timestamp_of(#[trigger] table.cells@[k].last_graded_at) matches Some(
                    c,
                ) ==> (latest matches Some(x) && !x.earlier_than(c)))
            &&& forall|k: int|
                0 <= k < n ==> (latest_run_graded_at(#[trigger] table.cells@[k]) matches Some(c) ==> (
                latest matches Some(x) && !x.earlier_than(c)))
            &&& latest matches Some(x) ==> (timestamp_of(table.baseline_generated_at) == Some(x)
                || exists|k: int|
                0 <= k < n && (timestamp_of(#[trigger] table.cells@[k].last_graded_at) == Some(x)
                    || latest_run_graded_at(table.cells@[k]) == Some(x)))
        }),
    decreases n,
{
    if n > 0 {
        lemma_latest_instant_bounds(table, n - 1);
        let cell = table.cells@[n - 1];
        assert(table.cells@[n - 1] == cell);
    }
}

/// A distributed snapshot's update instant is never earlier than any instant the
/// table names that can be read (the baseline, each cell's last grading, each
/// cell's latest run), and is one of them.
pub proof fn lemma_distributed_updated_at_is_latest(
    table: DistributedTable,
    checked_at: Timestamp,
    snap: RankedSnapshot,
)
    requires
        distributed_parse(table, checked_at, Ok(snap)),
    ensures
        timestamp_of(table.baseline_generated_at) matches Some(b) ==> !snap.updated_at.earlier_than(
            b,
        ),
        forall|k: int|
            0 <= k < table.cells@.len() ==> (timestamp_of(
                #[trigger] table.cells@[k].last_graded_at,
            ) matches Some(c) ==> !snap.updated_at.earlier_than(c)),
        forall|k: int|
            0 <= k < table.cells@.len() ==> (latest_run_graded_at(#[trigger] table.cells@[k]) matches Some(
                c,
            ) ==> !snap.updated_at.earlier_than(c)),
        timestamp_of(table.baseline_generated_at) == Some(snap.updated_at) || exists|k: int|
            0 <= k < table.cells@.len() && (timestamp_of(#[trigger] table.cells@[k].last_graded_at)
                == Some(snap.updated_at) || latest_run_graded_at(table.cells@[k]) == Some(
                snap.updated_at,
            )),
{
    lemma_latest_instant_bounds(table, table.cells@.len() as int);
}

// ---------------------------------------------------------------------------
// Either feed
// ---------------------------------------------------------------------------
/// A decoded document of one of the two feeds.
#[derive(Debug)]
pub enum DecodedPayload {
    Main(Result<PublicSummary, String>),
    Distributed(Result<DistributedTable, String>),
}

/// Parses a decoded document with the rules of the feed it belongs to.
pub fn parse_source_snapshot(payload: DecodedPayload, checked_at: Timestamp) -> (r: Result<
    RankedSnapshot,
    SourceError,
>)
    requires
        payload matches DecodedPayload::Distributed(Ok(t)) ==> t.tasks@.len() * 151 <= u64::MAX,
    ensures
        match payload {
            DecodedPayload::Main(Err(message)) | DecodedPayload::Distributed(Err(message)) => r
                == Err::<RankedSnapshot, SourceError>(SourceError::Json(message)),
            DecodedPayload::Main(Ok(s)) => main_parse(s, checked_at, r),
            DecodedPayload::Distributed(Ok(t)) => distributed_parse(t, checked_at, r),
        },
{
    match payload {
        DecodedPayload::Main(summary) => parse_snapshot(summary, checked_at),
        DecodedPayload::Distributed(table) => parse_distributed_snapshot(table, checked_at),
    }
}

} // verus!
