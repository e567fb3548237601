//! Refresh bookkeeping of the radar service: which source is active, which
//! activation a refresh belongs to, what a conditional request may send, and how a
//! fetched or unchanged payload is committed to a source's cache.
use vstd::prelude::*;
use crate::domain::{RadarSource, Timestamp};
use crate::source::{
    source_error_kind, source_error_message, SourceError, DISTRIBUTED_TABLE_URL,
    PUBLIC_SUMMARY_URL,
};
use crate::text::{decimal, owned, push_decimal, push_text, text_eq};

verus! {

/// Largest accepted body of the main feed, in bytes.
pub const MAIN_MAX_RESPONSE_BYTES: usize = 524288;

/// Largest accepted body of the distributed feed, in bytes.
pub const DISTRIBUTED_MAX_RESPONSE_BYTES: usize = 4194304;

/// Seconds between two polls of the main feed.
pub const MAIN_POLL_INTERVAL_SECS: u64 = 300;

/// Seconds between two polls of the distributed feed.
pub const DISTRIBUTED_POLL_INTERVAL_SECS: u64 = 60;

/// The HTTP status of a not-modified answer.
pub const STATUS_NOT_MODIFIED: u16 = 304;

// ---------------------------------------------------------------------------
// Errors
// ---------------------------------------------------------------------------
/// Why a refresh failed.
#[derive(Debug, Clone, PartialEq, Eq)]
pub enum RadarError {
    Network(String),
    Http(u16),
    Source(SourceError),
    StalePayload,
    NoCachedSnapshot,
    ResponseTooLarge(usize),
}

/// The stable kind string reported for each refresh error.
pub open spec fn radar_error_kind(e: RadarError) -> Seq<char> {
    match e {
        RadarError::Network(_) => "network"@,
        RadarError::Http(_) => "http"@,
        RadarError::Source(inner) => source_error_kind(inner),
        RadarError::StalePayload => "stale_payload"@,
        RadarError::NoCachedSnapshot => "no_cache"@,
        RadarError::ResponseTooLarge(_) => "response_too_large"@,
    }
}

impl RadarError {
    /// The stable kind string of this error.
    pub fn kind(&self) -> (r: &'static str)
        ensures
            r@ == radar_error_kind(*self),
    {
        match self {
            RadarError::Network(_) => "network",
            RadarError::Http(_) => "http",
            RadarError::Source(inner) => inner.kind(),
            RadarError::StalePayload => "stale_payload",
            RadarError::NoCachedSnapshot => "no_cache",
            RadarError::ResponseTooLarge(_) => "response_too_large",
        }
    }
}

/// The message reported for each refresh error.
pub open spec fn radar_error_message(e: RadarError) -> Seq<char> {
    match e {
        RadarError::Network(m) => "network request failed: "@ + m@,
        RadarError::Http(status) => "source returned HTTP "@ + decimal(status as nat),
        RadarError::Source(inner) => source_error_message(inner),
        RadarError::StalePayload => "source payload is older than the current snapshot"@,
        RadarError::NoCachedSnapshot => "source returned not-modified before a snapshot was cached"@,
        RadarError::ResponseTooLarge(limit) => "source response exceeded the "@ + decimal(
            limit as nat,
        ) + " byte limit"@,
    }
}

impl RadarError {
    /// The message reported for this error.
    pub fn message(&self) -> (r: String)
        ensures
            r@ == radar_error_message(*self),
    {
        match self {
            RadarError::Network(m) => {
                let mut out = owned("network request failed: ");
                push_text(&mut out, m.as_str());
                out
            },
            RadarError::Http(status) => {
                let mut out = owned("source returned HTTP ");
                push_decimal(&mut out, *status as u64);
                out
            },
            RadarError::Source(inner) => inner.message(),
            RadarError::StalePayload => owned("source payload is older than the current snapshot"),
            RadarError::NoCachedSnapshot => owned(
                "source returned not-modified before a snapshot was cached",
            ),
            RadarError::ResponseTooLarge(limit) => {
                let mut out = owned("source response exceeded the ");
                push_decimal(&mut out, *limit as u64);
                push_text(&mut out, " byte limit");
                out
            },
        }
    }

    /// The failure reported to the user interface for a refresh of `source`
    /// that failed at `occurred_at`.
    pub fn as_failure(&self, source: RadarSource, occurred_at: Timestamp) -> (r: RefreshFailure)
        ensures
            r.source == source,
            r.kind@ == radar_error_kind(*self),
            r.message@ == radar_error_message(*self),
            r.occurred_at == occurred_at,
    {
        RefreshFailure {
            source,
            kind: owned(self.kind()),
            message: self.message(),
            occurred_at,
        }
    }
}

/// A failed refresh as the user interface sees it.
#[derive(Debug, Clone, PartialEq, Eq)]
pub struct RefreshFailure {
    pub source: RadarSource,
    pub kind: String,
    pub message: String,
    pub occurred_at: Timestamp,
}

impl RefreshFailure {
    /// The failure of a refresh whose activation was replaced at `occurred_at`.
    pub fn superseded(source: RadarSource, occurred_at: Timestamp) -> (r: Self)
        ensures
            r.source == source,
            r.kind@ == "superseded"@,
            r.message@ == "refresh was superseded by a newer source selection"@,
            r.occurred_at == occurred_at,
    {
        RefreshFailure {
            source,
            kind: owned("superseded"),
            message: owned("refresh was superseded by a newer source selection"),
            occurred_at,
        }
    }
}

// ---------------------------------------------------------------------------
// Activations
// ---------------------------------------------------------------------------
/// Identifies one activation of a source: refreshes carry the token they started with.
#[derive(Debug, Clone, Copy, PartialEq, Eq, Structural)]
pub struct RefreshToken {
    pub source: RadarSource,
    pub generation: u64,
}

/// The active source and the latest activation generation of each source.
#[derive(Debug, Clone, Copy, PartialEq, Eq, Structural)]
pub struct ActiveSource {
    pub token: RefreshToken,
    pub latest_main_generation: Option<u64>,
    pub latest_distributed_generation: Option<u64>,
    pub notification_baseline_ready: bool,
}

impl ActiveSource {
    /// The latest activation generation recorded for a source.
    pub open spec fn latest_for(self, source: RadarSource) -> Option<u64> {
        match source {
            RadarSource::Main => self.latest_main_generation,
            RadarSource::Distributed => self.latest_distributed_generation,
        }
    }

    /// The bookkeeping is consistent: the active token is its source's latest
    /// activation, and no recorded generation is ahead of the active one.
    pub open spec fn wf(self) -> bool {
        &&& self.latest_for(self.token.source) == Some(self.token.generation)
        &&& self.latest_main_generation matches Some(g) ==> g <= self.token.generation
        &&& self.latest_distributed_generation matches Some(g) ==> g <= self.token.generation
    }

    /// The state that follows selecting `source`.
    pub open spec fn selected(self, source: RadarSource) -> ActiveSource {
        if self.token.source == source {
            self
        } else {
            let generation = if self.token.generation == u64::MAX {
                0
            } else {
                (self.token.generation + 1) as u64
            };
            ActiveSource {
                token: RefreshToken { source, generation },
                latest_main_generation: if source == RadarSource::Main {
                    Some(generation)
                } else {
                    self.latest_main_generation
                },
                latest_distributed_generation: if source == RadarSource::Distributed {
                    Some(generation)
                } else {
                    self.latest_distributed_generation
                },
                notification_baseline_ready: false,
            }
        }
    }

    /// Whether `token` is the latest activation of its source.
    pub open spec fn latest(self, token: RefreshToken) -> bool {
        self.latest_for(token.source) == Some(token.generation)
    }

    /// The state of a service that starts with `source` active.
    pub fn new(source: RadarSource) -> (r: Self)
        ensures
            r.token == (RefreshToken { source, generation: 0 }),
            r.latest_main_generation == (if source == RadarSource::Main {
                Some(0u64)
            } else {
                None
            }),
            r.latest_distributed_generation == (if source == RadarSource::Distributed {
                Some(0u64)
            } else {
                None
            }),
            !r.notification_baseline_ready,
            r.wf(),
    {
        ActiveSource {
            token: RefreshToken { source, generation: 0 },
            latest_main_generation: match source {
                RadarSource::Main => Some(0),
                RadarSource::Distributed => None,
            },
            latest_distributed_generation: match source {
                RadarSource::Main => None,
                RadarSource::Distributed => Some(0),
            },
            notification_baseline_ready: false,
        }
    }

    /// Makes `source` active; a different source starts a new activation.
    /// Returns whether anything changed.
    pub fn select(&mut self, source: RadarSource) -> (changed: bool)
        ensures
            *final(self) == old(self).selected(source),
            changed == (old(self).token.source != source),
    {
        if self.token.source == source {
            return false;
        }
        let generation = self.token.generation.wrapping_add(1);
        self.token = RefreshToken { source, generation };
        match source {
            RadarSource::Main => self.latest_main_generation = Some(generation),
            RadarSource::Distributed => self.latest_distributed_generation = Some(generation),
        }
        self.notification_baseline_ready = false;
        true
    }

    /// Whether `token` is still the latest activation of its source.
    pub fn is_latest_activation(&self, token: RefreshToken) -> (r: bool)
        ensures
            r == self.latest(token),
    {
        let latest = match token.source {
            RadarSource::Main => self.latest_main_generation,
            RadarSource::Distributed => self.latest_distributed_generation,
        };
        match latest {
            Some(generation) => generation == token.generation,
            None => false,
        }
    }

    /// Decides whether a requested leader notification is shown: never for the
    /// first snapshot published in an activation.
    pub fn accept_leader_change(&mut self, requested: bool) -> (accepted: bool)
        ensures
            accepted == (old(self).notification_baseline_ready && requested),
            final(self).notification_baseline_ready,
            final(self).token == old(self).token,
            final(self).latest_main_generation == old(self).latest_main_generation,
            final(self).latest_distributed_generation == old(
                self,
            ).latest_distributed_generation,
    {
        let accepted = self.notification_baseline_ready && requested;
        self.notification_baseline_ready = true;
        accepted
    }
}

/// Selecting a source keeps the bookkeeping consistent, makes the active token
/// the latest activation, and (before the generation counter wraps) leaves every
/// older activation superseded for good.
pub proof fn lemma_select_supersedes(active: ActiveSource, source: RadarSource, old_token: RefreshToken)
    requires
        active.wf(),
        active.token.generation < u64::MAX,
        old_token.generation <= active.token.generation,
        !active.latest(old_token),
    ensures
        active.selected(source).wf(),
        active.selected(source).latest(active.selected(source).token),
        !active.selected(source).latest(old_token),
{
}

/// Once an activation has been replaced by another source's, returning to the
/// first source starts a new activation: the old token is no longer the latest.
pub proof fn lemma_reselect_supersedes(active: ActiveSource, other: RadarSource)
    requires
        active.wf(),
        active.token.generation < u64::MAX - 1,
        other != active.token.source,
    ensures
        !active.selected(other).selected(active.token.source).latest(active.token),
        active.selected(other).selected(active.token.source).token.source == active.token.source,
{
}

/// The first leader change offered after any activation is never accepted.
pub proof fn lemma_first_leader_change_is_suppressed(active: ActiveSource, source: RadarSource)
    requires
        active.token.source != source,
    ensures
        !active.selected(source).notification_baseline_ready,
{
}

/// A refresh result is published only for the activation that is still active.
pub fn should_publish(active: RefreshToken, captured: RefreshToken) -> (r: bool)
    ensures
        r == (active == captured),
{
    active.source == captured.source && active.generation == captured.generation
}

// ---------------------------------------------------------------------------
// Request policy
// ---------------------------------------------------------------------------
/// The URL each source is fetched from.
pub open spec fn endpoint_text(source: RadarSource) -> Seq<char> {
    match source {
        RadarSource::Main => PUBLIC_SUMMARY_URL@,
        RadarSource::Distributed => DISTRIBUTED_TABLE_URL@,
    }
}

/// The URL a source is fetched from.
pub fn endpoint(source: RadarSource) -> (r: &'static str)
    ensures
        r@ == endpoint_text(source),
{
    match source {
        RadarSource::Main => PUBLIC_SUMMARY_URL,
        RadarSource::Distributed => DISTRIBUTED_TABLE_URL,
    }
}

/// The largest body accepted from each source, in bytes.
pub open spec fn response_limit_of(source: RadarSource) -> usize {
    match source {
        RadarSource::Main => MAIN_MAX_RESPONSE_BYTES,
        RadarSource::Distributed => DISTRIBUTED_MAX_RESPONSE_BYTES,
    }
}

/// The largest body accepted from a source, in bytes.
pub fn response_limit(source: RadarSource) -> (r: usize)
    ensures
        r == response_limit_of(source),
{
    match source {
        RadarSource::Main => MAIN_MAX_RESPONSE_BYTES,
        RadarSource::Distributed => DISTRIBUTED_MAX_RESPONSE_BYTES,
    }
}

/// The polling interval of a source, in seconds.
pub fn poll_interval(source: RadarSource) -> (r: u64)
    ensures
        r == (match source {
            RadarSource::Main => MAIN_POLL_INTERVAL_SECS,
            RadarSource::Distributed => DISTRIBUTED_POLL_INTERVAL_SECS,
        }),
{
    match source {
        RadarSource::Main => MAIN_POLL_INTERVAL_SECS,
        RadarSource::Distributed => DISTRIBUTED_POLL_INTERVAL_SECS,
    }
}

/// A cache validator a response carried.
#[derive(Debug, Clone, PartialEq, Eq)]
pub enum CacheValidator {
    Etag(String),
    LastModified(String),
}

/// A conditional request header.
#[derive(Debug, Clone, PartialEq, Eq)]
pub enum ConditionalHeader {
    IfNoneMatch(String),
    IfModifiedSince(String),
}

impl CacheValidator {
    /// The conditional header this validator allows for a source: an entity tag
    /// only for the main feed, a modification date only for the distributed one.
    pub fn for_request(&self, source: RadarSource) -> (r: Option<ConditionalHeader>)
        ensures
            match (source, *self) {
                (RadarSource::Main, CacheValidator::Etag(v)) => r matches Some(
                    ConditionalHeader::IfNoneMatch(h),
                ) && h@ == v@,
                (RadarSource::Distributed, CacheValidator::LastModified(v)) => r matches Some(
                    ConditionalHeader::IfModifiedSince(h),
                ) && h@ == v@,
                _ => r is None,
            },
    {
        match (source, self) {
            (RadarSource::Main, CacheValidator::Etag(value)) => Some(
                ConditionalHeader::IfNoneMatch(value.clone()),
            ),
            (RadarSource::Distributed, CacheValidator::LastModified(value)) => Some(
                ConditionalHeader::IfModifiedSince(value.clone()),
            ),
            _ => None,
        }
    }

    /// The validator a response gives a source: its `ETag` for the main feed,
    /// its `Last-Modified` for the distributed one (each `None` when the header is
    /// absent or not visible ASCII).
    pub fn from_response(
        source: RadarSource,
        etag: Option<String>,
        last_modified: Option<String>,
    ) -> (r: Option<CacheValidator>)
        ensures
            r == (match source {
                RadarSource::Main => match etag {
                    Some(v) => Some(CacheValidator::Etag(v)),
                    None => None,
                },
                RadarSource::Distributed => match last_modified {
                    Some(v) => Some(CacheValidator::LastModified(v)),
                    None => None,
                },
            }),
    {
        match source {
            RadarSource::Main => match etag {
                Some(v) => Some(CacheValidator::Etag(v)),
                None => None,
            },
            RadarSource::Distributed => match last_modified {
                Some(v) => Some(CacheValidator::LastModified(v)),
                None => None,
            },
        }
    }
}

/// What to do with a response once its status and announced length are known.
#[derive(Debug, Clone, Copy, PartialEq, Eq, Structural)]
pub enum ResponsePlan {
    /// The source's cache is still current.
    NotModified,
    /// Read the body, up to `limit` bytes, reserving `capacity` bytes.
    Read { limit: usize, capacity: usize },
}

/// Decides how a response is handled: not-modified, an HTTP error, too large by
/// its announced length, or to be read within the source's limit.
pub fn plan_response(source: RadarSource, status: u16, content_length: Option<u64>) -> (r: Result<
    ResponsePlan,
    RadarError,
>)
    ensures
        status == STATUS_NOT_MODIFIED ==> r == Ok::<ResponsePlan, RadarError>(
            ResponsePlan::NotModified,
        ),
        status != STATUS_NOT_MODIFIED && !(200 <= status <= 299) ==> r == Err::<
            ResponsePlan,
            RadarError,
        >(RadarError::Http(status)),
        status != STATUS_NOT_MODIFIED && 200 <= status <= 299 ==> (match content_length {
            Some(n) => if n > response_limit_of(source) {
                r == Err::<ResponsePlan, RadarError>(
                    RadarError::ResponseTooLarge(response_limit_of(source)),
                )
            } else {
                r == Ok::<ResponsePlan, RadarError>(
                    ResponsePlan::Read { limit: response_limit_of(source), capacity: n as usize },
                )
            },
            None => r == Ok::<ResponsePlan, RadarError>(
                ResponsePlan::Read { limit: response_limit_of(source), capacity: 0 },
            ),
        }),
{
    if status == STATUS_NOT_MODIFIED {
        return Ok(ResponsePlan::NotModified);
    }
    if !(200 <= status && status <= 299) {
        return Err(RadarError::Http(status));
    }
    let limit = response_limit(source);
    match content_length {
        Some(n) => {
            if n > limit as u64 {
                Err(RadarError::ResponseTooLarge(limit))
            } else {
                Ok(ResponsePlan::Read { limit, capacity: n as usize })
            }
        },
        None => Ok(ResponsePlan::Read { limit, capacity: 0 }),
    }
}

/// Appends a body chunk unless the body would exceed `limit` bytes.
pub fn append_limited(buffer: &mut Vec<u8>, chunk: &[u8], limit: usize) -> (r: Result<
    (),
    RadarError,
>)
    requires
        old(buffer)@.len() + chunk@.len() <= usize::MAX,
    ensures
        old(buffer)@.len() + chunk@.len() > limit ==> r == Err::<(), RadarError>(
            RadarError::ResponseTooLarge(limit),
        ) && final(buffer)@ == old(buffer)@,
        old(buffer)@.len() + chunk@.len() <= limit ==> r == Ok::<(), RadarError>(())
            && final(buffer)@ == old(buffer)@ + chunk@,
{
    let total = buffer.len() + chunk.len();
    if total > limit {
        return Err(RadarError::ResponseTooLarge(limit));
    }
    let ghost start = buffer@;
    let mut i: usize = 0;
    while i < chunk.len()
        invariant
            i <= chunk@.len(),
            buffer@ == start + chunk@.subrange(0, i as int),
        decreases chunk.len() - i,
    {
        buffer.push(chunk[i]);
        assert(chunk@.subrange(0, i + 1) =~= chunk@.subrange(0, i as int).push(chunk@[i as int]));
        i = i + 1;
    }
    assert(chunk@.subrange(0, chunk@.len() as int) =~= chunk@);
    Ok(())
}

// ---------------------------------------------------------------------------
// Leader comparison
// ---------------------------------------------------------------------------
/// Whether the set of leaders differs from the previous snapshot's (there is no
/// change without a previous snapshot; order and repetition do not matter).
pub open spec fn leaders_changed(previous: Option<Seq<Seq<char>>>, next: Seq<Seq<char>>) -> bool {
    match previous {
        Some(p) => p.to_set() != next.to_set(),
        None => false,
    }
}

fn contains_text(list: &Vec<String>, item: &String) -> (r: bool)
    ensures
        r == list.deep_view().contains(item@),
{
    let ghost v = list.deep_view();
    let mut i: usize = 0;
    while i < list.len()
        invariant
            i <= list.len(),
            v == list.deep_view(),
            forall|k: int| 0 <= k < i ==> v[k] != item@,
        decreases list.len() - i,
    {
        assert(v[i as int] == list[i as int]@);
        if text_eq(list[i].as_str(), item.as_str()) {
            return true;
        }
        i = i + 1;
    }
    false
}

fn all_contained(items: &Vec<String>, list: &Vec<String>) -> (r: bool)
    ensures
        r == (forall|x: Seq<char>| items.deep_view().contains(x) ==> list.deep_view().contains(x)),
{
    let ghost v = items.deep_view();
    let mut i: usize = 0;
    while i < items.len()
        invariant
            i <= items.len(),
            v == items.deep_view(),
            forall|k: int| 0 <= k < i ==> list.deep_view().contains(#[trigger] v[k]),
        decreases items.len() - i,
    {
        assert(v[i as int] == items[i as int]@);
        if !contains_text(list, &items[i]) {
            return false;
        }
        i = i + 1;
    }
    true
}

/// Whether the leader set changed compared to the previous snapshot.
pub fn leader_ids_changed(previous: Option<&Vec<String>>, next: &Vec<String>) -> (r: bool)
    ensures
        r == leaders_changed(
            match previous {
                Some(p) => Some(p.deep_view()),
                None => None,
            },
            next.deep_view(),
        ),
{
    match previous {
        None => false,
        Some(p) => {
            let forward = all_contained(p, next);
            let backward = all_contained(next, p);
            proof {
                if forward && backward {
                    assert(p.deep_view().to_set() =~= next.deep_view().to_set());
                } else if !forward {
                    let x = choose|x: Seq<char>|
                        p.deep_view().contains(x) && !next.deep_view().contains(x);
                    assert(p.deep_view().to_set().contains(x));
                } else {
                    let x = choose|x: Seq<char>|
                        next.deep_view().contains(x) && !p.deep_view().contains(x);
                    assert(next.deep_view().to_set().contains(x));
                }
            }
            !(forward && backward)
        },
    }
}

/// The positions, among the first `n` identities of a ranking, of those that are
/// leaders.
pub open spec fn leader_positions_upto(ids: Seq<Seq<char>>, leaders: Seq<Seq<char>>, n: int) -> Seq<
    usize,
>
    decreases n,
{
    if n <= 0 {
        Seq::empty()
    } else {
        let before = leader_positions_upto(ids, leaders, n - 1);
        if leaders.contains(ids[n - 1]) {
            before.push((n - 1) as usize)
        } else {
            before
        }
    }
}

/// Which ranked models a leader notification speaks of: given the identities of
/// a ranking in order, the positions of those that are among the leaders.
pub fn leader_positions(ranking_ids: &Vec<String>, leader_ids: &Vec<String>) -> (positions: Vec<
    usize,
>)
    ensures
        positions@ == leader_positions_upto(
            ranking_ids.deep_view(),
            leader_ids.deep_view(),
            ranking_ids.deep_view().len() as int,
        ),
{
    let ghost ids = ranking_ids.deep_view();
    let mut positions: Vec<usize> = Vec::new();
    let mut k: usize = 0;
    while k < ranking_ids.len()
        invariant
            k <= ranking_ids.len(),
            ids == ranking_ids.deep_view(),
            positions@ == leader_positions_upto(ids, leader_ids.deep_view(), k as int),
        decreases ranking_ids.len() - k,
    {
        assert(ids[k as int] == ranking_ids[k as int]@);
        if contains_text(leader_ids, &ranking_ids[k]) {
            positions.push(k);
        }
        k = k + 1;
    }
    positions
}

// ---------------------------------------------------------------------------
// Per-source cache
// ---------------------------------------------------------------------------
/// A cached snapshot: what the commit rules read, and the rest as `body`.
#[derive(Debug, Clone, PartialEq, Eq)]
pub struct CachedSnapshot<S> {
    pub updated_at: Timestamp,
    pub checked_at: Timestamp,
    pub leader_ids: Vec<String>,
    pub body: S,
}

/// The cache of one source.
#[derive(Debug, Clone, PartialEq, Eq)]
pub struct SourceState<S> {
    pub snapshot: Option<CachedSnapshot<S>>,
    pub validator: Option<CacheValidator>,
}

impl<S> SourceState<S> {
    /// An empty cache.
    pub fn new() -> (r: Self)
        ensures
            r.snapshot is None,
            r.validator is None,
    {
        SourceState { snapshot: None, validator: None }
    }
}

/// The result of committing a freshly fetched snapshot.
#[derive(Debug, Clone, PartialEq, Eq)]
pub enum SnapshotCommit<S> {
    /// The refresh belonged to a superseded activation: nothing was cached and
    /// the snapshot is handed back.
    Detached(CachedSnapshot<S>),
    /// The snapshot replaced the cache; whether its leader set differs.
    Stored { leader_changed: bool },
}

/// Records a not-modified answer.  For the latest activation the cached snapshot
/// is stamped with `checked_at` and takes the new validator (if one came); a
/// superseded activation changes nothing.  Either way a cached snapshot must exist.
pub fn commit_not_modified<S>(
    state: &mut SourceState<S>,
    active: &ActiveSource,
    token: RefreshToken,
    next_validator: Option<CacheValidator>,
    checked_at: Timestamp,
) -> (r: Result<(), RadarError>)
    ensures
        old(state).snapshot is None ==> r == Err::<(), RadarError>(RadarError::NoCachedSnapshot)
            && *final(state) == *old(state),
        old(state).snapshot is Some && !active.latest(token) ==> r == Ok::<(), RadarError>(())
            && *final(state) == *old(state),
        old(state).snapshot is Some && active.latest(token) ==> {
            &&& r == Ok::<(), RadarError>(())
            &&& final(state).snapshot == Some(
                CachedSnapshot { checked_at, ..old(state).snapshot->0 },
            )
            &&& final(state).validator == (match next_validator {
                Some(v) => Some(v),
                None => old(state).validator,
            })
        },
{
    if state.snapshot.is_none() {
        return Err(RadarError::NoCachedSnapshot);
    }
    if !active.is_latest_activation(token) {
        return Ok(());
    }
    let current = state.snapshot.take();
    match current {
        Some(snapshot) => {
            state.snapshot = Some(CachedSnapshot { checked_at, ..snapshot });
        },
        None => {},
    }
    match next_validator {
        Some(v) => {
            state.validator = Some(v);
        },
        None => {},
    }
    Ok(())
}

/// Commits a freshly fetched snapshot.  A superseded activation hands it back
/// untouched; an older payload than the cached one is refused; otherwise it
/// replaces the cache with its validator and reports whether the leaders changed.
pub fn commit_snapshot<S>(
    state: &mut SourceState<S>,
    active: &ActiveSource,
    token: RefreshToken,
    next: CachedSnapshot<S>,
    next_validator: Option<CacheValidator>,
) -> (r: Result<SnapshotCommit<S>, RadarError>)
    ensures
        !active.latest(token) ==> r == Ok::<SnapshotCommit<S>, RadarError>(
            SnapshotCommit::Detached(next),
        ) && *final(state) == *old(state),
        active.latest(token) && (old(state).snapshot matches Some(current)
            && next.updated_at.earlier_than(current.updated_at)) ==> r == Err::<
            SnapshotCommit<S>,
            RadarError,
        >(RadarError::StalePayload) && *final(state) == *old(state),
        active.latest(token) && !(old(state).snapshot matches Some(current)
            && next.updated_at.earlier_than(current.updated_at)) ==> {
            &&& r == Ok::<SnapshotCommit<S>, RadarError>(
                SnapshotCommit::Stored {
                    leader_changed: leaders_changed(
                        match old(state).snapshot {
                            Some(c) => Some(c.leader_ids.deep_view()),
                            None => None,
                        },
                        next.leader_ids.deep_view(),
                    ),
                },
            )
            &&& final(state).snapshot == Some(next)
            &&& final(state).validator == next_validator
        },
{
    if !active.is_latest_activation(token) {
        return Ok(SnapshotCommit::Detached(next));
    }
    let (stale, leader_changed) = match &state.snapshot {
        Some(current) => (
            next.updated_at.is_earlier_than(&current.updated_at),
            leader_ids_changed(Some(&current.leader_ids), &next.leader_ids),
        ),
        None => (false, leader_ids_changed(None, &next.leader_ids)),
    };
    if stale {
        return Err(RadarError::StalePayload);
    }
    state.snapshot = Some(next);
    state.validator = next_validator;
    Ok(SnapshotCommit::Stored { leader_changed })
}

} // verus!
