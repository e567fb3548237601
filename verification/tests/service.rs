use model_radar::domain::{RadarSource, Timestamp};
use model_radar::service::{
    append_limited, commit_not_modified, commit_snapshot, endpoint, leader_ids_changed,
    plan_response, poll_interval, response_limit, should_publish, ActiveSource, CacheValidator,
    CachedSnapshot, ConditionalHeader, RadarError, RefreshFailure, RefreshToken, ResponsePlan,
    SnapshotCommit, SourceState, DISTRIBUTED_MAX_RESPONSE_BYTES, MAIN_MAX_RESPONSE_BYTES,
};
use model_radar::source::{SourceError, DISTRIBUTED_TABLE_URL, PUBLIC_SUMMARY_URL};

fn ids(values: &[&str]) -> Vec<String> {
    values.iter().map(|value| (*value).to_owned()).collect()
}

fn token(source: RadarSource, generation: u64) -> RefreshToken {
    RefreshToken { source, generation }
}

fn instant(text: &str) -> Timestamp {
    let parsed = chrono::DateTime::parse_from_rfc3339(text).unwrap();
    Timestamp {
        seconds: parsed.timestamp(),
        nanos: parsed.timestamp_subsec_nanos(),
        offset_seconds: parsed.offset().local_minus_utc(),
    }
}

fn snapshot(source: RadarSource, updated_at: &str, leader_ids: &[&str]) -> CachedSnapshot<RadarSource> {
    CachedSnapshot {
        updated_at: instant(updated_at),
        checked_at: instant("2026-07-20T12:00:00Z"),
        leader_ids: ids(leader_ids),
        body: source,
    }
}

#[test]
fn first_snapshot_does_not_count_as_a_leader_change() {
    assert!(!leader_ids_changed(None, &ids(&["gpt:max"])));
}

#[test]
fn leader_comparison_uses_a_set_not_payload_order() {
    assert!(!leader_ids_changed(
        Some(&ids(&["gpt:max", "gpt:xhigh"])),
        &ids(&["gpt:xhigh", "gpt:max"]),
    ));
    assert!(leader_ids_changed(
        Some(&ids(&["gpt:max"])),
        &ids(&["gpt:xhigh"]),
    ));
}

#[test]
fn repeated_leaders_count_once() {
    assert!(!leader_ids_changed(
        Some(&ids(&["gpt:max", "gpt:max"])),
        &ids(&["gpt:max"]),
    ));
    assert!(leader_ids_changed(
        Some(&ids(&["gpt:max"])),
        &ids(&["gpt:max", "gpt:xhigh"]),
    ));
}

#[test]
fn older_source_timestamps_are_rejected() {
    let current = instant("2026-07-19T21:56:42+08:00");
    let older = instant("2026-07-19T20:00:00+08:00");
    assert!(older.is_earlier_than(&current));
    assert!(!current.is_earlier_than(&current));
    assert!(!instant("2026-07-19T13:56:42Z").is_earlier_than(&current));
}

#[test]
fn request_policy_is_source_specific() {
    assert_eq!(endpoint(RadarSource::Main), PUBLIC_SUMMARY_URL);
    assert_eq!(endpoint(RadarSource::Distributed), DISTRIBUTED_TABLE_URL);
    assert_eq!(response_limit(RadarSource::Main), 512 * 1024);
    assert_eq!(response_limit(RadarSource::Distributed), 4 * 1024 * 1024);
    assert_eq!(poll_interval(RadarSource::Main), 300);
    assert_eq!(poll_interval(RadarSource::Distributed), 60);
}

#[test]
fn validators_never_cross_source_request_headers() {
    let etag = CacheValidator::Etag("main-tag".to_owned());
    assert_eq!(
        etag.for_request(RadarSource::Main),
        Some(ConditionalHeader::IfNoneMatch("main-tag".to_owned()))
    );
    assert_eq!(etag.for_request(RadarSource::Distributed), None);

    let modified = CacheValidator::LastModified("Sun, 19 Jul 2026 10:00:00 GMT".to_owned());
    assert_eq!(modified.for_request(RadarSource::Main), None);
    assert_eq!(
        modified.for_request(RadarSource::Distributed),
        Some(ConditionalHeader::IfModifiedSince(
            "Sun, 19 Jul 2026 10:00:00 GMT".to_owned()
        ))
    );
}

#[test]
fn response_validators_are_selected_by_source() {
    let etag = Some("main-tag".to_owned());
    let last_modified = Some("Sun, 19 Jul 2026 10:00:00 GMT".to_owned());

    assert_eq!(
        CacheValidator::from_response(RadarSource::Main, etag.clone(), last_modified.clone()),
        Some(CacheValidator::Etag("main-tag".to_owned()))
    );
    assert_eq!(
        CacheValidator::from_response(RadarSource::Distributed, etag, last_modified),
        Some(CacheValidator::LastModified(
            "Sun, 19 Jul 2026 10:00:00 GMT".to_owned()
        ))
    );
    assert_eq!(
        CacheValidator::from_response(RadarSource::Main, None, Some("date".to_owned())),
        None
    );
}

#[test]
fn response_chunks_use_the_selected_source_limit() {
    let mut main = vec![0; MAIN_MAX_RESPONSE_BYTES];
    assert!(matches!(
        append_limited(&mut main, &[1], MAIN_MAX_RESPONSE_BYTES),
        Err(RadarError::ResponseTooLarge(MAIN_MAX_RESPONSE_BYTES))
    ));
    assert_eq!(main.len(), MAIN_MAX_RESPONSE_BYTES);

    let mut distributed = vec![0; MAIN_MAX_RESPONSE_BYTES];
    append_limited(&mut distributed, &[1], DISTRIBUTED_MAX_RESPONSE_BYTES).unwrap();
    assert_eq!(distributed.len(), MAIN_MAX_RESPONSE_BYTES + 1);
    assert_eq!(distributed[MAIN_MAX_RESPONSE_BYTES], 1);
}

#[test]
fn responses_are_planned_by_status_and_announced_length() {
    assert_eq!(plan_response(RadarSource::Main, 304, None), Ok(ResponsePlan::NotModified));
    assert_eq!(
        plan_response(RadarSource::Main, 404, Some(10)),
        Err(RadarError::Http(404))
    );
    assert_eq!(
        plan_response(RadarSource::Main, 200, Some(600_000)),
        Err(RadarError::ResponseTooLarge(MAIN_MAX_RESPONSE_BYTES))
    );
    assert_eq!(
        plan_response(RadarSource::Distributed, 200, Some(600_000)),
        Ok(ResponsePlan::Read {
            limit: DISTRIBUTED_MAX_RESPONSE_BYTES,
            capacity: 600_000
        })
    );
    assert_eq!(
        plan_response(RadarSource::Main, 204, None),
        Ok(ResponsePlan::Read {
            limit: MAIN_MAX_RESPONSE_BYTES,
            capacity: 0
        })
    );
}

#[test]
fn activation_epoch_suppresses_its_first_leader_notification() {
    let mut active = ActiveSource::new(RadarSource::Main);
    assert!(!active.accept_leader_change(true));
    assert!(active.accept_leader_change(true));

    assert!(!active.select(RadarSource::Main));
    assert!(active.accept_leader_change(true));

    assert!(active.select(RadarSource::Distributed));
    assert!(!active.accept_leader_change(true));
    assert!(active.accept_leader_change(true));
}

#[test]
fn selecting_a_source_starts_a_new_activation() {
    let mut active = ActiveSource::new(RadarSource::Main);
    let before = active.token;
    assert!(active.select(RadarSource::Distributed));
    assert_eq!(active.token, token(RadarSource::Distributed, before.generation + 1));
    assert!(active.is_latest_activation(active.token));
    assert!(active.is_latest_activation(before));
    assert!(!active.is_latest_activation(token(RadarSource::Main, 7)));
    assert!(active.select(RadarSource::Main));
    assert_eq!(active.token, token(RadarSource::Main, before.generation + 2));
    assert!(!active.is_latest_activation(before));
}

#[test]
fn reactivated_source_rejects_commits_from_its_old_epoch() {
    let mut active = ActiveSource::new(RadarSource::Main);
    let old_main = active.token;
    let baseline = snapshot(RadarSource::Main, "2026-07-20T00:00:00Z", &["main:max"]);
    let mut main_state = SourceState::new();
    main_state.snapshot = Some(baseline.clone());

    active.select(RadarSource::Distributed);
    active.select(RadarSource::Main);
    let new_main = active.token;
    assert_ne!(old_main, new_main);
    assert_eq!(old_main.source, new_main.source);

    let late = snapshot(RadarSource::Main, "2026-07-20T01:00:00Z", &["old-epoch:max"]);
    let result = commit_snapshot(
        &mut main_state,
        &active,
        old_main,
        late.clone(),
        Some(CacheValidator::Etag("old-epoch".to_owned())),
    );
    assert_eq!(result, Ok(SnapshotCommit::Detached(late)));
    assert_eq!(main_state.snapshot.as_ref(), Some(&baseline));
    assert_eq!(main_state.validator, None);
}

#[test]
fn old_epoch_stays_superseded_after_reactivated_source_is_deselected_again() {
    let mut active = ActiveSource::new(RadarSource::Main);
    let old_main = active.token;
    let baseline = snapshot(RadarSource::Main, "2026-07-20T00:00:00Z", &["main:max"]);
    let mut main_state = SourceState::new();
    main_state.snapshot = Some(baseline.clone());
    main_state.validator = Some(CacheValidator::Etag("baseline".to_owned()));

    active.select(RadarSource::Distributed);
    active.select(RadarSource::Main);
    let current_main = active.token;
    active.select(RadarSource::Distributed);

    commit_snapshot(
        &mut main_state,
        &active,
        old_main,
        snapshot(RadarSource::Main, "2026-07-20T01:00:00Z", &["old-epoch:max"]),
        Some(CacheValidator::Etag("old-epoch".to_owned())),
    )
    .unwrap();
    assert_eq!(main_state.snapshot.as_ref(), Some(&baseline));
    assert_eq!(
        main_state.validator,
        Some(CacheValidator::Etag("baseline".to_owned()))
    );

    let latest = snapshot(RadarSource::Main, "2026-07-20T02:00:00Z", &["current-epoch:max"]);
    let latest_checked_at = latest.checked_at;
    commit_snapshot(
        &mut main_state,
        &active,
        current_main,
        latest.clone(),
        Some(CacheValidator::Etag("current-epoch".to_owned())),
    )
    .unwrap();
    commit_not_modified(
        &mut main_state,
        &active,
        old_main,
        Some(CacheValidator::Etag("old-epoch-304".to_owned())),
        instant("2026-07-20T13:00:00Z"),
    )
    .unwrap();

    assert_eq!(main_state.snapshot.as_ref(), Some(&latest));
    assert_eq!(
        main_state.snapshot.as_ref().unwrap().checked_at,
        latest_checked_at
    );
    assert_eq!(
        main_state.validator,
        Some(CacheValidator::Etag("current-epoch".to_owned()))
    );
}

#[test]
fn not_modified_requires_a_cache_from_the_same_source() {
    let active = ActiveSource::new(RadarSource::Main);
    let mut main_state = SourceState::new();
    main_state.snapshot = Some(snapshot(RadarSource::Main, "2026-07-20T00:00:00Z", &["main:max"]));
    main_state.validator = Some(CacheValidator::Etag("main-tag".to_owned()));
    let mut distributed_state: SourceState<RadarSource> = SourceState::new();

    let error = commit_not_modified(
        &mut distributed_state,
        &active,
        token(RadarSource::Distributed, 0),
        Some(CacheValidator::LastModified("distributed-time".to_owned())),
        instant("2026-07-20T12:30:00Z"),
    )
    .unwrap_err();
    assert!(matches!(error, RadarError::NoCachedSnapshot));
    assert_eq!(distributed_state.validator, None);
    assert_eq!(
        main_state.validator,
        Some(CacheValidator::Etag("main-tag".to_owned()))
    );
}

#[test]
fn same_source_not_modified_updates_only_its_check_and_validator() {
    let active = ActiveSource::new(RadarSource::Distributed);
    let distributed = snapshot(
        RadarSource::Distributed,
        "2026-07-20T01:00:00Z",
        &["distributed:max"],
    );
    let original_updated_at = distributed.updated_at;
    let checked_at = instant("2026-07-20T02:00:00Z");
    let mut distributed_state = SourceState::new();
    distributed_state.snapshot = Some(distributed);
    distributed_state.validator = Some(CacheValidator::LastModified("old".to_owned()));
    let main_state: SourceState<RadarSource> = SourceState::new();

    commit_not_modified(
        &mut distributed_state,
        &active,
        active.token,
        Some(CacheValidator::LastModified("new".to_owned())),
        checked_at,
    )
    .unwrap();

    let cached = distributed_state.snapshot.as_ref().unwrap();
    assert_eq!(cached.body, RadarSource::Distributed);
    assert_eq!(cached.updated_at, original_updated_at);
    assert_eq!(cached.checked_at, checked_at);
    assert_eq!(
        distributed_state.validator,
        Some(CacheValidator::LastModified("new".to_owned()))
    );
    assert!(main_state.snapshot.is_none());
}

#[test]
fn not_modified_without_a_validator_keeps_the_old_one() {
    let active = ActiveSource::new(RadarSource::Main);
    let mut state = SourceState::new();
    state.snapshot = Some(snapshot(RadarSource::Main, "2026-07-20T01:00:00Z", &["a"]));
    state.validator = Some(CacheValidator::Etag("kept".to_owned()));
    commit_not_modified(&mut state, &active, active.token, None, instant("2026-07-21T00:00:00Z"))
        .unwrap();
    assert_eq!(state.validator, Some(CacheValidator::Etag("kept".to_owned())));
    assert_eq!(
        state.snapshot.as_ref().unwrap().checked_at,
        instant("2026-07-21T00:00:00Z")
    );
}

#[test]
fn stale_comparison_and_leader_baselines_are_isolated_by_source() {
    let mut active = ActiveSource::new(RadarSource::Main);
    let main_token = active.token;
    let mut main_state = SourceState::new();
    main_state.snapshot = Some(snapshot(RadarSource::Main, "2026-07-20T03:00:00Z", &["main:max"]));
    let mut distributed_state = SourceState::new();

    active.select(RadarSource::Distributed);
    let distributed_token = active.token;

    let distributed = commit_snapshot(
        &mut distributed_state,
        &active,
        distributed_token,
        snapshot(
            RadarSource::Distributed,
            "2026-07-20T01:00:00Z",
            &["distributed:max"],
        ),
        Some(CacheValidator::LastModified("time".to_owned())),
    )
    .unwrap();
    assert_eq!(distributed, SnapshotCommit::Stored { leader_changed: false });

    let error = commit_snapshot(
        &mut main_state,
        &active,
        main_token,
        snapshot(RadarSource::Main, "2026-07-20T02:00:00Z", &["other:max"]),
        Some(CacheValidator::Etag("new-tag".to_owned())),
    )
    .unwrap_err();
    assert!(matches!(error, RadarError::StalePayload));
    assert_eq!(
        main_state.snapshot.as_ref().unwrap().leader_ids,
        ["main:max"]
    );
}

#[test]
fn newer_snapshot_replaces_the_cache_and_reports_leader_changes() {
    let active = ActiveSource::new(RadarSource::Main);
    let mut state = SourceState::new();
    state.snapshot = Some(snapshot(RadarSource::Main, "2026-07-20T01:00:00Z", &["a", "b"]));
    let same = commit_snapshot(
        &mut state,
        &active,
        active.token,
        snapshot(RadarSource::Main, "2026-07-20T01:00:00Z", &["b", "a"]),
        None,
    )
    .unwrap();
    assert_eq!(same, SnapshotCommit::Stored { leader_changed: false });
    let changed = commit_snapshot(
        &mut state,
        &active,
        active.token,
        snapshot(RadarSource::Main, "2026-07-20T02:00:00Z", &["c"]),
        Some(CacheValidator::Etag("t".to_owned())),
    )
    .unwrap();
    assert_eq!(changed, SnapshotCommit::Stored { leader_changed: true });
    assert_eq!(state.snapshot.as_ref().unwrap().leader_ids, ["c"]);
    assert_eq!(state.validator, Some(CacheValidator::Etag("t".to_owned())));
}

#[test]
fn late_results_publish_only_for_the_captured_active_source() {
    assert!(should_publish(
        token(RadarSource::Main, 2),
        token(RadarSource::Main, 2)
    ));
    assert!(!should_publish(
        token(RadarSource::Distributed, 1),
        token(RadarSource::Main, 0)
    ));
    assert!(!should_publish(
        token(RadarSource::Main, 2),
        token(RadarSource::Main, 0)
    ));
}

#[test]
fn superseded_failures_are_source_tagged() {
    let failure = RefreshFailure::superseded(RadarSource::Main, instant("2026-07-20T00:00:00Z"));
    assert_eq!(failure.source, RadarSource::Main);
    assert_eq!(failure.kind, "superseded");
    assert_eq!(
        failure.message,
        "refresh was superseded by a newer source selection"
    );
}

#[test]
fn refresh_errors_report_kind_and_message() {
    let at = instant("2026-07-20T00:00:00Z");
    let cases = [
        (RadarError::Network("offline".to_owned()), "network", "network request failed: offline"),
        (RadarError::Http(503), "http", "source returned HTTP 503"),
        (
            RadarError::StalePayload,
            "stale_payload",
            "source payload is older than the current snapshot",
        ),
        (
            RadarError::NoCachedSnapshot,
            "no_cache",
            "source returned not-modified before a snapshot was cached",
        ),
        (
            RadarError::ResponseTooLarge(524288),
            "response_too_large",
            "source response exceeded the 524288 byte limit",
        ),
        (
            RadarError::Source(SourceError::NoCandidates),
            "no_candidates",
            "source contains no candidates with a finite score and identity",
        ),
        (
            RadarError::Source(SourceError::SchemaVersion { found: Some("1.0".to_owned()) }),
            "schema",
            "unsupported or missing schema version: Some(\"1.0\")",
        ),
        (
            RadarError::Source(SourceError::PayloadType { found: None }),
            "type",
            "unexpected or missing payload type: None",
        ),
        (
            RadarError::Source(SourceError::Timestamp { value: Some("a\"b".to_owned()) }),
            "timestamp",
            "source contains no valid update timestamp: Some(\"a\\\"b\")",
        ),
        (
            RadarError::Source(SourceError::Json("eof".to_owned())),
            "json",
            "invalid public-summary JSON: eof",
        ),
    ];
    for (error, kind, message) in cases {
        assert_eq!(error.kind(), kind);
        assert_eq!(error.message(), message);
        let failure = error.as_failure(RadarSource::Distributed, at);
        assert_eq!(failure.source, RadarSource::Distributed);
        assert_eq!(failure.kind, kind);
        assert_eq!(failure.message, message);
        assert_eq!(failure.occurred_at, at);
    }
}
