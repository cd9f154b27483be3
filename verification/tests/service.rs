//! The gRPC calls, the move to declared owners, and the running
//! configuration.

use std::hash::{Hash, Hasher};

use brarr_orchestrator::catalogue::{ExternalId, MediaType, MetadataSource};
use brarr_orchestrator::db::searches::{create, SearchRequestJson};
use brarr_orchestrator::db::settings::{
    SettingRow, KEY_AUTH_TOKEN, KEY_DECISIONS_RETENTION_DAYS, KEY_POLL_INTERVAL_SECS,
    KEY_PUBLIC_URL,
};
use brarr_orchestrator::error::{AppError, MetadataFault, RpcCode};
use brarr_orchestrator::flip::{
    declared_blocks, destination, destination_of, preview, preview_end, Block, Destination,
    EpisodeOrder, Legacy, NumberedRow, OrderFamily, Outcome, PackChange, Preview, PreviewStep,
    Recipe, RecipeSeason, StructurePlan, Verdict,
};
use brarr_orchestrator::folder_names::{run_once, NameAnswer, SeriesName};
use brarr_orchestrator::grpc::{
    bearer_token, build_search_keys, dry_run_scope, provider_summary, recent_searches,
    request_has_filters, search_summary, structure_dry_run, structure_title, BrarrService,
    RecentSearchesRequest, SearchRequest, ServiceState,
};
use brarr_orchestrator::maintenance::{after_prune, run_one_cycle, CycleStep, MaintenanceOutcome};
use brarr_orchestrator::metadata::axis::{StoredId, Verification};
use brarr_orchestrator::provider_cache::{fingerprint, ProviderClientCache, ProviderRow};
use brarr_orchestrator::runtime::{build_bypass, configure, names_peers, Environment};

fn moved(v: &Verdict) -> &Destination {
    match v {
        Verdict::Move(d) => d,
        other => panic!("expected a destination, got {other:?}"),
    }
}

fn recipe() -> Recipe {
    Recipe {
        seasons: vec![RecipeSeason {
            season: 1,
            sizes: vec![12, 13],
        }],
    }
}

#[test]
fn every_legacy_numbering_source_has_a_destination() {
    let cases = [
        (Legacy::Arr, None, None),
        (Legacy::Tvdb, None, None),
        (Legacy::Tmdb, Some("1a2b3c"), None),
        (Legacy::Manual, None, Some(recipe())),
        (Legacy::Off, None, None),
    ];
    for (legacy, handle, recipe) in cases {
        let verdict = destination_of(legacy, handle, recipe);
        assert!(
            matches!(verdict, Verdict::Move(_)),
            "{legacy:?} has no destination"
        );
    }

    for legacy in [Legacy::Arr, Legacy::Tvdb] {
        let d = destination_of(legacy, None, None);
        let d = moved(&d);
        assert_eq!(d.source, MetadataSource::Tvdb);
        assert!(matches!(d.ordering, EpisodeOrder::Default));
        assert!(!d.pinned, "{legacy:?} was derived and stays derivable");
    }

    let group = destination_of(Legacy::Tmdb, Some("1a2b3c"), None);
    let group = moved(&group);
    assert_eq!(group.source, MetadataSource::Tmdb);
    assert_eq!(group.ordering.handle(), Some("1a2b3c"));
    assert!(group.pinned);

    let manual = destination_of(Legacy::Manual, None, Some(recipe()));
    let manual = moved(&manual);
    assert_eq!(manual.source, MetadataSource::Tmdb);
    assert_eq!(manual.ordering.family(), OrderFamily::Manual);
    let kept = manual.recipe.as_ref().unwrap();
    assert_eq!(kept.seasons.len(), 1);
    assert_eq!(kept.seasons[0].season, 1);
    assert_eq!(kept.seasons[0].sizes, vec![12, 13]);
    assert!(manual.pinned);

    let off = destination_of(Legacy::Off, None, None);
    let off = moved(&off);
    assert_eq!(off.source, MetadataSource::Tmdb);
    assert!(matches!(off.ordering, EpisodeOrder::Default));
    assert!(off.pinned);
}

#[test]
fn a_legacy_row_that_names_nothing_is_reported() {
    assert!(matches!(
        destination_of(Legacy::Tmdb, None, None),
        Verdict::Unreadable(_)
    ));
    assert!(matches!(
        destination_of(Legacy::Tmdb, Some("  "), None),
        Verdict::Unreadable(_)
    ));
    assert!(matches!(
        destination_of(Legacy::Manual, None, None),
        Verdict::Unreadable(_)
    ));
    assert!(matches!(
        destination_of(
            Legacy::Manual,
            None,
            Some(Recipe {
                seasons: Vec::new()
            })
        ),
        Verdict::Unreadable(_)
    ));
}

#[test]
fn a_title_nobody_decided_is_left_alone() {
    assert!(matches!(destination(None, None, &[]), Verdict::Untouched));
}

#[test]
fn the_blocks_an_operator_typed_are_read_back_out_of_the_rows() {
    let rows: Vec<NumberedRow> = (1..=25)
        .map(|n| NumberedRow {
            canonical_season: 1,
            canonical_episode: n,
            season: if n <= 12 { 1 } else { 2 },
        })
        .collect();
    let verdict = destination(Some(Legacy::Manual), None, &rows);
    let d = moved(&verdict);
    let recipe = d.recipe.as_ref().unwrap();
    assert_eq!(recipe.seasons.len(), 1);
    assert_eq!(recipe.seasons[0].season, 1);
    assert_eq!(recipe.seasons[0].sizes, vec![12, 13]);
    match &d.ordering {
        EpisodeOrder::Manual { blocks } => assert_eq!(
            *blocks,
            vec![
                Block {
                    season: 1,
                    size: 12
                },
                Block {
                    season: 1,
                    size: 13
                }
            ]
        ),
        other => panic!("expected blocks, got {other:?}"),
    }
    assert!(d.pinned);
}

#[test]
fn blocks_come_out_in_order_whatever_order_the_rows_have() {
    let row = |canonical_season, season| NumberedRow {
        canonical_season,
        canonical_episode: 1,
        season,
    };
    let got = declared_blocks(&[row(2, 9), row(1, 3), row(2, 8), row(2, 9)]);
    assert_eq!(got.seasons[0].season, 1);
    assert_eq!(got.seasons[0].sizes, vec![1]);
    assert_eq!(got.seasons[1].season, 2);
    assert_eq!(got.seasons[1].sizes, vec![1, 2]);
}

fn tmdb_id() -> StoredId {
    StoredId {
        id: ExternalId::new(MetadataSource::Tmdb, "1396").unwrap(),
        verification: Verification::Asserted,
    }
}

fn thin_plan() -> StructurePlan {
    StructurePlan {
        pairs: 10,
        orphans: 0,
        added: 2,
        grabs_at_risk: 1,
        moves_anything: true,
        air_dates_are_thin: true,
        packs_affected: vec![PackChange {
            season: 1,
            was: 10,
            now: 12,
            grabs: 1,
        }],
    }
}

#[test]
fn a_film_and_an_undecided_title_cost_no_question() {
    let film = preview(MediaType::Movie, destination_of(Legacy::Off, None, None), &[]);
    assert!(matches!(film, PreviewStep::Done(Outcome::Untouched)));
    let untouched = preview(MediaType::Tv, Verdict::Untouched, &[]);
    assert!(matches!(untouched, PreviewStep::Done(Outcome::Untouched)));
}

#[test]
fn a_title_without_an_id_of_its_destination_is_blocked_by_name() {
    let step = preview(
        MediaType::Tv,
        destination_of(Legacy::Arr, None, None),
        &[tmdb_id()],
    );
    match step {
        PreviewStep::Done(Outcome::Blocked {
            destination,
            reason,
        }) => {
            assert!(destination.is_some());
            assert!(reason.contains("TheTVDB"), "{reason}");
        }
        other => panic!("expected a block, got {other:?}"),
    }
    let step = preview(
        MediaType::Tv,
        Verdict::Unreadable("não lê".to_owned()),
        &[tmdb_id()],
    );
    assert!(matches!(
        step,
        PreviewStep::Done(Outcome::Blocked { destination: None, reason }) if reason == "não lê"
    ));
}

#[test]
fn an_answer_makes_a_title_ready_and_a_refusal_blocks_it() {
    let step = preview(
        MediaType::Tv,
        destination_of(Legacy::Off, None, None),
        &[tmdb_id()],
    );
    let going = match step {
        PreviewStep::Ask(d, 0) => d,
        other => panic!("expected a question, got {other:?}"),
    };
    match preview_end(going.clone(), Ok(thin_plan())) {
        Outcome::Ready(ready) => assert!(!ready.would_commit(), "moves on thin evidence"),
        other => panic!("expected a plan, got {other:?}"),
    }
    assert!(matches!(
        preview_end(going, Err("timeout".to_owned())),
        Outcome::Blocked { reason, .. } if reason == "timeout"
    ));
}

#[test]
fn a_title_on_the_wire_is_flat() {
    let untouched = structure_title(&Preview {
        item_id: 42,
        title: "Breaking Bad".to_owned(),
        outcome: Outcome::Untouched,
    });
    assert_eq!(untouched.outcome, "untouched");
    assert_eq!(untouched.item_id, "00000000-0000-0000-0000-00000000002a");
    assert_eq!(untouched.destination_source, "");
    assert_eq!(untouched.paired, 0);

    let d = destination_of(Legacy::Tmdb, Some("1a2b3c"), None);
    let mut plan = thin_plan();
    plan.air_dates_are_thin = false;
    let titles = structure_dry_run(&[Preview {
        item_id: 1,
        title: "x".to_owned(),
        outcome: preview_end(Box::new(moved(&d).clone()), Ok(plan)),
    }]);
    assert_eq!(titles.len(), 1);
    let t = &titles[0];
    assert_eq!(t.outcome, "ready");
    assert_eq!(t.destination_source, "tmdb");
    assert_eq!(t.destination_family, "alternate");
    assert_eq!(t.destination_handle, "1a2b3c");
    assert!(t.pinned);
    assert_eq!(t.paired, 10);
    assert_eq!(t.added, 2);
    assert_eq!(t.grabs_at_risk, 1);
    assert!(t.would_commit);
    assert_eq!(t.packs[0].now, 12);
}

#[test]
fn a_dry_run_for_a_bad_uuid_is_an_invalid_argument() {
    let status = dry_run_scope("nope").unwrap_err();
    assert_eq!(status.code, RpcCode::InvalidArgument);
    assert_eq!(status.message, "`nope` is not a uuid");
    assert!(matches!(dry_run_scope("  "), Ok(None)));
    assert!(matches!(
        dry_run_scope(" 00000000-0000-0000-0000-00000000002a "),
        Ok(Some(42))
    ));
    assert!(matches!(
        dry_run_scope("0000000000000000000000000000002a"),
        Ok(Some(42))
    ));
}

fn keys(tmdb_id: u32, imdb_id: &str) -> Result<(Option<u32>, Option<u32>), String> {
    let req = SearchRequest {
        tmdb_id,
        imdb_id: imdb_id.to_owned(),
    };
    match build_search_keys(&req) {
        Ok(k) => Ok((k.tmdb, k.imdb)),
        Err(s) => Err(s.message),
    }
}

#[test]
fn a_search_needs_one_usable_id() {
    assert_eq!(keys(603, ""), Ok((Some(603), None)));
    assert_eq!(keys(0, " tt0133093 "), Ok((None, Some(133_093))));
    assert_eq!(keys(603, "133093"), Ok((Some(603), Some(133_093))));
    assert_eq!(
        keys(0, ""),
        Err("SearchRequest must set tmdb_id or imdb_id".to_owned())
    );
    assert_eq!(
        keys(603, "ab\"c"),
        Err("invalid imdb_id \"ab\\\"c\": expected numeric tt-id".to_owned())
    );
    assert!(keys(603, "tt0").unwrap_err().starts_with("invalid imdb_id tt0: "));
}

fn recent() -> RecentSearchesRequest {
    RecentSearchesRequest {
        limit: 5,
        offset: 0,
        tmdb_id: None,
        imdb_id: None,
        tvdb_id: None,
        season: None,
        episode: None,
        from_unix: None,
        to_unix: None,
        has_kept_decision: None,
    }
}

#[test]
fn only_a_filter_or_an_offset_takes_the_filtered_path() {
    assert!(!request_has_filters(&recent()));
    assert!(recent_searches(&recent()).is_none());
    let mut blank = recent();
    blank.imdb_id = Some(String::new());
    assert!(!request_has_filters(&blank));
    let mut paged = recent();
    paged.offset = 10;
    paged.season = Some(70_000);
    let p = recent_searches(&paged).unwrap();
    assert_eq!(p.offset, 10);
    assert_eq!(p.limit, 5);
    assert_eq!(p.season, None, "no release has such a season");
}

#[test]
fn a_search_is_shown_with_its_live_count() {
    let row = create(42, 7, SearchRequestJson::default());
    let shown = search_summary(&row, Some(&[true, false, false]));
    assert_eq!(shown.result_count, 2);
    assert_eq!(shown.id, "00000000-0000-0000-0000-00000000002a");
    assert_eq!(shown.submitted_at_unix, 7);
    assert_eq!(shown.tmdb_id, 0);
    assert_eq!(search_summary(&row, None).result_count, 0);
}

#[test]
fn a_call_passes_with_the_right_token_or_with_none_asked_for() {
    assert_eq!(bearer_token(Some("Bearer  abc ")).as_deref(), Some("abc"));
    assert_eq!(bearer_token(Some("bearer abc")).as_deref(), Some("abc"));
    assert_eq!(bearer_token(Some("BEARER abc")), None);
    assert_eq!(bearer_token(None), None);
    let open = BrarrService::new(ServiceState {
        auth_enabled: false,
        retention_days: 7,
    });
    assert!(open.auth_interceptor(None).is_ok());
    let closed = BrarrService::new(ServiceState {
        auth_enabled: true,
        retention_days: 7,
    });
    assert!(closed.auth_interceptor(Some(true)).is_ok());
    for refused in [None, Some(false)] {
        let status = closed.auth_interceptor(refused).unwrap_err();
        assert_eq!(status.code, RpcCode::Unauthenticated);
        assert_eq!(status.message, "missing or invalid bearer token");
    }
}

#[test]
fn maintenance_reports_its_counts() {
    let service = BrarrService::new(ServiceState {
        auth_enabled: false,
        retention_days: 7,
    });
    let outcome = MaintenanceOutcome {
        decisions_deleted: 1,
        searches_deleted: 1,
    };
    let reply = service.run_maintenance(outcome);
    assert_eq!(reply.retention_days, 7);
    assert_eq!(reply.decisions_deleted, 1);
    assert_eq!(reply.searches_deleted, 1);
    assert_eq!(run_one_cycle(0), CycleStep::Skip);
    assert_eq!(run_one_cycle(7), CycleStep::Prune(7));
    assert_eq!(after_prune(Some(outcome)), CycleStep::Reclaim);
    assert_eq!(after_prune(None), CycleStep::Done);
    let empty = MaintenanceOutcome {
        decisions_deleted: 0,
        searches_deleted: 0,
    };
    assert_eq!(after_prune(Some(empty)), CycleStep::Done);
}

#[test]
fn get_returns_put_value_on_fingerprint_match() {
    let mut cache = ProviderClientCache::new();
    cache.put(0, 1, "a");
    let got = cache.get(0, 1).expect("hit");
    assert_eq!(*got, "a");
}

#[test]
fn fingerprint_mismatch_is_a_miss() {
    let mut cache = ProviderClientCache::new();
    cache.put(0, 1, "a");
    assert!(cache.get(0, 2).is_none());
}

#[test]
fn absent_id_is_a_miss() {
    let cache: ProviderClientCache<&str> = ProviderClientCache::new();
    assert!(cache.get(0, 1).is_none());
}

#[test]
fn put_overwrites_previous_entry() {
    let mut cache = ProviderClientCache::new();
    cache.put(0, 1, "old");
    cache.put(0, 2, "new");
    assert!(cache.get(0, 1).is_none(), "old fingerprint no longer hits");
    assert_eq!(*cache.get(0, 2).expect("new hit"), "new");
}

fn provider(token: &str) -> ProviderRow {
    ProviderRow {
        id: 1,
        name: "p".to_owned(),
        base_url: "https://x/".to_owned(),
        api_token: token.to_owned(),
        kind: "unit3d".to_owned(),
        created_at: 3,
    }
}

#[test]
fn an_edit_of_the_configuration_changes_the_fingerprint() {
    let mut renamed = provider("t");
    renamed.name = "q".to_owned();
    assert_eq!(fingerprint(&provider("t")), fingerprint(&renamed));
    assert_ne!(fingerprint(&provider("t")), fingerprint(&provider("u")));
    let mut hasher = std::collections::hash_map::DefaultHasher::new();
    "https://x/".hash(&mut hasher);
    "t".hash(&mut hasher);
    "unit3d".hash(&mut hasher);
    assert_eq!(fingerprint(&provider("t")), hasher.finish());
    let shown = provider_summary(&provider("t"));
    assert_eq!(shown.name, "p");
    assert_eq!(shown.created_at_unix, 3);
}

fn series(id: u128, current: Option<&str>, answer: NameAnswer) -> SeriesName {
    SeriesName {
        id,
        current: current.map(str::to_owned),
        answer,
    }
}

#[test]
fn a_folder_name_is_written_only_when_it_changes() {
    let named = |n: &str| NameAnswer::Translated(Some(n.to_owned()));
    let (writes, summary) = run_once(&[
        series(1, None, named(" The Simpsons ")),
        series(2, Some("Lost"), named("Lost")),
        series(3, None, NameAnswer::Translated(None)),
        series(4, None, named("  ")),
        series(5, None, NameAnswer::Untranslated),
        series(6, Some("x"), NameAnswer::Failed),
    ]);
    assert_eq!(writes, vec![(1, "The Simpsons".to_owned())]);
    assert_eq!(summary.considered, 6);
    assert_eq!(summary.written, 1);
    assert_eq!(summary.untranslated, 3);
    assert_eq!(summary.failed, 1);
}

fn environment() -> Environment {
    Environment {
        auth_token: Some("env-token".to_owned()),
        bypass_auth_from: None,
        trusted_proxies: Some("10.0.0.0/8".to_owned()),
        public_url: Some("https://env".to_owned()),
        poll_interval_secs: Some("5".to_owned()),
        retention_days: Some("x".to_owned()),
    }
}

fn saved(key: &str, value: &str) -> SettingRow {
    SettingRow {
        key: key.to_owned(),
        value: value.to_owned(),
        updated_at: 0,
    }
}

#[test]
fn what_is_saved_wins_over_the_environment_over_the_default() {
    let fresh = configure(&[], &environment());
    assert_eq!(fresh.auth_token.as_deref(), Some("env-token"));
    assert_eq!(fresh.bypass_spec, "");
    assert_eq!(fresh.proxies_spec, "10.0.0.0/8");
    assert_eq!(fresh.public_url.as_deref(), Some("https://env"));
    assert_eq!(fresh.poll_interval, 60);
    assert_eq!(fresh.retention_days, 7);
    assert!(fresh.log_level.is_none());

    let rows = [
        saved(KEY_AUTH_TOKEN, "  "),
        saved(KEY_PUBLIC_URL, ""),
        saved(KEY_POLL_INTERVAL_SECS, "900"),
        saved(KEY_DECISIONS_RETENTION_DAYS, "0"),
    ];
    let edited = configure(&rows, &environment());
    assert!(edited.auth_token.is_none(), "a token of spaces is none");
    assert_eq!(edited.public_url.as_deref(), Some("https://env"));
    assert_eq!(edited.poll_interval, 900);
    assert_eq!(edited.retention_days, 0);
}

#[test]
fn a_list_of_peers_that_cannot_be_read_is_named() {
    assert!(names_peers(" loopback "));
    assert!(!names_peers("   "));
    let both = build_bypass(Some(Ok(1)), None).unwrap();
    assert_eq!(both.peers, Some(1));
    assert_eq!(both.proxies, None);
    let e = build_bypass::<u8>(Some(Err("bad".to_owned())), Some(Err("worse".to_owned()))).unwrap_err();
    assert_eq!(e.context, "BRARR_BYPASS_AUTH_FROM / settings:bypass_auth_from");
    assert_eq!(e.cause, "bad");
    let e = build_bypass::<u8>(None, Some(Err("worse".to_owned()))).unwrap_err();
    assert_eq!(e.context, "BRARR_TRUSTED_PROXIES / settings:trusted_proxies");
}

#[test]
fn every_error_has_its_answer() {
    let cases = [
        (AppError::NotFound("x".to_owned()), 404, RpcCode::NotFound, "not found: x"),
        (
            AppError::InvalidInput("x".to_owned()),
            400,
            RpcCode::InvalidArgument,
            "invalid input: x",
        ),
        (
            AppError::Paused("buscar".to_owned()),
            409,
            RpcCode::FailedPrecondition,
            "o brarr está pausado — retome em Configurações para buscar",
        ),
        (
            AppError::Metadata(MetadataFault::Unavailable, "timeout".to_owned()),
            502,
            RpcCode::Unavailable,
            "timeout",
        ),
        (AppError::Database("x".to_owned()), 500, RpcCode::Internal, "database error: x"),
    ];
    for (e, http, rpc, said) in cases {
        assert_eq!(e.status_code(), http);
        assert_eq!(e.rpc_code(), rpc);
        assert_eq!(e.message(), said);
    }
}
