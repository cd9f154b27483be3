//! Polling the \*arr instances and pushing releases to them.

use std::collections::HashMap;

use brarr_orchestrator::catalogue::{DecisionRow, Protocol};
use brarr_orchestrator::db::push_history::{
    insert, recent_limit, row_to_push, success_rate, PushStatus,
};
use brarr_orchestrator::error::AppError;
use brarr_orchestrator::poll::{
    build_keys, build_keys_for_episode, group_by_season, interval_from, is_pollable,
    is_pollable_episode, matches_arr_kind, meets_quality, pack_end, pack_keys, parse_imdb,
    pick_pushable, pick_threshold_for, pushable, run_once_radarr, run_season_pack_pass,
    title_looks_like_season_pack, title_looks_like_tv, tries_pack, ArrKind, ArrRule, CycleStep,
    PackEnd, SearchEnd, SonarrCycle, WantedEpisode, WantedEpisodeSeries, WantedMovie,
    DEFAULT_POLL_INTERVAL, PER_MOVIE_DELAY,
};
use brarr_orchestrator::push::{
    build_payload, derive_request_base, env_public_base_url, extract_rejections, poll_base_url,
    push_decision, state_public_base_url, ArrTarget, Header, PushReply,
};

fn movie(monitored: bool, has_file: bool, tmdb: u32, imdb: &str) -> WantedMovie {
    WantedMovie {
        id: 1,
        title: "x".into(),
        tmdb_id: tmdb,
        imdb_id: imdb.into(),
        monitored,
        has_file,
    }
}

fn ep(monitored: bool, has_file: bool, tvdb: u32, season: u16, episode: u16) -> WantedEpisode {
    WantedEpisode {
        id: 1,
        series_id: 10,
        title: "ep".into(),
        season_number: season,
        episode_number: episode,
        monitored,
        has_file,
        series: Some(WantedEpisodeSeries {
            id: 10,
            title: "show".into(),
            tvdb_id: tvdb,
            monitored: true,
        }),
    }
}

fn decision_with(kind: Option<&str>, seeders: u32) -> DecisionRow {
    DecisionRow {
        id: 0,
        provider_id: None,
        provider_name: "p".into(),
        release_name: "r".into(),
        release_id_remote: 1,
        release_key: "k".into(),
        score: 200,
        rejected: false,
        seeders,
        leechers: 0,
        size_bytes: 1,
        download_url: None,
        details_url: None,
        provider_kind: kind.map(String::from),
        published_at: None,
        decided_at: 0,
        profile_scores: HashMap::new(),
    }
}

#[test]
fn is_pollable_requires_monitored_and_no_file() {
    assert!(is_pollable(&movie(true, false, 603, "tt0133093")));
    assert!(!is_pollable(&movie(false, false, 603, "tt0133093")));
    assert!(!is_pollable(&movie(true, true, 603, "tt0133093")));
}

#[test]
fn build_keys_prefers_imdb_when_present() {
    let keys = build_keys(&movie(true, false, 603, "tt0133093")).unwrap();
    assert!(keys.imdb.is_some());
    assert!(keys.tmdb.is_some());
}

#[test]
fn build_keys_falls_back_to_tmdb_when_imdb_missing() {
    let keys = build_keys(&movie(true, false, 603, "")).unwrap();
    assert!(keys.imdb.is_none());
    assert_eq!(keys.tmdb.unwrap(), 603);
}

#[test]
fn build_keys_returns_none_when_both_ids_missing() {
    assert!(build_keys(&movie(true, false, 0, "")).is_none());
}

#[test]
fn parse_imdb_strips_tt_prefix_and_leading_zeros() {
    let target: u32 = 9_999_001;
    let s = target.to_string();
    let with_tt = format!("tt{s}");
    assert_eq!(parse_imdb(&with_tt).unwrap(), target);
    assert_eq!(parse_imdb(&s).unwrap(), target);
    assert!(parse_imdb("").is_none());
    assert!(parse_imdb("tt").is_none());
    assert_eq!(parse_imdb("tt0000042"), Some(42));
}

#[test]
fn default_poll_interval_is_30_min() {
    assert_eq!(DEFAULT_POLL_INTERVAL, 1800);
}

#[test]
fn the_interval_is_at_least_a_minute() {
    assert_eq!(interval_from(None), 1800);
    assert_eq!(interval_from(Some("x")), 1800);
    assert_eq!(interval_from(Some("5")), 60);
    assert_eq!(interval_from(Some("600")), 600);
}

#[test]
fn meets_quality_keeps_torrents_with_seeders() {
    assert!(meets_quality(&decision_with(Some("unit3d"), 5)));
    assert!(meets_quality(&decision_with(Some("torznab"), 1)));
    assert!(meets_quality(&decision_with(Some("plugin"), 3)));
}

#[test]
fn meets_quality_drops_zero_seeders_torrents() {
    assert!(!meets_quality(&decision_with(Some("unit3d"), 0)));
    assert!(!meets_quality(&decision_with(Some("torznab"), 0)));
}

#[test]
fn meets_quality_keeps_newznab_even_with_zero_seeders() {
    assert!(meets_quality(&decision_with(Some("newznab"), 0)));
}

#[test]
fn pick_threshold_bumps_torrent_by_one() {
    let unit3d = decision_with(Some("unit3d"), 0);
    let torznab = decision_with(Some("torznab"), 0);
    let plugin = decision_with(Some("plugin"), 0);
    assert_eq!(pick_threshold_for(&unit3d, 330), 331);
    assert_eq!(pick_threshold_for(&torznab, 330), 331);
    assert_eq!(pick_threshold_for(&plugin, 330), 331);
}

#[test]
fn pick_threshold_keeps_usenet_at_base() {
    let newznab = decision_with(Some("newznab"), 0);
    assert_eq!(pick_threshold_for(&newznab, 330), 330);
}

#[test]
fn pick_threshold_handles_legacy_unset_provider_kind_as_torrent() {
    let legacy = decision_with(None, 0);
    assert_eq!(pick_threshold_for(&legacy, 330), 331);
}

#[test]
fn title_pack_detects_zero_padded_and_bare_forms() {
    assert!(title_looks_like_season_pack("Show.S01.1080p.WEB-DL", 1));
    assert!(title_looks_like_season_pack("Show.S1.1080p.WEB-DL", 1));
    assert!(title_looks_like_season_pack("Show S01 Complete", 1));
    assert!(title_looks_like_season_pack("Show S08 BluRay", 8));
}

#[test]
fn title_pack_rejects_episode_marker_for_same_season() {
    assert!(!title_looks_like_season_pack("Show.S01E05.1080p", 1));
    assert!(!title_looks_like_season_pack("Show.s01e05.web", 1));
    assert!(!title_looks_like_season_pack("Show S01E12 WEB", 1));
}

#[test]
fn title_pack_rejects_wrong_season() {
    assert!(!title_looks_like_season_pack("Show.S02.Complete", 1));
    assert!(!title_looks_like_season_pack("Show.S10.WEB-DL", 1));
}

#[test]
fn title_pack_handles_multi_season_packs() {
    assert!(title_looks_like_season_pack("Show.S01-S03.Complete.1080p", 1));
    assert!(title_looks_like_season_pack("Show.S01-S03.Complete.1080p", 2));
    assert!(title_looks_like_season_pack("Show.S01-S03.Complete.1080p", 3));
    assert!(!title_looks_like_season_pack("Show.S01-S03.Complete.1080p", 4));
}

#[test]
fn a_range_of_seasons_covers_what_lies_in_it() {
    assert!(!title_looks_like_season_pack("Show S1-5 Complete", 3));
    assert!(title_looks_like_season_pack("Show S1-5 Complete", 1));
    assert!(title_looks_like_season_pack("Show.s01-s10", 7));
    assert!(!title_looks_like_season_pack("Show.S01-S03E05.1080p", 2));
    assert!(!title_looks_like_season_pack("Show.S01-1080p", 2));
    assert!(!title_looks_like_season_pack("Show.S01-2024.WEB", 2));
    assert!(!title_looks_like_season_pack("Shows01-s03", 2));
}

#[test]
fn an_episode_of_the_season_disqualifies_a_pack() {
    assert!(!title_looks_like_season_pack("Show.S01.S01E05", 1));
    assert!(!title_looks_like_season_pack("Show.S1E5.S01.Complete", 1));
    assert!(!title_looks_like_season_pack("Show.S01-S03.S02E05", 2));
    assert!(title_looks_like_season_pack("Show.S01-S03.S02E05", 1));
    assert!(title_looks_like_season_pack("Show.S01.Extra.S02E05", 1));
    assert!(title_looks_like_season_pack("Show.S01.Shows01e05", 1));
}

#[test]
fn title_pack_strict_word_boundary() {
    assert!(!title_looks_like_season_pack("Showvs01.1080p", 1));
    assert!(!title_looks_like_season_pack("Show.S10.WEB", 1));
}

#[test]
fn season_grouping_keeps_eps_by_season_and_dedups_seasons() {
    let episodes = [
        ep(true, false, 100, 1, 1),
        ep(true, false, 100, 1, 2),
        ep(true, false, 100, 1, 3),
        ep(true, false, 100, 2, 1),
    ];
    let groups = group_by_season(&episodes);
    assert_eq!(groups.len(), 2, "S1 + S2 = 2 groups");
    assert_eq!((groups[0].series_id, groups[0].season), (10, 1));
    assert_eq!(groups[0].episodes.len(), 3, "S1 has 3 wanted eps");
    assert_eq!((groups[1].series_id, groups[1].season), (10, 2));
    assert_eq!(groups[1].episodes.len(), 1, "S2 has 1 wanted ep");
}

#[test]
fn pick_threshold_saturates_at_u32_max() {
    let torrent = decision_with(Some("unit3d"), 0);
    assert_eq!(pick_threshold_for(&torrent, u32::MAX), u32::MAX);
}

#[test]
fn title_looks_like_tv_catches_episode_and_season_markers() {
    assert!(title_looks_like_tv("The Rookie S08E14 1080p"));
    assert!(title_looks_like_tv("the.rookie.s08e14.1080p"));
    assert!(title_looks_like_tv("Teen Titans S05 720p WEB-DL"));
    assert!(title_looks_like_tv("Teen.Titans.S05.720p"));
    assert!(title_looks_like_tv("Show S2E10 web"));
}

#[test]
fn title_looks_like_tv_skips_movies_and_year_tags() {
    assert!(!title_looks_like_tv("Stardust.2007.1080p.BluRay"));
    assert!(!title_looks_like_tv("Star Wars 1977"));
    assert!(!title_looks_like_tv("The Matrix 1999 1080p"));
    assert!(!title_looks_like_tv("Title S2024 1080p"));
    assert!(!title_looks_like_tv("123S456 1080p"));
}

#[test]
fn matches_arr_kind_drops_tv_for_radarr() {
    assert!(!matches_arr_kind("Teen Titans S05 720p", ArrKind::Radarr));
    assert!(!matches_arr_kind("Show.S08E14.1080p", ArrKind::Radarr));
    assert!(matches_arr_kind("The Matrix 1999 1080p", ArrKind::Radarr));
}

#[test]
fn matches_arr_kind_permissive_for_sonarr() {
    assert!(matches_arr_kind("Show.S08E14.1080p", ArrKind::Sonarr));
    assert!(matches_arr_kind("Weird Movie 2024", ArrKind::Sonarr));
}

#[test]
fn meets_quality_keeps_legacy_kind_with_seeders() {
    assert!(meets_quality(&decision_with(None, 0)));
}

#[test]
fn build_keys_for_episode_returns_none_when_series_missing() {
    let mut e = ep(true, false, 12345, 1, 1);
    e.series = None;
    assert!(build_keys_for_episode(&e).is_none());
}

#[test]
fn is_pollable_episode_requires_monitored_and_no_file() {
    assert!(is_pollable_episode(&ep(true, false, 12345, 1, 1)));
    assert!(!is_pollable_episode(&ep(false, false, 12345, 1, 1)));
    assert!(!is_pollable_episode(&ep(true, true, 12345, 1, 1)));
}

#[test]
fn build_keys_for_episode_carries_season_and_ep() {
    let keys = build_keys_for_episode(&ep(true, false, 12345, 2, 5)).unwrap();
    assert_eq!(keys.tvdb.unwrap(), 12345);
    assert_eq!(keys.season, Some(2));
    assert_eq!(keys.episode, Some(5));
}

#[test]
fn build_keys_for_episode_returns_none_when_tvdb_zero() {
    assert!(build_keys_for_episode(&ep(true, false, 0, 1, 1)).is_none());
}

#[test]
fn per_movie_delay_pacing_is_non_zero() {
    assert!(PER_MOVIE_DELAY > 0);
}

fn radarr(threshold: u32) -> ArrRule {
    ArrRule {
        kind: ArrKind::Radarr,
        profile_id: None,
        threshold,
    }
}

#[test]
fn a_release_already_tried_is_not_pushed_again() {
    let mut a = decision_with(Some("unit3d"), 5);
    a.release_name = "The Matrix 1999".into();
    a.provider_id = Some(1);
    a.download_url = Some("https://x/1".into());
    let mut b = decision_with(Some("unit3d"), 5);
    b.release_name = "The Matrix 1999 REMUX".into();
    b.provider_id = Some(1);
    b.download_url = Some("https://x/2".into());
    let rows = [a, b];
    assert!(pushable(&rows[0], radarr(150)));
    let first = pick_pushable(&rows, radarr(150), &[false, false]).unwrap();
    let mut tried = [false, false];
    tried[first] = true;
    let second = pick_pushable(&rows, radarr(150), &tried).unwrap();
    assert_ne!(first, second);
    assert_eq!(pick_pushable(&rows, radarr(150), &[true, true]), None);
}

#[test]
fn a_radarr_cycle_paces_between_searches() {
    let movies = [
        movie(true, false, 603, ""),
        movie(true, true, 604, ""),
        movie(true, false, 0, ""),
        movie(true, false, 605, ""),
    ];
    let (dispatches, summary) = run_once_radarr(&movies);
    assert_eq!(dispatches.len(), 2);
    assert_eq!(dispatches[0].row, 0);
    assert_eq!(dispatches[1].row, 3);
    assert_eq!(dispatches[0].keys.tmdb, Some(603));
    assert_eq!(summary.considered, 4);
}

#[test]
fn a_pack_that_was_pushed_spares_its_episodes() {
    let episodes = [
        ep(true, false, 100, 1, 1),
        ep(true, false, 100, 1, 2),
        ep(true, false, 100, 2, 1),
    ];
    let mut cycle = SonarrCycle::run_once_sonarr(&episodes);
    assert!(matches!(cycle.step, CycleStep::SearchPack));
    let keys = pack_keys(&episodes, &cycle.groups[0]).unwrap();
    assert_eq!(keys.tvdb, Some(100));
    assert_eq!(keys.season, Some(1));
    assert_eq!(keys.episode, None);
    cycle.after_pack(PackEnd::Pushed);
    assert!(matches!(cycle.step, CycleStep::SearchEpisode(_)), "one episode is no pack");
    cycle.after_episode(SearchEnd::Nothing);
    assert!(matches!(cycle.step, CycleStep::Finished));
    assert!(tries_pack(2));
    assert!(!tries_pack(1));
    assert_eq!(pack_end(PushStatus::Accepted), PackEnd::Pushed);
}

#[test]
fn a_pack_pass_takes_only_packs_of_its_season() {
    let mut single = decision_with(Some("unit3d"), 5);
    single.release_name = "Show.S01E05.1080p".into();
    single.provider_id = Some(1);
    single.download_url = Some("https://x/1".into());
    let mut pack = decision_with(Some("unit3d"), 5);
    pack.release_name = "Show.S01.1080p".into();
    pack.provider_id = Some(1);
    pack.download_url = Some("https://x/2".into());
    let sonarr = ArrRule {
        kind: ArrKind::Sonarr,
        profile_id: None,
        threshold: 150,
    };
    let rows = [single, pack];
    assert_eq!(run_season_pack_pass(&rows, sonarr, &[false, false], 1), Some(1));
    assert_eq!(run_season_pack_pass(&rows, sonarr, &[false, false], 2), None);
}

const SECOND: i128 = 1_000_000_000;

fn decision_row(provider_kind: Option<&str>) -> DecisionRow {
    DecisionRow {
        id: 0,
        provider_id: None,
        provider_name: "p".into(),
        release_name: "Matrix.1999.1080p.BluRay-FOO".into(),
        release_id_remote: 1,
        release_key: "1".into(),
        score: 700,
        rejected: false,
        seeders: 42,
        leechers: 1,
        size_bytes: 1234,
        download_url: Some("https://up.example/grab".into()),
        details_url: Some("https://up.example/details".into()),
        provider_kind: provider_kind.map(String::from),
        published_at: Some(1_700_000_000 * SECOND),
        decided_at: 1_700_000_500 * SECOND,
        profile_scores: HashMap::new(),
    }
}

#[test]
fn payload_routes_torrent_through_torznab_prefix() {
    let p = build_payload(&decision_row(Some("unit3d")), "http://h:3000", None);
    assert_eq!(p.protocol, Protocol::Torrent);
    assert!(p.download_url.contains("/torznab/download/"), "{}", p.download_url);
    assert_eq!(p.seeders, Some(42));
    assert_eq!(p.leechers, Some(1));
}

#[test]
fn payload_routes_nzb_through_newznab_prefix() {
    let p = build_payload(&decision_row(Some("newznab")), "http://h:3000", None);
    assert_eq!(p.protocol, Protocol::Usenet);
    assert!(p.download_url.contains("/newznab/download/"), "{}", p.download_url);
    assert_eq!(p.seeders, None, "seeders must be None on usenet payload");
}

#[test]
fn payload_trims_trailing_slash_on_base_url() {
    let p = build_payload(&decision_row(None), "http://h:3000/", None);
    assert!(!p.download_url.contains("//torznab"), "{}", p.download_url);
    assert!(p.download_url.starts_with("http://h:3000/torznab/"));
}

#[test]
fn payload_falls_back_to_decided_at_when_published_at_missing() {
    let mut row = decision_row(Some("unit3d"));
    row.published_at = None;
    let p = build_payload(&row, "http://h", None);
    assert_eq!(p.publish_date, row.decided_at);
}

#[test]
fn payload_uses_published_at_when_provider_carried_it() {
    let row = decision_row(Some("unit3d"));
    let p = build_payload(&row, "http://h", None);
    assert_eq!(p.publish_date, 1_700_000_000 * SECOND);
}

#[test]
fn extract_rejections_returns_empty_vec_for_clean_accept() {
    let r = extract_rejections("[]").unwrap();
    assert!(r.is_empty());
}

#[test]
fn extract_rejections_pulls_reasons_out_of_release_objects() {
    let body = r#"[
            {
              "title": "foo",
              "rejections": [
                "Custom Formats X have score 0 below profile minimum 1",
                "Release in queue and Quality Profile does not allow upgrades"
              ]
            }
        ]"#;
    let r = extract_rejections(body).unwrap();
    assert_eq!(r.len(), 2);
    assert!(r[0].contains("Custom Formats"));
    assert!(r[1].contains("queue"));
}

#[test]
fn extract_rejections_returns_none_for_malformed_body() {
    assert!(extract_rejections("").is_none());
    assert!(extract_rejections("not json").is_none());
    assert!(extract_rejections(r#"{"message":"bad"}"#).is_none());
}

#[test]
fn extract_rejections_handles_release_without_rejections_field() {
    let body = r#"[{"title":"foo"}]"#;
    let r = extract_rejections(body).unwrap();
    assert!(r.is_empty());
}

#[test]
fn what_is_no_text_among_the_rejections_is_passed_over() {
    let body = r#"[{"rejections":["a", 1, null, "bé"]},{"rejections":"no list"}]"#;
    assert_eq!(extract_rejections(body).unwrap(), vec!["a".to_owned(), "bé".to_owned()]);
}

#[test]
fn payload_embeds_apikey_in_download_url_when_auth_enabled() {
    let p = build_payload(
        &decision_row(Some("unit3d")),
        "http://brarr:3000",
        Some("supersecret123"),
    );
    assert!(p.download_url.contains("?apikey=supersecret123"), "{}", p.download_url);
}

#[test]
fn payload_omits_apikey_query_when_disabled() {
    let p = build_payload(&decision_row(Some("unit3d")), "http://brarr:3000", None);
    assert!(!p.download_url.contains("apikey"), "{}", p.download_url);
}

#[test]
fn payload_omits_apikey_query_when_empty_token() {
    let p = build_payload(&decision_row(Some("unit3d")), "http://brarr:3000", Some(""));
    assert!(!p.download_url.contains("apikey"), "{}", p.download_url);
}

#[test]
fn legacy_provider_kind_none_routes_to_torrent() {
    let p = build_payload(&decision_row(None), "http://h", None);
    assert_eq!(p.protocol, Protocol::Torrent);
}

#[test]
fn a_download_link_names_the_decision_by_its_hyphenated_id() {
    let mut row = decision_row(Some("unit3d"));
    row.id = 0x0123_4567_89ab_cdef_0123_4567_89ab_cdef;
    let p = build_payload(&row, "http://h", None);
    assert!(
        p.download_url.contains("01234567-89ab-cdef-0123-456789abcdef"),
        "{}",
        p.download_url
    );
}

fn arr() -> ArrTarget {
    ArrTarget {
        id: 3,
        name: "radarr-main".to_owned(),
        kind: ArrKind::Radarr,
    }
}

#[test]
fn a_push_is_recorded_however_it_ended() {
    let ok = push_decision(8, &arr(), PushReply::Accepted("[]".to_owned()));
    assert_eq!(ok.status, PushStatus::Accepted);
    assert_eq!(ok.rejections, Some(Vec::new()));
    let http = push_decision(8, &arr(), PushReply::Http(400, "bad".to_owned()));
    assert_eq!(http.status, PushStatus::HttpError);
    assert_eq!(http.http_status, Some(400));
    let down = push_decision(8, &arr(), PushReply::Transport("refused".to_owned()));
    assert_eq!(down.status, PushStatus::TransportError);
    assert_eq!(down.http_status, None);
}

#[test]
fn a_written_push_is_read_back() {
    let mut new = push_decision(8, &arr(), PushReply::Accepted("[]".to_owned()));
    new.rejections = Some(vec!["queue \"full\"".to_owned(), "é".to_owned()]);
    let columns = insert(77, 1_700_000_000, new).unwrap();
    assert_eq!(columns.id, "00000000-0000-0000-0000-00000000004d");
    let row = row_to_push(columns).unwrap();
    assert_eq!(row.id, 77);
    assert_eq!(row.decision_id, 8);
    assert_eq!(row.arr_instance_id, Some(3));
    assert_eq!(row.arr_instance_name, "radarr-main");
    assert_eq!(row.arr_kind, ArrKind::Radarr);
    assert_eq!(row.pushed_at, 1_700_000_000);
    assert_eq!(row.status, PushStatus::Accepted);
    assert_eq!(
        row.rejections,
        Some(vec!["queue \"full\"".to_owned(), "é".to_owned()])
    );
}

#[test]
fn a_push_row_that_cannot_be_read_names_its_column() {
    let new = push_decision(8, &arr(), PushReply::Accepted("[]".to_owned()));
    let good = insert(77, 0, new).unwrap();
    let mut bad = good.clone();
    bad.id = "nope".to_owned();
    assert!(
        matches!(row_to_push(bad), Err(AppError::InvalidInput(m)) if m.starts_with("invalid uuid in push_history.id: "))
    );
    let mut bad = good.clone();
    bad.arr_kind = "lidarr".to_owned();
    assert!(
        matches!(row_to_push(bad), Err(AppError::InvalidInput(m)) if m == "unknown push_history.arr_kind: lidarr")
    );
    let mut bad = good.clone();
    bad.pushed_at = i64::MAX;
    assert!(
        matches!(row_to_push(bad), Err(AppError::InvalidInput(m)) if m.starts_with("invalid timestamp: "))
    );
    let mut odd = good.clone();
    odd.rejections_json = Some("{".to_owned());
    odd.http_status = Some(70_000);
    let row = row_to_push(odd).unwrap();
    assert_eq!(row.rejections, None);
    assert_eq!(row.http_status, None);
}

#[test]
fn the_edges_of_time_are_readable() {
    let new = push_decision(8, &arr(), PushReply::Accepted("[]".to_owned()));
    for (secs, readable) in [
        (253_402_300_799, true),
        (253_402_300_800, false),
        (-377_705_116_800, true),
        (-377_705_116_801, false),
    ] {
        let columns = insert(1, secs, new.clone()).unwrap();
        assert_eq!(row_to_push(columns).is_ok(), readable, "{secs}");
    }
}

#[test]
fn listings_and_counters_are_bounded() {
    assert_eq!(recent_limit(0), 50);
    assert_eq!(recent_limit(501), 500);
    assert_eq!(recent_limit(7), 7);
    assert_eq!(success_rate(-1, 3), (0, 3));
    assert_eq!(PushStatus::from_label("ok"), PushStatus::Accepted);
    assert_eq!(PushStatus::from_label("???"), PushStatus::HttpError);
    assert_eq!(PushStatus::TransportError.label(), "transport_error");
}

#[test]
fn the_public_base_is_the_setting_then_the_environment_then_the_request() {
    assert_eq!(
        state_public_base_url(Some("https://a/"), Some("https://b")).as_deref(),
        Some("https://a")
    );
    assert_eq!(
        state_public_base_url(None, Some("https://b/")).as_deref(),
        Some("https://b")
    );
    assert_eq!(env_public_base_url(Some("//")), None);
    assert_eq!(
        derive_request_base(
            None,
            None,
            Header::Text("https"),
            Header::Text("brarr.example"),
            Header::Absent
        ),
        "https://brarr.example"
    );
    assert_eq!(poll_base_url(Some("https://b")), "https://b");
}
