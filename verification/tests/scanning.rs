//! What is searched for, in what order, and what is taken.

use std::collections::HashMap;

use brarr_orchestrator::catalogue::{
    DecisionRow, Episode, ExternalId, LibraryItem, MediaType, MetadataSource, ProductionStatus,
    Protocol, SearchKeys,
};
use brarr_orchestrator::deliver::DeliveryOutcome;
use brarr_orchestrator::episode_match::{EpisodeMatcher, TreeEntry};
use brarr_orchestrator::error::{AppError, MetadataFault};
use brarr_orchestrator::marker::{episode_markers, title_matches_episode};
use brarr_orchestrator::metadata::art::{url, ImageSize};
use brarr_orchestrator::metadata::axis::{resolve, Reason, StoredId, Verification};
use brarr_orchestrator::metadata::owned::{
    born, candidates, structure_rank, tree as tree_plan, Birth, Candidate, TreePlan, TreeReply,
};
use brarr_orchestrator::metadata::registry::{
    capabilities_of, credential_fields, is_callable, tmdb_config, tvdb_config, Registry,
};
use brarr_orchestrator::db::settings::{
    SettingRow, KEY_TMDB_LANGUAGE, KEY_TMDB_TOKEN, KEY_TVDB_API_KEY, KEY_TVDB_PIN,
};
use brarr_orchestrator::scan::{
    build_targets, configured_budget, enqueue, episode_targets, is_covered, movie_is_out,
    movie_target, pick_candidates, plan_cycle, protocol_of, resolve_profile, run_once,
    run_once_for_item, run_once_for_target, run_one_cycle, scan_item, sort_queue, split_budget, take_first_available,
    tier_of, walk_from, Attempt, GrabTarget, ItemScan, ProfileRule, ScanSummary, Scope,
    SearchResult, Standing, Target, TargetOutcome, TargetPlan, Tier, Walk, Wanted,
    DEFAULT_PUSH_THRESHOLD, DEFAULT_SEARCHES_PER_CYCLE, MIN_SEARCHES_PER_CYCLE,
};

const SECOND: i128 = 1_000_000_000;
const DAY: i128 = 86_400 * SECOND;

fn at(unix: i128) -> i128 {
    unix * SECOND
}

fn item(media_type: MediaType) -> LibraryItem {
    LibraryItem {
        id: 1,
        media_type,
        title: "The Matrix".to_owned(),
        year: Some(1999),
        status: None,
        digital_release_at: None,
        profile_id: None,
        root_folder: None,
    }
}

fn episode(season: i32, number: i32, monitored: bool, air: Option<i128>) -> Episode {
    Episode {
        id: (season as u128) * 1000 + number as u128,
        season_number: season,
        episode_number: number,
        air_date: air.map(at),
        monitored,
    }
}

fn decision(name: &str, score: u32, seeders: u32) -> DecisionRow {
    DecisionRow {
        id: 5,
        provider_id: Some(9),
        provider_name: "capybara".to_owned(),
        release_name: name.to_owned(),
        release_id_remote: 1,
        release_key: "abc".to_owned(),
        score,
        rejected: false,
        seeders,
        leechers: 0,
        size_bytes: 1,
        download_url: Some("https://tracker/download/1".to_owned()),
        details_url: None,
        provider_kind: Some("unit3d".to_owned()),
        published_at: None,
        decided_at: at(1_700_000_000),
        profile_scores: HashMap::new(),
    }
}

fn stored(source: MetadataSource, value: &str) -> StoredId {
    StoredId {
        id: ExternalId::new(source, value).unwrap(),
        verification: Verification::Asserted,
    }
}

fn movie_target_for(item: &LibraryItem) -> Target {
    let ids = [
        stored(MetadataSource::Tmdb, "603"),
        stored(MetadataSource::Imdb, "tt0133093"),
    ];
    let (axis, rejected) = resolve(&ids, MediaType::Movie);
    assert!(rejected.is_empty(), "the fixture carries usable ids");
    movie_target(item, &axis).expect("the fixture carries both ids")
}

#[test]
fn a_movie_searches_on_both_axes() {
    let target = movie_target_for(&item(MediaType::Movie));
    assert_eq!(target.keys.tmdb, Some(603));
    assert_eq!(target.keys.imdb, Some(133_093));
    assert!(target.episode_marker.is_none());
}

#[test]
fn a_film_with_no_usable_id_is_refused_and_the_reason_is_nameable() {
    let (axis, rejected) = resolve(&[], MediaType::Movie);
    assert!(movie_target(&item(MediaType::Movie), &axis).is_none());
    assert!(rejected.is_empty(), "nothing held is nothing to report");

    let held = [stored(MetadataSource::Tvdb, "355567")];
    let (axis, rejected) = resolve(&held, MediaType::Tv);
    assert!(axis.can_search_episodes(), "a series can use a TVDB id");
    assert!(rejected.is_empty());
}

#[test]
fn the_stored_coordinate_is_the_one_asked_for() {
    let series = item(MediaType::Tv);
    let now = at(1_700_000_000);
    let episodes = vec![episode(2, 23, true, Some(1_600_000_000))];
    let plan = episode_targets(&series, &episodes, 70_726, now, Scope::Item);
    let target = &plan.targets[0];

    assert_eq!(target.keys.season, Some(2), "the indexer is asked for S02");
    assert_eq!(target.keys.episode, Some(23));
    assert_eq!(target.episode_marker, Some((2, 23)));
    assert_eq!(target.label, "The Matrix S02E23");

    let held = target.episode.as_ref().unwrap();
    assert_eq!(held.season_number, 2);
    assert_eq!(held.episode_number, 23);
}

#[test]
fn the_imdb_prefix_is_stripped_for_the_search_axis() {
    for written in ["tt0133093", "133093", "tt133093"] {
        let (axis, rejected) =
            resolve(&[stored(MetadataSource::Imdb, written)], MediaType::Movie);
        assert!(rejected.is_empty(), "{written}");
        assert_eq!(axis.imdb, Some(133_093), "{written}");
    }
}

#[test]
fn episodes_are_targeted_only_when_monitored_and_aired() {
    let series = item(MediaType::Tv);
    let now = at(1_700_000_000);
    let episodes = vec![
        episode(1, 1, true, Some(1_600_000_000)),
        episode(1, 2, false, Some(1_600_000_000)),
        episode(1, 3, true, Some(1_900_000_000)),
        episode(1, 4, true, None),
    ];
    let targets = episode_targets(&series, &episodes, 70_726, now, Scope::Item).targets;
    assert_eq!(targets.len(), 1);
    assert_eq!(targets[0].label, "The Matrix S01E01");
    assert_eq!(targets[0].keys.season, Some(1));
    assert_eq!(targets[0].keys.episode, Some(1));
    assert_eq!(targets[0].episode_marker, Some((1, 1)));
}

#[test]
fn a_monitored_special_is_targeted_and_an_unmonitored_one_is_not() {
    let series = item(MediaType::Tv);
    let now = at(1_700_000_000);
    let episodes = vec![
        episode(0, 1, true, Some(1_600_000_000)),
        episode(0, 2, false, Some(1_600_000_000)),
    ];
    let plan = episode_targets(&series, &episodes, 70_726, now, Scope::Item);

    assert_eq!(plan.targets.len(), 1, "only the monitored one");
    assert_eq!(plan.targets[0].episode_marker, Some((0, 1)));
    assert_eq!(plan.targets[0].keys.season, Some(0));
    assert_eq!(plan.skipped_unmonitored, 1);
}

#[test]
fn a_special_is_matchable_by_its_sxxexx_marker() {
    let found = episode_markers("Show.S00E01.Making.Of.1080p.WEB-DL");
    assert_eq!(found.len(), 1);
    assert_eq!(found[0].season, 0);
    assert_eq!(found[0].episode, 1);

    assert!(episode_markers("Show.0x10.1080p").is_empty());
}

#[test]
fn the_specials_season_can_be_swept_on_its_own() {
    let series = item(MediaType::Tv);
    let now = at(1_700_000_000);
    let episodes = vec![
        episode(0, 1, true, Some(1_600_000_000)),
        episode(1, 1, true, Some(1_600_000_000)),
    ];
    let plan = episode_targets(&series, &episodes, 70_726, now, Scope::Season(0));

    assert_eq!(plan.targets.len(), 1);
    assert_eq!(plan.targets[0].keys.season, Some(0));
}

#[test]
fn candidates_are_ordered_by_score_then_seeders() {
    let target = movie_target_for(&item(MediaType::Movie));
    let rows = vec![
        decision("mid", 200, 5),
        decision("best", 300, 1),
        decision("tie-low-seeds", 200, 1),
    ];
    let picked = pick_candidates(&rows, None, &target);
    let names: Vec<&str> = picked.iter().map(|d| d.release_name.as_str()).collect();
    assert_eq!(names, vec!["best", "mid", "tie-low-seeds"]);
}

#[test]
fn candidates_below_the_threshold_are_not_grabbed() {
    let target = movie_target_for(&item(MediaType::Movie));
    let rows = vec![decision("weak", DEFAULT_PUSH_THRESHOLD - 1, 100)];
    assert!(pick_candidates(&rows, None, &target).is_empty());

    let rows = vec![decision("exact", DEFAULT_PUSH_THRESHOLD, 0)];
    assert_eq!(
        pick_candidates(&rows, None, &target).len(),
        1,
        "the threshold is inclusive, matching the push path"
    );
}

#[test]
fn a_rejected_release_or_one_without_a_url_is_never_a_candidate() {
    let target = movie_target_for(&item(MediaType::Movie));
    let mut rejected = decision("rejected", 900, 10);
    rejected.rejected = true;
    let mut no_url = decision("no url", 900, 10);
    no_url.download_url = None;
    assert!(pick_candidates(&[rejected, no_url], None, &target).is_empty());
}

#[test]
fn the_items_profile_score_wins_over_the_baseline() {
    let profile = ProfileRule {
        id: 77,
        push_threshold: 500,
    };
    let target = movie_target_for(&item(MediaType::Movie));
    let mut row = decision("dub", 100, 1);
    row.profile_scores.insert(profile.id, 700);
    let rows = [row];
    let picked = pick_candidates(&rows, Some(profile), &target);
    assert_eq!(picked.len(), 1, "the profile's own verdict is what counts");

    let plain = decision("plain", 100, 1);
    assert!(pick_candidates(&[plain], Some(profile), &target).is_empty());
}

#[test]
fn an_episode_target_only_accepts_a_title_naming_that_episode() {
    let series = item(MediaType::Tv);
    let episodes = vec![episode(4, 7, true, Some(1_600_000_000))];
    let now = at(1_700_000_000);
    let target = &episode_targets(&series, &episodes, 70_726, now, Scope::Item).targets[0];

    let rows = vec![
        decision("The.Boys.S04E07.1080p.WEB-DL", 300, 10),
        decision("The.Boys.S04E08.1080p.WEB-DL", 900, 99),
        decision("The.Boys.S04.COMPLETE.1080p.WEB-DL", 900, 99),
        decision("The.Boys.4x07.1080p.WEB-DL", 250, 1),
    ];
    let picked = pick_candidates(&rows, None, target);
    let names: Vec<&str> = picked.iter().map(|d| d.release_name.as_str()).collect();
    assert_eq!(
        names,
        vec!["The.Boys.S04E07.1080p.WEB-DL", "The.Boys.4x07.1080p.WEB-DL"],
        "a higher-scoring wrong episode and a season pack must both be left alone"
    );
}

#[test]
fn episode_markers_are_matched_case_insensitively() {
    assert!(title_matches_episode("the.boys.s04e07.web", 4, 7));
    assert!(title_matches_episode("The Boys 4x07 WEB", 4, 7));
    assert!(!title_matches_episode("The Boys S04E70 WEB", 4, 7));
    assert!(!title_matches_episode("The Boys Season 4 WEB", 4, 7));
}

#[test]
fn episode_markers_accept_any_padding() {
    assert!(title_matches_episode("The Big Bang Theory - S011E09", 11, 9));
    assert!(title_matches_episode("Show.S1E9.1080p", 1, 9));
    assert!(title_matches_episode("Show.s001e009.1080p", 1, 9));
    assert!(title_matches_episode("Show 1x2 1080p", 1, 2));
}

#[test]
fn episode_markers_reject_resolutions_and_codecs() {
    assert!(!title_matches_episode("Movie.1920x1080.x264", 19, 10));
    assert!(!title_matches_episode("Movie.1920x1080.x264", 1920, 1080));
    assert!(!title_matches_episode("Movie.2160p.x265", 21, 60));
    assert!(!title_matches_episode("Some.Release.0x10.mkv", 0, 10));
}

#[test]
fn episode_markers_need_a_boundary() {
    assert!(!title_matches_episode("Seasons01e02", 1, 2));
    assert!(!title_matches_episode("Show.4x070p", 4, 7));
    assert!(title_matches_episode("[Group] Show - S04E07 [1080p]", 4, 7));
}

#[test]
fn the_protocol_follows_the_provider_kind() {
    let mut usenet = decision("x", 1, 1);
    usenet.provider_kind = Some("newznab".to_owned());
    assert_eq!(protocol_of(&usenet), Protocol::Usenet);

    let torznab = decision("x", 1, 1);
    assert_eq!(protocol_of(&torznab), Protocol::Torrent);

    let mut legacy = decision("x", 1, 1);
    legacy.provider_kind = None;
    assert_eq!(protocol_of(&legacy), Protocol::Torrent);
}

#[test]
fn the_summary_adds_up_across_items() {
    let mut summary = ScanSummary {
        targets: 2,
        skipped_unaired: 1,
        ..ScanSummary::default()
    };
    summary.absorb(&TargetPlan {
        skipped_unmonitored: 3,
        skipped_unaired: 4,
        skipped_unreleased: 1,
        no_search_axis: true,
        ..TargetPlan::default()
    });
    assert_eq!(summary.targets, 2, "absorb only takes the skip counters");
    assert_eq!(summary.skipped_unmonitored, 3);
    assert_eq!(summary.skipped_unaired, 5, "additive across items");
    assert_eq!(summary.skipped_unreleased, 1);
    assert!(summary.no_search_axis);
}

fn film(status: Option<ProductionStatus>, digital: Option<i128>) -> LibraryItem {
    LibraryItem {
        status,
        digital_release_at: digital,
        ..item(MediaType::Movie)
    }
}

#[test]
fn a_film_that_is_not_out_yet_is_not_searched() {
    let now = at(1_700_000_000);
    let soon = now + 4 * DAY;
    let past = now - 400 * DAY;

    assert!(!movie_is_out(&film(Some(ProductionStatus::Released), Some(soon)), now));
    assert!(!movie_is_out(&film(Some(ProductionStatus::InProduction), None), now));
    assert!(!movie_is_out(&film(Some(ProductionStatus::Announced), None), now));
    assert!(movie_is_out(&film(Some(ProductionStatus::Released), Some(past)), now));
    assert!(movie_is_out(&film(Some(ProductionStatus::Released), None), now));
    assert!(movie_is_out(&film(None, None), now));
}

fn wanted_episode(
    series: &LibraryItem,
    season: i32,
    number: i32,
    aired_days_ago: i128,
    searched_days_ago: Option<i128>,
    now: i128,
) -> Wanted {
    let mut ep = episode(season, number, true, None);
    ep.air_date = Some(now - aired_days_ago * DAY);
    Wanted {
        tier: tier_of(series, Some(&ep), now),
        last_searched: searched_days_ago.map(|d| now - d * DAY),
        item_id: series.id,
        target: Target {
            label: format!("{} S{season:02}E{number:02}", series.title),
            episode: Some(ep),
            keys: SearchKeys {
                tmdb: None,
                imdb: None,
                tvdb: None,
                season: None,
                episode: None,
            },
            episode_marker: None,
        },
    }
}

#[test]
fn a_freshly_aired_episode_outranks_a_backlog_that_would_never_end() {
    let series = item(MediaType::Tv);
    let now = at(1_700_000_000);
    let mut queue: Vec<Wanted> = (14..=25)
        .map(|n| wanted_episode(&series, 1, n, 3500, Some(1), now))
        .collect();
    queue.push(wanted_episode(&series, 4, 12, 2, None, now));

    sort_queue(&mut queue);

    assert_eq!(queue[0].tier, Tier::Fresh);
    assert_eq!(queue[0].target.label, "The Matrix S04E12");
}

#[test]
fn the_queue_rotates_least_recently_searched_first() {
    let series = item(MediaType::Tv);
    let now = at(1_700_000_000);
    let mut queue = vec![
        wanted_episode(&series, 1, 1, 900, Some(1), now),
        wanted_episode(&series, 1, 2, 900, None, now),
        wanted_episode(&series, 1, 3, 900, Some(30), now),
    ];

    sort_queue(&mut queue);

    let order: Vec<&str> = queue.iter().map(|w| w.target.label.as_str()).collect();
    assert_eq!(
        order,
        vec!["The Matrix S01E02", "The Matrix S01E03", "The Matrix S01E01"],
        "never searched, then the oldest attempt, then the newest"
    );
}

#[test]
fn a_film_with_no_release_date_is_backlog_not_fresh() {
    let now = at(1_700_000_000);
    let old = film(Some(ProductionStatus::Released), None);
    assert_eq!(tier_of(&old, None, now), Tier::Backlog);

    let just_out = film(Some(ProductionStatus::Released), Some(now - 3 * DAY));
    assert_eq!(tier_of(&just_out, None, now), Tier::Fresh);

    let last_year = film(Some(ProductionStatus::Released), Some(now - 365 * DAY));
    assert_eq!(tier_of(&last_year, None, now), Tier::Backlog);
}

#[test]
fn the_budget_splits_without_leaving_slots_unspent() {
    assert_eq!(split_budget(25, 30, 249), (17, 8));
    assert_eq!(split_budget(25, 3, 249), (3, 22));
    assert_eq!(split_budget(25, 0, 5), (0, 5));
    assert_eq!(split_budget(25, 30, 2), (23, 2));
    assert_eq!(split_budget(25, 0, 0), (0, 0));
    assert_eq!(split_budget(1, 5, 5), (1, 0));
}

#[test]
fn the_ceiling_is_read_fresh_and_floored() {
    assert_eq!(configured_budget(None), DEFAULT_SEARCHES_PER_CYCLE);
    assert_eq!(configured_budget(Some("60")), 60);
    assert_eq!(configured_budget(Some("0")), MIN_SEARCHES_PER_CYCLE);
    assert_eq!(configured_budget(Some("  ")), DEFAULT_SEARCHES_PER_CYCLE);
}

#[test]
fn a_cycle_takes_what_its_budget_allows_and_counts_the_rest() {
    let series = item(MediaType::Tv);
    let now = at(1_700_000_000);
    let wanted: Vec<Wanted> = (1..=30)
        .map(|n| wanted_episode(&series, 1, n, 900, None, now))
        .collect();
    let plan = plan_cycle(wanted, 25);
    assert_eq!(plan.queue.len(), 25);
    assert_eq!(plan.over_cap, 5);
}

#[test]
fn every_candidate_already_spent_is_exhausted_not_no_candidate() {
    let target = movie_target_for(&item(MediaType::Movie));
    let candidate = decision("Matrix.1999.1080p", 500, 10);
    let refs = [&candidate];
    match walk_from(1, &target, &refs, 0) {
        Walk::Try(0, grab) => {
            assert_eq!(grab.release_key, "abc");
            assert_eq!(grab.provider_id, 9);
            assert_eq!(grab.item_id, 1);
            assert!(grab.episode_id.is_none());
        }
        other => panic!("expected a reservation, got {other:?}"),
    }
    match take_first_available(1, &target, &refs, 0, Attempt::Refused) {
        Walk::Finished(TargetOutcome::Nothing) => {}
        other => panic!("expected nothing to be left, got {other:?}"),
    }
    let mut summary = ScanSummary::default();
    summary.run_target("The Matrix", SearchResult::Walked(TargetOutcome::Nothing));
    assert_eq!(summary.exhausted, 1);
    assert_eq!(summary.no_candidate, 0);
    summary.run_target("The Matrix", SearchResult::NoCandidate);
    assert_eq!(summary.no_candidate, 1);
}

#[test]
fn a_permanent_refusal_walks_on_and_a_retryable_one_stops() {
    let target = movie_target_for(&item(MediaType::Movie));
    let a = decision("a", 500, 10);
    let b = decision("b", 400, 10);
    let refs = [&a, &b];
    let permanent = Attempt::Delivered(DeliveryOutcome::Permanent("lixo".to_owned()));
    assert!(matches!(
        take_first_available(1, &target, &refs, 0, permanent),
        Walk::Try(1, _)
    ));
    let retryable = Attempt::Delivered(DeliveryOutcome::Retryable("fora do ar".to_owned()));
    assert!(matches!(
        take_first_available(1, &target, &refs, 0, retryable),
        Walk::Finished(TargetOutcome::Failed(_))
    ));
    let sent = Attempt::Delivered(DeliveryOutcome::Sent {
        client_name: "qb".to_owned(),
        client_item_id: None,
    });
    assert!(matches!(
        take_first_available(1, &target, &refs, 0, sent),
        Walk::Finished(TargetOutcome::Grabbed)
    ));
}

#[test]
fn a_series_without_a_tvdb_id_has_no_axis_and_says_so() {
    let now = at(1_700_000_000);
    let plan = build_targets(
        &item(MediaType::Tv),
        &[stored(MetadataSource::Tmdb, "603")],
        &[episode(1, 1, true, Some(1_600_000_000))],
        now,
        Scope::Item,
    );
    assert!(plan.targets.is_empty());
    assert!(plan.no_search_axis);
}

#[test]
fn a_covered_target_is_counted_and_not_queued() {
    let now = at(1_700_000_000);
    let movie = item(MediaType::Movie);
    let mut summary = ScanSummary::default();
    let mut queue: Vec<Wanted> = Vec::new();
    enqueue(
        &mut summary,
        &mut queue,
        &movie,
        vec![movie_target_for(&movie), movie_target_for(&movie)],
        &[
            Standing {
                covered: true,
                last_searched: None,
            },
            Standing {
                covered: false,
                last_searched: Some(now),
            },
        ],
        now,
    );
    assert_eq!(summary.skipped_covered, 1);
    assert_eq!(queue.len(), 1);
    assert_eq!(queue[0].last_searched, Some(now));
    assert!(is_covered(&[(1, true)], 1));
    assert!(!is_covered(&[(2, true)], 1));
}

#[test]
fn a_grab_is_of_the_item_or_of_its_episode() {
    let target = movie_target_for(&item(MediaType::Movie));
    assert!(matches!(target.grab_target(), GrabTarget::Item));
    assert!(Scope::Season(1).is_narrowed());
    assert!(!Scope::Item.is_narrowed());
    assert!(Scope::Episode(1, 2).covers(1, 2));
    assert!(!Scope::Episode(1, 2).covers(1, 3));
    assert!(ScanSummary::paused().paused);
}

fn tree(seasons: &[(i32, i32)]) -> Vec<TreeEntry> {
    let mut out = Vec::new();
    for &(season, count) in seasons {
        for episode in 1..=count {
            out.push(TreeEntry {
                season,
                episode,
                id: (season as u128) * 1000 + episode as u128,
            });
        }
    }
    out
}

#[test]
fn canonical_is_tried_first() {
    let matcher = EpisodeMatcher::from_tree(tree(&[(1, 13), (2, 22)]));
    assert_eq!(matcher.resolve(2, 7, Some(1)), Some(2007));
}

#[test]
fn a_flat_tree_resolves_by_absolute_number() {
    let matcher = EpisodeMatcher::from_tree(tree(&[(1, 131)]));
    assert_eq!(matcher.resolve(4, 1, Some(47)), Some(1047));
}

#[test]
fn a_seasoned_tree_never_falls_back_to_absolute() {
    let matcher = EpisodeMatcher::from_tree(tree(&[(1, 13), (2, 22)]));
    assert_eq!(matcher.resolve(3, 1, Some(20)), None);
}

#[test]
fn specials_do_not_make_a_tree_seasoned() {
    let matcher = EpisodeMatcher::from_tree(tree(&[(0, 4), (1, 131)]));
    assert_eq!(matcher.resolve(4, 1, Some(47)), Some(1047));
}

#[test]
fn an_unplaceable_coordinate_is_refused() {
    let matcher = EpisodeMatcher::from_tree(tree(&[(1, 10)]));
    assert_eq!(matcher.resolve(1, 99, None), None);
    assert_eq!(matcher.resolve(1, 99, Some(400)), None);
}

#[test]
fn a_matcher_of_episodes_reads_their_rows() {
    let matcher = EpisodeMatcher::new(&[episode(1, 3, true, None)]);
    assert_eq!(matcher.resolve(1, 3, None), Some(1003));
}

#[test]
fn every_source_either_builds_an_absolute_url_or_declines() {
    for source in MetadataSource::all() {
        let stored = match source {
            MetadataSource::Tmdb => "/abc.jpg",
            MetadataSource::Tvdb => "https://artworks.thetvdb.com/banners/posters/1.jpg",
            MetadataSource::Imdb => "",
        };
        for size in [ImageSize::Index, ImageSize::Hero, ImageSize::Backdrop] {
            if let Some(built) = url(source, Some(stored), size) {
                assert!(built.starts_with("https://"), "relative: {built}");
            } else {
                assert_eq!(source, MetadataSource::Imdb);
            }
        }
    }
}

#[test]
fn the_index_and_the_hero_ask_for_different_sizes() {
    let index = url(MetadataSource::Tmdb, Some("/abc.jpg"), ImageSize::Index);
    let hero = url(MetadataSource::Tmdb, Some("/abc.jpg"), ImageSize::Hero);
    assert_ne!(index, hero);
    assert_eq!(index.as_deref(), Some("https://image.tmdb.org/t/p/w185/abc.jpg"));
    assert_eq!(hero.as_deref(), Some("https://image.tmdb.org/t/p/w342/abc.jpg"));
}

#[test]
fn an_absent_or_blank_path_builds_nothing() {
    for source in MetadataSource::all() {
        assert_eq!(url(source, None, ImageSize::Index), None);
        assert_eq!(url(source, Some("   "), ImageSize::Index), None);
    }
}

#[test]
fn a_value_that_is_not_a_url_is_refused_rather_than_guessed() {
    assert_eq!(url(MetadataSource::Tvdb, Some("/abc.jpg"), ImageSize::Hero), None);
}

#[test]
fn a_full_identity_becomes_a_full_axis() {
    let ids = vec![
        stored(MetadataSource::Tmdb, "76479"),
        stored(MetadataSource::Imdb, "tt1190634"),
        stored(MetadataSource::Tvdb, "355567"),
    ];
    let (axis, rejected) = resolve(&ids, MediaType::Tv);
    assert!(rejected.is_empty());
    assert_eq!(axis.tmdb, Some(76_479));
    assert_eq!(axis.imdb, Some(1_190_634));
    assert_eq!(axis.tvdb, Some(355_567));
    assert!(axis.can_search_episodes());
}

#[test]
fn an_unusable_id_is_counted_not_dropped() {
    let ids = vec![stored(MetadataSource::Tmdb, "99999999999")];
    let (axis, rejected) = resolve(&ids, MediaType::Movie);

    assert!(axis.is_empty());
    assert_eq!(rejected.len(), 1);
    assert_eq!(rejected[0].source, MetadataSource::Tmdb);
    assert_eq!(rejected[0].reason, Reason::OutOfRange);
    assert!(rejected[0].message().contains("indexadores"));
    assert!(rejected[0].message().contains("99999999999"));
}

#[test]
fn a_series_without_a_tvdb_id_cannot_search_episodes() {
    let ids = vec![stored(MetadataSource::Tmdb, "95479")];
    let (axis, rejected) = resolve(&ids, MediaType::Tv);
    assert!(rejected.is_empty(), "nothing is wrong with the id it has");
    assert!(!axis.is_empty(), "the title is still searchable");
    assert!(!axis.can_search_episodes());
}

#[test]
fn a_tvdb_id_on_a_film_is_ignored_quietly() {
    let ids = vec![
        stored(MetadataSource::Tmdb, "603"),
        stored(MetadataSource::Tvdb, "1"),
    ];
    let (axis, rejected) = resolve(&ids, MediaType::Movie);
    assert!(rejected.is_empty());
    assert_eq!(axis.tvdb, None);
    assert_eq!(axis.tmdb, Some(603));
}

#[test]
fn every_source_is_either_an_axis_or_a_named_rejection() {
    for source in MetadataSource::all() {
        let ids = vec![stored(source, "1")];
        let (axis, rejected) = resolve(&ids, MediaType::Tv);
        assert!(!axis.is_empty() || !rejected.is_empty());
    }
}

#[test]
fn an_empty_identity_is_an_empty_axis() {
    let (axis, rejected) = resolve(&[], MediaType::Tv);
    assert!(axis.is_empty());
    assert!(rejected.is_empty());
}

#[test]
fn every_source_has_a_place_in_the_structure_order() {
    for source in MetadataSource::all() {
        let builds_trees =
            capabilities_of(source).is_some_and(|c| c.structure.covers(MediaType::Tv));
        assert_eq!(builds_trees, structure_rank(source).is_some());
    }
    let mut by_rank: Vec<(u8, MetadataSource)> = MetadataSource::all()
        .into_iter()
        .filter_map(|s| structure_rank(s).map(|r| (r, s)))
        .collect();
    by_rank.sort_by_key(|(rank, _)| *rank);
    assert_eq!(by_rank.first().map(|(_, s)| *s), Some(MetadataSource::Tvdb));
}

fn both_ids() -> [StoredId; 2] {
    [
        stored(MetadataSource::Tmdb, "1396"),
        stored(MetadataSource::Tvdb, "81189"),
    ]
}

fn refused(fault: MetadataFault) -> TreeReply {
    TreeReply::Refused(fault, "81189".to_owned())
}

#[test]
fn a_new_series_is_born_under_the_source_the_scene_follows() {
    let asked = candidates(&Registry::build(true, true), &both_ids());
    assert_eq!(
        asked,
        vec![
            Candidate {
                source: MetadataSource::Tvdb,
                id: 1
            },
            Candidate {
                source: MetadataSource::Tmdb,
                id: 0
            }
        ]
    );
    assert!(matches!(born(&asked, &[]), Birth::Ask(0)));
    assert!(matches!(born(&asked, &[TreeReply::Tree]), Birth::Owned(0)));
}

#[test]
fn a_source_that_does_not_have_the_title_hands_it_to_the_next() {
    let asked = candidates(&Registry::build(true, true), &both_ids());
    let first = refused(MetadataFault::NotFound);
    assert!(matches!(born(&asked, &[first.clone()]), Birth::Ask(1)));
    assert!(matches!(born(&asked, &[first, TreeReply::Tree]), Birth::Owned(1)));
}

#[test]
fn a_source_that_could_not_be_asked_does_not_hand_the_title_on() {
    let asked = candidates(&Registry::build(true, true), &both_ids());
    assert!(matches!(
        born(&asked, &[refused(MetadataFault::Unavailable)]),
        Birth::Failed(AppError::Metadata(MetadataFault::Unavailable, _))
    ));
}

#[test]
fn a_source_brarr_holds_no_id_for_is_skipped() {
    let ids = [stored(MetadataSource::Tmdb, "1396")];
    let asked = candidates(&Registry::build(true, true), &ids);
    assert_eq!(asked.len(), 1);
    assert_eq!(asked[0].source, MetadataSource::Tmdb);
}

#[test]
fn an_unconfigured_deployment_names_the_credential() {
    let ids = [stored(MetadataSource::Tmdb, "1396")];
    let asked = candidates(&Registry::build(false, false), &ids);
    assert!(matches!(
        born(&asked, &[]),
        Birth::Failed(AppError::InvalidInput(m)) if m.contains("/settings")
    ));
}

#[test]
fn everybody_refusing_is_the_last_refusal() {
    let asked = candidates(&Registry::build(true, true), &both_ids());
    let replies = [refused(MetadataFault::NotFound), refused(MetadataFault::NotFound)];
    assert!(matches!(
        born(&asked, &replies),
        Birth::Failed(AppError::Metadata(MetadataFault::NotFound, m)) if m == "81189"
    ));
}

#[test]
fn a_recorded_owner_is_not_re_decided() {
    let plan = tree_plan(
        Some(MetadataSource::Tmdb),
        &Registry::build(true, true),
        &both_ids(),
    );
    assert!(matches!(plan, TreePlan::Owner(MetadataSource::Tmdb, 0)));
}

#[test]
fn a_title_with_no_id_for_its_owner_is_refused() {
    let ids = [stored(MetadataSource::Tmdb, "1396")];
    let plan = tree_plan(Some(MetadataSource::Tvdb), &Registry::build(true, true), &ids);
    assert!(matches!(
        plan,
        TreePlan::Refused(AppError::InvalidInput(m)) if m.contains("TheTVDB")
    ));
    let plan = tree_plan(Some(MetadataSource::Tmdb), &Registry::build(false, true), &ids);
    assert!(matches!(
        plan,
        TreePlan::Refused(AppError::Metadata(MetadataFault::Unauthorized, _))
    ));
}

#[test]
fn an_unconfigured_deployment_has_an_empty_registry() {
    let registry = Registry::build(false, false);
    assert_eq!(registry.configured().len(), 0);
    assert!(registry.get(MetadataSource::Tmdb).is_none());
    assert!(matches!(
        registry.require(MetadataSource::Tvdb),
        Err(AppError::Metadata(MetadataFault::Unauthorized, m)) if m.contains("TheTVDB")
    ));
}

fn setting(key: &str, value: &str) -> SettingRow {
    SettingRow {
        key: key.to_owned(),
        value: value.to_owned(),
        updated_at: 0,
    }
}

#[test]
fn a_stored_credential_builds_its_provider() {
    let rows = [setting(KEY_TVDB_API_KEY, "a-key")];
    let tvdb = tvdb_config(&rows).unwrap();
    assert_eq!(tvdb.api_key, "a-key");
    assert!(tvdb.pin.is_none(), "absent, not empty");
    assert!(tmdb_config(&rows).is_none());
    let both = Registry::build(true, true);
    assert_eq!(both.built[0].source, MetadataSource::Tmdb);
    assert_eq!(both.built[1].source, MetadataSource::Tvdb);
    let registry = Registry::build(false, true);
    assert_eq!(registry.configured(), vec![MetadataSource::Tvdb]);
    assert!(registry.require(MetadataSource::Tvdb).is_ok());
}

#[test]
fn a_blank_credential_configures_nothing() {
    let rows = [setting(KEY_TMDB_TOKEN, "   ")];
    assert!(tmdb_config(&rows).is_none());
    let rows = [
        setting(KEY_TMDB_TOKEN, " t "),
        setting(KEY_TMDB_LANGUAGE, "pt-BR"),
        setting(KEY_TVDB_API_KEY, "k"),
        setting(KEY_TVDB_PIN, " 7 "),
    ];
    let tmdb = tmdb_config(&rows).unwrap();
    assert_eq!(tmdb.token, "t");
    assert_eq!(tmdb.language.as_deref(), Some("pt-BR"));
    assert!(tmdb.country.is_none());
    assert_eq!(tvdb_config(&rows).unwrap().pin.as_deref(), Some("7"));
}

#[test]
fn no_provider_is_offered_a_structure_it_cannot_build() {
    let registry = Registry::build(true, true);
    assert_eq!(registry.for_structure(MediaType::Movie).len(), 0);
    assert_eq!(registry.for_structure(MediaType::Tv).len(), 2);
    assert_eq!(registry.for_identity(MediaType::Movie).len(), 1);
    assert_eq!(registry.for_identity(MediaType::Tv).len(), 2);
}

#[test]
fn every_provider_declares_something_it_could_meet() {
    for source in MetadataSource::all() {
        let Some(caps) = capabilities_of(source) else {
            assert!(!is_callable(source));
            continue;
        };
        assert!(caps.is_coherent());
    }
}

#[test]
fn every_callable_source_declares_a_credential() {
    let fields = credential_fields();
    for source in MetadataSource::all() {
        if !is_callable(source) {
            continue;
        }
        let declared: Vec<_> = fields.iter().filter(|(s, _)| *s == source).collect();
        assert!(!declared.is_empty());
        for (_, field) in declared {
            assert!(!field.key.is_empty());
            assert!(!field.label.is_empty());
        }
    }
    assert!(fields.iter().all(|(s, _)| is_callable(*s)));
}

#[test]
fn every_declared_key_is_a_settings_key() {
    let known = [KEY_TMDB_TOKEN, KEY_TVDB_API_KEY, KEY_TVDB_PIN];
    for (_, field) in credential_fields() {
        assert!(known.contains(&field.key));
    }
}

fn scan_of(item: LibraryItem, covered: &[bool], unaired: usize) -> ItemScan {
    let targets = covered.iter().map(|_| movie_target_for(&item)).collect();
    ItemScan {
        plan: TargetPlan {
            targets,
            skipped_unmonitored: 0,
            skipped_unaired: unaired,
            skipped_unreleased: 0,
            no_search_axis: false,
            rejected: Vec::new(),
        },
        standings: covered
            .iter()
            .map(|&covered| Standing {
                covered,
                last_searched: None,
            })
            .collect(),
        item,
    }
}

#[test]
fn a_sweep_counts_everything_and_queues_what_its_budget_allows() {
    let now = at(1_700_000_000);
    let scans = vec![
        scan_of(item(MediaType::Movie), &[false, true, false], 2),
        scan_of(item(MediaType::Movie), &[false], 1),
    ];
    let sweep = run_once(scans, 2, now);
    assert_eq!(sweep.queue.len(), 2);
    assert_eq!(sweep.summary.targets, 4);
    assert_eq!(sweep.summary.skipped_covered, 1);
    assert_eq!(sweep.summary.skipped_unaired, 3);
    assert_eq!(sweep.summary.skipped_over_cap, 1);
}

#[test]
fn one_item_is_swept_without_a_budget() {
    let now = at(1_700_000_000);
    let sweep = scan_item(scan_of(item(MediaType::Movie), &[false, false, true], 0), now);
    assert_eq!(sweep.queue.len(), 2);
    assert_eq!(sweep.summary.targets, 3);
    assert_eq!(sweep.summary.skipped_covered, 1);
    assert_eq!(sweep.summary.skipped_over_cap, 0);
}

#[test]
fn a_pause_stops_a_sweep_of_one_target() {
    let now = at(1_700_000_000);
    let paused = run_once_for_target(true, scan_of(item(MediaType::Movie), &[false], 4), now);
    assert!(paused.summary.paused);
    assert!(paused.queue.is_empty());
    assert_eq!(paused.summary.targets, 0);
    assert_eq!(paused.summary.skipped_unaired, 0);

    let live = run_once_for_target(false, scan_of(item(MediaType::Movie), &[false], 4), now);
    assert!(!live.summary.paused);
    assert_eq!(live.queue.len(), 1);
    assert_eq!(live.summary.skipped_unaired, 4);

    let whole = || scan_of(item(MediaType::Movie), &[false, false], 0);
    assert!(run_once_for_item(true, whole(), now).queue.is_empty());
    assert_eq!(run_once_for_item(false, whole(), now).queue.len(), 2);
}

#[test]
fn a_cycle_needs_a_client_and_no_pause() {
    assert!(run_one_cycle(false, Some(1)));
    assert!(!run_one_cycle(true, Some(1)));
    assert!(!run_one_cycle(false, Some(0)));
    assert!(!run_one_cycle(false, None));
}

#[test]
fn a_profile_that_is_gone_does_not_stall_the_sweep() {
    let rule = || ProfileRule {
        id: 7,
        push_threshold: 40,
    };
    assert!(matches!(resolve_profile(None, Ok(rule())), Ok(None)));
    let kept = resolve_profile(Some(7), Ok(rule())).unwrap().unwrap();
    assert_eq!((kept.id, kept.push_threshold), (7, 40));
    let gone = resolve_profile(Some(7), Err(AppError::NotFound("quality_profile".to_owned())));
    assert!(matches!(gone, Ok(None)));
    let broken = resolve_profile(Some(7), Err(AppError::Database("locked".to_owned())));
    assert!(matches!(broken, Err(AppError::Database(m)) if m == "locked"));
}
