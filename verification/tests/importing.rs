//! Where a finished download lands and how it is named.

use brarr_orchestrator::catalogue::{Episode, LibraryItem, MediaType};
use brarr_orchestrator::db::root_folders::{
    normalise, pick, registered, validate, DiskUsage, PathFacts, RootFolder,
};
use brarr_orchestrator::error::AppError;
use brarr_orchestrator::import::{
    configured_mode, copy_failed, destination, import_grab, import_pending, is_video, kept_extension,
    landing_path, locate_download, locate_state, looks_like_sample, pass_size, pick_video, place,
    place_download, place_start, plan, plan_and_place, resolve_root, reuse_existing_item_folder,
    reuse_existing_season_folder, sanitize, season_number, unreachable_path_message, wanted_path,
    ClientReply, CopyStage, FoundFile, Gathered, GrabUpdate, ImportMode, ImportOutcome, LocateState,
    PickError, PlaceNext, PlaceStep, Placement, Placing, Seen, StepResult,
};
use brarr_orchestrator::remote_path::PathMapping;

fn folder(media_type: Option<MediaType>, path: &str) -> RootFolder {
    RootFolder {
        id: 1,
        path: path.to_owned(),
        media_type,
        created_at: 0,
    }
}

#[test]
fn an_exact_kind_wins_over_a_folder_that_serves_both() {
    let folders = vec![
        folder(None, "/data/media"),
        folder(Some(MediaType::Movie), "/data/filmes"),
    ];
    assert_eq!(
        pick(&folders, MediaType::Movie).map(|f| f.path.as_str()),
        Some("/data/filmes")
    );
    assert_eq!(
        pick(&folders, MediaType::Tv).map(|f| f.path.as_str()),
        Some("/data/media")
    );
}

#[test]
fn nothing_configured_resolves_to_nothing() {
    assert!(pick(&[], MediaType::Movie).is_none());
    let only_tv = vec![folder(Some(MediaType::Tv), "/data/series")];
    assert!(pick(&only_tv, MediaType::Movie).is_none());
}

#[test]
fn usage_percentage_is_bounded_and_survives_a_zero_total() {
    assert_eq!(
        DiskUsage {
            available: 25,
            total: 100
        }
        .used_percent(),
        75
    );
    assert_eq!(
        DiskUsage {
            available: 0,
            total: 0
        }
        .used_percent(),
        0,
        "an unknown filesystem must not render as a full one"
    );
    assert_eq!(
        DiskUsage {
            available: 200,
            total: 100
        }
        .used_percent(),
        0,
        "more free than total is nonsense, not 100% used"
    );
}

#[test]
fn a_root_folder_is_validated_before_it_is_registered() {
    assert_eq!(normalise("/data/media/"), "/data/media");
    assert_eq!(normalise(" / "), "/");
    let found = PathFacts::Found {
        is_dir: true,
        readonly: false,
    };
    assert!(validate("/data", found).is_ok());
    let file = PathFacts::Found {
        is_dir: false,
        readonly: false,
    };
    assert!(matches!(validate("/data/x.txt", file), Err(AppError::InvalidInput(_))));
    let missing = PathFacts::Unreadable("not found".to_owned());
    assert!(matches!(
        validate("/nao/existe", missing),
        Err(AppError::InvalidInput(m)) if m.contains("/nao/existe")
    ));
    let blank = PathFacts::Unreadable("x".to_owned());
    assert!(matches!(validate("", blank), Err(AppError::InvalidInput(_))));
    let folders = [folder(None, "/data/media")];
    let spelled: Vec<char> = "/data/media/".chars().collect();
    assert!(registered(&folders, &spelled, '/').is_some());
}

#[test]
fn season_folders_are_read_in_either_spelling() {
    assert_eq!(season_number("Season 02"), Some(2));
    assert_eq!(season_number("season 2"), Some(2));
    assert_eq!(season_number("Temporada 11"), Some(11));
    assert_eq!(season_number("Especiais"), None);
    assert_eq!(season_number("Season"), None);
    assert_eq!(season_number("Seasons of Love"), None);
}

#[test]
fn an_existing_season_folder_wins_over_our_spelling() {
    let wanted = "/lib/Dragon Ball Super/Season 02/Dragon Ball Super - S02E01.mkv";
    assert_eq!(
        reuse_existing_season_folder(wanted, &["Season 2".to_owned()], '/'),
        "/lib/Dragon Ball Super/Season 2/Dragon Ball Super - S02E01.mkv"
    );
}

#[test]
fn a_different_season_is_not_a_match() {
    let wanted = "/lib/Serie/Season 02/Serie - S02E01.mkv";
    assert_eq!(
        reuse_existing_season_folder(wanted, &["Season 3".to_owned()], '/'),
        wanted
    );
}

#[test]
fn an_absent_item_folder_leaves_the_path_alone() {
    let wanted = "/lib/Serie/Season 02/Serie - S02E01.mkv";
    assert_eq!(reuse_existing_season_folder(wanted, &[], '/'), wanted);
}

#[test]
fn a_movie_path_is_untouched() {
    let wanted = "/lib/filmes/Duna (2024)/Duna (2024).mkv";
    assert_eq!(
        reuse_existing_season_folder(wanted, &["Duna (2024)".to_owned()], '/'),
        wanted
    );
}

fn land(root: &str, title: &str, year: Option<i32>, episode: Option<(u16, u16)>, ext: &str) -> String {
    let ext: Vec<char> = ext.chars().collect();
    destination(root, title, year, episode, &ext, '/').iter().collect()
}

#[test]
fn a_movie_lands_in_a_plex_shaped_path() {
    assert_eq!(
        land("/data/filmes", "Duna: Parte Dois", Some(2024), None, "mkv"),
        "/data/filmes/Duna Parte Dois (2024)/Duna Parte Dois (2024).mkv",
        "the colon is illegal on Windows and would be a silent failure there"
    );
}

#[test]
fn an_episode_lands_under_its_season() {
    assert_eq!(
        land("/data/series", "The Boys", Some(2019), Some((4, 7)), "mkv"),
        "/data/series/The Boys (2019)/Season 04/The Boys - S04E07.mkv"
    );
}

#[test]
fn a_title_with_no_year_still_gets_a_folder() {
    assert_eq!(land("/data", "Sem Ano", None, None, "mp4"), "/data/Sem Ano/Sem Ano.mp4");
}

#[test]
fn a_long_title_gives_way_to_what_stands_behind_it() {
    let long = "a".repeat(250);
    assert_eq!(
        land("/d", &long, None, None, "mkv"),
        format!("/d/{}/{}.mkv", "a".repeat(200), "a".repeat(196))
    );
    assert_eq!(
        land("/d", &long, Some(1999), None, "mkv"),
        format!("/d/{} (1999)/{} (1999).mkv", "a".repeat(193), "a".repeat(189))
    );
    assert_eq!(
        land("/d", &long, None, Some((1, 2)), "mkv"),
        format!("/d/{}/Season 01/{} - S01E02.mkv", "a".repeat(200), "a".repeat(187))
    );
}

#[test]
fn a_title_cannot_leave_its_root() {
    assert_eq!(
        land("/d", "../../etc", None, None, "mkv"),
        "/d/.. .. etc/.. .. etc.mkv"
    );
    assert_eq!(
        land("/d", "/etc/passwd", None, Some((1, 2)), "mkv"),
        "/d/etc passwd/Season 01/etc passwd - S01E02.mkv"
    );
}

#[test]
fn sanitising_twice_changes_nothing() {
    for raw in ["A/B", "  x   y. ", "con", "", "nul.txt", "...", "a: b"] {
        let once = sanitize(raw);
        assert_eq!(sanitize(&once), once);
    }
}

#[test]
fn sanitising_removes_what_a_filesystem_refuses() {
    assert_eq!(sanitize("A/B\\C:D*E?F\"G<H>I|J"), "A B C D E F G H I J");
    assert_eq!(sanitize("trailing dot."), "trailing dot");
    assert_eq!(sanitize("  espaços   demais  "), "espaços demais");
    assert_eq!(sanitize(""), "sem-titulo");
    assert_eq!(sanitize("///"), "sem-titulo");
}

#[test]
fn a_reserved_device_name_is_not_a_folder_name() {
    assert_eq!(sanitize("NUL"), "_NUL");
    assert_eq!(sanitize("con.mkv"), "_con.mkv");
    assert_eq!(sanitize("Contact"), "Contact", "only whole names count");
}

#[test]
fn a_very_long_title_is_cut_on_a_char_boundary() {
    let long = "ç".repeat(500);
    let out = sanitize(&long);
    assert_eq!(out.chars().count(), 200);
}

#[test]
fn a_cut_never_leaves_a_dot_or_a_space_behind() {
    let long = format!("{}. more", "x".repeat(199));
    assert_eq!(sanitize(&long), "x".repeat(199));
}

fn found(path: &str, size: u64) -> FoundFile {
    FoundFile {
        path: path.to_owned(),
        size,
    }
}

fn picked(files: Vec<FoundFile>, episode: Option<(u16, u16)>) -> Result<String, PickError> {
    pick_video("/dl/Release", Seen::Folder(files), episode, '/')
}

#[test]
fn the_largest_video_wins() {
    let got = picked(
        vec![
            found("/dl/Release/small.mkv", 10),
            found("/dl/Release/feature.mkv", 1000),
            found("/dl/Release/notes.txt", 5000),
        ],
        None,
    );
    assert_eq!(got.unwrap(), "/dl/Release/feature.mkv");
}

#[test]
fn samples_are_skipped_even_when_they_are_the_only_big_file() {
    let got = picked(
        vec![
            found("/dl/Release/Sample/movie-sample.mkv", 9999),
            found("/dl/Release/movie.mkv", 100),
        ],
        None,
    );
    assert_eq!(got.unwrap(), "/dl/Release/movie.mkv");
}

#[test]
fn a_download_folder_living_under_a_sample_named_path_still_imports() {
    let got = pick_video(
        "/mnt/sample-disk/Release",
        Seen::Folder(vec![found("/mnt/sample-disk/Release/movie.mkv", 100)]),
        None,
        '/',
    );
    assert_eq!(got.unwrap(), "/mnt/sample-disk/Release/movie.mkv");
    assert!(!looks_like_sample("/mnt/sample-disk/R/m.mkv", "/mnt/sample-disk/R", '/'));
}

#[test]
fn a_group_called_samples_is_not_a_sample() {
    let got = picked(
        vec![found("/dl/Release/Movie.2024.1080p-SAMPLES.mkv", 100)],
        None,
    );
    assert_eq!(got.unwrap(), "/dl/Release/Movie.2024.1080p-SAMPLES.mkv");
}

#[test]
fn a_single_file_download_needs_no_walking() {
    let got = pick_video("/dl/Movie.2024.1080p.mkv", Seen::File, None, '/');
    assert_eq!(got.unwrap(), "/dl/Movie.2024.1080p.mkv");
}

#[test]
fn a_download_with_no_video_is_a_permanent_failure() {
    let got = picked(vec![found("/dl/Release/readme.nfo", 10)], None);
    assert!(matches!(got, Err(PickError::BadContent(_))));
    let hidden = pick_video("/dl/x", Seen::NotVisible("not found".to_owned()), None, '/');
    assert!(matches!(hidden, Err(PickError::NotVisible(_))));
    assert!(is_video("/dl/x.MKV", '/'));
    assert!(!is_video("/dl/x.nfo", '/'));
}

#[test]
fn an_episode_grab_picks_the_file_that_names_the_episode() {
    let got = picked(
        vec![
            found("/dl/Release/The.Boys.S04E01.1080p.mkv", 9999),
            found("/dl/Release/The.Boys.S04E07.1080p.mkv", 100),
        ],
        Some((4, 7)),
    );
    assert_eq!(got.unwrap(), "/dl/Release/The.Boys.S04E07.1080p.mkv");
}

#[test]
fn a_pack_that_names_no_episode_is_refused_rather_than_guessed() {
    let got = picked(
        vec![
            found("/dl/Release/part1.mkv", 100),
            found("/dl/Release/part2.mkv", 200),
        ],
        Some((4, 7)),
    );
    match got {
        Err(PickError::BadContent(reason)) => assert!(reason.contains("S04E07"), "got {reason}"),
        other => panic!("an ambiguous pack is permanent, got {other:?}"),
    }
}

#[test]
fn one_unnamed_video_is_still_accepted_for_an_episode() {
    let got = picked(vec![found("/dl/Release/episodio.mkv", 100)], Some((4, 7)));
    assert_eq!(got.unwrap(), "/dl/Release/episodio.mkv");
}

fn run_steps(mode: ImportMode, results: &[StepResult]) -> (Vec<PlaceStep>, PlaceNext) {
    let mut steps = vec![place_start(true)];
    let mut i = 0;
    loop {
        let step = steps[steps.len() - 1];
        match place(mode, step, results[i].clone(), "/lib/M/m.mkv", "/lib/M") {
            PlaceNext::Step(next) => steps.push(next),
            end => return (steps, end),
        }
        i += 1;
    }
}

#[test]
fn placing_hardlinks_by_default_and_leaves_the_source_alone() {
    let (steps, end) = run_steps(
        ImportMode::Hardlink,
        &[StepResult::Done, StepResult::Done, StepResult::Done],
    );
    assert_eq!(steps, vec![PlaceStep::MakeFolder, PlaceStep::Look, PlaceStep::Link]);
    assert!(matches!(end, PlaceNext::Placed(ImportMode::Hardlink)));
    let (steps, end) = run_steps(
        ImportMode::Hardlink,
        &[
            StepResult::Done,
            StepResult::Done,
            StepResult::Failed("cross-device".to_owned()),
            StepResult::Done,
        ],
    );
    assert_eq!(steps[3], PlaceStep::Copy);
    assert!(matches!(end, PlaceNext::Placed(ImportMode::Copy)));
}

#[test]
fn an_existing_destination_is_never_overwritten() {
    let (_, end) = run_steps(ImportMode::Copy, &[StepResult::Done, StepResult::Occupied]);
    match end {
        PlaceNext::Refused(err) => assert!(err.contains("já existe"), "got {err}"),
        other => panic!("expected a refusal, got {other:?}"),
    }
}

#[test]
fn copy_produces_an_independent_file() {
    let (steps, end) = run_steps(
        ImportMode::Copy,
        &[StepResult::Done, StepResult::Done, StepResult::Done],
    );
    assert_eq!(steps[2], PlaceStep::Copy);
    assert!(matches!(end, PlaceNext::Placed(ImportMode::Copy)));
}

#[test]
fn move_takes_the_source_with_it() {
    let (steps, end) = run_steps(
        ImportMode::Move,
        &[StepResult::Done, StepResult::Done, StepResult::Done],
    );
    assert_eq!(steps[2], PlaceStep::Rename);
    assert!(matches!(end, PlaceNext::Placed(ImportMode::Move)));
    let (steps, _) = run_steps(
        ImportMode::Move,
        &[
            StepResult::Done,
            StepResult::Done,
            StepResult::Failed("cross-device".to_owned()),
            StepResult::Done,
            StepResult::Done,
        ],
    );
    assert_eq!(&steps[3..], &[PlaceStep::Copy, PlaceStep::RemoveSource]);
}

#[test]
fn the_whole_placement_runs_end_to_end() {
    let source = "/dl/The.Boys.S04E07.1080p.WEB-DL";
    let video = pick_video(
        source,
        Seen::Folder(vec![
            found("/dl/The.Boys.S04E07.1080p.WEB-DL/sample/s.mkv", 5000),
            found("/dl/The.Boys.S04E07.1080p.WEB-DL/the.boys.s04e07.mkv", 128),
        ]),
        Some((4, 7)),
        '/',
    )
    .unwrap();
    let ext: String = kept_extension(&video, '/').iter().collect();
    let path = land("/lib", "The Boys", Some(2019), Some((4, 7)), &ext);
    assert_eq!(path, "/lib/The Boys (2019)/Season 04/The Boys - S04E07.mkv");
    match place_download(source, Placing::Ran(path.clone(), Ok(ImportMode::Hardlink))) {
        ImportOutcome::Imported { path: landed, mode } => {
            assert_eq!(landed, path);
            assert_eq!(mode, ImportMode::Hardlink);
        }
        other => panic!("expected an import, got {other:?}"),
    }
}

#[test]
fn a_plan_lands_in_the_folders_that_are_there() {
    let plan = Placement {
        root: "/lib".to_owned(),
        title: "The Boys".to_owned(),
        year: Some(2019),
        episode: Some((4, 7)),
        mode: ImportMode::Hardlink,
    };
    let video = "/dl/x/the.boys.s04e07.MP4";
    assert_eq!(
        wanted_path(&plan, video, '/'),
        "/lib/The Boys (2019)/Season 04/The Boys - S04E07.mp4"
    );
    assert_eq!(
        wanted_path(&plan, "/dl/x/noext", '/'),
        "/lib/The Boys (2019)/Season 04/The Boys - S04E07.mkv"
    );
    let names = |list: &[&str]| list.iter().map(|n| (*n).to_owned()).collect::<Vec<String>>();
    let land = |exists, root: &[&str], title: &[&str]| {
        landing_path(&plan, video, exists, &names(root), &names(title), '/')
    };
    assert_eq!(land(false, &[], &[]), wanted_path(&plan, video, '/'));
    assert_eq!(
        land(false, &["The Boys", "Lost"], &["Season 4"]),
        "/lib/The Boys/Season 4/The Boys - S04E07.mp4"
    );
    assert_eq!(
        land(true, &["The Boys", "Lost"], &["Season 3"]),
        "/lib/The Boys (2019)/Season 04/The Boys - S04E07.mp4"
    );
}

#[test]
fn the_mode_label_round_trips_and_bad_input_is_the_safe_default() {
    for mode in [ImportMode::Hardlink, ImportMode::Copy, ImportMode::Move] {
        assert_eq!(ImportMode::from_label(mode.label()), mode);
    }
    assert_eq!(
        ImportMode::from_label("qualquer coisa"),
        ImportMode::Hardlink,
        "a bad setting must not become `move` and kill a seed"
    );
    assert_eq!(configured_mode(None), ImportMode::Hardlink);
    assert_eq!(configured_mode(Some("copy")), ImportMode::Copy);
}

fn reuse(wanted: &str, exists: bool, dirs: &[&str]) -> String {
    let dirs: Vec<String> = dirs.iter().map(|d| (*d).to_owned()).collect();
    reuse_existing_item_folder("/lib", wanted, exists, &dirs, '/')
}

#[test]
fn an_existing_series_folder_is_reused_across_the_year_suffix() {
    assert_eq!(
        reuse("/lib/Fringe (2008)/Season 01/f.mkv", false, &["Fringe", "Lost"]),
        "/lib/Fringe/Season 01/f.mkv"
    );
}

#[test]
fn nothing_on_disk_means_brarr_writes_its_own_folder_name() {
    let wanted = "/lib/Fringe (2008)/Season 01/f.mkv";
    assert_eq!(reuse(wanted, false, &[]), wanted);
    assert_eq!(reuse(wanted, true, &["Fringe"]), wanted, "its own folder is there");
}

#[test]
fn the_same_title_under_another_year_is_another_film() {
    let wanted = "/lib/Duna (2021)/Duna (2021).mkv";
    assert_eq!(reuse(wanted, false, &["Duna (1984)"]), wanted);
}

#[test]
fn two_year_variants_are_ambiguous_and_nothing_is_reused() {
    let wanted = "/lib/Duna/Duna.mkv";
    assert_eq!(reuse(wanted, false, &["Duna (1984)", "Duna (2021)"]), wanted);
}

#[test]
fn a_different_title_is_not_a_year_variant() {
    let wanted = "/lib/Duna (2021)/Duna (2021).mkv";
    assert_eq!(reuse(wanted, false, &["Duna Parte Dois"]), wanted);
}

fn movie() -> LibraryItem {
    LibraryItem {
        id: 1,
        media_type: MediaType::Movie,
        title: "The Matrix".to_owned(),
        year: Some(1999),
        status: None,
        digital_release_at: None,
        profile_id: None,
        root_folder: None,
    }
}

fn located() -> brarr_orchestrator::import::Located {
    let rules = [PathMapping {
        id: 4,
        client_id: 5,
        remote_prefix: "/data".to_owned(),
        local_prefix: "/midias".to_owned(),
        created_at: 0,
    }];
    locate_download(
        ClientReply::Saved(Some("/data/torrents/x".to_owned())),
        "qb",
        &rules,
        '/',
    )
    .unwrap()
}

#[test]
fn a_download_is_located_through_the_mappings() {
    let at = located();
    assert_eq!(at.path, "/midias/torrents/x");
    assert_eq!(at.reported, "/data/torrents/x");
    assert!(at.usable);
    assert!(matches!(locate_state(&at), LocateState::Translated));
    assert!(unreachable_path_message(&at).contains("/midias/torrents/x"));
    for reply in [
        ClientReply::Unnamed,
        ClientReply::Removed,
        ClientReply::Failed("x".to_owned()),
        ClientReply::Unknown,
        ClientReply::Saved(None),
    ] {
        assert!(locate_download(reply, "qb", &[], '/').is_err());
    }
}

#[test]
fn with_no_root_folder_the_grab_waits_instead_of_failing() {
    let item = movie();
    let out = plan(Gathered {
        item: Some(&item),
        root: None,
        located: Ok(located()),
        episode: None,
        mode: ImportMode::Hardlink,
    });
    assert!(matches!(out, Err(ImportOutcome::Waiting(_))));
}

#[test]
fn a_grab_that_named_no_client_waits_too() {
    let item = movie();
    let root = folder(None, "/lib");
    let out = plan(Gathered {
        item: Some(&item),
        root: Some(&root),
        located: Err("sem cliente".to_owned()),
        episode: None,
        mode: ImportMode::Hardlink,
    });
    assert!(matches!(out, Err(ImportOutcome::Waiting(_))));
}

#[test]
fn a_complete_plan_names_where_the_file_goes() {
    let mut item = movie();
    item.media_type = MediaType::Tv;
    let root = folder(None, "/lib");
    let out = plan(Gathered {
        item: Some(&item),
        root: Some(&root),
        located: Ok(located()),
        episode: Some(Episode {
            id: 9,
            season_number: 2,
            episode_number: 3,
            air_date: None,
            monitored: true,
        }),
        mode: ImportMode::Copy,
    });
    let (placement, _) = match out {
        Ok(p) => p,
        Err(other) => panic!("expected a plan, got {other:?}"),
    };
    assert_eq!(placement.root, "/lib");
    assert_eq!(placement.title, "The Matrix");
    assert_eq!(placement.year, Some(1999));
    assert_eq!(placement.episode, Some((2, 3)));
    assert_eq!(placement.mode, ImportMode::Copy);
    assert!(resolve_root(&item, &[root.clone()], '/').is_some());
}

#[test]
fn a_source_brarr_cannot_see_waits_instead_of_failing() {
    let hidden = place_download(
        "/midias/torrents/x",
        Placing::NoVideo(PickError::NotVisible("not found".to_owned())),
    );
    assert!(matches!(hidden, ImportOutcome::Waiting(_)));
    assert!(matches!(plan_and_place(hidden, &located()), ImportOutcome::Waiting(_)));
}

#[test]
fn a_destination_that_already_holds_a_file_is_adopted_not_failed() {
    let out = place_download("/dl/x", Placing::Occupied("/lib/M/m.mkv".to_owned()));
    assert!(matches!(&out, ImportOutcome::AlreadyPresent { path } if path == "/lib/M/m.mkv"));
    assert!(matches!(import_grab(&out), GrabUpdate::MarkImported(p) if p == "/lib/M/m.mkv"));
}

#[test]
fn a_folder_with_no_video_is_still_permanent() {
    let out = place_download(
        "/dl/x",
        Placing::NoVideo(PickError::BadContent("nenhum vídeo".to_owned())),
    );
    assert!(matches!(&out, ImportOutcome::Permanent(_)));
    assert!(matches!(import_grab(&out), GrabUpdate::MarkFailed(_)));
}

#[test]
fn waiting_records_a_reason_the_operator_can_act_on() {
    let out = ImportOutcome::Waiting("nenhuma pasta raiz".to_owned());
    assert!(matches!(import_grab(&out), GrabUpdate::SetWaitReason(m) if m == "nenhuma pasta raiz"));
}

#[test]
fn a_pass_is_bounded_and_counts_its_ends() {
    assert_eq!(pass_size(false, 10), 3);
    assert_eq!(pass_size(false, 2), 2);
    assert_eq!(pass_size(true, 10), 0);
    let summary = import_pending(&[
        ImportOutcome::Imported {
            path: "/a".to_owned(),
            mode: ImportMode::Copy,
        },
        ImportOutcome::AlreadyPresent {
            path: "/b".to_owned(),
        },
        ImportOutcome::Waiting("x".to_owned()),
        ImportOutcome::Permanent("y".to_owned()),
    ]);
    assert_eq!(summary.considered, 4);
    assert_eq!(summary.imported, 1);
    assert_eq!(summary.adopted, 1);
    assert_eq!(summary.waiting, 1);
    assert_eq!(summary.failed, 1);
}

#[test]
fn a_failed_copy_says_which_part_failed() {
    let said = |stage| copy_failed(stage, "/dl/a.mkv", "/tv/a.mkv", "no space");
    assert_eq!(said(CopyStage::Open), "não consegui abrir /dl/a.mkv: no space");
    assert_eq!(said(CopyStage::Create), "não consegui criar /tv/a.mkv: no space");
    assert_eq!(
        said(CopyStage::Write),
        "cópia para /tv/a.mkv falhou e foi desfeita: no space"
    );
}
