//! Paths as clients report them, roots, and the folders servers are told.

use brarr_orchestrator::host_path::{extension_at, file_name_of, is_under_on};
use brarr_orchestrator::notify::{
    imported, plex_identity, server_write, title_folder, usable_identity, PendingPlexLogin, ServerEnd,
    ServerWrite,
};
use brarr_orchestrator::remote_path::{
    canonical_prefix, flavor_of, is_under, is_usable, local_path, specificity, translate,
    translate_on, PathFlavor, PathMapping,
};

fn rule(remote: &str, local: &str) -> PathMapping {
    PathMapping {
        id: 0,
        client_id: 0,
        remote_prefix: remote.to_owned(),
        local_prefix: local.to_owned(),
        created_at: 0,
    }
}

fn matched(mappings: &[PathMapping], reported: &str) -> bool {
    translate(mappings, reported).applied.is_some()
}

#[test]
fn the_production_incident_translates() {
    let rules = vec![rule("/data", "/midias")];
    let out = translate(
        &rules,
        "/data/torrents/Tomb Raider King S01E01/Tomb Raider King S01E01.mkv",
    );
    assert_eq!(
        out.local,
        "/midias/torrents/Tomb Raider King S01E01/Tomb Raider King S01E01.mkv"
    );
    assert!(out.applied.is_some());
}

#[test]
fn a_prefix_must_end_on_a_component_boundary() {
    let rules = vec![rule("/data/down", "/midias")];
    assert!(
        !matched(&rules, "/data/downloads/x.mkv"),
        "\"down\" must not cover \"downloads\""
    );
    assert!(matched(&rules, "/data/down/x.mkv"));
}

#[test]
fn the_longest_prefix_wins_regardless_of_row_order() {
    let broad = rule("/data", "/wrong");
    let narrow = rule("/data/torrents", "/right");
    for rules in [
        vec![broad.clone(), narrow.clone()],
        vec![narrow.clone(), broad.clone()],
    ] {
        let out = translate(&rules, "/data/torrents/X/f.mkv");
        assert_eq!(out.local, "/right/X/f.mkv");
    }
}

#[test]
fn a_windows_path_splits_on_both_separators() {
    let rules = vec![rule(r"C:\Downloads", "/midias/win")];
    let out = translate(&rules, r"C:/Downloads\Filme/f.mkv");
    assert_eq!(out.local, "/midias/win/Filme/f.mkv");
}

#[test]
fn a_windows_rule_may_be_typed_with_forward_slashes() {
    let rules = vec![rule("D:/downloads", "/midias/d")];
    assert!(matched(&rules, r"D:\downloads\Rel"));
}

#[test]
fn a_drive_letter_folds_case_on_both_sides() {
    let rules = vec![rule(r"c:\downloads", "/midias/d")];
    assert!(matched(&rules, r"C:\DOWNLOADS\x"));
}

#[test]
fn a_posix_path_splits_only_on_slash() {
    let rules = vec![rule("/data/we", "/midias")];
    assert!(!matched(&rules, r"/data/we\ird/f.mkv"));
}

#[test]
fn a_posix_directory_containing_a_backslash_survives_translation() {
    let rules = vec![rule("/data", "/midias")];
    let out = translate(&rules, r"/data/AC\DC/live.mkv");
    assert_eq!(out.local, r"/midias/AC\DC/live.mkv");
}

#[test]
fn a_unc_share_matches_in_either_spelling() {
    let rules = vec![rule(r"\\NAS\midia", "/mnt/nas")];
    let expected = "/mnt/nas/tv/x.mkv";
    assert_eq!(translate(&rules, r"\\NAS\midia\tv\x.mkv").local, expected);
    assert_eq!(translate(&rules, "//NAS/midia/tv/x.mkv").local, expected);
}

#[test]
fn a_unc_rule_never_covers_a_posix_path() {
    let rules = vec![rule(r"\\NAS\midia", "/mnt/nas")];
    assert!(!matched(&rules, "/NAS/midia/x.mkv"));
}

#[test]
fn the_server_name_is_part_of_the_share_root() {
    let rules = vec![rule(r"\\OTHER\midia", "/mnt/other")];
    assert!(!matched(&rules, r"\\NAS\midia\x"));
}

#[test]
fn posix_components_are_case_sensitive() {
    let rules = vec![rule("/data", "/midias")];
    assert!(!matched(&rules, "/Data/x"));
}

#[test]
fn trailing_and_doubled_separators_do_not_change_a_prefix() {
    let rules = vec![rule("/data/torrents/", "/midias/t")];
    assert_eq!(
        translate(&rules, "/data/torrents//X/f.mkv").local,
        "/midias/t/X/f.mkv"
    );
}

#[test]
fn an_exact_match_yields_the_local_prefix_untouched() {
    let rules = vec![rule("/data/torrents", "/midias/t")];
    assert_eq!(translate(&rules, "/data/torrents").local, "/midias/t");
}

#[test]
fn a_relative_path_never_matches_and_is_never_usable() {
    let rules = vec![rule("/data", "/midias")];
    let out = translate(&rules, "torrents/X");
    assert!(out.applied.is_none());
    assert!(!out.rooted);
    assert!(!is_usable(&out));
}

#[test]
fn a_drive_relative_path_is_not_anchored() {
    let rules = vec![rule(r"C:\Downloads", "/midias")];
    let out = translate(&rules, r"\Downloads\x");
    assert!(out.applied.is_none());
    assert!(!out.rooted, r"`\Downloads` names no volume");
}

#[test]
fn a_drive_qualified_relative_path_is_not_anchored() {
    let rules = vec![rule(r"D:\foo", "/midias")];
    let out = translate(&rules, "D:foo");
    assert!(!out.rooted, "`D:foo` is relative to the drive's cwd");
}

#[test]
fn dot_dot_is_resolved_before_matching_and_cannot_escape() {
    let rules = vec![rule("/data", "/midias")];
    let out = translate(&rules, "/data/t/../../etc/passwd");
    assert!(out.applied.is_none());
    assert!(!out.local.contains(".."), "no `..` may reach the filesystem");
}

#[test]
fn dot_dot_past_the_root_unanchors_the_path() {
    let rules = vec![rule("/data", "/midias")];
    let out = translate(&rules, "/../../data/x");
    assert!(!out.rooted);
    assert!(out.applied.is_none());
}

#[test]
fn with_no_mappings_a_path_comes_through_untouched() {
    let out = translate(&[], "/downloads/complete/X/f.mkv");
    assert_eq!(out.local, "/downloads/complete/X/f.mkv");
    assert!(out.applied.is_none());
    assert!(out.rooted);
}

#[test]
fn an_uncovered_path_comes_through_untouched() {
    let rules = vec![rule("/data", "/midias")];
    let out = translate(&rules, "/other/place/f.mkv");
    assert_eq!(out.local, "/other/place/f.mkv");
    assert!(out.applied.is_none());
}

#[test]
fn a_unc_local_prefix_is_preserved_literally() {
    let rules = vec![rule("/data", r"\\NAS\media")];
    let out = translate(&rules, "/data/Rel/f.mkv");
    assert!(out.local.starts_with(r"\\NAS\media"), "got {}", out.local);
}

#[test]
fn a_tail_component_that_looks_absolute_extends_rather_than_replaces() {
    let rules = vec![rule("/data", "/midias")];
    let out = translate(&rules, "/data/D:/f.mkv");
    assert!(out.local.starts_with("/midias"), "got {}", out.local);
}

#[test]
fn canonical_prefix_refuses_what_cannot_be_a_prefix() {
    assert_eq!(canonical_prefix("/"), None, "would match everything");
    assert_eq!(canonical_prefix("Downloads"), None, "relative");
    assert_eq!(canonical_prefix("   "), None);
}

#[test]
fn canonical_prefix_normalises_without_changing_flavour() {
    assert_eq!(
        canonical_prefix("/data//torrents/./"),
        Some("/data/torrents".to_owned())
    );
    assert_eq!(
        canonical_prefix("C:/Downloads/"),
        Some(r"C:\Downloads".to_owned())
    );
    assert_eq!(
        canonical_prefix(r"\\nas\Midia\tv\"),
        Some(r"\\nas\Midia\tv".to_owned())
    );
}

#[test]
fn canonical_prefix_allows_a_bare_anchored_root() {
    assert_eq!(canonical_prefix(r"C:\"), Some(r"C:\".to_owned()));
    assert_eq!(
        canonical_prefix(r"\\NAS\midia"),
        Some(r"\\NAS\midia".to_owned())
    );
}

#[test]
fn a_canonical_prefix_round_trips_through_matching() {
    for raw in ["/data/torrents/", "C:/Downloads", r"\\NAS\midia\tv"] {
        let canonical = canonical_prefix(raw).unwrap();
        let rules = vec![rule(&canonical, "/local")];
        assert!(
            matched(&rules, raw),
            "canonical form {canonical:?} must still cover {raw:?}"
        );
    }
}

#[test]
fn a_stored_prefix_keeps_its_case() {
    assert_eq!(
        canonical_prefix("c:/Downloads"),
        Some(r"c:\Downloads".to_owned())
    );
}

#[test]
fn a_prefix_that_ends_in_white_space_keeps_its_separator() {
    for (raw, stored) in [
        ("/data /", "/data /"),
        ("/a /b/..", "/a /"),
        ("C:/data /", r"C:\data \"),
        ("//nas/mid /", r"\\nas\mid \"),
        ("/data /x", "/data /x"),
    ] {
        assert_eq!(canonical_prefix(raw), Some(stored.to_owned()));
        assert_eq!(canonical_prefix(stored), Some(stored.to_owned()));
        let rules = vec![rule(stored, "/local")];
        assert_eq!(local_path(&rules, raw), "/local");
    }
}

#[test]
fn an_uncovered_path_keeps_its_spelling_until_a_dot_is_resolved() {
    for reported in ["C:/Downloads/x", "//NAS/midia/x", "/a//b/", r"C:\a"] {
        let out = translate(&[], reported);
        assert_eq!(out.local, reported);
        assert!(out.applied.is_none());
    }
    assert_eq!(translate(&[], " C:/a/x ").local, "C:/a/x");
    assert_eq!(translate(&[], "C:/a/./b/../x").local, r"C:\a\x");
    assert_eq!(translate(&[], "/a/../b").local, "/b");
    assert_eq!(translate(&[], "//../share/x").local, r"\\..\share\x");
}

#[test]
fn no_step_up_reaches_the_filesystem() {
    let rules = vec![rule("/data", "/midias")];
    assert_eq!(local_path(&rules, "/data/a/../b/./c"), "/midias/b/c");
    assert_eq!(local_path(&rules, "/data/..x/f"), "/midias/..x/f");
    assert_eq!(local_path(&rules, "/outro/a/../b"), "/outro/b");
    assert_eq!(local_path(&rules, "/outro/..x/f"), "/outro/..x/f");
}

#[test]
fn canonicalising_twice_changes_nothing() {
    for raw in ["/data//x/./y", "c:/a/../b", "//nas/share/x/"] {
        let once = canonical_prefix(raw).unwrap();
        assert_eq!(canonical_prefix(&once), Some(once.clone()));
    }
}

#[test]
fn specificity_counts_pinned_components() {
    assert_eq!(specificity("/"), 0);
    assert_eq!(specificity("/data"), 1);
    assert_eq!(specificity("/data/torrents"), 2);
    assert_eq!(specificity(r"\\NAS\midia"), 0, "the share itself is root");
}

#[test]
fn a_posix_path_containing_a_backslash_is_still_posix() {
    assert_eq!(flavor_of(r"/data/AC\DC/x"), PathFlavor::Posix);
}

#[test]
fn flavours_are_detected_from_the_string_not_the_host() {
    assert_eq!(flavor_of("/data/torrents"), PathFlavor::Posix);
    assert_eq!(flavor_of(r"C:\Downloads"), PathFlavor::Windows);
    assert_eq!(flavor_of("C:/Downloads"), PathFlavor::Windows);
    assert_eq!(flavor_of(r"\\NAS\midia"), PathFlavor::Unc);
    assert_eq!(flavor_of("//NAS/midia"), PathFlavor::Unc);
    assert_eq!(flavor_of("///data"), PathFlavor::Posix, "three is not UNC");
}

#[test]
fn a_foreign_path_is_flagged_only_when_nothing_rewrote_it() {
    let windows = std::path::MAIN_SEPARATOR == '\\';
    let foreign = if windows { "/data/torrents/x" } else { r"C:\Downloads\x" };
    assert!(translate(&[], foreign).is_foreign());
    let rules = vec![rule(if windows { "/data" } else { r"C:\Downloads" }, "/midias")];
    assert!(!translate(&rules, foreign).is_foreign());
}

#[test]
fn a_posix_path_is_foreign_to_a_windows_host() {
    let out = translate_on(&[], "/data/torrents/x", '\\');
    assert!(out.is_foreign_on('\\'));
    assert!(!out.is_foreign_on('/'));
}

#[test]
fn a_native_flavour_is_the_hosts() {
    assert_eq!(PathFlavor::Posix.is_native(), std::path::MAIN_SEPARATOR == '/');
    assert!(PathFlavor::Windows.is_native_on('\\'));
    assert!(!PathFlavor::Unc.is_native_on('/'));
    assert_eq!(PathFlavor::Posix.label(), "Unix");
}

#[test]
fn the_local_path_is_the_translated_one() {
    let rules = vec![rule("/data", "/midias")];
    assert_eq!(local_path(&rules, "/data/x"), "/midias/x");
    assert_eq!(local_path(&[], "/data/x"), "/data/x");
}

#[test]
fn a_path_is_under_a_root_by_whole_components() {
    assert!(is_under("/midias/Filmes/x.mkv", "/midias/Filmes"));
    assert!(is_under("/midias/Filmes", "/midias/Filmes/"));
    assert!(!is_under("/midias/Filmes2/x.mkv", "/midias/Filmes"));
    assert!(is_under_on(r"C:\a\b", r"C:\a", '\\'));
    assert!(is_under_on(r"c:\a\b", r"C:\a", '\\'));
    assert!(!is_under_on(r"D:\a\b", r"C:\a", '\\'));
    assert!(!is_under_on("c:/a/b", "C:/a", '/'));
}

#[test]
fn a_file_name_and_its_extension_are_read_off_a_path() {
    let name: String = file_name_of("/a/b/Movie.2024.mkv", '/').unwrap().iter().collect();
    assert_eq!(name, "Movie.2024.mkv");
    assert!(file_name_of("/", '/').is_none());
    let ext: String = extension_at("/a/b/Movie.2024.mkv", '/').unwrap().iter().collect();
    assert_eq!(ext, "mkv");
}

fn roots() -> Vec<String> {
    vec![
        "/midias/Filmes".to_owned(),
        "/midias/Series".to_owned(),
        "/midias/Animes".to_owned(),
    ]
}

#[test]
fn a_movie_reduces_to_its_own_folder() {
    assert_eq!(
        title_folder(
            &roots(),
            "/midias/Filmes/Scary Movie (2000)/Scary.Movie.2000.mkv",
            '/'
        ),
        "/midias/Filmes/Scary Movie (2000)"
    );
}

#[test]
fn an_episode_reduces_to_the_series_folder_not_the_season() {
    assert_eq!(
        title_folder(
            &roots(),
            "/midias/Series/Fringe/Season 02/Fringe - S02E01.mkv",
            '/'
        ),
        "/midias/Series/Fringe"
    );
}

#[test]
fn the_most_specific_root_wins() {
    let roots = vec!["/midias".to_owned(), "/midias/Animes".to_owned()];
    assert_eq!(
        title_folder(&roots, "/midias/Animes/Bleach/Season 01/x.mkv", '/'),
        "/midias/Animes/Bleach"
    );
}

#[test]
fn a_file_under_no_root_still_produces_something_to_scan() {
    assert_eq!(
        title_folder(&roots(), "/outro/lugar/Filme/f.mkv", '/'),
        "/outro/lugar/Filme"
    );
}

#[test]
fn a_file_lying_in_a_root_reduces_to_the_root() {
    assert_eq!(title_folder(&roots(), "/midias/Filmes/solto.mkv", '/'), "/midias/Filmes");
    assert_eq!(title_folder(&roots(), "/midias/Filmes", '/'), "/midias/Filmes");
}

#[test]
fn the_folder_of_a_file_is_spelled_as_the_file_is() {
    let folder = |file: &str| title_folder(&[], file, '/');
    assert_eq!(folder("/a//b/c"), "/a//b");
    assert_eq!(folder("/a/b//c"), "/a/b");
    assert_eq!(folder("/a/./c"), "/a");
    assert_eq!(folder("./c"), ".");
    assert_eq!(folder("/c"), "/");
    assert_eq!(folder("c"), "");
    assert_eq!(folder("/"), "/");
}

#[test]
fn two_episodes_of_one_series_are_one_folder() {
    let files = [
        "/midias/Series/Fringe/Season 02/Fringe - S02E01.mkv".to_owned(),
        "/midias/Series/Fringe/Season 02/Fringe - S02E02.mkv".to_owned(),
        "/midias/Filmes/Heat (1995)/Heat.mkv".to_owned(),
    ];
    let folders = imported(&roots(), &files, '/');
    assert_eq!(folders.len(), 2);
    assert_eq!(
        folders,
        vec![
            "/midias/Filmes/Heat (1995)".to_owned(),
            "/midias/Series/Fringe".to_owned()
        ]
    );
    assert!(imported(&roots(), &[], '/').is_empty());
}

#[test]
fn a_sign_in_expires_at_its_deadline() {
    let pending = PendingPlexLogin {
        pin_id: 1,
        code: "abcd".to_owned(),
        deadline: 100,
    };
    assert!(!pending.is_expired(99));
    assert!(pending.is_expired(100));
}

#[test]
fn the_identity_that_is_stored_is_the_one_in_force() {
    assert_eq!(usable_identity(Some("  abc ")), Some("abc".to_owned()));
    assert_eq!(usable_identity(Some("   ")), None);
    assert_eq!(plex_identity(Some("first"), "second"), "first");
    assert_eq!(plex_identity(None, " second "), "second");
}

#[test]
fn a_server_that_cannot_be_told_is_marked_and_stops_nothing() {
    assert!(matches!(server_write(ServerEnd::Told), ServerWrite::MarkNotified));
    assert!(matches!(server_write(ServerEnd::Unmapped), ServerWrite::Nothing));
    match server_write(ServerEnd::Failed("401".to_owned())) {
        ServerWrite::MarkError(m) => assert_eq!(m, "401"),
        other => panic!("expected an error, got {other:?}"),
    }
}
