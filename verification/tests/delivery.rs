//! Handing a release to a download client, following it, and undoing it.

use brarr_orchestrator::catalogue::Episode;
use brarr_orchestrator::deliver::{
    classify_client_error, deliver, fetch_outcome, fetch_release_file, fits, hand_over, is_success,
    looks_like, preview, record_inner, ClientAnswer, ClientFault, DeliveryOutcome, FetchReply,
    GrabProtocol, GrabWrite, Route, Transport, MAX_RELEASE_FILE_BYTES,
};
use brarr_orchestrator::error::AppError;
use brarr_orchestrator::forget::{
    forget, forgettable, owns_file, removal_failed, remove_if_spare, FileEnd, FileFacts, Forgotten,
    RemoveStep,
};
use brarr_orchestrator::queue::{
    next_status, snapshot, sync_once, unasked, DownloadState, DownloadStatus, GrabStatus, Holder,
    Probe,
    QueueEntry, Reading,
};
use brarr_orchestrator::relink::{
    orphan_end, orphan_step, parse_marker, run, OrphanEnd, OrphanStep, Relink,
};

#[test]
fn a_bencoded_torrent_is_recognised() {
    assert!(looks_like(b"d8:announce20:https://x/anneee", Transport::Torrent));
}

#[test]
fn an_html_error_page_is_not_a_torrent() {
    assert!(!looks_like(
        b"<!DOCTYPE html><html><body>Login</body></html>",
        Transport::Torrent
    ));
}

#[test]
fn an_nzb_is_recognised_through_whitespace_and_a_bom() {
    assert!(looks_like(
        b"\xEF\xBB\xBF\n  <?xml version=\"1.0\"?><nzb/>",
        Transport::Usenet
    ));
}

#[test]
fn a_torrent_is_not_accepted_as_an_nzb() {
    assert!(!looks_like(b"d8:announce", Transport::Usenet));
    assert!(!looks_like(b"<?xml version=\"1.0\"?>", Transport::Torrent));
}

#[test]
fn an_empty_body_is_not_a_release_file() {
    assert!(!looks_like(b"", Transport::Torrent));
    assert!(!looks_like(b"   \n", Transport::Usenet));
}

#[test]
fn a_dead_client_is_retryable_and_a_refused_file_is_not() {
    assert!(matches!(
        classify_client_error("qb", ClientFault::Http, "Fails."),
        DeliveryOutcome::Permanent(_)
    ));
    assert!(
        matches!(
            classify_client_error("qb", ClientFault::Auth, "Fails."),
            DeliveryOutcome::Retryable(_)
        ),
        "a wrong password must not blacklist the release"
    );
    assert!(matches!(
        classify_client_error("qb", ClientFault::Transport, "refused"),
        DeliveryOutcome::Retryable(_)
    ));
}

#[test]
fn the_reason_travels_with_the_outcome() {
    let sent = DeliveryOutcome::Sent {
        client_name: "qb".to_owned(),
        client_item_id: None,
    };
    assert!(sent.is_sent());
    assert_eq!(sent.reason(), "");
    assert_eq!(
        DeliveryOutcome::Retryable("cliente fora do ar".to_owned()).reason(),
        "cliente fora do ar"
    );
}

#[test]
fn a_body_that_is_not_a_release_is_shown_in_quotes() {
    let reply = FetchReply::Body(b"<!DOCTYPE html>\xff".to_vec());
    let failure = fetch_release_file(reply, Transport::Torrent).unwrap_err();
    let outcome = fetch_outcome(failure);
    assert!(matches!(outcome, DeliveryOutcome::Permanent(_)));
    assert!(
        outcome.reason().contains("\"<!DOCTYPE html>\u{fffd}\""),
        "{}",
        outcome.reason()
    );
}

#[test]
fn a_preview_is_the_head_of_the_body_with_what_is_no_text_replaced() {
    assert_eq!(preview(b"ab\xffcd"), "ab\u{fffd}cd");
    assert_eq!(preview(&[b'x'; 100]).len(), 24);
}

#[test]
fn a_release_file_comes_through_as_it_is() {
    let body = b"d8:announce3:urle".to_vec();
    let got = fetch_release_file(FetchReply::Body(body.clone()), Transport::Torrent);
    assert!(matches!(got, Ok(b) if b == body));
}

#[test]
fn what_may_pass_later_is_retried() {
    for reply in [
        FetchReply::NoClient("tls".to_owned()),
        FetchReply::Unreachable("timeout".to_owned()),
        FetchReply::Interrupted("reset".to_owned()),
    ] {
        let failure = fetch_release_file(reply, Transport::Torrent).unwrap_err();
        assert!(matches!(fetch_outcome(failure), DeliveryOutcome::Retryable(_)));
    }
    let large = fetch_release_file(FetchReply::TooLarge, Transport::Torrent).unwrap_err();
    assert!(matches!(fetch_outcome(large), DeliveryOutcome::Permanent(_)));
    assert!(fits(0, MAX_RELEASE_FILE_BYTES));
    assert!(!fits(1, MAX_RELEASE_FILE_BYTES));
    assert!(is_success(204));
    assert!(!is_success(404));
}

#[test]
fn a_grab_is_routed_by_its_link() {
    match deliver(false, GrabProtocol::Torrent, true, Some("magnet:?xt=urn:btih:1")) {
        Route::Magnet(Transport::Torrent, u) => assert_eq!(u, "magnet:?xt=urn:btih:1"),
        other => panic!("expected a magnet, got {other:?}"),
    }
    match deliver(false, GrabProtocol::Usenet, true, Some("https://x/1.nzb")) {
        Route::Fetch(Transport::Usenet, u) => assert_eq!(u, "https://x/1.nzb"),
        other => panic!("expected a fetch, got {other:?}"),
    }
    assert!(matches!(
        deliver(false, GrabProtocol::Torrent, false, Some("https://x/1")),
        Route::Ended(_)
    ));
}

#[test]
fn a_paused_delivery_releases_its_reservation() {
    let route = deliver(true, GrabProtocol::Torrent, true, Some("https://x/1"));
    let outcome = match route {
        Route::Ended(outcome) => outcome,
        other => panic!("expected an end, got {other:?}"),
    };
    assert!(matches!(outcome, DeliveryOutcome::Retryable(_)));
    assert!(matches!(record_inner(None, &outcome), Ok(GrabWrite::Release)));
}

#[test]
fn what_a_client_took_is_recorded_with_its_id() {
    let sent = hand_over("qb", ClientAnswer::Added(Some("hash".to_owned())));
    assert!(sent.is_sent());
    match record_inner(Some(7), &sent) {
        Ok(GrabWrite::MarkSent { client_id, client_item_id }) => {
            assert_eq!(client_id, 7);
            assert_eq!(client_item_id.as_deref(), Some("hash"));
        }
        other => panic!("expected a record, got {other:?}"),
    }
    let refused = DeliveryOutcome::Permanent("lixo".to_owned());
    assert!(matches!(record_inner(Some(7), &refused), Ok(GrabWrite::Fail(m)) if m == "lixo"));
}

const NOW: i128 = 1_700_000_000_000_000_000;

fn entry(status: GrabStatus, probe: Probe, updated_minutes_ago: i128) -> QueueEntry {
    QueueEntry {
        grab_id: 1,
        status,
        updated_at: NOW - updated_minutes_ago * 60 * 1_000_000_000,
        client_name: Some("qb".to_owned()),
        probe,
    }
}

fn status(state: DownloadState) -> DownloadStatus {
    DownloadStatus {
        state,
        detail: None,
    }
}

#[test]
fn a_running_download_moves_the_grab_to_downloading() {
    let e = entry(
        GrabStatus::Sent,
        Probe::Known(status(DownloadState::Downloading)),
        0,
    );
    let (next, _) = next_status(&e, NOW).unwrap();
    assert_eq!(next, GrabStatus::Downloading);
}

#[test]
fn a_finished_download_completes_the_grab() {
    let e = entry(
        GrabStatus::Downloading,
        Probe::Known(status(DownloadState::Completed)),
        0,
    );
    let (next, _) = next_status(&e, NOW).unwrap();
    assert_eq!(next, GrabStatus::Completed);
}

#[test]
fn a_client_side_failure_carries_its_reason_across() {
    let mut failed = status(DownloadState::Failed);
    failed.detail = Some("Unpacking failed".to_owned());
    let e = entry(GrabStatus::Downloading, Probe::Known(failed), 0);
    let (next, reason) = next_status(&e, NOW).unwrap();
    assert_eq!(next, GrabStatus::Failed);
    assert_eq!(reason.as_deref(), Some("Unpacking failed"));
}

#[test]
fn an_unreachable_client_never_touches_the_grab() {
    let e = entry(
        GrabStatus::Downloading,
        Probe::Unreachable("connection refused".to_owned()),
        600,
    );
    assert!(next_status(&e, NOW).is_none());
}

#[test]
fn a_download_the_client_does_not_know_gets_a_grace_period() {
    let fresh = entry(GrabStatus::Sent, Probe::Unknown, 1);
    assert!(next_status(&fresh, NOW).is_none());

    let stale = entry(GrabStatus::Sent, Probe::Unknown, 30);
    let (next, reason) = next_status(&stale, NOW).unwrap();
    assert_eq!(next, GrabStatus::Failed);
    assert!(reason.unwrap().contains("sumiu"));
}

#[test]
fn a_reservation_is_left_to_the_delivery_path() {
    let e = entry(GrabStatus::Reserved, Probe::Unknown, 600);
    assert!(next_status(&e, NOW).is_none());
}

#[test]
fn the_grace_period_ends_at_ten_minutes() {
    assert!(next_status(&entry(GrabStatus::Sent, Probe::Unknown, 9), NOW).is_none());
    assert!(next_status(&entry(GrabStatus::Sent, Probe::Unknown, 10), NOW).is_some());
    assert!(next_status(&entry(GrabStatus::Completed, Probe::Unknown, 600), NOW).is_none());
}

#[test]
fn a_sync_pass_counts_what_it_saw() {
    let entries = [
        entry(GrabStatus::Sent, Probe::Known(status(DownloadState::Queued)), 0),
        entry(
            GrabStatus::Downloading,
            Probe::Known(status(DownloadState::Downloading)),
            0,
        ),
        entry(GrabStatus::Sent, Probe::Unknown, 30),
        entry(GrabStatus::Sent, Probe::Unreachable("x".to_owned()), 30),
    ];
    let (moves, summary) = sync_once(&entries, NOW);
    assert_eq!(summary.checked, 4);
    assert_eq!(summary.advanced, 2);
    assert_eq!(summary.failed, 1);
    assert_eq!(summary.unreachable, 1);
    assert_eq!(moves[0].status, GrabStatus::Downloading);
    assert_eq!(moves[1].status, GrabStatus::Failed);
}

#[test]
fn a_grab_nobody_can_be_asked_about_says_why() {
    assert!(unasked(Holder::Enabled, true).is_none());
    assert!(matches!(
        unasked(Holder::Gone, true),
        Some(Probe::Unreachable(m)) if m == "sem cliente associado"
    ));
    assert!(matches!(
        unasked(Holder::Enabled, false),
        Some(Probe::Unreachable(m)) if m.contains("identificador")
    ));
    assert!(matches!(
        snapshot(Holder::Enabled, true, Reading::NotListed),
        Probe::Unknown
    ));
    assert!(matches!(
        snapshot(Holder::Enabled, true, Reading::NotBuilt),
        Probe::Unreachable(m) if m.contains("inválida")
    ));
}

#[test]
fn a_disabled_client_is_not_asked() {
    assert!(matches!(
        unasked(Holder::Disabled, true),
        Some(Probe::Unreachable(m)) if m.contains("desativado")
    ));
    let probe = snapshot(
        Holder::Disabled,
        true,
        Reading::Listed(status(DownloadState::Failed)),
    );
    assert!(matches!(probe, Probe::Unreachable(_)));
    let kept = entry(GrabStatus::Downloading, probe, 600);
    assert!(next_status(&kept, NOW).is_none());
}

#[test]
fn a_transport_no_client_serves_fails_the_grab_and_keeps_its_key() {
    for grab in [GrabProtocol::Torrent, GrabProtocol::Usenet] {
        let route = deliver(false, grab, false, Some("https://x/1"));
        let outcome = match route {
            Route::Ended(outcome) => outcome,
            other => panic!("expected an end, got {other:?}"),
        };
        assert!(matches!(
            &outcome,
            DeliveryOutcome::Permanent(m) if m.starts_with("nenhum cliente de download ativo para ")
        ));
        assert!(matches!(record_inner(None, &outcome), Ok(GrabWrite::Fail(_))));
    }
}

#[test]
fn the_summary_says_what_was_refused() {
    let quiet = Forgotten {
        rows: 3,
        removed: vec!["/a.mkv".to_owned()],
        refused: Vec::new(),
    };
    assert!(!quiet.summary().contains("não removido"));

    let loud = Forgotten {
        rows: 1,
        removed: Vec::new(),
        refused: vec![("/b.mkv".to_owned(), "só cópia".to_owned())],
    };
    assert!(loud.summary().contains("não removido"), "{}", loud.summary());
    assert_eq!(
        loud.summary(),
        "1 aquisição(ões) esquecida(s), 0 arquivo(s) removido(s), 1 não removido(s) — confira o histórico"
    );
}

#[test]
fn a_library_file_that_is_still_seeding_is_removed() {
    assert!(matches!(
        remove_if_spare("/lib/Cowboy Bebop.mkv", &FileFacts::Links(2)),
        RemoveStep::Remove
    ));
}

#[test]
fn the_only_copy_of_a_file_is_refused_and_named() {
    match remove_if_spare("/lib/Tremembé.mkv", &FileFacts::Links(1)) {
        RemoveStep::Refuse(refused) => {
            assert!(refused.contains("única cópia"), "{refused}");
            assert!(refused.contains("Tremembé.mkv"), "the path is named: {refused}");
        }
        other => panic!("expected a refusal, got {other:?}"),
    }
}

#[test]
fn a_path_that_is_already_gone_is_not_a_failure() {
    assert!(matches!(
        remove_if_spare("/lib/nada.mkv", &FileFacts::Gone),
        RemoveStep::Nothing
    ));
}

#[test]
fn a_file_that_cannot_be_counted_is_refused() {
    for facts in [
        FileFacts::Uncounted,
        FileFacts::Unreadable("permission denied".to_owned()),
    ] {
        assert!(matches!(remove_if_spare("/x", &facts), RemoveStep::Refuse(_)));
    }
    assert_eq!(removal_failed("/x", "busy"), "não consegui remover /x: busy");
    assert!(!owns_file(true, true), "an adopted file is the operator's own");
    assert!(owns_file(false, true));
}

#[test]
fn only_an_imported_grab_is_forgotten() {
    assert!(forgettable(GrabStatus::Imported).is_ok());
    match forgettable(GrabStatus::Downloading) {
        Err(AppError::InvalidInput(m)) => assert!(m.ends_with("esta está downloading"), "{m}"),
        other => panic!("expected a refusal, got {other:?}"),
    }
}

#[test]
fn every_row_of_a_forgotten_pack_stops_covering() {
    let out = forget(vec![
        FileEnd::Removed("/a".to_owned()),
        FileEnd::Nothing,
        FileEnd::Refused("/b".to_owned(), "única".to_owned()),
    ]);
    assert_eq!(out.rows, 3);
    assert_eq!(out.removed, vec!["/a".to_owned()]);
    assert_eq!(out.refused, vec![("/b".to_owned(), "única".to_owned())]);
}

fn tree() -> Vec<Episode> {
    [(1, 1, 11u128), (1, 2, 12)]
        .iter()
        .map(|&(season_number, episode_number, id)| Episode {
            id,
            season_number,
            episode_number,
            air_date: None,
            monitored: true,
        })
        .collect()
}

#[test]
fn a_marked_file_name_points_the_grab_back_at_its_episode() {
    assert_eq!(
        orphan_step(
            Some("/midias/DBS/Season 01/Dragon Ball Super - S01E02.mkv"),
            &tree(),
            '/'
        ),
        OrphanStep::Link(12)
    );
}

#[test]
fn an_absolute_numbered_name_is_left_alone() {
    assert_eq!(
        orphan_step(Some("/midias/Animes/Dragon Ball Super - 131.mkv"), &tree(), '/'),
        OrphanStep::NoMarker
    );
}

#[test]
fn a_marker_the_catalogue_does_not_have_is_reported_not_guessed() {
    assert_eq!(
        orphan_step(Some("/midias/DBS/Dragon Ball Super - S09E99.mkv"), &tree(), '/'),
        OrphanStep::UnknownEpisode
    );
}

#[test]
fn a_name_of_several_episodes_names_none() {
    assert_eq!(parse_marker("Show - S01E01E02.mkv"), None);
    assert_eq!(parse_marker("Show - S01E01 - S01E02.mkv"), None);
    assert_eq!(parse_marker("Show - S01E02.mkv"), Some((1, 2)));
    assert_eq!(orphan_step(None, &tree(), '/'), OrphanStep::Nothing);
}

#[test]
fn an_orphan_ends_as_the_database_answers() {
    let link = OrphanStep::Link(7);
    assert_eq!(orphan_end(link, Some(Relink::Linked)), OrphanEnd::Linked);
    assert_eq!(orphan_end(link, Some(Relink::Occupied)), OrphanEnd::Occupied);
    assert_eq!(orphan_end(link, Some(Relink::AlreadyLinked)), OrphanEnd::AlreadyLinked);
    assert_eq!(orphan_end(OrphanStep::Nothing, None), OrphanEnd::Nothing);
    assert_eq!(orphan_end(OrphanStep::NoMarker, None), OrphanEnd::NoMarker);
    assert_eq!(orphan_end(OrphanStep::UnknownEpisode, None), OrphanEnd::UnknownEpisode);
}

#[test]
fn a_second_pass_over_what_is_left_links_nothing() {
    let rows = [
        Some("/midias/DBS/Dragon Ball Super - S01E01.mkv"),
        Some("/midias/DBS/Dragon Ball Super - S01E01 (1).mkv"),
        Some("/midias/DBS/Dragon Ball Super - 131.mkv"),
        None,
    ];
    let mut covered: Vec<u128> = Vec::new();
    let mut pass = |rows: &[Option<&'static str>]| {
        let mut ends = Vec::new();
        let mut left = Vec::new();
        for row in rows {
            let step = orphan_step(*row, &tree(), '/');
            let answer = match step {
                OrphanStep::Link(id) if covered.contains(&id) => Some(Relink::Occupied),
                OrphanStep::Link(id) => {
                    covered.push(id);
                    Some(Relink::Linked)
                }
                _ => None,
            };
            let end = orphan_end(step, answer);
            if end != OrphanEnd::Linked {
                left.push(*row);
            }
            ends.push(end);
        }
        (run(&ends), left)
    };
    let (first, left) = pass(&rows);
    assert_eq!((first.examined, first.linked, first.occupied, first.no_marker), (4, 1, 1, 1));
    let (second, still) = pass(&left);
    assert_eq!((second.examined, second.linked), (3, 0));
    assert_eq!(still, left);
}

#[test]
fn a_repair_pass_counts_its_ends() {
    let report = run(&[
        OrphanEnd::Linked,
        OrphanEnd::NoMarker,
        OrphanEnd::UnknownEpisode,
        OrphanEnd::Occupied,
        OrphanEnd::AlreadyLinked,
        OrphanEnd::Nothing,
    ]);
    assert_eq!(report.examined, 6);
    assert_eq!(report.linked, 1);
    assert_eq!(report.no_marker, 1);
    assert_eq!(report.unknown_episode, 1);
    assert_eq!(report.occupied, 1);
    assert!(!report.is_empty());
    assert!(run(&[]).is_empty());
}
