//! What the tables hold, and what is refused on its way in.

use brarr_orchestrator::catalogue::{MediaType, MetadataSource, SourceKind};
use brarr_orchestrator::db::columns::{affected, get_by_id};
use brarr_orchestrator::db::quality_profiles::{
    insert as insert_profile, row_to_profile, update_basics, NewQualityProfile, StoredRules,
};
use brarr_orchestrator::db::root_folders::{
    insert as insert_folder, row_to_folder, FolderColumns, PathFacts,
};
use brarr_orchestrator::db::scan_attempts::{
    last_searched, record, searched_at, AttemptColumns,
};
use brarr_orchestrator::db::searches::{
    clamp_limit, count_filtered, create, page_limit, push_filters, row_columns, row_to_search,
    where_sql, FilterParams, SearchRequestJson,
};
use brarr_orchestrator::db::settings::{get, parse_flag, row_to_setting, value, SettingRow};
use brarr_orchestrator::db::sources::{ensure, kind_label};
use brarr_orchestrator::db::trackers::{insert as insert_tracker, row_to_tracker, NewTracker};
use brarr_orchestrator::db::webhook_events::{
    insert as insert_event, link_search, row_to_event, NewWebhookEvent,
};
use brarr_orchestrator::error::AppError;
use brarr_orchestrator::poll::ArrKind;

#[test]
fn parse_flag_truthy_and_falsy() {
    for t in ["1", "true", "TRUE", "Yes", " on "] {
        assert!(parse_flag(t), "{t:?} should be truthy");
    }
    for f in ["", "0", "false", "no", "off", "x"] {
        assert!(!parse_flag(f), "{f:?} should be falsy");
    }
}

fn setting(key: &str, value: &str) -> SettingRow {
    SettingRow {
        key: key.to_owned(),
        value: value.to_owned(),
        updated_at: 0,
    }
}

#[test]
fn a_setting_is_read_as_it_is_and_in_force_only_when_it_says_something() {
    let rows = [setting("a", "old"), setting("a", " new "), setting("b", "")];
    assert_eq!(get(&rows, "a"), Some(" new "));
    assert_eq!(get(&rows, "b"), Some(""));
    assert_eq!(get(&rows, "c"), None);
    assert_eq!(value(&rows, "a").as_deref(), Some("new"));
    assert_eq!(value(&rows, "b"), None);
    assert!(row_to_setting("k".to_owned(), "v".to_owned(), 0).is_ok());
    assert!(matches!(
        row_to_setting("k".to_owned(), "v".to_owned(), i64::MIN),
        Err(AppError::InvalidInput(m)) if m.starts_with("invalid timestamp in settings: ")
    ));
}

fn request() -> SearchRequestJson {
    SearchRequestJson {
        tmdb_id: Some(603),
        imdb_id: Some("133093".to_owned()),
        tvdb_id: None,
        season: None,
        episode: Some(3),
    }
}

#[test]
fn a_created_search_is_read_back() {
    let row = create(42, 1_700_000_000, request());
    assert_eq!(row.result_count, 0);
    let columns = row_columns(row);
    assert_eq!(columns.id, "00000000-0000-0000-0000-00000000002a");
    let back = row_to_search(columns).unwrap();
    assert_eq!(back.id, 42);
    assert_eq!(back.tmdb_id, Some(603));
    assert_eq!(back.imdb_id.as_deref(), Some("133093"));
    assert_eq!(back.tvdb_id, None);
    assert_eq!(back.episode, Some(3));
    assert_eq!(back.submitted_at, 1_700_000_000);
    assert_eq!(back.request_json.tmdb_id, Some(603));
}

#[test]
fn a_search_row_that_cannot_be_read_says_why() {
    let mut columns = row_columns(create(42, 0, request()));
    columns.id = "x".to_owned();
    assert!(matches!(
        row_to_search(columns),
        Err(AppError::InvalidInput(m)) if m.starts_with("invalid uuid in searches.id: ")
    ));
    let columns = row_columns(create(42, i64::MAX, request()));
    assert!(matches!(
        row_to_search(columns),
        Err(AppError::InvalidInput(m)) if m.starts_with("invalid timestamp: ")
    ));
    let mut columns = row_columns(create(42, 0, request()));
    columns.request_json = Err("EOF".to_owned());
    assert!(matches!(row_to_search(columns), Err(AppError::Json(m)) if m == "EOF"));
    let mut odd = row_columns(create(42, 0, request()));
    odd.tmdb_id = Some(-1);
    odd.episode = Some(70_000);
    odd.result_count = -3;
    let row = row_to_search(odd).unwrap();
    assert_eq!(row.tmdb_id, None);
    assert_eq!(row.episode, None);
    assert_eq!(row.result_count, 0);
}

#[test]
fn listings_are_clamped() {
    assert_eq!(clamp_limit(0), 20);
    assert_eq!(clamp_limit(201), 200);
    assert_eq!(clamp_limit(5), 5);
    assert_eq!(page_limit(0), 50);
    assert_eq!(page_limit(201), 200);
    assert_eq!(count_filtered(-1), 0);
    assert_eq!(count_filtered(9), 9);
}

#[test]
fn absent_fields_do_not_narrow_a_listing() {
    assert_eq!(where_sql(&push_filters(&FilterParams::default())), "");
    let one = FilterParams {
        tvdb_id: Some(7),
        ..FilterParams::default()
    };
    assert_eq!(where_sql(&push_filters(&one)), " WHERE tvdb_id = ?");
    let all = FilterParams {
        tmdb_id: Some(1),
        imdb_id: Some("2".to_owned()),
        tvdb_id: Some(3),
        season: Some(4),
        episode: Some(5),
        from_unix: Some(6),
        to_unix: Some(7),
        has_kept_decision: Some(false),
        limit: 0,
        offset: 0,
    };
    assert_eq!(
        where_sql(&push_filters(&all)),
        " WHERE tmdb_id = ? AND imdb_id = ? AND tvdb_id = ? AND season = ? AND episode = ? \
         AND submitted_at >= ? AND submitted_at <= ? AND NOT EXISTS (SELECT 1 FROM decisions \
         WHERE decisions.search_id = searches.id AND decisions.rejected = 0)"
    );
}

#[test]
fn an_update_that_finds_no_row_says_so() {
    assert!(affected(1, "search ", 42).is_ok());
    assert!(matches!(
        affected(0, "search ", 42),
        Err(AppError::NotFound(m)) if m == "search 00000000-0000-0000-0000-00000000002a"
    ));
}

#[test]
fn every_source_has_a_row() {
    let rows = ensure();
    for source in MetadataSource::all() {
        assert!(rows.iter().any(|r| r.label == source.label()
            && r.display_name == source.display_name()
            && r.kind == kind_label(source.kind())));
    }
    assert_eq!(kind_label(SourceKind::Namespace), "namespace");
}

#[test]
fn the_last_stamp_of_a_target_is_the_one_that_counts() {
    let rows = [
        record(1, None, 100),
        record(1, Some(2), 200),
        record(1, Some(2), 300),
        record(1, Some(3), i64::MAX),
    ];
    let attempts = last_searched(&rows).unwrap();
    assert_eq!(searched_at(&attempts, 1, None), Some(100));
    assert_eq!(searched_at(&attempts, 1, Some(2)), Some(300));
    assert_eq!(searched_at(&attempts, 1, Some(3)), None, "bad data is never searched");
    assert_eq!(searched_at(&attempts, 9, None), None);
    let bad = [AttemptColumns {
        item_id: "x".to_owned(),
        episode_id: None,
        searched_at: 0,
    }];
    assert!(matches!(
        last_searched(&bad),
        Err(AppError::InvalidInput(m)) if m.starts_with("invalid scan_attempts.item_id: ")
    ));
}

fn tracker(name: &str, base_url: &str, plugin_path: Option<&str>) -> NewTracker {
    NewTracker {
        name: name.to_owned(),
        base_url: base_url.to_owned(),
        api_token: "t".to_owned(),
        kind: "unit3d".to_owned(),
        plugin_path: plugin_path.map(str::to_owned),
    }
}

#[test]
fn a_written_tracker_is_read_back() {
    let columns = insert_tracker(
        7,
        1_700_000_000,
        tracker("capybarabr", "https://capybarabr.com/", Some("/p/x.wasm")),
    )
    .unwrap();
    let row = row_to_tracker(columns).unwrap();
    assert_eq!(row.id, 7);
    assert_eq!(row.name, "capybarabr");
    assert_eq!(row.base_url, "https://capybarabr.com/");
    assert_eq!(row.plugin_path.as_deref(), Some("/p/x.wasm"));
    assert!(row.is_plugin());
    assert_eq!(row.created_at, 1_700_000_000);
}

#[test]
fn a_base_address_is_read_as_an_address() {
    let columns = insert_tracker(7, 0, tracker("c", "HTTPS://Capybarabr.com", None)).unwrap();
    let row = row_to_tracker(columns).unwrap();
    assert_eq!(row.base_url, "https://capybarabr.com/");
    assert!(!row.is_plugin());
    let columns = insert_tracker(7, 0, tracker("c", "not an address", None)).unwrap();
    assert!(matches!(
        row_to_tracker(columns),
        Err(AppError::InvalidInput(m)) if m.starts_with("invalid url in trackers.base_url: ")
    ));
    assert!(matches!(
        insert_tracker(7, 0, tracker("  ", "https://x/", None)),
        Err(AppError::InvalidInput(m)) if m == "tracker name cannot be empty"
    ));
}

#[test]
fn a_profile_is_checked_and_written_with_its_name_trimmed() {
    let new = NewQualityProfile {
        name: "  anime jp ".to_owned(),
        description: None,
        push_threshold: 500,
    };
    let row = row_to_profile(insert_profile(1, 0, new).unwrap(), Ok(())).unwrap();
    assert_eq!(row.name, "anime jp");
    assert_eq!(row.push_threshold, 500);
    assert!(!row.is_preset);
    assert!(matches!(row.rules, StoredRules::Baseline));
    assert!(matches!(
        update_basics("  ", 1),
        Err(AppError::InvalidInput(m)) if m == "quality profile name cannot be empty"
    ));
    assert!(matches!(
        update_basics("x", 1001),
        Err(AppError::InvalidInput(m)) if m == "push_threshold must be 0..=1000, got 1001"
    ));
    assert_eq!(update_basics(" x ", 1000).unwrap(), "x");
}

#[test]
fn a_profile_with_rules_keeps_them() {
    let new = NewQualityProfile {
        name: "x".to_owned(),
        description: Some("d".to_owned()),
        push_threshold: 1,
    };
    let mut columns = insert_profile(1, 0, new).unwrap();
    columns.rules_json = Some("[{\"a\":1}]".to_owned());
    columns.push_threshold = -4;
    columns.is_preset = 1;
    let broken = row_to_profile(columns.clone(), Err("expected value".to_owned()));
    assert!(matches!(broken, Err(AppError::Json(m)) if m == "expected value"));
    let row = row_to_profile(columns, Ok(())).unwrap();
    assert!(matches!(row.rules, StoredRules::Listed(s) if s == "[{\"a\":1}]"));
    assert_eq!(row.push_threshold, 0);
    assert!(row.is_preset);
}

#[test]
fn a_profile_without_rules_has_none_to_read() {
    let new = NewQualityProfile {
        name: "x".to_owned(),
        description: None,
        push_threshold: 1,
    };
    let mut columns = insert_profile(1, 0, new).unwrap();
    columns.rules_json = Some(" [] ".to_owned());
    let row = row_to_profile(columns, Err("unread".to_owned())).unwrap();
    assert!(matches!(row.rules, StoredRules::Baseline));
}

#[test]
fn a_stamp_spells_both_ids() {
    let columns = record(1, Some(2), 10);
    assert_eq!(columns.item_id, "00000000-0000-0000-0000-000000000001");
    assert_eq!(
        columns.episode_id.as_deref(),
        Some("00000000-0000-0000-0000-000000000002")
    );
    assert_eq!(record(1, None, 10).episode_id, None);
}

#[test]
fn a_written_event_is_read_back_and_linked_later() {
    let new = NewWebhookEvent {
        arr_instance_id: 3,
        kind: ArrKind::Sonarr,
        event_type: "Test".to_owned(),
        payload_json: "{}".to_owned(),
    };
    let columns = insert_event(5, 10, new);
    let row = row_to_event(columns.clone()).unwrap();
    assert_eq!(row.id, 5);
    assert_eq!(row.arr_instance_id, 3);
    assert_eq!(row.kind, ArrKind::Sonarr);
    assert_eq!(row.event_type, "Test");
    assert_eq!(row.triggered_search_id, None);
    let linked = row_to_event(link_search(columns.clone(), 99)).unwrap();
    assert_eq!(linked.triggered_search_id, Some(99));
    let mut bad = columns;
    bad.kind = "lidarr".to_owned();
    assert!(matches!(
        row_to_event(bad),
        Err(AppError::InvalidInput(m)) if m == "unknown webhook_events.kind: lidarr"
    ));
}

#[test]
fn a_registered_folder_reads_back() {
    let usable = || PathFacts::Found {
        is_dir: true,
        readonly: false,
    };
    for media in [None, Some(MediaType::Movie), Some(MediaType::Tv)] {
        let columns = insert_folder(9, 1_700_000_000, "  /data/tv/ ", usable(), media).unwrap();
        assert_eq!(columns.path, "/data/tv");
        let row = row_to_folder(columns).unwrap();
        assert_eq!(row.id, 9);
        assert_eq!(row.path, "/data/tv");
        assert_eq!(row.media_type, media);
        assert_eq!(row.created_at, 1_700_000_000);
    }
    let file = PathFacts::Found {
        is_dir: false,
        readonly: false,
    };
    assert!(matches!(
        insert_folder(9, 0, "/data/tv", file, None),
        Err(AppError::InvalidInput(m)) if m == "/data/tv existe mas não é um diretório"
    ));
}

#[test]
fn an_unreadable_folder_row_is_refused() {
    let columns = |id: &str, media: Option<&str>, at: i64| FolderColumns {
        id: id.to_owned(),
        path: "/data".to_owned(),
        media_type: media.map(str::to_owned),
        created_at: at,
    };
    let id = "00000000-0000-0000-0000-000000000009";
    assert!(row_to_folder(columns(id, None, 0)).is_ok());
    for bad in [
        columns("nine", None, 0),
        columns(id, Some("radio"), 0),
        columns(id, None, i64::MAX),
    ] {
        assert!(matches!(row_to_folder(bad), Err(AppError::InvalidInput(_))));
    }
    assert!(matches!(
        row_to_folder(columns(id, None, 253_402_300_800)),
        Err(AppError::InvalidInput(m))
            if m == "invalid root_folders.created_at: timestamp was not in range"
    ));
    assert!(row_to_folder(columns(id, None, 253_402_300_799)).is_ok());
    assert!(row_to_folder(columns(id, None, -377_705_116_800)).is_ok());
    assert!(row_to_folder(columns(id, None, -377_705_116_801)).is_err());
}

#[test]
fn a_row_that_is_not_there_is_named() {
    assert_eq!(get_by_id(Some(5), "search ", 1).unwrap(), 5);
    assert!(matches!(
        get_by_id(None::<u8>, "search ", 1),
        Err(AppError::NotFound(m)) if m == "search 00000000-0000-0000-0000-000000000001"
    ));
}
