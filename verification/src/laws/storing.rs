//! What is stored, what is read back, and what is answered.

use vstd::prelude::*;

use crate::catalogue::{MediaType, SearchKeys};
use crate::db::columns;
use crate::db::push_history;
use crate::db::push_history::PushStatus;
use crate::db::quality_profiles;
use crate::db::quality_profiles::{NewQualityProfile, ProfileColumns, StoredRules};
use crate::db::root_folders;
use crate::db::root_folders::{FolderColumns, PathFacts, RootFolder};
use crate::db::scan_attempts;
use crate::db::scan_attempts::{Attempt, AttemptColumns};
use crate::db::searches;
use crate::db::searches::{Clause, FilterParams, SearchRow};
use crate::db::settings;
use crate::db::settings::SettingRow;
use crate::db::trackers;
use crate::db::trackers::{NewTracker, TrackerColumns};
use crate::db::webhook_events;
use crate::db::webhook_events::EventColumns;
use crate::error::{AppError, RpcCode};
use crate::grpc;
use crate::grpc::{
    BrarrService, MaintenanceReply, RecentSearchesRequest, SearchRequest, SearchSummary, Status,
};
use crate::laws::spelling;
use crate::maintenance::MaintenanceOutcome;
use crate::outside;
use crate::poll::ArrKind;
use crate::runtime;
use crate::runtime::{Environment, RuntimeConfig};
use crate::text;

verus! {

// ---------------------------------------------------------------------
// Settings
// ---------------------------------------------------------------------

/// A setting has the value it was last given.
pub proof fn the_last_value_counts(rows: Seq<SettingRow>, row: SettingRow, key: Seq<char>)
    ensures
        row.key@ == key ==> settings::stored_value(rows.push(row), key) == Some(row.value@),
        row.key@ != key ==> settings::stored_value(rows.push(row), key) == settings::stored_value(
            rows,
            key,
        ),
        settings::stored_value(Seq::empty(), key) is None,
{
    assert(rows.push(row).drop_last() =~= rows);
}

/// A flag is on where it says `1`, `true`, `yes` or `on`, in any letter case
/// and whatever white space stands around it, and off otherwise.
pub proof fn a_flag_is_on_in_four_words(before: Seq<char>, word: Seq<char>, behind: Seq<char>)
    requires
        spelling::is_spaces(before),
        spelling::is_spaces(behind),
        word.len() > 0 && !spelling::is_space(word[0]) && !spelling::is_space(word.last()),
    ensures
        settings::is_truthy(before + word + behind) <==> {
            ||| word == seq!['1']
            ||| spelling::reads_as(word, seq!['t', 'r', 'u', 'e'])
            ||| spelling::reads_as(word, seq!['y', 'e', 's'])
            ||| spelling::reads_as(word, seq!['o', 'n'])
        },
{
    spelling::trimming_takes_the_space_around(before, word, behind);
    reveal_strlit("1");
    reveal_strlit("true");
    reveal_strlit("yes");
    reveal_strlit("on");
    assert("1"@ =~= seq!['1']);
    assert("true"@ =~= seq!['t', 'r', 'u', 'e']);
    assert("yes"@ =~= seq!['y', 'e', 's']);
    assert("on"@ =~= seq!['o', 'n']);
    spelling::lemma_reads(word, seq!['1']);
    spelling::lemma_reads(word, seq!['t', 'r', 'u', 'e']);
    spelling::lemma_reads(word, seq!['y', 'e', 's']);
    spelling::lemma_reads(word, seq!['o', 'n']);
    if spelling::reads_as(word, seq!['1']) {
        assert(word[0] == '1');
        assert(word =~= seq!['1']);
    }
    if word == seq!['1'] {
        assert(spelling::reads_as(word, seq!['1']));
    }
}

/// A saved setting goes before the environment, and an empty one counts as
/// not saved.
pub proof fn what_is_saved_goes_first(
    rows: Seq<SettingRow>,
    key: Seq<char>,
    env: Option<String>,
)
    ensures
        settings::stored_value(rows, key) matches Some(v) ==> (v.len() > 0 ==> runtime::in_force(
            rows,
            key,
            env,
        ) == Some(v)),
        settings::stored_value(rows, key) matches Some(v) ==> (v.len() == 0 ==> runtime::in_force(
            rows,
            key,
            env,
        ) == text::opt_view(env)),
        settings::stored_value(rows, key) is None ==> runtime::in_force(rows, key, env)
            == text::opt_view(env),
{
}

/// Each part of what is in force comes from its own setting. Where nothing is
/// saved nor set, nobody passes without a token, nothing is bypassed, polls
/// come every half hour and decisions are kept for a week.
pub proof fn each_setting_has_its_own_key(
    r: RuntimeConfig,
    rows: Seq<SettingRow>,
    env: Environment,
)
    requires
        runtime::is_config(r, rows, env),
    ensures
        r.bypass_spec@ == runtime::or_empty(
            runtime::in_force(rows, "bypass_auth_from"@, env.bypass_auth_from),
        ),
        r.proxies_spec@ == runtime::or_empty(
            runtime::in_force(rows, "trusted_proxies"@, env.trusted_proxies),
        ),
        text::opt_view(r.public_url) == runtime::in_force(rows, "public_url"@, env.public_url),
        runtime::in_force(rows, "auth_token"@, env.auth_token) matches Some(t) ==> (text::trim(
            t,
        ).len() > 0 ==> text::opt_view(r.auth_token) == Some(t)),
        runtime::in_force(rows, "auth_token"@, env.auth_token) matches Some(t) ==> (text::trim(
            t,
        ).len() == 0 ==> r.auth_token is None),
        runtime::in_force(rows, "auth_token"@, env.auth_token) is None ==> r.auth_token is None,
        runtime::in_force(rows, "poll_interval_secs"@, env.poll_interval_secs) is None
            ==> r.poll_interval == 30 * 60,
        r.poll_interval >= 60,
        runtime::in_force(rows, "decisions_retention_days"@, env.retention_days) is None
            ==> r.retention_days == 7,
        settings::stored_value(rows, "log_level"@) is None ==> r.log_level is None,
        settings::stored_value(rows, "log_level"@) matches Some(v) ==> (v.len() > 0
            ==> text::opt_view(r.log_level) == Some(v)),
{
}

/// What is configured in figures is what is in force; a poll never comes
/// sooner than in a minute.
pub proof fn figures_are_taken_as_they_stand(s: Seq<char>)
    requires
        s.len() > 0,
        forall|i: int| 0 <= i < s.len() ==> 48 <= #[trigger] s[i] as int <= 57,
    ensures
        text::number(s) <= u32::MAX ==> runtime::days_of(Some(s)) == text::number(s),
        text::number(s) > u32::MAX ==> runtime::days_of(Some(s)) == 7,
        60 <= text::number(s) <= u64::MAX ==> runtime::seconds_of(Some(s)) == text::number(s),
        text::number(s) < 60 ==> runtime::seconds_of(Some(s)) == 60,
        text::number(s) > u64::MAX ==> runtime::seconds_of(Some(s)) == 1800,
{
    assert(s[0] != '+');
    spelling::a_number_is_nothing_but_figures(s, u32::MAX as nat);
    spelling::a_number_is_nothing_but_figures(s, u64::MAX as nat);
}

/// A list of peers names some where it is not blank.
pub proof fn a_blank_list_names_nobody(r: bool, spec: &str)
    requires
        runtime::is_naming(r, spec),
    ensures
        spelling::is_spaces(spec@) ==> !r,
        spec@.len() > 0 && !spelling::is_space(spec@[0]) && !spelling::is_space(spec@.last())
            ==> r,
{
    let none = Seq::<char>::empty();
    if spelling::is_spaces(spec@) {
        spelling::trimming_takes_the_space_around(spec@, none, none);
        assert(spec@ + none + none =~= spec@);
    }
    if spec@.len() > 0 && !spelling::is_space(spec@[0]) && !spelling::is_space(spec@.last()) {
        spelling::trimming_takes_the_space_around(none, spec@, none);
        assert(none + spec@ + none =~= spec@);
    }
}

// ---------------------------------------------------------------------
// Columns
// ---------------------------------------------------------------------

/// A number that was stored reads back; one that does not fit reads as none,
/// and a count that does not fit as zero.
pub proof fn a_stored_number_reads_back(n: u32, m: u16, column: i64)
    ensures
        columns::narrow_u32(columns::widened_u32(Some(n))) == Some(n),
        columns::narrow_u16(columns::widened_u16(Some(m))) == Some(m),
        columns::widened_u32(Some(n)) == Some(n as i64),
        columns::widened_u16(Some(m)) == Some(m as i64),
        columns::narrow_u32(None) is None && columns::narrow_u16(None) is None,
        column < 0 ==> columns::narrow_u32(Some(column)) is None && columns::narrow_u16(
            Some(column),
        ) is None && columns::count_of(column) == 0,
        column > 4_294_967_295 ==> columns::narrow_u32(Some(column)) is None && columns::count_of(
            column,
        ) == 0,
        column > 65_535 ==> columns::narrow_u16(Some(column)) is None,
        0 <= column <= 4_294_967_295 ==> columns::count_of(column) == column,
{
}

/// A change that found no row is told as a missing one, by its id.
pub proof fn a_change_without_a_row_is_missing(
    r: Result<(), AppError>,
    rows: u64,
    what: &str,
    id: u128,
)
    requires
        columns::is_affected(r, rows, what, id),
    ensures
        r is Ok <==> rows > 0,
        r matches Err(e) ==> (e matches AppError::NotFound(m) && m@ == what@ + outside::hyphenated(
            id,
        )),
{
}

// ---------------------------------------------------------------------
// The push history
// ---------------------------------------------------------------------

/// A push is stored as `ok`, `http_error` or `transport_error`; what reads as
/// none of these was an error of the instance's.
pub proof fn a_push_is_stored_in_words(word: Seq<char>)
    ensures
        push_history::status_label(PushStatus::Accepted) == "ok"@,
        push_history::status_label(PushStatus::HttpError) == "http_error"@,
        push_history::status_label(PushStatus::TransportError) == "transport_error"@,
        push_history::labelled_status("ok"@) == PushStatus::Accepted,
        push_history::labelled_status(word) == PushStatus::Accepted ==> word == "ok"@,
        push_history::labelled_status(word) == PushStatus::TransportError ==> word
            == "transport_error"@,
        push_history::labelled_kind(word) == Some(ArrKind::Sonarr) <==> word == "sonarr"@,
        push_history::labelled_kind("radarr"@) == Some(ArrKind::Radarr),
        push_history::labelled_kind(word) is Some ==> word == "sonarr"@ || word == "radarr"@,
{
    push_history::the_status_label_round_trips(PushStatus::Accepted);
    reveal_strlit("sonarr");
    reveal_strlit("radarr");
    assert("sonarr"@[0] != "radarr"@[0]);
}

/// As many rows are shown as were asked for, but no more than the most, and a
/// usual number where none was asked for.
pub proof fn a_list_has_its_bounds(
    pushes: u32,
    events: u32,
    listed: u32,
    page: u32,
    asked: u32,
)
    requires
        push_history::is_recent_limit(pushes, asked),
        webhook_events::is_recent_limit(events, asked),
        searches::is_clamped(listed, asked),
        searches::is_page_limit(page, asked),
    ensures
        asked == 0 ==> pushes == 50 && events == 50 && listed == 20 && page == 50,
        1 <= asked <= 200 ==> pushes == asked && events == asked && listed == asked && page == asked,
        200 < asked <= 500 ==> pushes == asked && events == asked && listed == 200 && page == 200,
        asked > 500 ==> pushes == 500 && events == 500 && listed == 200 && page == 200,
{
}

/// What was counted is told as it is, and never as less than nothing.
pub proof fn a_count_is_never_negative(
    rate: (u64, u64),
    total: i64,
    ok: i64,
    counted: u64,
    n: i64,
)
    requires
        push_history::is_rate(rate, total, ok),
        searches::is_count(counted, n),
    ensures
        total >= 0 ==> rate.0 == total,
        total < 0 ==> rate.0 == 0,
        ok >= 0 ==> rate.1 == ok,
        ok < 0 ==> rate.1 == 0,
        n >= 0 ==> counted == n,
        n < 0 ==> counted == 0,
{
}

/// A remote id is stored as a signed number that stands for it alone.
pub proof fn a_remote_id_wraps_around(v: u64)
    ensures
        v < 0x8000_0000_0000_0000 ==> push_history::signed_bits(v) == v,
        v >= 0x8000_0000_0000_0000 ==> push_history::signed_bits(v) < 0
            && push_history::signed_bits(v) + 0x1_0000_0000_0000_0000 == v,
{
}

// ---------------------------------------------------------------------
// Profiles and folders
// ---------------------------------------------------------------------

/// A profile needs a name and a threshold of a thousand at most, and is
/// stored under the name without the white space around it.
pub proof fn a_profile_needs_a_name(
    basics: Result<String, AppError>,
    name: &str,
    threshold: u32,
    stored: Result<ProfileColumns, AppError>,
    id: u128,
    now: i64,
    new: NewQualityProfile,
)
    requires
        quality_profiles::is_basics(basics, name, threshold),
        quality_profiles::is_inserted(stored, id, now, new),
    ensures
        basics is Ok <==> text::trim(name@).len() > 0 && threshold <= 1000,
        basics matches Ok(kept) ==> kept@ == text::trim(name@),
        basics matches Err(e) ==> e is InvalidInput,
        stored is Ok <==> text::trim(new.name@).len() > 0 && new.push_threshold <= 1000,
        stored matches Ok(c) ==> c.name@ == text::trim(new.name@) && c.push_threshold
            == new.push_threshold && c.is_preset == 0 && c.created_at == now && c.id@
            == outside::hyphenated(id),
        stored matches Err(e) ==> e is InvalidInput,
{
}

/// A profile without rules of its own goes by the baseline; the rules of any
/// other are kept as they were written.
pub proof fn empty_rules_are_the_baseline(rules: StoredRules, json: Option<String>)
    requires
        quality_profiles::is_rules(rules, json),
    ensures
        json is None ==> rules is Baseline,
        json matches Some(s) ==> (s@ == seq!['[', ']'] ==> rules is Baseline),
        json matches Some(s) ==> (text::trim(s@) != seq!['[', ']'] ==> (
        rules matches StoredRules::Listed(t) && t@ == s@)),
{
    reveal_strlit("[]");
    assert("[]"@ =~= seq!['[', ']']);
    text::lemma_trim_tight(seq!['[', ']']);
}

/// A root folder has to be there, to be a folder and to be writable.
pub proof fn a_root_folder_can_be_written(r: Result<(), AppError>, path: &str, facts: PathFacts)
    requires
        root_folders::is_validated(r, path, facts),
    ensures
        r is Ok <==> path@.len() > 0 && (facts matches PathFacts::Found { is_dir, readonly }
            && is_dir && !readonly),
        r matches Err(e) ==> e is InvalidInput,
{
}

/// A stored root folder has one separator at its end taken away, unless it is
/// nothing else.
pub proof fn a_folder_is_stored_without_its_slash(
    r: Result<FolderColumns, AppError>,
    id: u128,
    now: i64,
    raw: &str,
    path: Seq<char>,
    slash: char,
    facts: PathFacts,
    media: Option<MediaType>,
)
    requires
        root_folders::is_inserted(r, id, now, raw, facts, media),
        slash == '/' || slash == '\\',
        path.len() > 0 && !text::is_white(path[0]) && !text::is_white(path.last()),
        path.last() != '/' && path.last() != '\\',
        raw@ == path || raw@ == path.push(slash),
    ensures
        r is Ok <==> (facts matches PathFacts::Found { is_dir, readonly } && is_dir && !readonly),
        r matches Ok(c) ==> c.path@ == path && c.created_at == now && c.id@ == outside::hyphenated(
            id,
        ) && (c.media_type is None <==> media is None) && (media == Some(MediaType::Movie)
            ==> text::opt_view(c.media_type) == Some("movie"@)) && (media == Some(MediaType::Tv)
            ==> text::opt_view(c.media_type) == Some("tv"@)),
{
    text::lemma_trim_tight(raw@);
    assert(path.push(slash).drop_last() =~= path);
}

/// A folder for the title's kind is picked before one for any kind, and among
/// equals the first; one for the other kind never.
pub proof fn a_folder_of_the_kind_is_picked_first(
    r: Option<&RootFolder>,
    folders: Seq<RootFolder>,
    media: MediaType,
    k: int,
)
    requires
        root_folders::is_picked(r, folders, media),
        0 <= k < folders.len(),
    ensures
        r matches Some(f) ==> f.media_type == Some(media) || f.media_type is None,
        folders[k].media_type == Some(media) ==> (r matches Some(f) && f.media_type == Some(media)),
        folders[k].media_type is None ==> r is Some,
        folders[k].media_type == Some(media) && (forall|j: int|
            0 <= j < k ==> (#[trigger] folders[j]).media_type != Some(media)) ==> (r matches Some(f)
            && *f == folders[k]),
{
    if let Some(f) = r {
        let i = choose|i: int|
            #[trigger] root_folders::is_destination(folders, media, i) && *f == folders[i];
        assert(folders[i] == *f);
        if folders[k].media_type == Some(media) {
            assert(!root_folders::none_serving(folders, Some(media)));
            assert(root_folders::first_serving(folders, Some(media), i));
            if k < i {
                assert(folders[k].media_type != Some(media));
            }
        }
    }
}

/// A disk is as full as the hundredth parts of it that are taken, rounded
/// down; one of no size and one with more room than size are empty.
pub proof fn a_disk_is_as_full_as_what_is_taken(available: int, total: int)
    requires
        0 <= available,
        0 <= total,
    ensures
        0 <= root_folders::percent_used(available, total) <= 100,
        total > 0 && available == 0 ==> root_folders::percent_used(available, total) == 100,
        available >= total ==> root_folders::percent_used(available, total) == 0,
        total > available ==> root_folders::percent_used(available, total) * total <= (total
            - available) * 100 < (root_folders::percent_used(available, total) + 1) * total,
{
    if total > 0 && available < total {
        let used = total - available;
        let n = used * 100;
        let q = n / total;
        assert(q * total <= n < (q + 1) * total) by (nonlinear_arith)
            requires
                q == n / total,
                total > 0,
        ;
        assert(0 <= q) by (nonlinear_arith)
            requires
                q == n / total,
                n >= 0,
                total > 0,
        ;
        assert(q <= 100) by (nonlinear_arith)
            requires
                q * total <= n,
                n == used * 100,
                used <= total,
                total > 0,
        ;
        if available == 0 {
            assert(q >= 100) by (nonlinear_arith)
                requires
                    n < (q + 1) * total,
                    n == total * 100,
                    total > 0,
            ;
        }
    }
}

/// A tracker needs a name, and is stored as it was given.
pub proof fn a_tracker_needs_a_name(
    r: Result<TrackerColumns, AppError>,
    id: u128,
    now: i64,
    new: NewTracker,
)
    requires
        trackers::is_inserted(r, id, now, new),
    ensures
        r is Ok <==> text::trim(new.name@).len() > 0,
        r matches Ok(c) ==> c.name@ == new.name@ && c.base_url@ == new.base_url@ && c.api_token@
            == new.api_token@ && c.kind@ == new.kind@ && text::opt_view(c.plugin_path)
            == text::opt_view(new.plugin_path) && c.created_at == now && c.id@
            == outside::hyphenated(id),
        r matches Err(e) ==> e is InvalidInput,
{
}

/// Linking an event to the search it set off changes nothing else of it.
pub proof fn a_linked_event_stays_itself(r: EventColumns, c: EventColumns, search: u128)
    requires
        webhook_events::is_linked(r, c, search),
    ensures
        r.id == c.id && r.arr_instance_id == c.arr_instance_id && r.kind == c.kind && r.event_type
            == c.event_type && r.payload_json == c.payload_json && r.received_at == c.received_at,
        r.triggered_search_id matches Some(s) && s@ == outside::hyphenated(search),
{
}

// ---------------------------------------------------------------------
// Earlier searches
// ---------------------------------------------------------------------

/// What counts of a title or an episode is its last search.
pub proof fn the_last_search_counts(
    attempts: Seq<Attempt>,
    a: Attempt,
    item: u128,
    episode: Option<u128>,
)
    ensures
        a.item_id == item && a.episode_id == episode ==> scan_attempts::when_searched(
            attempts.push(a),
            item,
            episode,
        ) == Some(a.searched_at),
        a.item_id != item || a.episode_id != episode ==> scan_attempts::when_searched(
            attempts.push(a),
            item,
            episode,
        ) == scan_attempts::when_searched(attempts, item, episode),
        scan_attempts::when_searched(Seq::empty(), item, episode) is None,
{
    assert(attempts.push(a).drop_last() =~= attempts);
}

/// Rows whose time is none are passed over; rows whose ids are none are
/// refused.
pub proof fn a_row_without_a_time_is_passed_over(
    r: Result<Vec<Attempt>, AppError>,
    rows: Seq<AttemptColumns>,
    last: AttemptColumns,
)
    requires
        scan_attempts::is_history(r, rows.push(last)),
    ensures
        outside::uuid_read(last.item_id@) is Err ==> r is Err,
        r matches Ok(v) ==> (!outside::is_timestamp(last.searched_at) ==> v@
            == scan_attempts::attempts_of(rows)),
        r matches Ok(v) ==> (outside::is_timestamp(last.searched_at) ==> v@.len()
            == scan_attempts::attempts_of(rows).len() + 1 && v@.last().searched_at
            == last.searched_at && v@.last().item_id == outside::uuid_read(last.item_id@)->Ok_0),
{
    let all = rows.push(last);
    assert(all.drop_last() =~= rows);
    assert(all[rows.len() as int] == last);
}

// ---------------------------------------------------------------------
// Searches
// ---------------------------------------------------------------------

/// A search is listed where it meets each condition that was given; one that
/// was not given holds nothing back.
pub proof fn a_filter_holds_back_what_differs(row: SearchRow, kept: bool, p: FilterParams)
    requires
        searches::passes(row, kept, p),
    ensures
        p.tmdb_id matches Some(n) ==> row.tmdb_id == Some(n),
        p.imdb_id matches Some(s) ==> (row.imdb_id matches Some(t) && t@ == s@),
        p.tvdb_id matches Some(n) ==> row.tvdb_id == Some(n),
        p.season matches Some(n) ==> row.season == Some(n),
        p.episode matches Some(n) ==> row.episode == Some(n),
        p.from_unix matches Some(t) ==> t <= row.submitted_at,
        p.to_unix matches Some(t) ==> row.submitted_at <= t,
        p.has_kept_decision matches Some(k) ==> k == kept,
{
}

/// A filter without conditions holds nothing back.
pub proof fn no_condition_holds_nothing_back(row: SearchRow, kept: bool, p: FilterParams)
    requires
        p.tmdb_id is None && p.imdb_id is None && p.tvdb_id is None && p.season is None,
        p.episode is None && p.from_unix is None && p.to_unix is None && p.has_kept_decision
            is None,
    ensures
        searches::passes(row, kept, p),
{
}

/// The conditions of a query stand behind one `WHERE`, joined by `AND`.
pub proof fn conditions_are_joined(clauses: Seq<Clause>, clause: Clause)
    ensures
        searches::where_text(Seq::empty()) == Seq::<char>::empty(),
        clauses.len() == 0 ==> searches::where_text(clauses.push(clause)) == " WHERE "@
            + searches::clause_text(clause),
        clauses.len() > 0 ==> searches::where_text(clauses.push(clause)) == searches::where_text(
            clauses,
        ) + " AND "@ + searches::clause_text(clause),
{
    assert(clauses.push(clause).drop_last() =~= clauses);
}

/// Each condition asks for its own column.
pub proof fn a_condition_asks_its_own_column(n: u32, m: u16, t: i64, s: String)
    ensures
        searches::clause_text(Clause::TmdbId(n)) == "tmdb_id = ?"@,
        searches::clause_text(Clause::ImdbId(s)) == "imdb_id = ?"@,
        searches::clause_text(Clause::TvdbId(n)) == "tvdb_id = ?"@,
        searches::clause_text(Clause::Season(m)) == "season = ?"@,
        searches::clause_text(Clause::Episode(m)) == "episode = ?"@,
        searches::clause_text(Clause::From(t)) == "submitted_at >= ?"@,
        searches::clause_text(Clause::To(t)) == "submitted_at <= ?"@,
{
}

// ---------------------------------------------------------------------
// The service
// ---------------------------------------------------------------------

/// A request that names an id is searched by what it names; one that names
/// none, or an IMDb id that is no number or zero, is refused.
pub proof fn a_request_is_searched_by_its_ids(
    r: Result<SearchKeys, Status>,
    req: SearchRequest,
    figures: Seq<char>,
)
    requires
        grpc::is_search(r, req),
        req.imdb_id@ == figures || req.imdb_id@ == seq!['t', 't'] + figures,
        forall|i: int| 0 <= i < figures.len() ==> 48 <= #[trigger] figures[i] as int <= 57,
    ensures
        figures.len() > 0 && 0 < text::number(figures) <= u32::MAX ==> (r matches Ok(keys)
            && keys.imdb == Some(text::number(figures) as u32)),
        figures.len() > 0 && (text::number(figures) == 0 || text::number(figures) > u32::MAX)
            ==> r is Err,
        req.imdb_id@.len() == 0 ==> (r is Ok <==> req.tmdb_id > 0),
        r matches Ok(keys) ==> (keys.tmdb is None <==> req.tmdb_id == 0) && (req.tmdb_id > 0
            ==> keys.tmdb == Some(req.tmdb_id)) && keys.tvdb is None && keys.season is None
            && keys.episode is None,
        r matches Err(s) ==> s.code == RpcCode::InvalidArgument,
{
    let none = Seq::<char>::empty();
    let raw = req.imdb_id@;
    if figures.len() > 0 {
        let marked = seq!['t', 't'] + figures;
        assert(48 <= figures[0] as int <= 57 && 48 <= figures[figures.len() - 1] as int <= 57);
        assert(marked.last() == figures.last());
        text::lemma_trim_tight(figures);
        text::lemma_trim_tight(marked);
        assert(marked.skip(2) =~= figures);
        assert(crate::poll::without_tt(figures) == figures);
        assert(crate::poll::without_tt(marked) == figures);
        spelling::a_number_is_nothing_but_figures(figures, u32::MAX as nat);
    }
    if raw.len() == 0 {
        spelling::trimming_takes_the_space_around(none, none, none);
        assert(none + none + none =~= raw);
    }
}

/// Searches are filtered where a request gives a condition or skips some. A
/// season or episode too large to be one is no condition.
pub proof fn a_filter_is_what_was_asked(
    r: Option<FilterParams>,
    req: RecentSearchesRequest,
)
    requires
        grpc::is_recent(r, req),
    ensures
        r is None <==> req.tmdb_id is None && (req.imdb_id matches Some(s) ==> s@.len() == 0)
            && req.tvdb_id is None && req.season is None && req.episode is None && req.from_unix
            is None && req.to_unix is None && req.has_kept_decision is None && req.offset == 0,
        r matches Some(p) ==> {
            &&& p.tmdb_id == req.tmdb_id && p.tvdb_id == req.tvdb_id
            &&& p.from_unix == req.from_unix && p.to_unix == req.to_unix
            &&& p.has_kept_decision == req.has_kept_decision
            &&& p.limit == req.limit && p.offset == req.offset
            &&& req.season matches Some(n) ==> (n <= 65_535 ==> p.season == Some(n as u16)) && (n
                > 65_535 ==> p.season is None)
            &&& req.season is None ==> p.season is None
            &&& req.episode matches Some(n) ==> (n <= 65_535 ==> p.episode == Some(n as u16)) && (n
                > 65_535 ==> p.episode is None)
            &&& req.episode is None ==> p.episode is None
            &&& req.imdb_id matches Some(s) ==> (s@.len() > 0 ==> text::opt_view(p.imdb_id) == Some(
                s@,
            ))
            &&& req.imdb_id matches Some(s) ==> (s@.len() == 0 ==> p.imdb_id is None)
        },
{
}

/// What is told of a search is what is stored, with zero or nothing for what
/// it does not have. Where its decisions are at hand, those kept are counted.
pub proof fn a_summary_tells_what_is_stored(
    r: SearchSummary,
    row: SearchRow,
)
    requires
        grpc::is_summary(r, row, None),
    ensures
        r.id@ == outside::hyphenated(row.id),
        row.tmdb_id matches Some(n) ==> r.tmdb_id == n,
        row.tmdb_id is None ==> r.tmdb_id == 0,
        row.tvdb_id matches Some(n) ==> r.tvdb_id == n,
        row.tvdb_id is None ==> r.tvdb_id == 0,
        row.season matches Some(n) ==> r.season == n,
        row.season is None ==> r.season == 0,
        row.episode matches Some(n) ==> r.episode == n,
        row.episode is None ==> r.episode == 0,
        row.imdb_id matches Some(s) ==> r.imdb_id@ == s@,
        row.imdb_id is None ==> r.imdb_id@.len() == 0,
        r.submitted_at_unix == row.submitted_at,
        r.result_count == row.result_count,
{
}

/// A decision counts as kept where it was not rejected.
pub proof fn what_was_not_rejected_is_kept(rejected: Seq<bool>, last: bool, stored: u32)
    ensures
        grpc::kept_count(rejected.push(last)) == grpc::kept_count(rejected) + if last {
            0int
        } else {
            1int
        },
        grpc::kept_count(Seq::empty()) == 0,
        grpc::shown_count(stored, None) == stored,
        grpc::kept_count(rejected) <= u32::MAX ==> grpc::shown_count(stored, Some(rejected))
            == grpc::kept_count(rejected),
        grpc::kept_count(rejected) > u32::MAX ==> grpc::shown_count(stored, Some(rejected)) == 0,
{
    assert(rejected.push(last).drop_last() =~= rejected);
}

/// A dry run is about every title where none is named, about the one named
/// where the name is an id, and refused otherwise.
pub proof fn a_dry_run_is_about_what_was_named(
    r: Result<Option<u128>, Status>,
    item: &str,
)
    requires
        grpc::is_scope(r, item),
    ensures
        r matches Ok(None) <==> text::trim(item@).len() == 0,
        r matches Ok(Some(id)) ==> outside::uuid_of(text::trim(item@)) == Some(id),
        r is Err <==> text::trim(item@).len() > 0 && outside::uuid_of(text::trim(item@)) is None,
        r matches Err(s) ==> s.code == RpcCode::InvalidArgument,
{
}

/// Where a token is asked for, only the right one is let in.
pub proof fn only_the_right_token_is_let_in(
    r: Result<(), Status>,
    service: BrarrService,
    matches_token: Option<bool>,
)
    requires
        grpc::is_let_in(r, service, matches_token),
    ensures
        !service.state.auth_enabled ==> r is Ok,
        service.state.auth_enabled && matches_token == Some(true) ==> r is Ok,
        service.state.auth_enabled && matches_token == Some(false) ==> r is Err,
        service.state.auth_enabled && matches_token is None ==> r is Err,
        r matches Err(s) ==> s.code == RpcCode::Unauthenticated && s.message@
            == "missing or invalid bearer token"@,
{
}

/// The token of a request stands behind `Bearer` or `bearer`.
pub proof fn a_token_stands_behind_bearer(token: Seq<char>, other: Seq<char>)
    requires
        token.len() > 0 && !text::is_white(token[0]) && !text::is_white(token.last()),
        other.len() == 0 || (other[0] != 'B' && other[0] != 'b'),
    ensures
        grpc::bearer(Some(seq!['B', 'e', 'a', 'r', 'e', 'r', ' '] + token)) == Some(token),
        grpc::bearer(Some(seq!['b', 'e', 'a', 'r', 'e', 'r', ' '] + token)) == Some(token),
        grpc::bearer(Some(other)) is None,
        grpc::bearer(None) is None,
{
    reveal_strlit("Bearer ");
    reveal_strlit("bearer ");
    let large = seq!['B', 'e', 'a', 'r', 'e', 'r', ' '];
    let small = seq!['b', 'e', 'a', 'r', 'e', 'r', ' '];
    assert("Bearer "@ =~= large);
    assert("bearer "@ =~= small);
    assert((large + token).skip(7) =~= token);
    assert((small + token).skip(7) =~= token);
    assert((large + token).subrange(0, 7) =~= large);
    assert((small + token).subrange(0, 7) =~= small);
    text::lemma_trim_tight(token);
    if other.len() >= 7 {
        assert(other.subrange(0, 7)[0] == other[0]);
    }
}

/// What is told of a maintenance run is what it deleted, and how long
/// decisions are kept.
pub proof fn a_run_tells_what_it_deleted(
    r: MaintenanceReply,
    service: BrarrService,
    outcome: MaintenanceOutcome,
)
    requires
        grpc::is_maintained(r, service, outcome),
    ensures
        r.decisions_deleted == outcome.decisions_deleted,
        r.searches_deleted == outcome.searches_deleted,
        r.retention_days == service.state.retention_days,
{
}

} // verus!
