//! The words and numbers that are shown, sent and stored.

use vstd::prelude::*;

use crate::catalogue;
use crate::catalogue::{MediaType, MetadataSource, Protocol};
use crate::db::push_history;
use crate::db::push_history::PushColumns;
use crate::db::quality_profiles;
use crate::db::quality_profiles::ProfileColumns;
use crate::db::root_folders;
use crate::db::root_folders::FolderColumns;
use crate::db::searches;
use crate::db::searches::SearchColumns;
use crate::db::sources;
use crate::db::sources::SourceRow;
use crate::db::trackers;
use crate::db::trackers::TrackerColumns;
use crate::db::webhook_events;
use crate::db::webhook_events::EventColumns;
use crate::deliver;
use crate::deliver::{FetchFailure, FetchReply, GrabProtocol, Route, Transport};
use crate::episode_match;
use crate::flip;
use crate::flip::{Destination, EpisodeOrder, OrderFamily, Outcome, PackChange, Preview};
use crate::folder_names;
use crate::forget;
use crate::forget::{FileFacts, RemoveStep};
use crate::grpc;
use crate::grpc::{ProviderSummary, StructureTitle};
use crate::host_path;
use crate::import;
use crate::import::{ImportMode, Placement};
use crate::laws::naming;
use crate::maintenance;
use crate::metadata::axis;
use crate::metadata::registry;
use crate::metadata::registry::Provider;
use crate::notify;
use crate::outside;
use crate::poll;
use crate::poll::ArrKind;
use crate::provider_cache;
use crate::provider_cache::{Entry, ProviderRow};
use crate::queue;
use crate::remote_path;
use crate::remote_path::PathFlavor;
use crate::runtime;
use crate::runtime::{BypassConfig, BypassError};
use crate::scan;
use crate::scan::{ScanSummary, TargetPlan};
use crate::text;

verus! {

// ---------------------------------------------------------------------
// Words
// ---------------------------------------------------------------------

/// Each source, transport, way and kind has a word of its own.
pub proof fn each_thing_has_its_word()
    ensures
        catalogue::source_label(MetadataSource::Tmdb) == "tmdb"@,
        catalogue::source_label(MetadataSource::Imdb) == "imdb"@,
        catalogue::source_label(MetadataSource::Tvdb) == "tvdb"@,
        catalogue::source_name(MetadataSource::Tmdb) == "TMDB"@,
        catalogue::source_name(MetadataSource::Imdb) == "IMDb"@,
        catalogue::source_name(MetadataSource::Tvdb) == "TheTVDB"@,
        deliver::transport_label(Transport::Torrent) == "torrent"@,
        deliver::transport_label(Transport::Usenet) == "usenet"@,
        deliver::kind_text(Transport::Torrent) == ".torrent"@,
        deliver::kind_text(Transport::Usenet) == ".nzb"@,
        flip::family_label(OrderFamily::Default) == "default"@,
        flip::family_label(OrderFamily::Alternate) == "alternate"@,
        flip::family_label(OrderFamily::Manual) == "manual"@,
        poll::kind_label(ArrKind::Sonarr) == "sonarr"@,
        poll::kind_label(ArrKind::Radarr) == "radarr"@,
        import::mode_label(ImportMode::Hardlink) == "hardlink"@,
        import::mode_label(ImportMode::Copy) == "copy"@,
        import::mode_label(ImportMode::Move) == "move"@,
        catalogue::media_label(MediaType::Movie) == "movie"@,
        catalogue::media_label(MediaType::Tv) == "tv"@,
        catalogue::protocol_label(Protocol::Torrent) == "torrent"@,
        catalogue::protocol_label(Protocol::Usenet) == "usenet"@,
        remote_path::flavor_label(PathFlavor::Posix) == "Unix"@,
        remote_path::flavor_label(PathFlavor::Windows) == "Windows"@,
        remote_path::flavor_label(PathFlavor::Unc) == "rede (UNC)"@,
{
}

/// A source's row carries its word, its name and whether it can be asked.
pub proof fn a_source_row_tells_of_its_source(row: SourceRow, source: MetadataSource)
    requires
        sources::is_row_of(row, source),
    ensures
        row.label@ == catalogue::source_label(source),
        row.display_name@ == catalogue::source_name(source),
        source == MetadataSource::Imdb ==> row.kind@ == "namespace"@,
        source != MetadataSource::Imdb ==> row.kind@ == "provider"@,
{
}

/// An id is written in five groups of figures and small letters.
pub proof fn an_id_is_written_in_five_groups(id: u128, i: int)
    requires
        0 <= i < 36,
    ensures
        outside::hyphenated(id).len() == 36,
        outside::hyphenated(id)[i] == '-' <==> i == 8 || i == 13 || i == 18 || i == 23,
        outside::hyphenated(id)[i] != '-' ==> 48 <= outside::hyphenated(id)[i] as int <= 57 || 97
            <= outside::hyphenated(id)[i] as int <= 102,
{
}

/// How often the loops run, how long they wait at first, and how long what
/// they found is kept, in seconds.
pub proof fn the_clocks_run_as_told()
    ensures
        deliver::FETCH_TIMEOUT == 30,
        folder_names::SWEEP_INTERVAL == 12 * 60 * 60,
        folder_names::STARTUP_DELAY == 3 * 60,
        maintenance::MAINTENANCE_INTERVAL == 6 * 60 * 60,
        maintenance::STARTUP_DELAY == 60,
        import::IMPORT_INTERVAL == 60,
        queue::SYNC_INTERVAL == 60,
        notify::PLEX_LOGIN_TTL == 35 * 60,
        notify::PLEX_LOGIN_POLL == 3,
        poll::DEFAULT_POLL_INTERVAL == 30 * 60,
        poll::MIN_POLL_INTERVAL == 60,
        poll::PER_MOVIE_DELAY == 5,
        scan::SCAN_RESULT_TTL == 10 * 60,
{
}

// ---------------------------------------------------------------------
// Sentences
// ---------------------------------------------------------------------

/// A file that is left is told of by its path, and by why it could not be
/// read where that is why.
pub proof fn a_refusal_names_its_file(step: RemoveStep, path: Seq<char>, facts: FileFacts)
    requires
        forget::is_step(step, path, facts),
    ensures
        facts matches FileFacts::Unreadable(why) ==> (step matches RemoveStep::Refuse(m) && m@
            == "não consegui ler "@ + path + ": "@ + why@),
        facts matches FileFacts::Links(n) ==> (n < 2 ==> (step matches RemoveStep::Refuse(m)
            && m@.len() >= path.len() && m@.take(path.len() as int) == path)),
{
    if let FileFacts::Links(n) = facts {
        if n < 2 {
            let m = forget::refusal_text(path, facts);
            assert(m.take(path.len() as int) =~= path);
        }
    }
}

/// What was forgotten is told in numbers, and what was refused only where
/// something was.
pub proof fn what_was_forgotten_is_told_in_numbers(rows: nat, removed: nat, refused: nat)
    ensures
        forget::summary_text(rows, removed, 0) == text::decimal(rows)
            + " aquisição(ões) esquecida(s), "@ + text::decimal(removed)
            + " arquivo(s) removido(s)"@,
        refused > 0 ==> forget::summary_text(rows, removed, refused) == forget::summary_text(
            rows,
            removed,
            0,
        ) + ", "@ + text::decimal(refused) + " não removido(s) — confira o histórico"@,
{
}

/// A delivery that ends before it starts says why.
pub proof fn an_ended_delivery_says_why(
    r: Route,
    paused: bool,
    grab: GrabProtocol,
    has_client: bool,
    url: Option<&str>,
)
    requires
        deliver::is_route(r, paused, grab, has_client, url),
        r is Ended,
    ensures
        paused ==> deliver::reason_text(r->Ended_0)
            == "o brarr está pausado — nada é entregue a cliente de download"@,
        !paused && grab == GrabProtocol::Local ==> deliver::reason_text(r->Ended_0)
            == "um arquivo local já está no disco — não há o que entregar"@,
        !paused && grab == GrabProtocol::Torrent && !has_client ==> deliver::reason_text(
            r->Ended_0,
        ) == "nenhum cliente de download ativo para "@ + "torrent"@,
        !paused && grab == GrabProtocol::Usenet && !has_client ==> deliver::reason_text(r->Ended_0)
            == "nenhum cliente de download ativo para "@ + "usenet"@,
        !paused && grab != GrabProtocol::Local && has_client ==> deliver::reason_text(r->Ended_0)
            == "a release não expôs URL de download"@,
{
}

/// A failed fetch says what failed.
pub proof fn a_failed_fetch_says_what_failed(
    r: Result<Vec<u8>, FetchFailure>,
    reply: FetchReply,
    transport: Transport,
)
    requires
        deliver::is_fetched(r, reply, transport),
    ensures
        reply matches FetchReply::Unreachable(why) ==> (r matches Err(FetchFailure::Transient(m))
            && m@ == "baixando a release: "@ + why@),
        reply matches FetchReply::Interrupted(why) ==> (r matches Err(FetchFailure::Transient(m))
            && m@ == "lendo a release: "@ + why@),
        reply matches FetchReply::NoClient(why) ==> (r matches Err(FetchFailure::Transient(m)) && m@
            == "cliente HTTP: "@ + why@),
        reply matches FetchReply::Status(code) ==> (r matches Err(FetchFailure::Permanent(m)) && m@
            == "o provider respondeu HTTP "@ + text::decimal(code as nat)
            + " ao baixar a release"@),
        reply is TooLarge ==> (r matches Err(FetchFailure::Permanent(m)) && m@
            == "arquivo maior que o limite de "@ + seq!['8']
            + " MiB — a URL provavelmente não aponta para um "@ + deliver::kind_text(transport)),
{
    assert(text::decimal(8) =~= seq!['8']);
}

/// What was fetched in place of a release file is shown by its first
/// twenty-four bytes.
pub proof fn a_wrong_file_shows_its_start(bytes: Seq<u8>, rest: Seq<u8>, transport: Transport)
    requires
        bytes.len() == 24,
    ensures
        deliver::wrong_content(bytes + rest, transport) == deliver::wrong_content(
            bytes,
            transport,
        ),
        deliver::wrong_content(bytes, transport) == "o conteúdo baixado não é um "@
            + deliver::kind_text(transport) + " (começa com "@ + deliver::quoted_text(
            deliver::lossy_text(bytes),
        )
            + ") — o provider provavelmente devolveu uma página de erro com status 200"@,
{
    assert((bytes + rest).take(24) =~= bytes);
    assert(bytes.take(24) =~= bytes);
}

/// An id of no use is told of by its source and value.
pub proof fn a_useless_id_is_named(source: MetadataSource, value: Seq<char>)
    ensures
        axis::rejection_text(source, value, axis::Reason::OutOfRange) == "o id "@
            + catalogue::source_name(source) + " `"@ + value
            + "` está fora da faixa que os indexadores aceitam"@,
        axis::rejection_text(source, value, axis::Reason::NotIndexed)
            == "nenhum indexador busca por id da "@ + catalogue::source_name(source)
            + " — resolva um id do TMDB ou da TheTVDB"@,
{
}

/// A failed copy says at which of the two files it failed.
pub proof fn a_failed_copy_names_the_file(
    source: Seq<char>,
    destination: Seq<char>,
    why: Seq<char>,
)
    ensures
        import::copy_text(import::CopyStage::Open, source, destination, why)
            == "não consegui abrir "@ + source + ": "@ + why,
        import::copy_text(import::CopyStage::Create, source, destination, why)
            == "não consegui criar "@ + destination + ": "@ + why,
        import::copy_text(import::CopyStage::Write, source, destination, why) == "cópia para "@
            + destination + " falhou e foi desfeita: "@ + why,
{
}

// ---------------------------------------------------------------------
// Rows that cannot be read
// ---------------------------------------------------------------------

/// A stored row is read exactly where its ids are ids, its words are known
/// and its time is a time.
pub proof fn a_row_is_read_where_its_columns_can_be(
    push: PushColumns,
    profile: ProfileColumns,
    folder: FolderColumns,
    tracker: TrackerColumns,
    event: EventColumns,
    search: SearchColumns,
)
    ensures
        push_history::unreadable(push) is None <==> outside::uuid_read(push.id@) is Ok
            && outside::uuid_read(push.decision_id@) is Ok && (
        push.arr_instance_id matches Some(s) ==> outside::uuid_read(s@) is Ok) && (push.arr_kind@
            == "sonarr"@ || push.arr_kind@ == "radarr"@) && outside::is_timestamp(push.pushed_at),
        quality_profiles::unreadable(profile) is None <==> outside::uuid_read(profile.id@) is Ok
            && outside::is_timestamp(profile.created_at),
        root_folders::unreadable(folder) is None <==> outside::uuid_read(folder.id@) is Ok && (
        folder.media_type matches Some(s) ==> s@ == "movie"@ || s@ == "tv"@)
            && outside::is_timestamp(folder.created_at),
        trackers::unreadable(tracker) is None <==> outside::uuid_read(tracker.id@) is Ok
            && outside::url_read(tracker.base_url@) is Ok && outside::is_timestamp(
            tracker.created_at,
        ),
        webhook_events::unreadable(event) is None <==> outside::uuid_read(event.id@) is Ok
            && outside::uuid_read(event.arr_instance_id@) is Ok && (event.kind@ == "sonarr"@
            || event.kind@ == "radarr"@) && outside::is_timestamp(event.received_at) && (
        event.triggered_search_id matches Some(s) ==> outside::uuid_read(s@) is Ok),
        searches::is_readable(search) <==> outside::uuid_read(search.id@) is Ok
            && outside::is_timestamp(search.submitted_at) && search.request_json is Ok,
{
}

// ---------------------------------------------------------------------
// The dry run
// ---------------------------------------------------------------------

/// What is told of a title's move is what its preview came to: the outcome in
/// a word, where it goes, and the plan where it is ready.
pub proof fn a_dry_run_tells_the_preview(t: StructureTitle, p: Preview)
    requires
        grpc::is_title_of(t, p),
    ensures
        t.item_id@ == outside::hyphenated(p.item_id) && t.title@ == p.title@,
        p.outcome is Untouched ==> t.outcome@ == "untouched"@ && t.reason@.len() == 0
            && t.destination_source@.len() == 0 && !t.pinned && !t.would_commit,
        p.outcome matches Outcome::Blocked { destination, reason } ==> t.outcome@ == "blocked"@
            && t.reason@ == reason@ && !t.would_commit && t.paired == 0 && t.packs@.len() == 0 && (
        destination is None ==> t.destination_source@.len() == 0),
        p.outcome matches Outcome::Blocked { destination: Some(d), reason } ==> t.pinned == d.pinned
            && t.destination_source@ == catalogue::source_label(d.source),
        p.outcome !is Ready ==> t.paired == 0 && t.orphans == 0 && t.added == 0 && t.grabs_at_risk
            == 0 && t.packs@.len() == 0,
        p.outcome matches Outcome::Ready(ready) ==> {
            &&& t.outcome@ == "ready"@ && t.reason@.len() == 0
            &&& t.destination_source@ == catalogue::source_label(ready.destination.source)
            &&& t.destination_family@ == flip::family_label(
                flip::family_of(ready.destination.ordering),
            )
            &&& t.pinned == ready.destination.pinned
            &&& t.grabs_at_risk == ready.plan.grabs_at_risk
            &&& t.would_commit <==> ready.plan.orphans == 0 && !(ready.plan.moves_anything
                && ready.plan.air_dates_are_thin)
            &&& ready.plan.pairs <= u32::MAX ==> t.paired == ready.plan.pairs
            &&& ready.plan.orphans <= u32::MAX ==> t.orphans == ready.plan.orphans
            &&& ready.plan.added <= u32::MAX ==> t.added == ready.plan.added
            &&& ready.plan.added > u32::MAX ==> t.added == u32::MAX
            &&& t.packs@.len() == ready.plan.packs_affected@.len()
        },
{
}

/// Each season a move affects is told with what it was, what it will be and
/// what was grabbed for it.
pub proof fn an_affected_season_is_told(packs: Seq<PackChange>, i: int)
    requires
        0 <= i < packs.len(),
        packs[i].was <= u32::MAX,
        packs[i].now <= u32::MAX,
    ensures
        grpc::packs_of(packs).len() == packs.len(),
        grpc::packs_of(packs)[i].season == packs[i].season,
        grpc::packs_of(packs)[i].was == packs[i].was,
        grpc::packs_of(packs)[i].now == packs[i].now,
        grpc::packs_of(packs)[i].grabs == packs[i].grabs,
{
}

/// An order's handle is told where it has one.
pub proof fn an_order_is_told_by_its_handle(t: StructureTitle, d: Destination)
    requires
        grpc::says_destination(t, Some(d)),
    ensures
        d.ordering matches EpisodeOrder::Named { family, handle } ==> t.destination_handle@
            == handle@ && t.destination_family@ == flip::family_label(family),
        d.ordering is Default ==> t.destination_handle@.len() == 0 && t.destination_family@
            == "default"@,
        d.ordering is Manual ==> t.destination_handle@.len() == 0 && t.destination_family@
            == "manual"@,
{
}

// ---------------------------------------------------------------------
// Sums
// ---------------------------------------------------------------------

/// What a title's plan left out is added to the summary, and nothing else of
/// it changes.
pub proof fn a_plan_is_added_to_the_summary(a: ScanSummary, b: ScanSummary, plan: TargetPlan)
    requires
        scan::absorbed(a, b, plan),
    ensures
        a.skipped_unmonitored == b.skipped_unmonitored + plan.skipped_unmonitored,
        a.skipped_unaired == b.skipped_unaired + plan.skipped_unaired,
        a.skipped_unreleased == b.skipped_unreleased + plan.skipped_unreleased,
        a.no_search_axis <==> b.no_search_axis || plan.no_search_axis,
        a.axis_rejections@.len() == b.axis_rejections@.len() + plan.rejected@.len(),
        a.targets == b.targets && a.searches == b.searches && a.grabbed == b.grabbed
            && a.skipped_covered == b.skipped_covered && a.no_candidate == b.no_candidate
            && a.exhausted == b.exhausted && a.paused == b.paused,
{
    assert(text::views(a.axis_rejections@).len() == a.axis_rejections@.len());
    assert(text::views(b.axis_rejections@).len() == b.axis_rejections@.len());
}

/// The sources that are set up are told in one order: TMDB, IMDb, TheTVDB.
pub proof fn what_is_set_up_is_told_in_order(built: Seq<Provider>, source: MetadataSource)
    ensures
        registry::configured_of(built).contains(source) <==> registry::is_configured(built, source),
        registry::is_configured(built, MetadataSource::Tmdb) ==> registry::configured_of(built)[0]
            == MetadataSource::Tmdb,
        registry::is_configured(built, MetadataSource::Tvdb) ==> registry::configured_of(
            built,
        ).last() == MetadataSource::Tvdb,
{
    let all = registry::configured_of(built);
    let tmdb = registry::is_configured(built, MetadataSource::Tmdb);
    let imdb = registry::is_configured(built, MetadataSource::Imdb);
    let tvdb = registry::is_configured(built, MetadataSource::Tvdb);
    let a: int = if tmdb { 1 } else { 0 };
    let b: int = if imdb { 1 } else { 0 };
    if tmdb {
        assert(all[0] == MetadataSource::Tmdb);
    }
    if imdb {
        assert(all[a] == MetadataSource::Imdb);
    }
    if tvdb {
        assert(all[a + b] == MetadataSource::Tvdb);
    }
}

/// Every episode of a tree can be placed by its own number.
pub proof fn every_episode_has_its_place(episodes: Seq<catalogue::Episode>, k: int)
    requires
        0 <= k < episodes.len(),
        forall|j: int|
            k < j < episodes.len() ==> (#[trigger] episodes[j]).season_number
                != episodes[k].season_number || episodes[j].episode_number
                != episodes[k].episode_number,
    ensures
        ({
            let tree = episode_match::tree_map(episode_match::entries_of(episodes));
            let key = (episodes[k].season_number as int, episodes[k].episode_number as int);
            tree.contains_key(key) && tree[key] == episodes[k].id
        }),
    decreases episodes.len(),
{
    let entries = episode_match::entries_of(episodes);
    let short = episodes.drop_last();
    assert(entries.drop_last() =~= episode_match::entries_of(short));
    assert(entries.last().id == episodes.last().id);
    if k < short.len() {
        assert forall|j: int| k < j < short.len() implies (#[trigger] short[j]).season_number
            != short[k].season_number || short[j].episode_number != short[k].episode_number by {
            assert(short[j] == episodes[j]);
        }
        assert(short[k] == episodes[k]);
        every_episode_has_its_place(short, k);
        assert(episodes[episodes.len() - 1] == episodes.last());
    }
}

// ---------------------------------------------------------------------
// Folders
// ---------------------------------------------------------------------

/// A video with an extension goes where its title is filed, with the same
/// extension in small letters.
pub proof fn a_plan_lands_where_its_title_is_filed(
    plan: Placement,
    folder: Seq<char>,
    stem: Seq<char>,
    extension: Seq<char>,
)
    requires
        plan.root@.len() > 0,
        plan.root@.last() != '/',
        naming::is_filed_as_it_stands(plan.title@),
        plan.title@.last() != '/',
        naming::is_usual_year(plan.year),
        plan.episode matches Some(e) ==> e.0 < 100 && e.1 < 100,
        naming::is_usual_extension(extension),
        extension.len() <= 20,
        stem.len() > 0,
        forall|i: int| 0 <= i < stem.len() ==> #[trigger] stem[i] != '/',
    ensures
        ({
            let video = host_path::join_path(folder, stem + seq!['.'] + extension, '/');
            let landed = import::planned_path(plan, video, '/');
            let dir = naming::inside(plan.root@, naming::with_year(plan.title@, plan.year), '/');
            match plan.episode {
                None => landed == naming::inside(
                    dir,
                    naming::with_year(plan.title@, plan.year) + seq!['.'] + extension,
                    '/',
                ),
                Some(e) => landed == naming::inside(
                    naming::inside(
                        dir,
                        seq!['S', 'e', 'a', 's', 'o', 'n', ' '] + naming::two_figures(e.0 as int),
                        '/',
                    ),
                    plan.title@ + naming::episode_tail(e.0 as int, e.1 as int, extension),
                    '/',
                ),
            }
        }),
{
    assert forall|i: int| 0 <= i < extension.len() implies #[trigger] extension[i] != '/'
        && extension[i] != '.' by {
        assert(48 <= extension[i] as int <= 57 || 97 <= extension[i] as int <= 122);
    }
    naming::a_video_keeps_its_extension(folder, stem, extension);
    assert(text::lowered(extension) =~= extension) by {
        assert forall|i: int| 0 <= i < extension.len() implies text::lower(extension[i])
            == extension[i] by {
            assert(48 <= extension[i] as int <= 57 || 97 <= extension[i] as int <= 122);
        }
    }
    let (season, episode) = match plan.episode {
        Some(e) => e,
        None => (1u16, 1u16),
    };
    naming::a_title_goes_where_it_is_looked_for(
        plan.root@,
        plan.title@,
        plan.year,
        season,
        episode,
        extension,
    );
}

/// The folder of every file that came in is told, each place one time.
pub proof fn every_folder_is_told_once(
    folders: Seq<String>,
    roots: Seq<String>,
    files: Seq<String>,
    separator: char,
    f: int,
    i: int,
    j: int,
)
    requires
        notify::are_folders(folders, roots, files, separator),
        0 <= f < files.len(),
        0 <= i < j < folders.len(),
    ensures
        exists|t: Seq<char>| #[trigger]
            notify::is_title_folder(t, roots, files[f]@, separator) && notify::lists_place(
                folders,
                host_path::places(t, separator),
                separator,
            ),
        host_path::places(folders[i]@, separator) != host_path::places(folders[j]@, separator),
        exists|g: int|
            0 <= g < files.len() && notify::is_title_folder(
                folders[i]@,
                roots,
                (#[trigger] files[g])@,
                separator,
            ),
{
    assert(notify::lists_folder_of(folders, roots, files[f]@, separator));
    assert(notify::is_folder_of_some(folders[i]@, roots, files, separator));
    assert(host_path::parts_less(
        notify::place(folders[i], separator),
        notify::place(folders[j], separator),
    ));
    if host_path::places(folders[i]@, separator) == host_path::places(folders[j]@, separator) {
        lemma_never_before_itself(notify::place(folders[i], separator));
    }
}

proof fn lemma_never_before_itself(p: Seq<Seq<char>>)
    ensures
        !host_path::parts_less(p, p),
    decreases p.len(),
{
    if p.len() > 0 {
        lemma_never_before_itself(p.drop_first());
    }
}

/// A file under no root is told by the folder it lies in.
pub proof fn a_file_under_no_root_is_told_by_its_folder(
    folder: Seq<char>,
    roots: Seq<String>,
    file: Seq<char>,
    separator: char,
)
    requires
        notify::is_title_folder(folder, roots, file, separator),
    ensures
        (forall|k: int|
            0 <= k < roots.len() ==> !host_path::under(file, (#[trigger] roots[k])@, separator))
            ==> host_path::is_parent(folder, file, separator),
        forall|k: int|
            #[trigger] notify::is_deepest(roots, file, separator, k) ==> folder
                == notify::folder_under(roots[k]@, file, separator),
{
    reveal(notify::is_title_folder);
    assert forall|k: int| #[trigger] notify::is_deepest(roots, file, separator, k) implies folder
        == notify::folder_under(roots[k]@, file, separator) by {
        assert(host_path::under(file, roots[k]@, separator));
        assert(!notify::under_no_root(roots, file, separator));
        let d = choose|d: int|
            #[trigger] notify::is_deepest(roots, file, separator, d) && folder
                == notify::folder_under(roots[d]@, file, separator);
        if d < k {
            assert(host_path::under(file, roots[d]@, separator));
        }
        if k < d {
            assert(host_path::under(file, roots[d]@, separator));
        }
        assert(d == k);
    }
}

// ---------------------------------------------------------------------
// Providers and peers
// ---------------------------------------------------------------------

/// A provider is told of by what is stored of it, and never by its token.
pub proof fn a_provider_is_told_without_its_token(r: ProviderSummary, row: ProviderRow)
    requires
        grpc::is_provider_summary(r, row),
    ensures
        r.id@ == outside::hyphenated(row.id),
        r.name@ == row.name@ && r.base_url@ == row.base_url@ && r.kind@ == row.kind@,
        r.created_at_unix == row.created_at,
{
}

/// A client that was put away is found again under its provider while the
/// configuration it was built from stands, and other providers' stay as they
/// were.
pub proof fn a_kept_client_is_found_again<P>(
    held: Map<u128, Entry<P>>,
    id: u128,
    fingerprint: u64,
    provider: P,
    same: Option<&P>,
    changed: Option<&P>,
    another: Option<&P>,
    before: Option<&P>,
    print: u64,
    other: u128,
)
    requires
        print != fingerprint,
        other != id,
        provider_cache::is_hit(
            same,
            provider_cache::with_client(held, id, fingerprint, provider),
            id,
            fingerprint,
        ),
        provider_cache::is_hit(
            changed,
            provider_cache::with_client(held, id, fingerprint, provider),
            id,
            print,
        ),
        provider_cache::is_hit(
            another,
            provider_cache::with_client(held, id, fingerprint, provider),
            other,
            print,
        ),
        provider_cache::is_hit(before, held, other, print),
    ensures
        same matches Some(p) && *p == provider,
        changed is None,
        another is Some <==> before is Some,
        another matches Some(p) ==> (before matches Some(q) && *p == *q),
{
}

/// A list of peers that cannot be read is told by its setting; where both can
/// be, each is kept as it was read.
pub proof fn an_unreadable_list_is_told_by_its_setting<P>(
    r: Result<BypassConfig<P>, BypassError>,
    peers: Option<Result<P, String>>,
    proxies: Option<Result<P, String>>,
)
    requires
        runtime::is_bypass(r, peers, proxies),
    ensures
        r is Err <==> (peers matches Some(p) && p is Err) || (proxies matches Some(p) && p is Err),
        r matches Ok(c) ==> (peers is None <==> c.peers is None) && (proxies is None <==> c.proxies
            is None),
        r matches Ok(c) ==> (peers matches Some(Ok(p)) ==> c.peers == Some(p)),
        r matches Ok(c) ==> (proxies matches Some(Ok(p)) ==> c.proxies == Some(p)),
        r matches Err(e) ==> (peers matches Some(Err(why)) ==> e.cause == why && e.context@
            == "BRARR_BYPASS_AUTH_FROM / settings:bypass_auth_from"@),
        r matches Err(e) ==> (!(peers matches Some(p) && p is Err) ==> (
        proxies matches Some(Err(why)) && e.cause == why && e.context@
            == "BRARR_TRUSTED_PROXIES / settings:trusted_proxies"@)),
{
}

/// The first bytes are shown as text, twenty-four at most.
pub proof fn the_start_is_shown(r: String, bytes: Seq<u8>)
    requires
        deliver::is_preview(r, bytes),
    ensures
        bytes.len() <= 24 ==> r@ == deliver::lossy_text(bytes),
        bytes.len() > 24 ==> r@ == deliver::lossy_text(bytes.take(24)),
{
    if bytes.len() <= 24 {
        assert(bytes.take(bytes.len() as int) =~= bytes);
    }
}

/// A paused sweep counts nothing.
pub proof fn a_pause_counts_nothing(r: ScanSummary)
    requires
        scan::is_pause(r),
    ensures
        r.paused,
        r.targets == 0 && r.searches == 0 && r.grabbed == 0 && r.no_candidate == 0 && r.exhausted
            == 0 && r.skipped_covered == 0 && r.skipped_over_cap == 0,
        r.failures@.len() == 0 && !r.no_search_axis,
{
}

} // verus!
