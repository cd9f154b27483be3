//! What is known of a title, where it comes from, and who is told.

use vstd::prelude::*;

use crate::catalogue;
use crate::catalogue::{DecisionRow, ExternalId, MediaType, MetadataSource, SourceKind};
use crate::db::settings;
use crate::db::settings::SettingRow;
use crate::error;
use crate::error::{AppError, MetadataFault, RpcCode};
use crate::folder_names;
use crate::folder_names::{FolderNameSummary, NameAnswer, SeriesName};
use crate::host_path;
use crate::laws::spelling;
use crate::maintenance;
use crate::maintenance::{CycleStep, MaintenanceOutcome};
use crate::metadata::art;
use crate::metadata::art::ImageSize;
use crate::metadata::axis;
use crate::metadata::axis::{AxisRejection, SearchAxis, StoredId};
use crate::metadata::owned;
use crate::metadata::owned::{Birth, Candidate, TreePlan, TreeReply};
use crate::metadata::registry;
use crate::metadata::registry::{
    Capabilities, CredentialField, MediaSupport, Provider, TmdbConfig, TvdbConfig,
};
use crate::notify;
use crate::notify::{PendingPlexLogin, ServerEnd, ServerWrite};
use crate::text;

verus! {

// ---------------------------------------------------------------------
// Ids
// ---------------------------------------------------------------------

/// An id is the text without the white space around it, and none where that
/// leaves nothing.
pub proof fn an_id_is_never_blank(
    r: Option<ExternalId>,
    source: MetadataSource,
    raw: &str,
    before: Seq<char>,
    value: Seq<char>,
    behind: Seq<char>,
)
    requires
        catalogue::is_new_id(r, source, raw),
        raw@ == before + value + behind,
        spelling::is_spaces(before),
        spelling::is_spaces(behind),
        value.len() > 0 ==> !spelling::is_space(value[0]) && !spelling::is_space(value.last()),
    ensures
        value.len() == 0 ==> r is None,
        value.len() > 0 ==> (r matches Some(id) && id.source == source && id.value@ == value),
{
    spelling::trimming_takes_the_space_around(before, value, behind);
}

/// IMDb only names titles; the others can be asked.
pub proof fn only_imdb_cannot_be_asked(
    kind: SourceKind,
    asked: bool,
    source: MetadataSource,
)
    requires
        catalogue::is_source_kind(kind, source),
        registry::is_asked(asked, source),
    ensures
        kind == SourceKind::Namespace <==> source == MetadataSource::Imdb,
        kind == SourceKind::Provider <==> asked,
        asked <==> source == MetadataSource::Tmdb || source == MetadataSource::Tvdb,
        registry::offers(source) is Some <==> asked,
{
}

/// An id is worth the number it spells; on IMDb it may have a `tt` in front,
/// elsewhere not.
pub proof fn an_id_is_worth_its_number(source: MetadataSource, figures: Seq<char>)
    requires
        figures.len() > 0,
        forall|i: int| 0 <= i < figures.len() ==> 48 <= #[trigger] figures[i] as int <= 57,
    ensures
        text::number(figures) <= u32::MAX ==> catalogue::id_number(source, figures) == Some(
            text::number(figures),
        ),
        text::number(figures) > u32::MAX ==> catalogue::id_number(source, figures) is None,
        source == MetadataSource::Imdb ==> catalogue::id_number(source, seq!['t', 't'] + figures)
            == catalogue::id_number(source, figures),
        source != MetadataSource::Imdb ==> catalogue::id_number(source, seq!['t', 't'] + figures)
            is None,
{
    let marked = seq!['t', 't'] + figures;
    assert(marked.skip(2) =~= figures);
    assert(figures[0] != 't');
    assert(!text::is_digit(marked[0]));
    assert(text::all_digits(figures));
}

/// A release counts by the score a profile gave it, and by its own where the
/// profile gave none.
pub proof fn a_profile_scores_for_itself(row: DecisionRow, profile: u128)
    ensures
        row.profile_scores@.contains_key(profile) ==> catalogue::score_under(row, profile)
            == row.profile_scores@[profile],
        !row.profile_scores@.contains_key(profile) ==> catalogue::score_under(row, profile)
            == row.score,
{
}

// ---------------------------------------------------------------------
// What a title is searched by
// ---------------------------------------------------------------------

/// Whether an id is of use to search by: a number, and not zero.
pub open spec fn is_useful(id: ExternalId) -> bool {
    catalogue::id_number(id.source, id.value@) matches Some(n) && n > 0
}

/// A title is searched by the last useful id of each source. A film is not
/// searched by TheTVDB's.
pub proof fn the_last_useful_id_is_searched_by(
    ids: Seq<StoredId>,
    id: StoredId,
    media: MediaType,
    source: MetadataSource,
)
    ensures
        ({
            let before = axis::axis_of(ids, media, source);
            let after = axis::axis_of(ids.push(id), media, source);
            &&& id.id.source != source ==> after == before
            &&& !is_useful(id.id) ==> after == before
            &&& id.id.source == source && is_useful(id.id) && !(source == MetadataSource::Tvdb
                && media == MediaType::Movie) ==> after == catalogue::id_number(
                source,
                id.id.value@,
            )
            &&& source == MetadataSource::Tvdb && media == MediaType::Movie ==> after == before
            &&& axis::axis_of(Seq::empty(), media, source) is None
        }),
{
    assert(ids.push(id).drop_last() =~= ids);
}

/// An id is refused where it is of no use, except a film's TVDB id, which is
/// passed over.
pub proof fn a_useless_id_is_told_of(ids: Seq<StoredId>, id: StoredId, media: MediaType)
    ensures
        ({
            let before = axis::refused(ids, media);
            let after = axis::refused(ids.push(id), media);
            &&& is_useful(id.id) ==> after == before
            &&& id.id.source == MetadataSource::Tvdb && media == MediaType::Movie ==> after
                == before
            &&& !is_useful(id.id) && !(id.id.source == MetadataSource::Tvdb && media
                == MediaType::Movie) ==> after == before.push(id.id)
        }),
{
    assert(ids.push(id).drop_last() =~= ids);
}

/// Each source's number goes to its own place, and each refused id is told
/// by its source and value.
pub proof fn each_number_keeps_its_source(
    r: (SearchAxis, Vec<AxisRejection>),
    ids: Seq<StoredId>,
    media: MediaType,
)
    requires
        axis::is_resolved(r, ids, media),
    ensures
        axis::axis_of(ids, media, MetadataSource::Tmdb) matches Some(n) ==> (r.0.tmdb matches Some(
            k,
        ) && k == n),
        axis::axis_of(ids, media, MetadataSource::Imdb) matches Some(n) ==> (r.0.imdb matches Some(
            k,
        ) && k == n),
        axis::axis_of(ids, media, MetadataSource::Tvdb) matches Some(n) ==> (r.0.tvdb matches Some(
            k,
        ) && k == n),
        axis::axis_of(ids, media, MetadataSource::Tmdb) is None ==> r.0.tmdb is None,
        axis::axis_of(ids, media, MetadataSource::Imdb) is None ==> r.0.imdb is None,
        axis::axis_of(ids, media, MetadataSource::Tvdb) is None ==> r.0.tvdb is None,
        r.1@.len() == axis::refused(ids, media).len(),
        forall|i: int|
            0 <= i < r.1@.len() ==> (#[trigger] r.1@[i]).source == axis::refused(ids, media)[i].source
                && r.1@[i].value@ == axis::refused(ids, media)[i].value@,
{
}

/// There is nothing to search by where no source gave a number; an episode is
/// searched for by TheTVDB's.
pub proof fn an_episode_needs_its_tvdb_number(bare: bool, episodes: bool, a: SearchAxis)
    requires
        axis::is_bare(bare, a),
        axis::is_fit_for_episodes(episodes, a),
    ensures
        bare <==> a.tmdb is None && a.imdb is None && a.tvdb is None,
        episodes <==> a.tvdb is Some,
        episodes ==> !bare,
{
}

// ---------------------------------------------------------------------
// Sources
// ---------------------------------------------------------------------

/// TMDB knows films and series, TheTVDB series; both build the structure of
/// series and neither that of films.
pub proof fn films_have_no_structure(source: MetadataSource, c: Capabilities)
    requires
        registry::offers(source) == Some(c),
    ensures
        registry::supports(c.structure, MediaType::Tv),
        !registry::supports(c.structure, MediaType::Movie),
        registry::supports(c.identity, MediaType::Tv),
        registry::supports(c.identity, MediaType::Movie) <==> source == MetadataSource::Tmdb,
{
}

/// What covers both covers each, and what covers neither covers none.
pub proof fn support_is_what_it_says(s: MediaSupport, sound: bool, c: Capabilities)
    requires
        registry::is_sound(sound, c),
    ensures
        registry::supports(s, MediaType::Movie) <==> s == MediaSupport::Movies || s
            == MediaSupport::Both,
        registry::supports(s, MediaType::Tv) <==> s == MediaSupport::Series || s
            == MediaSupport::Both,
        sound <==> c.structure == MediaSupport::Neither || c.structure == MediaSupport::Series,
{
}

/// A provider is offered for a kind exactly where it supports it, in the
/// order the providers were built in.
pub proof fn a_provider_is_offered_for_what_it_supports(
    built: Seq<Provider>,
    p: Provider,
    media: MediaType,
)
    ensures
        ({
            let before = registry::offering(built, media, true);
            let after = registry::offering(built.push(p), media, true);
            if registry::supports(p.capabilities.structure, media) {
                after == before.push(p)
            } else {
                after == before
            }
        }),
        ({
            let before = registry::offering(built, media, false);
            let after = registry::offering(built.push(p), media, false);
            if registry::supports(p.capabilities.identity, media) {
                after == before.push(p)
            } else {
                after == before
            }
        }),
{
    assert(built.push(p).drop_last() =~= built);
}

/// TMDB is set up by its token and TheTVDB by its key, each read from its own
/// setting without the white space around it.
pub proof fn a_source_is_set_up_by_its_own_settings(
    tmdb: Option<TmdbConfig>,
    tvdb: Option<TvdbConfig>,
    stored: Seq<SettingRow>,
)
    requires
        registry::is_tmdb_config(tmdb, stored),
        registry::is_tvdb_config(tvdb, stored),
    ensures
        tmdb is Some <==> (settings::stored_value(stored, "tmdb_token"@) matches Some(v)
            && text::trim(v).len() > 0),
        tvdb is Some <==> (settings::stored_value(stored, "tvdb_api_key"@) matches Some(v)
            && text::trim(v).len() > 0),
        tmdb matches Some(c) ==> c.token@ == text::trim(
            settings::stored_value(stored, "tmdb_token"@)->0,
        ),
        tvdb matches Some(c) ==> c.api_key@ == text::trim(
            settings::stored_value(stored, "tvdb_api_key"@)->0,
        ),
        tmdb matches Some(c) ==> (settings::stored_value(stored, "tmdb_language"@) is None
            ==> c.language is None) && (settings::stored_value(stored, "tmdb_country"@) is None
            ==> c.country is None),
        tmdb matches Some(c) ==> (c.language matches Some(l) ==> settings::stored_value(
            stored,
            "tmdb_language"@,
        ) is Some && l@ == text::trim(settings::stored_value(stored, "tmdb_language"@)->0)),
        tmdb matches Some(c) ==> (c.country matches Some(l) ==> settings::stored_value(
            stored,
            "tmdb_country"@,
        ) is Some && l@ == text::trim(settings::stored_value(stored, "tmdb_country"@)->0)),
        tvdb matches Some(c) ==> (c.pin matches Some(p) ==> settings::stored_value(
            stored,
            "tvdb_pin"@,
        ) is Some && p@ == text::trim(settings::stored_value(stored, "tvdb_pin"@)->0)),
{
}

/// TMDB is configured by one field and TheTVDB by two.
pub proof fn each_source_names_its_fields(
    tmdb: Seq<CredentialField>,
    tvdb: Seq<CredentialField>,
    imdb: Seq<CredentialField>,
)
    requires
        registry::are_credentials(tmdb, MetadataSource::Tmdb),
        registry::are_credentials(tvdb, MetadataSource::Tvdb),
        registry::are_credentials(imdb, MetadataSource::Imdb),
    ensures
        tmdb.len() == 1 && tmdb[0].key@ == "tmdb_token"@,
        tvdb.len() == 2 && tvdb[0].key@ == "tvdb_api_key"@ && tvdb[1].key@ == "tvdb_pin"@,
        imdb.len() == 0,
{
}

/// With both sources built and an id of each, TheTVDB is asked before TMDB;
/// with one of them, that one; with neither, none.
pub proof fn thetvdb_is_asked_before_tmdb(
    tmdb_built: bool,
    tvdb_built: bool,
    ids: Seq<StoredId>,
)
    ensures
        ({
            let all = owned::candidates_of(registry::built_of(tmdb_built, tvdb_built), ids);
            let by_tvdb = tvdb_built && owned::id_of(ids, MetadataSource::Tvdb) is Some;
            let by_tmdb = tmdb_built && owned::id_of(ids, MetadataSource::Tmdb) is Some;
            &&& all.len() == (if by_tvdb { 1int } else { 0int }) + (if by_tmdb { 1int } else {
                0int
            })
            &&& by_tvdb ==> all[0].source == MetadataSource::Tvdb && Some(all[0].id)
                == owned::id_of(ids, MetadataSource::Tvdb)
            &&& by_tmdb ==> all.last().source == MetadataSource::Tmdb && Some(all.last().id)
                == owned::id_of(ids, MetadataSource::Tmdb)
        }),
{
    let built = registry::built_of(tmdb_built, tvdb_built);
    let able = registry::offering(built, MediaType::Tv, true);
    let tmdb = registry::provider_of(MetadataSource::Tmdb);
    let tvdb = registry::provider_of(MetadataSource::Tvdb);
    reveal_with_fuel(registry::offering, 3);
    reveal_with_fuel(owned::ranked, 3);
    if tmdb_built && tvdb_built {
        assert(built =~= seq![tmdb, tvdb]);
        assert(built.drop_last() =~= seq![tmdb]);
        assert(built.drop_last().drop_last() =~= Seq::<Provider>::empty());
        assert(able =~= seq![tmdb, tvdb]);
        assert(able.drop_last() =~= seq![tmdb]);
        assert(able.drop_last().drop_last() =~= Seq::<Provider>::empty());
    } else if tmdb_built {
        assert(built =~= seq![tmdb]);
        assert(built.drop_last() =~= Seq::<Provider>::empty());
        assert(able =~= seq![tmdb]);
        assert(able.drop_last() =~= Seq::<Provider>::empty());
    } else if tvdb_built {
        assert(built =~= seq![tvdb]);
        assert(built.drop_last() =~= Seq::<Provider>::empty());
        assert(able =~= seq![tvdb]);
        assert(able.drop_last() =~= Seq::<Provider>::empty());
    } else {
        assert(built =~= Seq::<Provider>::empty());
        assert(able =~= Seq::<Provider>::empty());
    }
}

/// The id a source is asked by is the first of that source.
pub proof fn the_first_id_of_a_source_counts(
    ids: Seq<StoredId>,
    id: StoredId,
    source: MetadataSource,
)
    requires
        ids.len() < usize::MAX,
    ensures
        owned::id_of(ids, source) is Some ==> owned::id_of(ids.push(id), source) == owned::id_of(
            ids,
            source,
        ),
        owned::id_of(ids, source) is None && id.id.source == source ==> owned::id_of(
            ids.push(id),
            source,
        ) == Some(ids.len() as usize),
        owned::id_of(ids, source) is None && id.id.source != source ==> owned::id_of(
            ids.push(id),
            source,
        ) is None,
        owned::id_of(Seq::empty(), source) is None,
{
    assert(ids.push(id).drop_last() =~= ids);
}

/// A title is owned by the first source that built its tree; only a source
/// that does not know it lets the next be asked.
pub proof fn the_first_tree_owns(
    r: Birth,
    candidates: Seq<Candidate>,
    replies: Seq<TreeReply>,
    k: int,
)
    requires
        owned::is_birth(r, candidates, replies),
        replies.len() <= candidates.len(),
        0 <= k < replies.len(),
        forall|j: int|
            0 <= j < k ==> (#[trigger] replies[j] matches TreeReply::Refused(fault, _) && fault
                == MetadataFault::NotFound),
    ensures
        replies[k] is Tree ==> (r matches Birth::Owned(o) && o == k),
        replies[k] matches TreeReply::Refused(fault, why) ==> (fault != MetadataFault::NotFound
            ==> (r matches Birth::Failed(AppError::Metadata(f, m)) && f == fault && m@ == why@)),
{
    if !owned::is_absence(replies[k]) {
        assert(owned::settles(replies, k));
        match r {
            Birth::Ask(_) => {},
            Birth::Owned(o) => {
                assert(o as int == k) by {
                    if (o as int) < k {
                        assert(owned::is_absence(replies[o as int]));
                    }
                }
            },
            Birth::Failed(AppError::Metadata(f, m)) => {
                let i = choose|i: int|
                    #[trigger] owned::settles(replies, i) && (replies[i] matches TreeReply::Refused(
                        g,
                        t,
                    ) && g == f && t@ == m@);
                if owned::settles(replies, i) {
                    if i < k {
                        assert(owned::is_absence(replies[i]));
                    }
                    assert(i == k);
                }
            },
            _ => {},
        }
    }
}

/// While every source asked did not know the title, the next is asked, and
/// where none is left the title has no owner.
pub proof fn an_unknown_title_is_asked_on(
    r: Birth,
    candidates: Seq<Candidate>,
    replies: Seq<TreeReply>,
)
    requires
        owned::is_birth(r, candidates, replies),
        replies.len() <= candidates.len(),
        forall|j: int|
            0 <= j < replies.len() ==> (#[trigger] replies[j] matches TreeReply::Refused(fault, _)
                && fault == MetadataFault::NotFound),
    ensures
        replies.len() < candidates.len() ==> (r matches Birth::Ask(k) && k == replies.len()),
        replies.len() == candidates.len() ==> r is Failed,
        candidates.len() == 0 ==> (r matches Birth::Failed(e) && e is InvalidInput),
{
    assert forall|i: int| !#[trigger] owned::settles(replies, i) by {
        if owned::settles(replies, i) {
            assert(owned::is_absence(replies[i]));
        }
    }
}

/// A title that has an owner is read from it or not at all.
pub proof fn an_owner_is_not_replaced(
    r: TreePlan,
    owner: Option<MetadataSource>,
    built: Seq<Provider>,
    ids: Seq<StoredId>,
)
    requires
        owned::is_tree_plan(r, owner, built, ids),
    ensures
        r is Decide <==> owner is None,
        r matches TreePlan::Owner(source, k) ==> owner == Some(source) && k < ids.len()
            && ids[k as int].id.source == source,
        r matches TreePlan::Decide(all) ==> all@ == owned::candidates_of(built, ids),
{
}

/// A structure is read by an id of its source, and only where the source is
/// set up and builds the structure of series.
pub proof fn a_structure_needs_an_id_and_a_source(
    r: Result<usize, AppError>,
    built: Seq<Provider>,
    source: MetadataSource,
    ids: Seq<StoredId>,
)
    requires
        owned::is_answered_from(r, built, source, ids),
    ensures
        r matches Ok(k) ==> k < ids.len() && ids[k as int].id.source == source
            && registry::is_configured(built, source),
        (forall|j: int| 0 <= j < ids.len() ==> (#[trigger] ids[j]).id.source != source) ==> (
        r matches Err(e) && e is InvalidInput),
        (forall|j: int| 0 <= j < built.len() ==> (#[trigger] built[j]).source != source) && !(
        forall|j: int| 0 <= j < ids.len() ==> (#[trigger] ids[j]).id.source != source) ==> (
        r matches Err(AppError::Metadata(fault, _)) && fault == MetadataFault::Unauthorized),
{
    if let Ok(k) = r {
        let p = choose|p: int|
            #[trigger] registry::is_first_of(built, source, p) && registry::supports(
                built[p].capabilities.structure,
                MediaType::Tv,
            );
        assert(built[p].source == source);
    }
}

/// A source that is set up answers for a title it has an id of.
pub proof fn a_source_that_is_set_up_answers(
    r: Result<usize, AppError>,
    tmdb_built: bool,
    tvdb_built: bool,
    source: MetadataSource,
    ids: Seq<StoredId>,
    k: int,
)
    requires
        owned::is_answered_from(r, registry::built_of(tmdb_built, tvdb_built), source, ids),
        source == MetadataSource::Tmdb && tmdb_built || source == MetadataSource::Tvdb
            && tvdb_built,
        0 <= k < ids.len(),
        ids[k].id.source == source,
    ensures
        r matches Ok(at) && ids[at as int].id.source == source && at <= k,
{
    let built = registry::built_of(tmdb_built, tvdb_built);
    let p: int = if source == MetadataSource::Tvdb && tmdb_built {
        1
    } else {
        0
    };
    assert(built[p].source == source);
    assert(registry::is_first_of(built, source, p));
    assert(registry::supports(built[p].capabilities.structure, MediaType::Tv));
    assert(owned::builds_trees(built, source));
    assert(registry::is_configured(built, source));
}

// ---------------------------------------------------------------------
// Pictures
// ---------------------------------------------------------------------

/// A picture of TMDB's is addressed by its size and its path, one of
/// TheTVDB's by the address it came with, which has to be a secure one.
pub proof fn a_picture_is_addressed_by_its_source(path: Seq<char>, size: ImageSize)
    requires
        path.len() > 0,
        !text::is_white(path[0]),
        !text::is_white(path.last()),
    ensures
        art::art_url(MetadataSource::Tmdb, Some(path), ImageSize::Index) == Some(
            "https://image.tmdb.org/t/p/"@ + "w185"@ + path,
        ),
        art::art_url(MetadataSource::Tmdb, Some(path), ImageSize::Hero) == Some(
            "https://image.tmdb.org/t/p/"@ + "w342"@ + path,
        ),
        art::art_url(MetadataSource::Tmdb, Some(path), ImageSize::Backdrop) == Some(
            "https://image.tmdb.org/t/p/"@ + "w1280"@ + path,
        ),
        art::art_url(MetadataSource::Tvdb, Some(path), size) is Some <==> path.len() >= 8
            && path.take(8) == seq!['h', 't', 't', 'p', 's', ':', '/', '/'],
        art::art_url(MetadataSource::Tvdb, Some(path), size) matches Some(u) ==> u == path,
        art::art_url(MetadataSource::Imdb, Some(path), size) is None,
{
    text::lemma_trim_tight(path);
    reveal_strlit("https://");
    assert("https://"@ =~= seq!['h', 't', 't', 'p', 's', ':', '/', '/']);
    if path.len() >= 8 {
        assert(path.take(8) =~= path.subrange(0, 8));
    }
}

/// Without a path there is no picture, nor with a blank one.
pub proof fn a_blank_path_is_no_picture(source: MetadataSource, blank: Seq<char>, size: ImageSize)
    requires
        spelling::is_spaces(blank),
    ensures
        art::art_url(source, None, size) is None,
        art::art_url(source, Some(blank), size) is None,
{
    let none = Seq::<char>::empty();
    assert(blank + none + none =~= blank);
    spelling::trimming_takes_the_space_around(blank, none, none);
}

// ---------------------------------------------------------------------
// Errors
// ---------------------------------------------------------------------

/// What the caller got wrong is answered in the four hundreds, what a source
/// got wrong and everything else in the five hundreds.
pub proof fn an_error_is_answered_by_whose_it_is(e: AppError)
    ensures
        400 <= error::http_status(e) <= 599,
        e is NotFound ==> error::http_status(e) == 404,
        e is InvalidInput ==> error::http_status(e) == 400,
        e is Paused ==> error::http_status(e) == 409,
        e is Database || e is Migrate || e is Template || e is Json || e is Tracker || e is Tmdb
            || e is Io ==> error::http_status(e) == 500,
        e matches AppError::Metadata(fault, _) ==> {
            &&& fault == MetadataFault::Unauthorized ==> error::http_status(e) == 401
            &&& fault == MetadataFault::NotFound ==> error::http_status(e) == 404
            &&& fault == MetadataFault::BadId || fault == MetadataFault::UnknownOrdering
                ==> error::http_status(e) == 400
            &&& fault == MetadataFault::Unavailable || fault == MetadataFault::Unsupported || fault
                == MetadataFault::Malformed ==> error::http_status(e) == 502
        },
        error::rpc_status(e) == RpcCode::NotFound <==> e is NotFound,
        error::rpc_status(e) == RpcCode::InvalidArgument <==> e is InvalidInput,
        error::rpc_status(e) == RpcCode::FailedPrecondition <==> e is Paused,
        error::rpc_status(e) == RpcCode::Unavailable <==> e is Metadata,
        error::rpc_status(e) != RpcCode::Unauthenticated,
{
}

/// What is said of an error ends in what caused it.
pub proof fn an_error_says_its_cause(e: AppError, cause: Seq<char>)
    requires
        match e {
            AppError::Database(m) => m@ == cause,
            AppError::Migrate(m) => m@ == cause,
            AppError::Template(m) => m@ == cause,
            AppError::Json(m) => m@ == cause,
            AppError::Tracker(m) => m@ == cause,
            AppError::Tmdb(m) => m@ == cause,
            AppError::Metadata(_, m) => m@ == cause,
            AppError::InvalidInput(m) => m@ == cause,
            AppError::NotFound(m) => m@ == cause,
            AppError::Paused(m) => m@ == cause,
            AppError::Io(m) => m@ == cause,
        },
    ensures
        ({
            let said = error::error_text(e);
            &&& said.len() >= cause.len()
            &&& said.skip(said.len() - cause.len()) == cause
        }),
        e is Metadata ==> error::error_text(e) == cause,
        e is Database ==> error::error_text(e) == "database error: "@ + cause,
        e is Migrate ==> error::error_text(e) == "migration error: "@ + cause,
        e is Template ==> error::error_text(e) == "template error: "@ + cause,
        e is Json ==> error::error_text(e) == "json error: "@ + cause,
        e is Tracker ==> error::error_text(e) == "tracker error: "@ + cause,
        e is Tmdb ==> error::error_text(e) == "tmdb error: "@ + cause,
        e is InvalidInput ==> error::error_text(e) == "invalid input: "@ + cause,
        e is NotFound ==> error::error_text(e) == "not found: "@ + cause,
        e is Io ==> error::error_text(e) == "io error: "@ + cause,
{
    let said = error::error_text(e);
    assert(said.skip(said.len() - cause.len()) =~= cause);
}

// ---------------------------------------------------------------------
// Telling the media servers
// ---------------------------------------------------------------------

/// A login is over from its deadline on.
pub proof fn a_login_is_over_at_its_deadline(r: bool, p: PendingPlexLogin, now: i128)
    requires
        notify::is_over(r, p, now),
    ensures
        now < p.deadline ==> !r,
        now == p.deadline ==> r,
        now > p.deadline ==> r,
{
}

/// An identity that was stored is kept; a new one is used where none was.
pub proof fn a_stored_identity_is_kept(
    r: String,
    stored: &str,
    generated: &str,
    fresh: String,
)
    requires
        stored@.len() > 0 && !text::is_white(stored@[0]) && !text::is_white(stored@.last()),
        generated@.len() > 0 && !text::is_white(generated@[0]) && !text::is_white(
            generated@.last(),
        ),
        notify::is_identity(r, Some(stored), generated),
        notify::is_identity(fresh, None, generated),
    ensures
        r@ == stored@,
        fresh@ == generated@,
{
    text::lemma_trim_tight(stored@);
    text::lemma_trim_tight(generated@);
}

/// A server that was told is marked so, one that failed with its reason, and
/// one that sees none of the folders not at all.
pub proof fn a_server_is_marked_as_it_ended(r: ServerWrite, end: ServerEnd)
    requires
        notify::is_server_write(r, end),
    ensures
        r is MarkNotified <==> end is Told,
        r is Nothing <==> end is Unmapped,
        r matches ServerWrite::MarkError(why) ==> end == ServerEnd::Failed(why),
        end is Failed ==> r is MarkError,
{
}

/// The folder a server is told of is the one right under the root the file
/// lies in, or the root where the file lies in it bare.
pub proof fn the_folder_under_the_root_is_told(
    root: Seq<char>,
    file: Seq<char>,
    rest: Seq<Seq<char>>,
    separator: char,
)
    requires
        host_path::parts(file, separator) == host_path::parts(root, separator) + rest,
    ensures
        rest.len() >= 2 ==> notify::folder_under(root, file, separator) == host_path::join_path(
            root,
            rest[0],
            separator,
        ),
        rest.len() <= 1 ==> notify::folder_under(root, file, separator) == root,
{
    let n = host_path::parts(root, separator).len() as int;
    assert(host_path::parts(file, separator).skip(n) =~= rest);
}

/// Of the roots a file lies under, the one with the longest path is taken.
pub proof fn the_longest_root_is_taken(
    roots: Seq<String>,
    file: Seq<char>,
    separator: char,
    taken: int,
    other: int,
)
    requires
        notify::is_deepest(roots, file, separator, taken),
        0 <= other < roots.len(),
        host_path::under(file, roots[other]@, separator),
    ensures
        host_path::under(file, roots[taken]@, separator),
        notify::byte_length(roots[other]@) <= notify::byte_length(roots[taken]@),
{
}

// ---------------------------------------------------------------------
// Folder names
// ---------------------------------------------------------------------

/// A series' name is written where a translation came that is not the name it
/// has; what came blank, untranslated or not at all changes nothing.
pub proof fn a_name_is_written_where_it_changes(
    before: (Vec<(u128, String)>, FolderNameSummary),
    after: (Vec<(u128, String)>, FolderNameSummary),
    all: Seq<SeriesName>,
    s: SeriesName,
)
    requires
        folder_names::is_sweep(before, all),
        folder_names::is_sweep(after, all.push(s)),
    ensures
        after.1.considered == before.1.considered + 1,
        after.1.written == after.0@.len(),
        s.answer is Failed ==> after.1.failed == before.1.failed + 1 && after.1.untranslated
            == before.1.untranslated && after.0@.len() == before.0@.len(),
        s.answer is Untranslated ==> after.1.failed == before.1.failed && after.1.untranslated
            == before.1.untranslated + 1 && after.0@.len() == before.0@.len(),
        s.answer matches NameAnswer::Translated(None) ==> after.1.untranslated
            == before.1.untranslated + 1 && after.0@.len() == before.0@.len(),
        s.answer matches NameAnswer::Translated(Some(name)) ==> {
            let said = text::trim(name@);
            &&& after.1.failed == before.1.failed
            &&& said.len() == 0 ==> after.1.untranslated == before.1.untranslated + 1
                && after.0@.len() == before.0@.len()
            &&& said.len() > 0 ==> after.1.untranslated == before.1.untranslated
            &&& said.len() > 0 && (s.current matches Some(c) && c@ == said) ==> after.0@.len()
                == before.0@.len()
            &&& said.len() > 0 && !(s.current matches Some(c) && c@ == said) ==> after.0@.len()
                == before.0@.len() + 1 && after.0@.last().0 == s.id && after.0@.last().1@ == said
        },
{
    assert(all.push(s).drop_last() =~= all);
    let b = folder_names::write_views(before.0@);
    let a = folder_names::write_views(after.0@);
    assert(a.len() == after.0@.len());
    assert(b.len() == before.0@.len());
    if folder_names::changes(s) {
        assert(a == b.push((s.id, folder_names::english(s.answer)->0)));
        assert(a[a.len() - 1] == (after.0@.last().0, after.0@.last().1@));
    } else {
        assert(a == b);
    }
}

// ---------------------------------------------------------------------
// Maintenance
// ---------------------------------------------------------------------

/// Nothing is pruned where everything is kept, and space is reclaimed only
/// behind a pruning that deleted something.
pub proof fn space_is_reclaimed_behind_a_pruning(
    start: CycleStep,
    days: u32,
    next: CycleStep,
    outcome: Option<MaintenanceOutcome>,
    empty: bool,
    o: MaintenanceOutcome,
)
    requires
        maintenance::is_cycle_start(start, days),
        maintenance::is_after_prune(next, outcome),
        maintenance::is_nothing(empty, o),
    ensures
        days == 0 <==> start == CycleStep::Skip,
        days > 0 ==> start == CycleStep::Prune(days),
        next == CycleStep::Reclaim <==> (outcome matches Some(d) && d.decisions_deleted
            + d.searches_deleted > 0),
        next == CycleStep::Reclaim || next == CycleStep::Done,
        empty <==> o.decisions_deleted + o.searches_deleted == 0,
{
}

} // verus!
