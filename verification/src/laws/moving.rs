//! Moving a title to another source, and linking what lost its episode.

use vstd::prelude::*;

use crate::catalogue::{Episode, MediaType, MetadataSource};
use crate::episode_match;
use crate::flip;
use crate::flip::{
    Block, Destination, EpisodeOrder, Legacy, NumberedRow, OrderFamily, Outcome, PreviewStep,
    Recipe, RecipeSeason, StructurePlan, Verdict,
};
use crate::host_path;
use crate::marker;
use crate::metadata::axis::StoredId;
use crate::relink;
use crate::relink::{OrphanEnd, OrphanStep, Relink, RelinkReport};
use crate::text;

verus! {

// ---------------------------------------------------------------------
// Where a title goes
// ---------------------------------------------------------------------

/// A title numbered by an instance or by TheTVDB goes to TheTVDB in its own
/// order. One numbered otherwise stays with TMDB, and what was decided for it
/// is kept: the grouping by its handle, the blocks as they were declared.
pub proof fn a_numbering_is_kept(
    d: Destination,
    legacy: Legacy,
    handle: Option<Seq<char>>,
    recipe: Option<Recipe>,
)
    requires
        flip::is_verdict(Verdict::Move(Box::new(d)), legacy, handle, recipe),
    ensures
        d.source == MetadataSource::Tvdb <==> legacy == Legacy::Arr || legacy == Legacy::Tvdb,
        d.source == MetadataSource::Tmdb <==> legacy == Legacy::Tmdb || legacy == Legacy::Manual
            || legacy == Legacy::Off,
        legacy == Legacy::Tmdb ==> (d.ordering matches EpisodeOrder::Named { family, handle: h }
            && family == OrderFamily::Alternate && handle == Some(h@) && text::trim(h@).len() > 0),
        legacy == Legacy::Manual ==> (d.ordering matches EpisodeOrder::Manual { blocks } && recipe
            is Some && recipe->0.seasons@.len() > 0 && blocks@ == flip::recipe_blocks(
            recipe->0.seasons@,
        )),
        legacy == Legacy::Arr || legacy == Legacy::Tvdb || legacy == Legacy::Off ==> d.ordering
            is Default,
        d.recipe is Some <==> legacy == Legacy::Manual,
        d.pinned <==> !(legacy == Legacy::Arr || legacy == Legacy::Tvdb),
{
}

/// A title cannot be moved exactly where its grouping lost its handle or its
/// blocks lost their rows.
pub proof fn only_a_lost_numbering_is_unreadable(
    v: Verdict,
    legacy: Legacy,
    handle: Option<Seq<char>>,
    recipe: Option<Recipe>,
)
    requires
        flip::is_verdict(v, legacy, handle, recipe),
    ensures
        v is Unreadable <==> (legacy == Legacy::Tmdb && (handle is None || text::trim(
            handle->0,
        ).len() == 0)) || (legacy == Legacy::Manual && (recipe is None
            || recipe->0.seasons@.len() == 0)),
        v is Move <==> !(v is Unreadable),
{
}

/// A title that was never numbered is left alone, and no other is.
pub proof fn what_was_never_numbered_stays(
    v: Verdict,
    legacy: Option<Legacy>,
    handle: Option<&str>,
    rows: Seq<NumberedRow>,
)
    requires
        flip::is_flip(v, legacy, handle, rows),
    ensures
        v is Untouched <==> legacy is None,
{
}

/// The blocks of a recipe are its seasons' sizes, one after the other.
pub proof fn blocks_follow_their_seasons(seasons: Seq<RecipeSeason>, last: RecipeSeason)
    ensures
        ({
            let before = flip::recipe_blocks(seasons);
            let all = flip::recipe_blocks(seasons.push(last));
            &&& all.len() == before.len() + last.sizes@.len()
            &&& all.take(before.len() as int) == before
            &&& forall|i: int|
                0 <= i < last.sizes@.len() ==> #[trigger] all[before.len() + i] == (Block {
                    season: last.season,
                    size: last.sizes@[i],
                })
        }),
{
    assert(seasons.push(last).drop_last() =~= seasons);
    let before = flip::recipe_blocks(seasons);
    let all = flip::recipe_blocks(seasons.push(last));
    assert(all.take(before.len() as int) =~= before);
}

/// A declared block is as large as the rows that stand in it.
pub proof fn a_row_counts_in_its_own_block(
    rows: Seq<NumberedRow>,
    row: NumberedRow,
    season: i32,
    block: i32,
)
    ensures
        row.canonical_season == season && row.season == block ==> flip::block_size(
            rows.push(row),
            season,
            block,
        ) == flip::block_size(rows, season, block) + 1,
        row.canonical_season != season || row.season != block ==> flip::block_size(
            rows.push(row),
            season,
            block,
        ) == flip::block_size(rows, season, block),
        flip::block_size(Seq::empty(), season, block) == 0,
{
    assert(rows.push(row).drop_last() =~= rows);
}

/// Every season a row stands in is in the recipe, in order, and no other.
pub proof fn a_recipe_holds_every_season(
    seasons: Seq<RecipeSeason>,
    rows: Seq<NumberedRow>,
    r: int,
    i: int,
)
    requires
        flip::is_recipe(seasons, rows),
        0 <= r < rows.len(),
        0 <= i < seasons.len(),
    ensures
        exists|s: int| 0 <= s < seasons.len() && (#[trigger] seasons[s]).season
            == rows[r].canonical_season,
        exists|q: int| 0 <= q < rows.len() && (#[trigger] rows[q]).canonical_season
            == seasons[i].season,
        forall|j: int| i < j < seasons.len() ==> seasons[i].season < (#[trigger] seasons[j]).season,
{
    let keys = flip::season_numbers(seasons);
    assert(flip::key_of(rows[r], None) == Some(rows[r].canonical_season));
    assert(flip::occurs(rows, None, rows[r].canonical_season));
    assert(keys.contains(rows[r].canonical_season));
    let s = choose|s: int| 0 <= s < keys.len() && keys[s] == rows[r].canonical_season;
    assert(seasons[s].season == rows[r].canonical_season);
    assert(keys[i] == seasons[i].season);
    assert(keys.contains(seasons[i].season));
    assert(flip::occurs(rows, None, seasons[i].season));
    let q = choose|q: int|
        0 <= q < rows.len() && flip::key_of(#[trigger] rows[q], None) == Some(seasons[i].season);
    assert(rows[q].canonical_season == seasons[i].season);
    assert forall|j: int| i < j < seasons.len() implies seasons[i].season < (
    #[trigger] seasons[j]).season by {
        assert(keys[i] < keys[j]);
    }
}

/// Each row is counted in a size of its season's.
pub proof fn a_season_lists_the_size_of_each_block(
    sizes: Seq<u32>,
    rows: Seq<NumberedRow>,
    season: i32,
    r: int,
)
    requires
        flip::are_sizes(sizes, rows, season),
        0 <= r < rows.len(),
        rows[r].canonical_season == season,
    ensures
        exists|k: int|
            0 <= k < sizes.len() && #[trigger] sizes[k] == flip::block_size(
                rows,
                season,
                rows[r].season,
            ),
{
    let blocks = choose|blocks: Seq<i32>|
        {
            &&& #[trigger] flip::lists_keys(blocks, rows, Some(season))
            &&& sizes.len() == blocks.len()
            &&& forall|i: int|
                0 <= i < sizes.len() ==> (#[trigger] sizes[i]) == flip::block_size(
                    rows,
                    season,
                    blocks[i],
                )
        };
    assert(flip::key_of(rows[r], Some(season)) == Some(rows[r].season));
    assert(flip::occurs(rows, Some(season), rows[r].season));
    assert(blocks.contains(rows[r].season));
    let k = choose|k: int| 0 <= k < blocks.len() && blocks[k] == rows[r].season;
    assert(sizes[k] == flip::block_size(rows, season, blocks[k]));
}

/// A plan is accepted where it leaves no row behind and does not move rows on
/// thin evidence.
pub proof fn nothing_is_left_behind(plan: StructurePlan)
    ensures
        flip::would_be_accepted(plan) ==> plan.orphans == 0,
        plan.moves_anything && plan.air_dates_are_thin ==> !flip::would_be_accepted(plan),
        plan.orphans == 0 && !plan.moves_anything ==> flip::would_be_accepted(plan),
        plan.orphans == 0 && !plan.air_dates_are_thin ==> flip::would_be_accepted(plan),
{
}

/// A film is left alone. A series that can be moved is asked for by the id of
/// the source it goes to, and blocked where it has none.
pub proof fn a_move_needs_an_id(
    r: PreviewStep,
    media: MediaType,
    verdict: Verdict,
    ids: Seq<StoredId>,
)
    requires
        flip::is_preview(r, media, verdict, ids),
    ensures
        media == MediaType::Movie ==> r == PreviewStep::Done(Outcome::Untouched),
        r matches PreviewStep::Ask(to, k) ==> media == MediaType::Tv && verdict == Verdict::Move(to)
            && k < ids.len() && ids[k as int].id.source == to.source,
        media == MediaType::Tv ==> (verdict matches Verdict::Move(d) ==> (r is Ask <==> exists|k: int|
            0 <= k < ids.len() && (#[trigger] ids[k]).id.source == d.source)),
        media == MediaType::Tv && verdict is Untouched ==> r == PreviewStep::Done(
            Outcome::Untouched,
        ),
        media == MediaType::Tv ==> (verdict matches Verdict::Unreadable(m) ==> (
        r matches PreviewStep::Done(Outcome::Blocked { destination, reason }) && destination is None
            && reason@ == m@)),
        r matches PreviewStep::Done(Outcome::Blocked { destination: Some(d), reason }) ==> verdict
            == Verdict::Move(d) && reason@ == flip::no_id_text(d.source),
{
}

/// A preview is ready exactly where a plan came back.
pub proof fn a_preview_is_ready_with_its_plan(
    r: Outcome,
    destination: Box<Destination>,
    answer: Result<StructurePlan, String>,
)
    requires
        flip::is_preview_end(r, destination, answer),
    ensures
        r is Ready <==> answer is Ok,
        r is Blocked <==> answer is Err,
        r matches Outcome::Ready(ready) ==> answer == Ok::<StructurePlan, String>(ready.plan)
            && ready.destination == *destination,
        r matches Outcome::Blocked { destination: d, reason } ==> (answer matches Err(why)
            && why@ == reason@ && d is Some && *d->0 == *destination),
{
}

// ---------------------------------------------------------------------
// Linking what lost its episode
// ---------------------------------------------------------------------

/// A file is linked to the row of the one episode its name names, and to no
/// row where the tree holds none.
pub proof fn a_file_finds_its_episode(
    path: Seq<char>,
    name: Seq<char>,
    tree: Seq<Episode>,
    separator: char,
    season: u16,
    number: u16,
    k: int,
)
    requires
        host_path::file_name(path, separator) == Some(name),
        relink::named_episode(name) == Some((season, number)),
        0 <= k < tree.len(),
        forall|j: int|
            0 <= j < tree.len() && j != k ==> (#[trigger] tree[j]).season_number != season
                || tree[j].episode_number != number,
    ensures
        tree[k].season_number == season && tree[k].episode_number == number
            ==> relink::step_of(Some(path), tree, separator) == OrphanStep::Link(tree[k].id),
        !(tree[k].season_number == season && tree[k].episode_number == number)
            ==> relink::step_of(Some(path), tree, separator) == OrphanStep::UnknownEpisode,
{
    lemma_row(tree, season as int, number as int, k);
}

proof fn lemma_row(tree: Seq<Episode>, season: int, number: int, k: int)
    requires
        0 <= k < tree.len(),
        forall|j: int|
            0 <= j < tree.len() && j != k ==> (#[trigger] tree[j]).season_number != season
                || tree[j].episode_number != number,
    ensures
        relink::episode_row(tree, season, number) == if tree[k].season_number == season
            && tree[k].episode_number == number {
            Some(tree[k].id)
        } else {
            None
        },
    decreases tree.len(),
{
    let short = tree.drop_last();
    assert(forall|j: int| 0 <= j < short.len() ==> #[trigger] short[j] == tree[j]);
    if k < short.len() {
        assert(tree.last() == tree[tree.len() - 1]);
        lemma_row(short, season, number, k);
    } else {
        lemma_no_row(short, season, number);
    }
}

proof fn lemma_no_row(tree: Seq<Episode>, season: int, number: int)
    requires
        forall|j: int|
            0 <= j < tree.len() ==> (#[trigger] tree[j]).season_number != season
                || tree[j].episode_number != number,
    ensures
        relink::episode_row(tree, season, number) is None,
    decreases tree.len(),
{
    if tree.len() > 0 {
        let short = tree.drop_last();
        assert(forall|j: int| 0 <= j < short.len() ==> #[trigger] short[j] == tree[j]);
        assert(tree.last() == tree[tree.len() - 1]);
        lemma_no_row(short, season, number);
    }
}

/// A row without a path needs nothing, and a file whose name names no episode
/// is not linked.
pub proof fn an_unnamed_file_is_not_linked(
    path: Seq<char>,
    tree: Seq<Episode>,
    separator: char,
)
    ensures
        relink::step_of(None, tree, separator) == OrphanStep::Nothing,
        host_path::file_name(path, separator) is None ==> relink::step_of(
            Some(path),
            tree,
            separator,
        ) == OrphanStep::NoMarker,
        (forall|season: u16, episode: u16| !#[trigger]
            marker::names_episode(
                host_path::file_name(path, separator)->0,
                season,
                episode,
            )) ==> relink::step_of(Some(path), tree, separator) == OrphanStep::NoMarker,
{
    if let Some(name) = host_path::file_name(path, separator) {
        let found = marker::markers(name);
        if found.len() > 0 {
            assert(marker::names_episode(name, found[0].season, found[0].episode));
        }
    }
}

/// What came of a row is what was found of it, or what linking it answered.
pub proof fn a_link_ends_as_it_was_answered(step: OrphanStep, answer: Relink)
    ensures
        step is Link ==> (relink::ended(step, Some(answer)) == OrphanEnd::Linked <==> answer
            == Relink::Linked),
        step is Link ==> (relink::ended(step, Some(answer)) == OrphanEnd::Occupied <==> answer
            == Relink::Occupied),
        step is Link ==> (relink::ended(step, Some(answer)) == OrphanEnd::AlreadyLinked <==> answer
            == Relink::AlreadyLinked),
        step == OrphanStep::Nothing <==> relink::ended(step, Some(answer)) == OrphanEnd::Nothing,
        step == OrphanStep::NoMarker <==> relink::ended(step, Some(answer)) == OrphanEnd::NoMarker,
        step == OrphanStep::UnknownEpisode <==> relink::ended(step, Some(answer))
            == OrphanEnd::UnknownEpisode,
{
}

/// Each row adds one to what was examined, and one to what came of it.
pub proof fn a_report_counts_each_row(
    before: RelinkReport,
    after: RelinkReport,
    ends: Seq<OrphanEnd>,
    end: OrphanEnd,
)
    requires
        relink::is_report(before, ends),
        relink::is_report(after, ends.push(end)),
    ensures
        after.examined == before.examined + 1,
        after.linked - before.linked == if end == OrphanEnd::Linked { 1int } else { 0int },
        after.no_marker - before.no_marker == if end == OrphanEnd::NoMarker { 1int } else { 0int },
        after.unknown_episode - before.unknown_episode == if end == OrphanEnd::UnknownEpisode {
            1int
        } else {
            0int
        },
        after.occupied - before.occupied == if end == OrphanEnd::Occupied { 1int } else { 0int },
{
    assert(ends.push(end).drop_last() =~= ends);
}

// ---------------------------------------------------------------------
// Placing by absolute number
// ---------------------------------------------------------------------

/// In a tree of one season beside its specials, an episode that is not there
/// under its own number is the one its absolute number names.
pub proof fn one_season_is_counted_through(
    tree: Map<(int, int), u128>,
    flat: int,
    season: int,
    episode: int,
    absolute: i32,
)
    requires
        flat > 0,
        tree.contains_key((flat, absolute as int)),
        forall|s: int, e: int| #[trigger] tree.contains_key((s, e)) ==> s == flat || s <= 0,
        !tree.contains_key((season, episode)),
    ensures
        episode_match::placed(tree, season, episode, Some(absolute)) == Some(
            tree[(flat, absolute as int)],
        ),
        episode_match::placed(tree, season, episode, None) is None,
{
    assert(episode_match::is_flat(tree, flat));
    let other = choose|other: int|
        #[trigger] episode_match::is_flat(tree, other) && tree.contains_key(
            (other, absolute as int),
        );
    assert(other == flat);
}

/// A number that is not in the tree places nothing.
pub proof fn an_unknown_number_places_nothing(
    tree: Map<(int, int), u128>,
    season: int,
    episode: int,
    absolute: i32,
)
    requires
        !tree.contains_key((season, episode)),
        forall|s: int| s > 0 ==> !#[trigger] tree.contains_key((s, absolute as int)),
    ensures
        episode_match::placed(tree, season, episode, Some(absolute)) is None,
{
}

/// Of two entries for one place the later one stands.
pub proof fn the_later_entry_stands(
    entries: Seq<episode_match::TreeEntry>,
    entry: episode_match::TreeEntry,
    key: (int, int),
)
    ensures
        ({
            let before = episode_match::tree_map(entries);
            let after = episode_match::tree_map(entries.push(entry));
            &&& after.contains_key((entry.season as int, entry.episode as int))
            &&& after[(entry.season as int, entry.episode as int)] == entry.id
            &&& key != (entry.season as int, entry.episode as int) ==> after.contains_key(key)
                == before.contains_key(key) && (before.contains_key(key) ==> after[key]
                == before[key])
        }),
{
    assert(entries.push(entry).drop_last() =~= entries);
}

} // verus!
