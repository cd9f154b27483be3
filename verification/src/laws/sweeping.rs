//! Sweeping the monitored library.

use vstd::prelude::*;

use crate::catalogue::{DecisionRow, Episode, LibraryItem, MediaType, ProductionStatus, Protocol};
use crate::deliver::DeliveryOutcome;
use crate::error::AppError;
use crate::laws::polling;
use crate::laws::spelling;
use crate::marker;
use crate::metadata::axis::{SearchAxis, StoredId};
use crate::order;
use crate::order::Ranked;
use crate::scan;
use crate::scan::{
    Attempt, CyclePlan, Fate, GrabTarget, ItemScan, NewGrab, ProfileRule, ScanSummary, Scope, Scored,
    SearchResult, Standing, Sweep, Target, TargetOutcome, TargetPlan, Tier, Walk, Wanted,
};
use crate::text;

verus! {

// ---------------------------------------------------------------------
// What is looked for
// ---------------------------------------------------------------------

/// Whether an episode is searched for when nothing narrows the sweep: it is
/// monitored, it has aired, and a release could be numbered so.
pub open spec fn is_due(e: Episode, now: i128) -> bool {
    &&& e.monitored
    &&& e.air_date matches Some(d) && d <= now
    &&& 0 <= e.season_number <= 65535
    &&& 0 <= e.episode_number <= 65535
}

/// Whether a target asks for this episode, by its own coordinate.
pub open spec fn asks_for(t: Target, e: Episode, tvdb: u32) -> bool {
    &&& t.episode == Some(e)
    &&& t.keys.tvdb == Some(tvdb)
    &&& t.keys.season == Some(e.season_number as u16)
    &&& t.keys.episode == Some(e.episode_number as u16)
    &&& t.keys.tmdb is None
    &&& t.keys.imdb is None
    &&& t.episode_marker == Some((e.season_number as u16, e.episode_number as u16))
}

/// Whether a target asks for one of the episodes that are due.
pub open spec fn asks_for_one_due(
    t: Target,
    episodes: Seq<Episode>,
    tvdb: u32,
    now: i128,
) -> bool {
    exists|i: int|
        0 <= i < episodes.len() && is_due(#[trigger] episodes[i], now) && asks_for(
            t,
            episodes[i],
            tvdb,
        )
}

proof fn lemma_with_fate(episodes: Seq<Episode>, scope: Scope, now: i128, f: Fate)
    ensures
        forall|k: int|
            0 <= k < scan::with_fate(episodes, scope, now, f).len() ==> episodes.contains(
                #[trigger] scan::with_fate(episodes, scope, now, f)[k],
            ) && scan::fate(scan::with_fate(episodes, scope, now, f)[k], scope, now) == f,
        forall|i: int|
            0 <= i < episodes.len() && scan::fate(#[trigger] episodes[i], scope, now) == f
                ==> scan::with_fate(episodes, scope, now, f).contains(episodes[i]),
    decreases episodes.len(),
{
    if episodes.len() > 0 {
        let before = episodes.drop_last();
        lemma_with_fate(before, scope, now, f);
        let all = scan::with_fate(episodes, scope, now, f);
        let kept = scan::with_fate(before, scope, now, f);
        assert forall|k: int| 0 <= k < all.len() implies episodes.contains(#[trigger] all[k])
            && scan::fate(all[k], scope, now) == f by {
            if k < kept.len() {
                assert(all[k] == kept[k]);
                assert(before.contains(kept[k]));
                let i = choose|i: int| 0 <= i < before.len() && before[i] == kept[k];
                assert(episodes[i] == all[k]);
            } else {
                assert(episodes[episodes.len() - 1] == all[k]);
            }
        }
        assert forall|i: int|
            0 <= i < episodes.len() && scan::fate(#[trigger] episodes[i], scope, now)
                == f implies all.contains(episodes[i]) by {
            if i < before.len() {
                assert(before[i] == episodes[i]);
                assert(kept.contains(episodes[i]));
                let k = choose|k: int| 0 <= k < kept.len() && kept[k] == episodes[i];
                assert(all[k] == episodes[i]);
            } else {
                assert(all[all.len() - 1] == episodes[i]);
            }
        }
    }
}

/// A sweep of a whole series looks for every monitored episode that has
/// aired and for nothing else, each by its own season and number.
pub proof fn a_full_sweep_looks_for_what_is_due(
    plan: TargetPlan,
    item: LibraryItem,
    episodes: Seq<Episode>,
    tvdb: u32,
    now: i128,
)
    requires
        scan::is_episode_plan(plan, item, episodes, tvdb, now, Scope::Item),
    ensures
        forall|i: int|
            0 <= i < episodes.len() && is_due(#[trigger] episodes[i], now) ==> exists|k: int|
                0 <= k < plan.targets@.len() && asks_for(
                    #[trigger] plan.targets@[k],
                    episodes[i],
                    tvdb,
                ),
        forall|k: int|
            0 <= k < plan.targets@.len() ==> asks_for_one_due(
                #[trigger] plan.targets@[k],
                episodes,
                tvdb,
                now,
            ),
{
    let w = scan::with_fate(episodes, Scope::Item, now, Fate::Wanted);
    lemma_with_fate(episodes, Scope::Item, now, Fate::Wanted);
    assert forall|i: int| 0 <= i < episodes.len() && is_due(#[trigger] episodes[i], now) implies exists|
        k: int,
    | 0 <= k < plan.targets@.len() && asks_for(#[trigger] plan.targets@[k], episodes[i], tvdb) by {
        assert(scan::fate(episodes[i], Scope::Item, now) == Fate::Wanted);
        assert(w.contains(episodes[i]));
        let k = choose|k: int| 0 <= k < w.len() && w[k] == episodes[i];
        assert(scan::is_episode_target(plan.targets@[k], item, w[k], tvdb));
        assert(asks_for(plan.targets@[k], episodes[i], tvdb));
    }
    assert forall|k: int| 0 <= k < plan.targets@.len() implies asks_for_one_due(
        #[trigger] plan.targets@[k],
        episodes,
        tvdb,
        now,
    ) by {
        assert(scan::is_episode_target(plan.targets@[k], item, w[k], tvdb));
        assert(episodes.contains(w[k]));
        let i = choose|i: int| 0 <= i < episodes.len() && episodes[i] == w[k];
        assert(is_due(episodes[i], now) && asks_for(plan.targets@[k], episodes[i], tvdb));
    }
}

/// A narrowed sweep is the full sweep of the episodes it names: what it looks
/// for, and what it counts as paused or not aired, is what a full sweep of
/// those episodes alone would. The others are neither looked for nor counted.
pub proof fn a_narrowed_sweep_sees_only_its_slice(
    plan: TargetPlan,
    item: LibraryItem,
    episodes: Seq<Episode>,
    tvdb: u32,
    now: i128,
    season: i32,
    number: i32,
)
    ensures
        scan::is_episode_plan(plan, item, episodes, tvdb, now, Scope::Season(season))
            <==> scan::is_episode_plan(
            plan,
            item,
            episodes.filter(|e: Episode| e.season_number == season),
            tvdb,
            now,
            Scope::Item,
        ),
        scan::is_episode_plan(plan, item, episodes, tvdb, now, Scope::Episode(season, number))
            <==> scan::is_episode_plan(
            plan,
            item,
            episodes.filter(|e: Episode| e.season_number == season && e.episode_number == number),
            tvdb,
            now,
            Scope::Item,
        ),
{
    lemma_slice(episodes, now, season, number, Fate::Wanted);
    lemma_slice(episodes, now, season, number, Fate::Unmonitored);
    lemma_slice(episodes, now, season, number, Fate::Unaired);
}

proof fn lemma_slice(episodes: Seq<Episode>, now: i128, season: i32, number: i32, f: Fate)
    requires
        f == Fate::Wanted || f == Fate::Unmonitored || f == Fate::Unaired,
    ensures
        scan::with_fate(episodes, Scope::Season(season), now, f) == scan::with_fate(
            episodes.filter(|e: Episode| e.season_number == season),
            Scope::Item,
            now,
            f,
        ),
        scan::with_fate(episodes, Scope::Episode(season, number), now, f) == scan::with_fate(
            episodes.filter(|e: Episode| e.season_number == season && e.episode_number == number),
            Scope::Item,
            now,
            f,
        ),
    decreases episodes.len(),
{
    reveal(Seq::filter);
    let a = |e: Episode| e.season_number == season;
    let b = |e: Episode| e.season_number == season && e.episode_number == number;
    if episodes.len() > 0 {
        let before = episodes.drop_last();
        let last = episodes.last();
        lemma_slice(before, now, season, number, f);
        if a(last) {
            assert(episodes.filter(a) =~= before.filter(a).push(last));
            assert(before.filter(a).push(last).drop_last() =~= before.filter(a));
        } else {
            assert(episodes.filter(a) =~= before.filter(a));
        }
        if b(last) {
            assert(episodes.filter(b) =~= before.filter(b).push(last));
            assert(before.filter(b).push(last).drop_last() =~= before.filter(b));
        } else {
            assert(episodes.filter(b) =~= before.filter(b));
        }
    } else {
        assert(episodes.filter(a) =~= Seq::empty());
        assert(episodes.filter(b) =~= Seq::empty());
    }
}

/// Every target of a sweep of one season carries that season, in its keys, in
/// the marker a release has to show and in the episode it stands for, and
/// every target of a sweep of one episode that season and number.
pub proof fn a_narrowed_sweep_asks_for_what_it_was_asked(
    plan: TargetPlan,
    item: LibraryItem,
    episodes: Seq<Episode>,
    tvdb: u32,
    now: i128,
    season: i32,
    number: i32,
    k: int,
)
    requires
        0 <= k < plan.targets@.len(),
    ensures
        scan::is_episode_plan(plan, item, episodes, tvdb, now, Scope::Season(season)) ==> {
            let t = plan.targets@[k];
            &&& 0 <= season <= 65535
            &&& t.keys.season == Some(season as u16)
            &&& t.episode_marker matches Some((s, _)) && s == season
            &&& t.episode matches Some(e) && e.season_number == season && is_due(e, now)
        },
        scan::is_episode_plan(plan, item, episodes, tvdb, now, Scope::Episode(season, number))
            ==> {
            let t = plan.targets@[k];
            &&& 0 <= season <= 65535
            &&& 0 <= number <= 65535
            &&& t.keys.season == Some(season as u16)
            &&& t.keys.episode == Some(number as u16)
            &&& t.episode_marker == Some((season as u16, number as u16))
            &&& t.episode matches Some(e) && e.season_number == season && e.episode_number
                == number && is_due(e, now)
        },
{
    let s = Scope::Season(season);
    let one = Scope::Episode(season, number);
    lemma_with_fate(episodes, s, now, Fate::Wanted);
    lemma_with_fate(episodes, one, now, Fate::Wanted);
    let a = scan::with_fate(episodes, s, now, Fate::Wanted);
    let b = scan::with_fate(episodes, one, now, Fate::Wanted);
    if scan::is_episode_plan(plan, item, episodes, tvdb, now, s) {
        assert(scan::is_episode_target(plan.targets@[k], item, a[k], tvdb));
        assert(scan::fate(a[k], s, now) == Fate::Wanted);
    }
    if scan::is_episode_plan(plan, item, episodes, tvdb, now, one) {
        assert(scan::is_episode_target(plan.targets@[k], item, b[k], tvdb));
        assert(scan::fate(b[k], one, now) == Fate::Wanted);
    }
}

/// A sweep says why it left an episode out: one that is paused is counted as
/// paused, and one that is monitored and not out, or has no date, as not
/// aired. Specials are episodes like any other.
pub proof fn what_is_left_out_is_counted(
    plan: TargetPlan,
    item: LibraryItem,
    episodes: Seq<Episode>,
    tvdb: u32,
    now: i128,
)
    requires
        scan::is_episode_plan(plan, item, episodes, tvdb, now, Scope::Item),
    ensures
        plan.skipped_unmonitored == episodes.filter(
            |e: Episode| e.season_number >= 0 && !e.monitored,
        ).len(),
        plan.skipped_unaired == episodes.filter(
            |e: Episode|
                e.season_number >= 0 && e.monitored && !(e.air_date is Some && e.air_date->0
                    <= now),
        ).len(),
{
    lemma_left_out(episodes, now);
}

proof fn lemma_left_out(episodes: Seq<Episode>, now: i128)
    ensures
        scan::with_fate(episodes, Scope::Item, now, Fate::Unmonitored).len() == episodes.filter(
            |e: Episode| e.season_number >= 0 && !e.monitored,
        ).len(),
        scan::with_fate(episodes, Scope::Item, now, Fate::Unaired).len() == episodes.filter(
            |e: Episode|
                e.season_number >= 0 && e.monitored && !(e.air_date is Some && e.air_date->0
                    <= now),
        ).len(),
    decreases episodes.len(),
{
    reveal(Seq::filter);
    if episodes.len() > 0 {
        lemma_left_out(episodes.drop_last(), now);
    }
}

/// A film is looked for by the ids a film is searched by, once, and only
/// when it can be found: it is not announced or being made, and its digital
/// release, if it has a date, is not ahead. A narrowed sweep of a film looks
/// for nothing.
pub proof fn a_film_is_looked_for_once_it_is_out(
    plan: TargetPlan,
    item: LibraryItem,
    ids: Seq<StoredId>,
    episodes: Seq<Episode>,
    now: i128,
    scope: Scope,
)
    requires
        item.media_type == MediaType::Movie,
        scan::is_target_plan(plan, item, ids, episodes, now, scope),
    ensures
        plan.targets@.len() <= 1,
        plan.targets@.len() == 1 ==> {
            let t = plan.targets@[0];
            &&& scope == Scope::Item
            &&& t.label@ == item.title@
            &&& t.episode is None
            &&& t.episode_marker is None
            &&& t.keys.tmdb is Some || t.keys.imdb is Some
            &&& t.keys.tvdb is None && t.keys.season is None && t.keys.episode is None
        },
        item.status == Some(ProductionStatus::Announced) || item.status == Some(
            ProductionStatus::InProduction,
        ) ==> plan.targets@.len() == 0,
        (item.digital_release_at matches Some(d) && d > now) ==> plan.targets@.len() == 0,
        scope == Scope::Item && item.status != Some(ProductionStatus::Announced) && item.status
            != Some(ProductionStatus::InProduction) && (item.digital_release_at matches Some(d)
            ==> d <= now) ==> plan.skipped_unreleased == 0 && (plan.targets@.len() == 1
            || plan.no_search_axis),
        scope == Scope::Item && !(item.status != Some(ProductionStatus::Announced) && item.status
            != Some(ProductionStatus::InProduction) && (item.digital_release_at matches Some(d)
            ==> d <= now)) ==> plan.skipped_unreleased == 1,
        plan.skipped_unmonitored == 0 && plan.skipped_unaired == 0,
        plan.targets@.len() == 1 ==> !plan.no_search_axis && plan.rejected@.len() == 0,
        scope != Scope::Item ==> plan.skipped_unreleased == 0 && !plan.no_search_axis
            && plan.rejected@.len() == 0,
{
}

// ---------------------------------------------------------------------
// In what order, and how many
// ---------------------------------------------------------------------

/// What came out less than fourteen days ago jumps the backlog, and nothing
/// else does: an episode by its air date, a film by its digital release.
pub proof fn a_fortnight_is_fresh(item: LibraryItem, episode: Option<Episode>, now: i128)
    ensures
        episode matches Some(e) ==> ((scan::tier_view(item, episode, now) == Tier::Fresh)
            <==> (e.air_date matches Some(d) && d + 14 * 24 * 3600 * 1_000_000_000 > now)),
        episode is None ==> ((scan::tier_view(item, episode, now) == Tier::Fresh) <==> (
        item.digital_release_at matches Some(d) && d + 14 * 24 * 3600 * 1_000_000_000 > now)),
{
}

/// The queue goes by need: what is fresh is ahead of the backlog, and within
/// a tier what was never searched is ahead of what was, then what was
/// searched longest ago, then the label that comes first.
pub proof fn the_neediest_comes_first(before: Seq<Wanted>, after: Seq<Wanted>, i: int, j: int)
    requires
        order::sorted_from(before, after),
        0 <= i < j < after.len(),
    ensures
        after[j].tier == Tier::Fresh ==> after[i].tier == Tier::Fresh,
        after[i].tier == after[j].tier && after[j].last_searched is None ==> after[i].last_searched
            is None,
        after[i].tier == after[j].tier ==> (after[i].last_searched matches Some(x) ==> (
        after[j].last_searched matches Some(y) ==> x <= y)),
        after[i].tier == after[j].tier && after[i].last_searched == after[j].last_searched
            ==> !text::text_less(after[j].target.label@, after[i].target.label@),
        after.len() == before.len(),
        forall|k: int| 0 <= k < before.len() ==> after.contains(#[trigger] before[k]),
{
    let places = choose|places: Seq<int>| #[trigger]
        order::is_ranking(before, places) && after == order::listed(before, places);
    assert(order::in_order(before, places[i], places[j]));
    order::sorting_keeps_every_item(before, after);
}

/// A cycle divides its slots: where both tiers have enough waiting, seven in
/// ten go to what is fresh, at least one, and the rest to the backlog; a
/// tier that cannot fill its share leaves it to the other.
pub proof fn a_cycle_is_divided(budget: int, fresh: int, backlog: int)
    requires
        budget >= 1,
        fresh >= 0,
        backlog >= 0,
    ensures
        ({
            let f = scan::fresh_taken(budget, fresh, backlog);
            let b = scan::backlog_taken(budget, fresh, backlog);
            &&& fresh >= budget && backlog >= budget && budget >= 2 ==> 10 * f <= 7 * budget
                && 7 * budget < 10 * (f + 1)
            &&& fresh >= budget && backlog >= budget ==> f + b == budget
            &&& fresh >= 1 && budget == 1 ==> f == 1 && b == 0
            &&& fresh + backlog <= budget ==> f == fresh && b == backlog
            &&& fresh == 0 && backlog >= budget ==> b == budget
            &&& backlog == 0 && fresh >= budget ==> f == budget
            &&& fresh + backlog >= budget ==> f + b == budget
        }),
{
}

/// Whether a queue holds a target with its last search.
pub open spec fn holds_target(queue: Seq<Wanted>, t: Target, last: Option<i128>) -> bool {
    exists|i: int|
        0 <= i < queue.len() && (#[trigger] queue[i]).target == t && queue[i].last_searched == last
}

/// Whether a queued entry is one of an item's targets that nothing covers.
pub open spec fn stands_for_one(
    w: Wanted,
    item: LibraryItem,
    targets: Seq<Target>,
    standings: Seq<Standing>,
) -> bool {
    &&& w.item_id == item.id
    &&& exists|j: int|
        0 <= j < targets.len() && !(#[trigger] standings[j]).covered && w.target == targets[j]
            && w.last_searched == standings[j].last_searched
}

/// A target a live grab answers for is not queued, any other is, with its
/// own item, target and last search.
pub proof fn only_what_is_not_covered_is_queued(
    item: LibraryItem,
    targets: Seq<Target>,
    standings: Seq<Standing>,
    now: i128,
    k: int,
)
    requires
        standings.len() == targets.len(),
        0 <= k < targets.len(),
    ensures
        !standings[k].covered ==> holds_target(
            scan::queued(item, targets, standings, now),
            targets[k],
            standings[k].last_searched,
        ),
        forall|i: int|
            0 <= i < scan::queued(item, targets, standings, now).len() ==> stands_for_one(
                #[trigger] scan::queued(item, targets, standings, now)[i],
                item,
                targets,
                standings,
            ),
        scan::queued(item, targets, standings, now).len() == standings.filter(
            |s: Standing| !s.covered,
        ).len(),
{
    if !standings[k].covered {
        lemma_queued(item, targets, standings, now, k);
    }
    let all = scan::queued(item, targets, standings, now);
    assert forall|i: int| 0 <= i < all.len() implies stands_for_one(
        #[trigger] all[i],
        item,
        targets,
        standings,
    ) by {
        lemma_stands_for_one(item, targets, standings, now, i);
    }
    lemma_queued_count(item, targets, standings, now);
    assert(standings.take(targets.len() as int) =~= standings);
}

proof fn lemma_queued(
    item: LibraryItem,
    targets: Seq<Target>,
    standings: Seq<Standing>,
    now: i128,
    k: int,
)
    requires
        standings.len() >= targets.len(),
        0 <= k < targets.len(),
        !standings[k].covered,
    ensures
        holds_target(
            scan::queued(item, targets, standings, now),
            targets[k],
            standings[k].last_searched,
        ),
    decreases targets.len(),
{
    let fewer = targets.drop_last();
    let kept = scan::queued(item, fewer, standings, now);
    let all = scan::queued(item, targets, standings, now);
    if k < targets.len() - 1 {
        lemma_queued(item, fewer, standings, now, k);
        let i = choose|i: int|
            0 <= i < kept.len() && (#[trigger] kept[i]).target == fewer[k] && kept[i].last_searched
                == standings[k].last_searched;
        assert(all[i] == kept[i]);
    } else {
        assert(all[all.len() - 1].target == targets[k]);
    }
}

proof fn lemma_stands_for_one(
    item: LibraryItem,
    targets: Seq<Target>,
    standings: Seq<Standing>,
    now: i128,
    i: int,
)
    requires
        standings.len() >= targets.len(),
        0 <= i < scan::queued(item, targets, standings, now).len(),
    ensures
        stands_for_one(
            scan::queued(item, targets, standings, now)[i],
            item,
            targets,
            standings,
        ),
    decreases targets.len(),
{
    let fewer = targets.drop_last();
    let kept = scan::queued(item, fewer, standings, now);
    let w = scan::queued(item, targets, standings, now)[i];
    if i < kept.len() {
        lemma_stands_for_one(item, fewer, standings, now, i);
        assert(w == kept[i]);
        let j = choose|j: int|
            0 <= j < fewer.len() && !(#[trigger] standings[j]).covered && w.target == fewer[j]
                && w.last_searched == standings[j].last_searched;
        assert(targets[j] == fewer[j]);
    } else {
        let n = targets.len() - 1;
        assert(!standings[n].covered && w.target == targets[n]);
    }
}

proof fn lemma_queued_count(
    item: LibraryItem,
    targets: Seq<Target>,
    standings: Seq<Standing>,
    now: i128,
)
    requires
        standings.len() >= targets.len(),
    ensures
        scan::queued(item, targets, standings, now).len() == standings.take(
            targets.len() as int,
        ).filter(|s: Standing| !s.covered).len(),
    decreases targets.len(),
{
    reveal(Seq::filter);
    if targets.len() > 0 {
        lemma_queued_count(item, targets.drop_last(), standings, now);
        let n = targets.len() as int;
        assert(standings.take(n).drop_last() =~= standings.take(n - 1));
        assert(standings.take(n).last() == standings[n - 1]);
    }
}

// ---------------------------------------------------------------------
// What is grabbed
// ---------------------------------------------------------------------

/// What a release is judged by: its score under the item's profile where that
/// gave one, and its baseline otherwise.
pub open spec fn judged(d: DecisionRow, profile: Option<ProfileRule>) -> u32 {
    if profile is Some && d.profile_scores@.contains_key(profile->0.id) {
        d.profile_scores@[profile->0.id]
    } else {
        d.score
    }
}

/// Whether a release may be grabbed: it was not rejected, there is something
/// to download, it carries the episode asked for, and it reaches the item's
/// threshold, or a hundred and fifty without a profile.
pub open spec fn may_be_grabbed(
    d: DecisionRow,
    profile: Option<ProfileRule>,
    marked: Option<(u16, u16)>,
) -> bool {
    &&& !d.rejected
    &&& d.download_url is Some
    &&& marked matches Some((season, number)) ==> marker::names_episode(
        d.release_name@,
        season,
        number,
    )
    &&& profile matches Some(p) ==> judged(d, profile) >= p.push_threshold
    &&& profile is None ==> judged(d, profile) >= 150
}

/// The picks are the releases that may be grabbed, all of them and no other,
/// the higher score first and the more seeders first among equals.
pub proof fn the_best_release_is_tried_first(
    rows: Seq<DecisionRow>,
    profile: Option<ProfileRule>,
    marked: Option<(u16, u16)>,
    picked: Seq<&DecisionRow>,
)
    requires
        rows.len() <= usize::MAX,
        scan::is_pick(rows, profile, marked, picked),
    ensures
        forall|i: int|
            0 <= i < picked.len() ==> rows.contains(*(#[trigger] picked[i])) && may_be_grabbed(
                *picked[i],
                profile,
                marked,
            ),
        forall|k: int|
            0 <= k < rows.len() && may_be_grabbed(#[trigger] rows[k], profile, marked)
                ==> exists|i: int| 0 <= i < picked.len() && *(#[trigger] picked[i]) == rows[k],
        forall|i: int, j: int|
            0 <= i < j < picked.len() ==> {
                let a = *(#[trigger] picked[i]);
                let b = *(#[trigger] picked[j]);
                &&& judged(a, profile) >= judged(b, profile)
                &&& judged(a, profile) == judged(b, profile) ==> a.seeders >= b.seeders
            },
{
    let found = scan::candidates(rows, profile, marked);
    let order = choose|order: Seq<Scored>|
        {
            &&& #[trigger] order::sorted_from(found, order)
            &&& picked.len() == order.len()
            &&& forall|i: int|
                0 <= i < order.len() ==> *(#[trigger] picked[i]) == rows[order[i].index as int]
        };
    scan::lemma_candidate_places(rows, profile, marked);
    lemma_candidates_listed(rows, profile, marked);
    order::sorting_keeps_every_item(found, order);
    let places = choose|places: Seq<int>| #[trigger]
        order::is_ranking(found, places) && order == order::listed(found, places);
    assert forall|i: int| 0 <= i < picked.len() implies rows.contains(*(#[trigger] picked[i]))
        && may_be_grabbed(*picked[i], profile, marked) && order[i].score == judged(
        *picked[i],
        profile,
    ) && order[i].seeders == picked[i].seeders by {
        assert(order[i] == found[places[i]]);
        assert(rows[order[i].index as int] == *picked[i]);
    }
    assert forall|k: int| 0 <= k < rows.len() && may_be_grabbed(
        #[trigger] rows[k],
        profile,
        marked,
    ) implies exists|i: int| 0 <= i < picked.len() && *(#[trigger] picked[i]) == rows[k] by {
        assert(scan::is_candidate(rows[k], profile, marked));
        let c = choose|c: int| 0 <= c < found.len() && (#[trigger] found[c]).index == k;
        assert(order.contains(found[c]));
        let i = choose|i: int| 0 <= i < order.len() && order[i] == found[c];
        assert(*picked[i] == rows[k]);
    }
    assert forall|i: int, j: int| 0 <= i < j < picked.len() implies {
        let a = *(#[trigger] picked[i]);
        let b = *(#[trigger] picked[j]);
        &&& judged(a, profile) >= judged(b, profile)
        &&& judged(a, profile) == judged(b, profile) ==> a.seeders >= b.seeders
    } by {
        assert(order::in_order(found, places[i], places[j]));
        assert(order[i].score == judged(*picked[i], profile));
        assert(order[j].score == judged(*picked[j], profile));
    }
}

proof fn lemma_candidates_listed(
    rows: Seq<DecisionRow>,
    profile: Option<ProfileRule>,
    marked: Option<(u16, u16)>,
)
    requires
        rows.len() <= usize::MAX,
    ensures
        forall|k: int|
            0 <= k < rows.len() && scan::is_candidate(#[trigger] rows[k], profile, marked)
                ==> exists|c: int|
                0 <= c < scan::candidates(rows, profile, marked).len() && (
                #[trigger] scan::candidates(rows, profile, marked)[c]).index == k,
    decreases rows.len(),
{
    if rows.len() > 0 {
        let before = rows.drop_last();
        lemma_candidates_listed(before, profile, marked);
        let kept = scan::candidates(before, profile, marked);
        let all = scan::candidates(rows, profile, marked);
        assert forall|k: int| 0 <= k < rows.len() && scan::is_candidate(
            #[trigger] rows[k],
            profile,
            marked,
        ) implies exists|c: int| 0 <= c < all.len() && (#[trigger] all[c]).index == k by {
            if k < before.len() {
                assert(before[k] == rows[k]);
                let c = choose|c: int| 0 <= c < kept.len() && (#[trigger] kept[c]).index == k;
                assert(all[c] == kept[c]);
            } else {
                assert(all[all.len() - 1].index == k);
            }
        }
    }
}

/// A release its item's profile scored is grabbed or not by that score alone:
/// another baseline changes nothing.
pub proof fn the_items_profile_decides(
    a: DecisionRow,
    b: DecisionRow,
    profile: ProfileRule,
    marked: Option<(u16, u16)>,
)
    requires
        a.profile_scores@ == b.profile_scores@,
        a.profile_scores@.contains_key(profile.id),
        a.rejected == b.rejected,
        a.download_url == b.download_url,
        a.release_name@ == b.release_name@,
    ensures
        scan::is_candidate(a, Some(profile), marked) == scan::is_candidate(b, Some(profile), marked),
        a.profile_scores@[profile.id] < profile.push_threshold ==> !scan::is_candidate(
            a,
            Some(profile),
            marked,
        ),
{
}

/// A release travels as Usenet exactly when its provider is a Newznab one, in
/// any letter case.
pub proof fn only_newznab_is_usenet(d: DecisionRow)
    ensures
        (scan::protocol_view(d.provider_kind) == Protocol::Usenet) == polling::from_usenet(d),
{
    if let Some(k) = d.provider_kind {
        polling::lemma_usenet(k@);
    }
}

/// The walk over the picks tries each in turn, skipping those whose provider
/// is gone, and stops at the first that is sent, and at the first failure
/// that every other would meet too. A release the barrier refuses, or that is
/// out for good, is followed by the next.
pub proof fn the_walk_tries_each_in_turn(
    r: Walk,
    item_id: u128,
    target: Target,
    candidates: Seq<&DecisionRow>,
    at: int,
    attempt: Attempt,
)
    requires
        0 <= at < candidates.len(),
        scan::follows_attempt(r, item_id, target, candidates, at, attempt),
    ensures
        r matches Walk::Try(k, g) ==> {
            &&& at < k < candidates.len()
            &&& forall|j: int| at < j < k ==> (#[trigger] candidates[j]).provider_id is None
            &&& candidates[k as int].provider_id == Some(g.provider_id)
            &&& attempt is Refused || (attempt matches Attempt::Delivered(o) && o is Permanent)
            &&& g.item_id == item_id
            &&& g.release_name@ == candidates[k as int].release_name@
            &&& g.release_key@ == candidates[k as int].release_key@
            &&& g.decision_id == Some(candidates[k as int].id)
            &&& target.episode matches Some(e) ==> g.episode_id == Some(e.id)
            &&& target.episode is None ==> g.episode_id is None
            &&& (g.protocol == Protocol::Usenet) == polling::from_usenet(*candidates[k as int])
        },
        (r matches Walk::Finished(o) && o is Grabbed) <==> (attempt matches Attempt::Delivered(
            DeliveryOutcome::Sent { .. },
        )),
        (r matches Walk::Finished(o) && o is Failed) <==> (attempt matches Attempt::Delivered(
            DeliveryOutcome::Retryable(_),
        )),
        (r matches Walk::Finished(o) && o is Nothing) ==> forall|j: int|
            at < j < candidates.len() ==> (#[trigger] candidates[j]).provider_id is None,
{
    lemma_next_place(candidates, at + 1);
    if let Walk::Try(k, g) = r {
        only_newznab_is_usenet(*candidates[k as int]);
    }
}

proof fn lemma_next_place(candidates: Seq<&DecisionRow>, from: int)
    requires
        0 <= from <= candidates.len(),
    ensures
        from <= scan::next_place(candidates, from) <= candidates.len(),
        forall|j: int|
            from <= j < scan::next_place(candidates, from) ==> (
            #[trigger] candidates[j]).provider_id is None,
        scan::next_place(candidates, from) < candidates.len() ==> candidates[scan::next_place(
            candidates,
            from,
        )].provider_id is Some,
    decreases candidates.len() - from,
{
    if from < candidates.len() && candidates[from].provider_id is None {
        lemma_next_place(candidates, from + 1);
    }
}

// ---------------------------------------------------------------------
// What a sweep spends and counts
// ---------------------------------------------------------------------

/// A cycle spends as many searches as configured, one at least, and
/// twenty-five where nothing readable is configured.
pub proof fn a_cycle_spends_what_is_configured(r: usize, stored: Option<&str>)
    requires
        scan::is_budget(r, stored),
    ensures
        r >= 1,
        stored is None ==> r == 25,
        stored matches Some(s) ==> (s@.len() > 0 && (forall|i: int|
            0 <= i < s@.len() ==> 48 <= #[trigger] s@[i] as int <= 57) && 1 <= text::number(s@)
            <= usize::MAX ==> r == text::number(s@)),
        stored matches Some(s) ==> (s@ == seq!['0'] ==> r == 1),
        stored matches Some(s) ==> (s@.len() == 0 ==> r == 25),
        stored matches Some(s) ==> (s@.len() > 0 && !spelling::is_space(s@[0])
            && !spelling::is_space(s@.last()) && !(48 <= s@.last() as int <= 57) ==> r == 25),
{
    let none = Seq::<char>::empty();
    if let Some(s) = stored {
        if s@.len() == 0 {
            spelling::trimming_takes_the_space_around(none, s@, none);
            assert(none + s@ + none =~= s@);
        } else if forall|i: int| 0 <= i < s@.len() ==> 48 <= #[trigger] s@[i] as int <= 57 {
            assert(48 <= s@[0] as int <= 57 && 48 <= s@[s@.len() - 1] as int <= 57);
            text::lemma_trim_tight(s@);
            spelling::a_number_is_nothing_but_figures(s@, usize::MAX as nat);
            if s@ == seq!['0'] {
                spelling::a_figure_adds_a_place(none, '0');
                assert(none.push('0') =~= seq!['0']);
            }
        } else if !spelling::is_space(s@[0]) && !spelling::is_space(s@.last()) && !(48
            <= s@.last() as int <= 57) {
            spelling::trimming_takes_the_space_around(none, s@, none);
            assert(none + s@ + none =~= s@);
            assert(!text::is_digit(s@[s@.len() - 1]));
            if s@.len() > 1 {
                assert(s@.skip(1)[s@.len() - 2] == s@.last());
            }
        }
    }
}

/// A film is looked for by its TMDB and IMDb ids, and not at all where it has
/// neither.
pub proof fn a_film_is_looked_for_by_its_ids(
    r: Option<Target>,
    item: LibraryItem,
    axis: SearchAxis,
)
    requires
        scan::is_film_target(r, item, axis),
    ensures
        r is None <==> axis.tmdb is None && axis.imdb is None,
        r matches Some(t) ==> {
            &&& t.keys.tmdb == axis.tmdb && t.keys.imdb == axis.imdb
            &&& t.keys.tvdb is None && t.keys.season is None && t.keys.episode is None
            &&& t.label@ == item.title@
            &&& t.episode is None && t.episode_marker is None
        },
{
}

/// A release is grabbed for the episode it was searched for, and for the
/// whole title where none was.
pub proof fn a_release_is_grabbed_for_what_was_searched(r: GrabTarget, t: Target)
    requires
        scan::is_grab_target(r, t),
    ensures
        t.episode is None <==> r == GrabTarget::Item,
        t.episode matches Some(e) ==> r == GrabTarget::Episode(e.id, e.season_number),
{
}

/// A sweep is narrowed unless it is about the whole title.
pub proof fn a_whole_title_is_not_narrowed(r: bool, scope: Scope)
    requires
        scan::is_narrow(r, scope),
    ensures
        r <==> scope is Season || scope is Episode,
{
}

/// A title is covered where a row of its own says so.
pub proof fn a_title_is_covered_by_its_own_row(
    r: bool,
    coverage: Seq<(u128, bool)>,
    item: u128,
    k: int,
)
    requires
        scan::is_coverage(r, coverage, item),
        0 <= k < coverage.len(),
    ensures
        coverage[k] == (item, true) ==> r,
        (forall|i: int| 0 <= i < coverage.len() ==> (#[trigger] coverage[i]).0 != item) ==> !r,
        (forall|i: int| 0 <= i < coverage.len() ==> !(#[trigger] coverage[i]).1) ==> !r,
{
}

/// Queueing counts every target, queues those not covered and counts the
/// rest; what was queued before stays in front.
pub proof fn queueing_counts_every_target(
    before: ScanSummary,
    after: ScanSummary,
    held: Seq<Wanted>,
    all: Seq<Wanted>,
    item: LibraryItem,
    targets: Seq<Target>,
    standings: Seq<Standing>,
    now: i128,
)
    requires
        scan::is_enqueued(before, after, held, all, item, targets, standings, now),
    ensures
        after.targets == before.targets + targets.len(),
        all.len() >= held.len(),
        all.take(held.len() as int) == held,
        (after.skipped_covered - before.skipped_covered) + (all.len() - held.len())
            == targets.len(),
        after.searches == before.searches && after.grabbed == before.grabbed && after.failures
            == before.failures,
{
    assert(all.take(held.len() as int) =~= held);
}

/// A paused sweep searches for nothing and says that it was paused; one that
/// is not queues every target that is not covered.
pub proof fn a_paused_sweep_searches_for_nothing(
    r: Sweep,
    paused: bool,
    scan: ItemScan,
    now: i128,
    alone: Sweep,
)
    requires
        scan::is_asked_sweep(r, paused, scan, now),
        scan::is_item_sweep(alone, scan, now),
    ensures
        r.summary.paused <==> paused,
        paused ==> r.queue@.len() == 0 && r.summary.targets == 0 && r.summary.searches == 0,
        !paused ==> r.queue@ == alone.queue@ && r.summary.targets == alone.summary.targets
            && r.summary.skipped_covered == alone.summary.skipped_covered,
        alone.summary.targets == scan.plan.targets@.len(),
        alone.summary.targets == alone.summary.skipped_covered + alone.queue@.len(),
        alone.summary.skipped_over_cap == 0,
        alone.summary.skipped_unmonitored == scan.plan.skipped_unmonitored,
        alone.summary.skipped_unaired == scan.plan.skipped_unaired,
        alone.summary.skipped_unreleased == scan.plan.skipped_unreleased,
        alone.summary.no_search_axis == scan.plan.no_search_axis,
{
    let one = seq![scan];
    assert(one.drop_last() =~= Seq::empty());
    assert(scan::tally(one.drop_last()) == scan::tally(Seq::empty()));
}

/// A full sweep queues no more than its budget, leaves nothing uncounted, and
/// adds up what every title left out.
pub proof fn a_full_sweep_adds_up(r: Sweep, scans: Seq<ItemScan>, budget: usize, now: i128)
    requires
        scan::is_full_sweep(r, scans, budget, now),
        budget >= 1,
    ensures
        r.queue@.len() <= budget,
        r.queue@.len() + r.summary.skipped_over_cap + r.summary.skipped_covered
            == r.summary.targets,
        r.summary.skipped_over_cap > 0 ==> r.queue@.len() == budget,
        r.summary.searches == 0 && r.summary.grabbed == 0 && !r.summary.paused,
{
    let wanted = scan::all_queued(scans, now);
    let plan = CyclePlan { queue: r.queue, over_cap: r.summary.skipped_over_cap };
    scan::a_cycle_spends_its_budget(wanted, budget as int, plan);
}

/// What a title left out is added to what the others did.
pub proof fn what_titles_left_out_is_added(scans: Seq<ItemScan>, s: ItemScan)
    ensures
        ({
            let before = scan::tally(scans);
            let after = scan::tally(scans.push(s));
            &&& after.targets == before.targets + s.plan.targets@.len()
            &&& after.unmonitored == before.unmonitored + s.plan.skipped_unmonitored
            &&& after.unaired == before.unaired + s.plan.skipped_unaired
            &&& after.unreleased == before.unreleased + s.plan.skipped_unreleased
            &&& after.no_axis <==> before.no_axis || s.plan.no_search_axis
            &&& after.rejections.len() == before.rejections.len() + s.plan.rejected@.len()
        }),
{
    assert(scans.push(s).drop_last() =~= scans);
}

/// A cycle runs where nothing is paused and a client is there to take what it
/// finds.
pub proof fn a_cycle_needs_a_client(r: bool, paused: bool, clients: Option<usize>)
    requires
        scan::is_cycle_run(r, paused, clients),
    ensures
        paused ==> !r,
        clients is None ==> !r,
        clients == Some(0usize) ==> !r,
        !paused && (clients matches Some(n) && n >= 1) ==> r,
{
}

/// A title is judged by its profile; one that has none, or whose profile is
/// gone, by a threshold of a hundred and fifty.
pub proof fn a_title_without_a_profile_needs_a_hundred_and_fifty(
    r: Result<Option<ProfileRule>, AppError>,
    id: Option<u128>,
    found: Result<ProfileRule, AppError>,
)
    requires
        scan::is_profile(r, id, found),
    ensures
        id is None ==> (r matches Ok(p) && p is None),
        id is Some ==> (found matches Ok(p) ==> (r matches Ok(Some(q)) && q == p)),
        id is Some ==> (found matches Err(e) ==> (e is NotFound ==> (r matches Ok(p) && p
            is None))),
        id is Some ==> (found matches Err(e) ==> (!(e is NotFound) ==> r
            == Err::<Option<ProfileRule>, AppError>(e))),
        scan::threshold_of(None) == 150,
        found matches Ok(p) ==> scan::threshold_of(Some(p)) == p.push_threshold,
{
}

/// A search ends in one way: nothing was found, something was grabbed, every
/// release was tried in vain, or it failed, which is told with the target.
pub proof fn a_search_ends_in_one_way(
    before: ScanSummary,
    after: ScanSummary,
    label: &str,
    result: SearchResult,
)
    requires
        scan::is_searched(before, after, label, result),
    ensures
        after.searches == before.searches + 1,
        (after.no_candidate - before.no_candidate) + (after.grabbed - before.grabbed) + (
        after.exhausted - before.exhausted) + (after.failures@.len() - before.failures@.len()) == 1,
        after.no_candidate > before.no_candidate <==> result is NoCandidate,
        after.grabbed > before.grabbed <==> (result matches SearchResult::Walked(o) && o
            is Grabbed),
        after.exhausted > before.exhausted <==> (result matches SearchResult::Walked(o) && o
            is Nothing),
        result matches SearchResult::Error(why) ==> after.failures@.last().0@ == label@
            && after.failures@.last().1@ == why@,
        result matches SearchResult::Walked(TargetOutcome::Failed(why)) ==> after.failures@.last().0@
            == label@ && after.failures@.last().1@ == why@,
        after.targets == before.targets && after.skipped_covered == before.skipped_covered
            && after.skipped_over_cap == before.skipped_over_cap,
{
}

/// What is reserved is the release that was picked, for the title and the
/// episode it was picked for.
pub proof fn a_reservation_is_the_release(g: NewGrab, item: u128, t: Target, d: DecisionRow)
    requires
        scan::is_reservation(g, item, t, d),
    ensures
        g.item_id == item,
        t.episode is None ==> g.episode_id is None,
        t.episode matches Some(e) ==> g.episode_id == Some(e.id),
        g.season_number is None,
        g.decision_id == Some(d.id),
        d.provider_id == Some(g.provider_id),
        g.release_key@ == d.release_key@ && g.release_name@ == d.release_name@
            && g.provider_name@ == d.provider_name@,
        text::opt_view(g.download_url) == text::opt_view(d.download_url),
{
}

/// Sorting puts nothing behind what it goes before, and keeps the order of
/// what goes before neither.
pub proof fn sorting_is_stable<T: Ranked>(items: Seq<T>, sorted: Seq<T>, i: int, j: int)
    requires
        order::sorted_from(items, sorted),
        0 <= i < j < sorted.len(),
    ensures
        !sorted[j].precedes(&sorted[i]),
        !sorted[i].precedes(&sorted[j]) ==> exists|x: int, y: int|
            0 <= x < y < items.len() && #[trigger] items[x] == sorted[i] && #[trigger] items[y]
                == sorted[j],
{
    let places = choose|places: Seq<int>|
        #[trigger] order::is_ranking(items, places) && sorted == order::listed(items, places);
    assert(order::in_order(items, places[i], places[j]));
    assert(sorted[i] == items[places[i]]);
    assert(sorted[j] == items[places[j]]);
}

/// A target counts in its own tier.
pub proof fn a_target_counts_in_its_tier(queue: Seq<Wanted>, w: Wanted)
    ensures
        w.tier == Tier::Fresh ==> scan::of_tier(queue.push(w), Tier::Fresh) == scan::of_tier(
            queue,
            Tier::Fresh,
        ).push(w) && scan::of_tier(queue.push(w), Tier::Backlog) == scan::of_tier(
            queue,
            Tier::Backlog,
        ),
        w.tier == Tier::Backlog ==> scan::of_tier(queue.push(w), Tier::Backlog) == scan::of_tier(
            queue,
            Tier::Backlog,
        ).push(w) && scan::of_tier(queue.push(w), Tier::Fresh) == scan::of_tier(
            queue,
            Tier::Fresh,
        ),
{
    assert(queue.push(w).drop_last() =~= queue);
}

/// In a cycle what is fresh goes before the backlog, and in each what was
/// searched longest ago goes first.
pub proof fn what_is_fresh_goes_first(
    wanted: Seq<Wanted>,
    budget: int,
    plan: CyclePlan,
    i: int,
    j: int,
)
    requires
        budget >= 1,
        scan::is_cycle(wanted, budget, plan),
        0 <= i < j < plan.queue@.len(),
    ensures
        plan.queue@[j].tier == Tier::Fresh ==> plan.queue@[i].tier == Tier::Fresh,
        plan.queue@[i].tier == plan.queue@[j].tier ==> {
            let a = plan.queue@[i].last_searched;
            let b = plan.queue@[j].last_searched;
            &&& a is Some ==> b is Some
            &&& a is Some && b is Some ==> a->0 <= b->0
        },
{
    let fresh = scan::of_tier(wanted, Tier::Fresh);
    let backlog = scan::of_tier(wanted, Tier::Backlog);
    let first = scan::fresh_taken(budget, fresh.len() as int, backlog.len() as int);
    let second = scan::backlog_taken(budget, fresh.len() as int, backlog.len() as int);
    scan::the_budget_splits_without_leaving_slots_unspent(
        budget,
        fresh.len() as int,
        backlog.len() as int,
    );
    let (f, b) = choose|f: Seq<Wanted>, b: Seq<Wanted>|
        {
            &&& #[trigger] order::sorted_from(fresh, f)
            &&& #[trigger] order::sorted_from(backlog, b)
            &&& plan.queue@ == f.take(first) + b.take(second)
        };
    order::sorting_keeps_every_item(fresh, f);
    order::sorting_keeps_every_item(backlog, b);
    scan::lemma_of_tier_members(wanted, Tier::Fresh);
    scan::lemma_of_tier_members(wanted, Tier::Backlog);
    assert forall|k: int| 0 <= k < f.len() implies (#[trigger] f[k]).tier == Tier::Fresh by {
        assert(fresh.contains(f[k]));
        let x = choose|x: int| 0 <= x < fresh.len() && fresh[x] == f[k];
        assert(fresh[x].tier == Tier::Fresh);
    }
    assert forall|k: int| 0 <= k < b.len() implies (#[trigger] b[k]).tier == Tier::Backlog by {
        assert(backlog.contains(b[k]));
        let x = choose|x: int| 0 <= x < backlog.len() && backlog[x] == b[k];
        assert(backlog[x].tier == Tier::Backlog);
    }
    let q = plan.queue@;
    if i < first {
        assert(q[i] == f[i]);
    } else {
        assert(q[i] == b[i - first]);
    }
    if j < first {
        assert(q[j] == f[j]);
        scan::the_queue_rotates(fresh, f, i, j);
    } else {
        assert(q[j] == b[j - first]);
        if i >= first {
            scan::the_queue_rotates(backlog, b, i - first, j - first);
        }
    }
}

/// An episode's target is called by its title and place, `Title S01E02`.
pub proof fn a_target_is_called_by_its_place(t: Target, item: LibraryItem, e: Episode, tvdb: u32)
    requires
        scan::is_episode_target(t, item, e, tvdb),
        0 <= e.season_number < 100,
        0 <= e.episode_number < 100,
    ensures
        t.label@ == item.title@ + seq![
            ' ',
            'S',
            (48 + e.season_number as int / 10) as char,
            (48 + e.season_number as int % 10) as char,
            'E',
            (48 + e.episode_number as int / 10) as char,
            (48 + e.episode_number as int % 10) as char,
        ],
        t.episode == Some(e),
        t.keys.tvdb == Some(tvdb),
{
    reveal_strlit(" S");
    reveal_strlit("E");
    spelling::two_places_are_filled(e.season_number as nat);
    spelling::two_places_are_filled(e.episode_number as nat);
    assert(t.label@ =~= item.title@ + seq![
        ' ',
        'S',
        (48 + e.season_number as int / 10) as char,
        (48 + e.season_number as int % 10) as char,
        'E',
        (48 + e.episode_number as int / 10) as char,
        (48 + e.episode_number as int % 10) as char,
    ]);
}

/// A delivery worth another try ends the walk with its reason.
pub proof fn a_failed_walk_says_why(
    r: Walk,
    item: u128,
    target: Target,
    candidates: Seq<&DecisionRow>,
    at: int,
    reason: String,
)
    requires
        scan::follows_attempt(
            r,
            item,
            target,
            candidates,
            at,
            Attempt::Delivered(DeliveryOutcome::Retryable(reason)),
        ),
    ensures
        r == Walk::Finished(TargetOutcome::Failed(reason)),
{
}

} // verus!
