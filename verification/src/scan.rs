//! The monitored sweep: looking for what the library does not have yet.
//!
//! A cycle dispatches a bounded number of searches. The queue is two tiers,
//! what came out recently and everything else, each rotating least recently
//! searched first, and the tiers divide the cycle instead of ordering it, so
//! that neither can starve the other.

use vstd::prelude::*;

use crate::catalogue;
use crate::catalogue::{
    DecisionRow, Episode, LibraryItem, MediaType, ProductionStatus, Protocol, SearchKeys,
};
use crate::deliver::DeliveryOutcome;
use crate::error::AppError;
use crate::marker;
use crate::marker::title_matches_episode;
use crate::metadata::axis;
use crate::metadata::axis::{AxisRejection, SearchAxis, StoredId};
use crate::order;
use crate::order::Ranked;
use crate::text;
use crate::text::{
    chars_of, extend, extend_str, less, padded_of, parse_unsigned, same_fold, string_of,
    trimmed_str,
};

verus! {

/// Ceiling on searches per sweep, when the settings name none.
pub const DEFAULT_SEARCHES_PER_CYCLE: usize = 25;

/// Floor for the configured ceiling.
pub const MIN_SEARCHES_PER_CYCLE: usize = 1;

/// Fourteen days, in nanoseconds: how recently a target has to have come
/// out to jump the backlog.
pub const FRESH_WINDOW: i128 = 1_209_600_000_000_000;

/// Threshold applied to an item with no quality profile attached.
pub const DEFAULT_PUSH_THRESHOLD: u32 = 150;

/// How long a finished manual sweep stays readable, in seconds.
pub const SCAN_RESULT_TTL: u64 = 600;

/// Share of a cycle the fresh tier is guaranteed, in tenths.
pub const FRESH_SHARE: usize = 7;

/// Which slice of an item a sweep should look at.
#[derive(Debug, Clone, Copy, PartialEq, Eq, Structural)]
pub enum Scope {
    /// Everything the item offers.
    Item,
    /// One season, by its number.
    Season(i32),
    /// One episode, by season and episode number.
    Episode(i32, i32),
}

impl Default for Scope {
    fn default() -> (r: Scope)
        ensures
            r == Scope::Item,
    {
        Scope::Item
    }
}

pub open spec fn in_scope(scope: Scope, season: i32, episode: i32) -> bool {
    match scope {
        Scope::Item => true,
        Scope::Season(s) => s == season,
        Scope::Episode(s, e) => s == season && e == episode,
    }
}

/// Whether `r` says that a sweep is narrowed.
pub open spec fn is_narrow(r: bool, scope: Scope) -> bool {
    r == (scope != Scope::Item)
}

impl Scope {
    /// Whether this scope wants the given episode.
    pub fn covers(self, season: i32, episode: i32) -> (r: bool)
        ensures
            r == in_scope(self, season, episode),
    {
        match self {
            Scope::Item => true,
            Scope::Season(s) => s == season,
            Scope::Episode(s, e) => s == season && e == episode,
        }
    }

    /// Whether this scope names a series slice at all.
    pub fn is_narrowed(self) -> (r: bool)
        ensures
            is_narrow(r, self),
    {
        match self {
            Scope::Item => false,
            _ => true,
        }
    }
}

/// One target: a movie, or one episode of a series.
#[derive(Debug, Clone)]
pub struct Target {
    /// Label for logs and the summary.
    pub label: String,
    /// Episode this target stands for; `None` for a movie.
    pub episode: Option<Episode>,
    /// Search axis.
    pub keys: SearchKeys,
    /// The season and episode a candidate title must carry; `None` for a
    /// movie.
    pub episode_marker: Option<(u16, u16)>,
}

/// What a grab would be recorded against: the item, or one episode with its
/// season.
#[derive(Debug, Clone, Copy, PartialEq, Eq, Structural)]
pub enum GrabTarget {
    Item,
    Episode(u128, i32),
}

/// What a release is grabbed for.
pub open spec fn is_grab_target(r: GrabTarget, t: Target) -> bool {
    r == match t.episode {
        Some(e) => GrabTarget::Episode(e.id, e.season_number),
        None => GrabTarget::Item,
    }
}

impl Target {
    /// What the barrier is asked about. An episode carries its season so a
    /// pack of another season does not answer for it.
    pub fn grab_target(&self) -> (r: GrabTarget)
        ensures
            is_grab_target(r, *self),
    {
        match &self.episode {
            Some(e) => GrabTarget::Episode(e.id, e.season_number),
            None => GrabTarget::Item,
        }
    }
}

/// What there is to search for on one item, and the reasons something was
/// left out.
#[derive(Debug, Clone)]
pub struct TargetPlan {
    /// What will be searched.
    pub targets: Vec<Target>,
    /// In scope, but the operator paused it.
    pub skipped_unmonitored: usize,
    /// In scope and monitored, but it has not aired.
    pub skipped_unaired: usize,
    /// A film that is not out yet: 0 or 1.
    pub skipped_unreleased: usize,
    /// No usable search id on the item at all.
    pub no_search_axis: bool,
    /// Ids that are held and cannot be searched with.
    pub rejected: Vec<AxisRejection>,
}

/// A plan that searches nothing and skips nothing.
pub open spec fn is_empty_plan(plan: TargetPlan) -> bool {
    &&& plan.targets@.len() == 0
    &&& plan.skipped_unmonitored == 0
    &&& plan.skipped_unaired == 0
    &&& plan.skipped_unreleased == 0
    &&& !plan.no_search_axis
    &&& plan.rejected@.len() == 0
}

impl Default for TargetPlan {
    fn default() -> (r: TargetPlan)
        ensures
            is_empty_plan(r),
    {
        TargetPlan {
            targets: Vec::new(),
            skipped_unmonitored: 0,
            skipped_unaired: 0,
            skipped_unreleased: 0,
            no_search_axis: false,
            rejected: Vec::new(),
        }
    }
}

/// What one sweep did.
#[derive(Debug, Clone)]
pub struct ScanSummary {
    /// Targets the sweep looked at.
    pub targets: usize,
    /// Targets skipped because a grab already covers them.
    pub skipped_covered: usize,
    /// Targets skipped because the per-cycle cap was reached.
    pub skipped_over_cap: usize,
    /// Searches dispatched.
    pub searches: usize,
    /// Releases handed to a download client.
    pub grabbed: usize,
    /// Targets whose results held nothing worth grabbing.
    pub no_candidate: usize,
    /// Targets whose candidates were all refused by the barrier.
    pub exhausted: usize,
    /// Episodes in scope that the operator paused.
    pub skipped_unmonitored: usize,
    /// Episodes in scope, monitored, that have not aired.
    pub skipped_unaired: usize,
    /// Films that are not out yet.
    pub skipped_unreleased: usize,
    /// An item carries no id the search axis can use.
    pub no_search_axis: bool,
    /// Ids that are held and cannot be searched with, in words.
    pub axis_rejections: Vec<String>,
    /// The operator switched the orchestrator off.
    pub paused: bool,
    /// Target and reason for everything that went wrong.
    pub failures: Vec<(String, String)>,
}

/// What a manual sweep is doing.
#[derive(Debug, Clone)]
pub enum ScanProgress {
    /// Still sweeping.
    Running,
    /// Finished, with what it did.
    Done(ScanSummary),
    /// The sweep itself failed.
    Failed(String),
}

/// A summary of nothing done.
pub open spec fn is_blank(s: ScanSummary) -> bool {
    &&& s.targets == 0
    &&& s.skipped_covered == 0
    &&& s.skipped_over_cap == 0
    &&& s.searches == 0
    &&& s.grabbed == 0
    &&& s.no_candidate == 0
    &&& s.exhausted == 0
    &&& s.skipped_unmonitored == 0
    &&& s.skipped_unaired == 0
    &&& s.skipped_unreleased == 0
    &&& !s.no_search_axis
    &&& s.axis_rejections@.len() == 0
    &&& !s.paused
    &&& s.failures@.len() == 0
}

impl Default for ScanSummary {
    fn default() -> (r: ScanSummary)
        ensures
            is_blank(r),
    {
        ScanSummary {
            targets: 0,
            skipped_covered: 0,
            skipped_over_cap: 0,
            searches: 0,
            grabbed: 0,
            no_candidate: 0,
            exhausted: 0,
            skipped_unmonitored: 0,
            skipped_unaired: 0,
            skipped_unreleased: 0,
            no_search_axis: false,
            axis_rejections: Vec::new(),
            paused: false,
            failures: Vec::new(),
        }
    }
}

/// The counters a plan leaves alone.
pub open spec fn same_outcomes(a: ScanSummary, b: ScanSummary) -> bool {
    &&& a.targets == b.targets
    &&& a.skipped_covered == b.skipped_covered
    &&& a.skipped_over_cap == b.skipped_over_cap
    &&& a.searches == b.searches
    &&& a.grabbed == b.grabbed
    &&& a.no_candidate == b.no_candidate
    &&& a.exhausted == b.exhausted
    &&& a.paused == b.paused
    &&& a.failures == b.failures
}

/// The sentences of a list of rejections.
pub open spec fn rejection_texts(rejected: Seq<AxisRejection>) -> Seq<Seq<char>> {
    rejected.map_values(|r: AxisRejection| axis::rejection_text(r.source, r.value@, r.reason))
}

/// Whether `a` is `b` with what a plan decided not to search added.
pub open spec fn absorbed(a: ScanSummary, b: ScanSummary, plan: TargetPlan) -> bool {
    &&& same_outcomes(a, b)
    &&& a.skipped_unmonitored == b.skipped_unmonitored + plan.skipped_unmonitored
    &&& a.skipped_unaired == b.skipped_unaired + plan.skipped_unaired
    &&& a.skipped_unreleased == b.skipped_unreleased + plan.skipped_unreleased
    &&& a.no_search_axis == (b.no_search_axis || plan.no_search_axis)
    &&& text::views(a.axis_rejections@) == text::views(b.axis_rejections@) + rejection_texts(
        plan.rejected@,
    )
}

/// The summary of a sweep that was paused.
pub open spec fn is_pause(r: ScanSummary) -> bool {
    &&& r.paused
    &&& is_blank(ScanSummary { paused: false, ..r })
}

impl ScanSummary {
    /// A sweep that did nothing because the orchestrator is paused.
    pub fn paused() -> (r: ScanSummary)
        ensures
            is_pause(r),
    {
        let mut out = ScanSummary::default();
        out.paused = true;
        out
    }

    /// Take everything a plan decided not to search.
    pub fn absorb(&mut self, plan: &TargetPlan)
        requires
            old(self).skipped_unmonitored + plan.skipped_unmonitored <= usize::MAX,
            old(self).skipped_unaired + plan.skipped_unaired <= usize::MAX,
            old(self).skipped_unreleased + plan.skipped_unreleased <= usize::MAX,
        ensures
            absorbed(*final(self), *old(self), *plan),
    {
        let ghost before = *self;
        let ghost texts = rejection_texts(plan.rejected@);
        self.skipped_unmonitored = self.skipped_unmonitored + plan.skipped_unmonitored;
        self.skipped_unaired = self.skipped_unaired + plan.skipped_unaired;
        self.skipped_unreleased = self.skipped_unreleased + plan.skipped_unreleased;
        self.no_search_axis = self.no_search_axis || plan.no_search_axis;
        let ghost counted = *self;
        let mut said: Vec<String> = Vec::new();
        let mut i: usize = 0;
        while i < plan.rejected.len()
            invariant
                i <= plan.rejected.len(),
                texts == rejection_texts(plan.rejected@),
                text::views(said@) == texts.take(i as int),
            decreases plan.rejected.len() - i,
        {
            let ghost prior = text::views(said@);
            let line = plan.rejected[i].message();
            assert(texts.take(i + 1) =~= texts.take(i as int).push(line@));
            said.push(line);
            assert(text::views(said@) =~= prior.push(line@));
            i += 1;
        }
        assert(texts.take(plan.rejected.len() as int) =~= texts);
        let ghost held = self.axis_rejections@;
        let ghost more = said@;
        self.axis_rejections.append(&mut said);
        assert(text::views(held + more) =~= text::views(held) + text::views(more));
    }
}

// ---------------------------------------------------------------------
// The queue
// ---------------------------------------------------------------------

/// Which half of the queue a target belongs to.
#[derive(Debug, Clone, Copy, PartialEq, Eq, Structural)]
pub enum Tier {
    /// Out within the fresh window.
    Fresh,
    /// Everything else.
    Backlog,
}

/// One target waiting for a slot, with everything that decides its place in
/// line.
#[derive(Debug, Clone)]
pub struct Wanted {
    /// Which half of the queue it sits in.
    pub tier: Tier,
    /// When this exact target was last searched; `None` for never.
    pub last_searched: Option<i128>,
    /// The item it belongs to.
    pub item_id: u128,
    /// What to search for.
    pub target: Target,
}

/// When a target became findable.
pub open spec fn out_at(item: LibraryItem, episode: Option<Episode>) -> Option<i128> {
    match episode {
        Some(e) => e.air_date,
        None => item.digital_release_at,
    }
}

/// Fresh is what came out less than the window ago.
pub open spec fn tier_view(item: LibraryItem, episode: Option<Episode>, now: i128) -> Tier {
    match out_at(item, episode) {
        Some(date) => if date > now - FRESH_WINDOW {
            Tier::Fresh
        } else {
            Tier::Backlog
        },
        None => Tier::Backlog,
    }
}

/// Where a target sits, from the date it became findable.
pub fn tier_of(item: &LibraryItem, episode: Option<&Episode>, now: i128) -> (r: Tier)
    ensures
        r == tier_view(
            *item,
            match episode {
                Some(e) => Some(*e),
                None => None,
            },
            now,
        ),
{
    let date = match episode {
        Some(e) => e.air_date,
        None => item.digital_release_at,
    };
    match date {
        Some(d) => {
            let fresh = if d > now {
                true
            } else {
                match now.checked_sub(d) {
                    Some(age) => age < FRESH_WINDOW,
                    None => false,
                }
            };
            if fresh {
                Tier::Fresh
            } else {
                Tier::Backlog
            }
        },
        None => Tier::Backlog,
    }
}

/// Never searched comes before searched, earlier before later.
pub open spec fn searched_before(a: Option<i128>, b: Option<i128>) -> bool {
    match (a, b) {
        (None, Some(_)) => true,
        (Some(x), Some(y)) => x < y,
        _ => false,
    }
}

impl Ranked for Wanted {
    /// Fresh first, then least recently searched, then by label.
    open spec fn precedes(&self, other: &Self) -> bool {
        ||| self.tier == Tier::Fresh && other.tier == Tier::Backlog
        ||| self.tier == other.tier && searched_before(self.last_searched, other.last_searched)
        ||| self.tier == other.tier && self.last_searched == other.last_searched && text::text_less(
            self.target.label@,
            other.target.label@,
        )
    }

    proof fn ranking_is_consistent(a: &Self, b: &Self, c: &Self) {
        let (x, y, z) = (a.target.label@, b.target.label@, c.target.label@);
        text::lemma_text_less_irreflexive(x);
        if text::text_less(x, y) && text::text_less(y, x) {
            text::lemma_text_less_transitive(x, y, x);
        }
        text::lemma_text_less_total(x, y);
        text::lemma_text_less_total(y, z);
        if text::text_less(x, z) && text::text_less(z, y) {
            text::lemma_text_less_transitive(x, z, y);
        }
        if text::text_less(x, z) && text::text_less(y, x) {
            text::lemma_text_less_transitive(y, x, z);
        }
    }

    fn comes_before(&self, other: &Self) -> (r: bool) {
        if self.tier != other.tier {
            return self.tier == Tier::Fresh;
        }
        match (self.last_searched, other.last_searched) {
            (None, Some(_)) => {
                return true;
            },
            (Some(_), None) => {
                return false;
            },
            (Some(x), Some(y)) => {
                if x != y {
                    return x < y;
                }
            },
            (None, None) => {},
        }
        let a = chars_of(self.target.label.as_str());
        let b = chars_of(other.target.label.as_str());
        less(&a, &b)
    }
}

/// The order the budget is spent in.
pub fn sort_queue(queue: &mut Vec<Wanted>)
    ensures
        order::sorted_from(old(queue)@, final(queue)@),
{
    order::sort(queue);
}

/// The seven tenths of a budget the fresh tier is guaranteed, at least one.
pub open spec fn fresh_share(budget: int) -> int {
    if budget * 7 / 10 < 1 {
        1
    } else {
        budget * 7 / 10
    }
}

pub open spec fn min(a: int, b: int) -> int {
    if a <= b {
        a
    } else {
        b
    }
}

pub open spec fn max(a: int, b: int) -> int {
    if a >= b {
        a
    } else {
        b
    }
}

/// How many of the fresh tier fit: its share, or what the backlog leaves.
pub open spec fn fresh_taken(budget: int, fresh: int, backlog: int) -> int {
    min(fresh, max(fresh_share(budget), max(0, budget - backlog)))
}

/// How many of the backlog fit: what the fresh tier left.
pub open spec fn backlog_taken(budget: int, fresh: int, backlog: int) -> int {
    min(backlog, budget - fresh_taken(budget, fresh, backlog))
}

/// How one cycle's budget is divided between the two tiers. A share is a
/// floor for the tier that needs it and never a cap on the cycle; the fresh
/// tier wins a budget of one.
pub fn split_budget(budget: usize, fresh: usize, backlog: usize) -> (r: (usize, usize))
    requires
        budget >= 1,
    ensures
        r.0 == fresh_taken(budget as int, fresh as int, backlog as int),
        r.1 == backlog_taken(budget as int, fresh as int, backlog as int),
{
    let tens: usize = budget / 10 * FRESH_SHARE + budget % 10 * FRESH_SHARE / 10;
    assert(tens == budget as int * 7 / 10);
    let share: usize = if tens < 1 {
        1
    } else {
        tens
    };
    let left: usize = if budget > backlog {
        budget - backlog
    } else {
        0
    };
    let most: usize = if share > left {
        share
    } else {
        left
    };
    let take_fresh: usize = if fresh < most {
        fresh
    } else {
        most
    };
    let rest: usize = budget - take_fresh;
    let take_backlog: usize = if backlog < rest {
        backlog
    } else {
        rest
    };
    (take_fresh, take_backlog)
}

/// No slot is left unspent while a target waits, and no tier gets more than
/// it has.
pub proof fn the_budget_splits_without_leaving_slots_unspent(budget: int, fresh: int, backlog: int)
    requires
        budget >= 1,
        fresh >= 0,
        backlog >= 0,
    ensures
        0 <= fresh_taken(budget, fresh, backlog) <= fresh,
        0 <= backlog_taken(budget, fresh, backlog) <= backlog,
        fresh_taken(budget, fresh, backlog) + backlog_taken(budget, fresh, backlog) == min(
            budget,
            fresh + backlog,
        ),
{
}

/// Neither tier starves: with two slots or more, a tier that has a target
/// waiting gets at least one; and the single slot of a budget of one goes to
/// the fresh tier.
pub proof fn neither_tier_starves(budget: int, fresh: int, backlog: int)
    requires
        budget >= 1,
        fresh >= 0,
        backlog >= 0,
    ensures
        fresh > 0 ==> fresh_taken(budget, fresh, backlog) > 0,
        backlog > 0 && budget >= 2 ==> backlog_taken(budget, fresh, backlog) > 0,
{
}

/// How many searches a cycle may spend, as configured.
pub open spec fn is_budget(r: usize, stored: Option<&str>) -> bool {
    r == max(
        1,
        match stored {
            Some(s) => match text::unsigned(text::trim(s@), usize::MAX as nat) {
                Some(n) => n as int,
                None => 25,
            },
            None => 25,
        },
    )
}

/// The ceiling as configured, floored: `stored` is the setting's text.
pub fn configured_budget(stored: Option<&str>) -> (r: usize)
    ensures
        is_budget(r, stored),
{
    let parsed: Option<u64> = match stored {
        Some(s) => {
            let chars = trimmed_str(s);
            parse_unsigned(&chars, usize::MAX as u64)
        },
        None => None,
    };
    let wanted: usize = match parsed {
        Some(n) => n as usize,
        None => DEFAULT_SEARCHES_PER_CYCLE,
    };
    if wanted < MIN_SEARCHES_PER_CYCLE {
        MIN_SEARCHES_PER_CYCLE
    } else {
        wanted
    }
}

/// The targets of one tier, in the order they were found.
pub open spec fn of_tier(queue: Seq<Wanted>, tier: Tier) -> Seq<Wanted>
    decreases queue.len(),
{
    if queue.len() == 0 {
        Seq::empty()
    } else if queue.last().tier == tier {
        of_tier(queue.drop_last(), tier).push(queue.last())
    } else {
        of_tier(queue.drop_last(), tier)
    }
}

/// What one cycle will search, in order, and how many targets it leaves for
/// the next.
pub struct CyclePlan {
    pub queue: Vec<Wanted>,
    pub over_cap: usize,
}

/// Whether a cycle is planned as it should be: each tier in its own
/// rotation, cut at its share, the fresh one first.
pub open spec fn is_cycle(wanted: Seq<Wanted>, budget: int, plan: CyclePlan) -> bool {
    let fresh = of_tier(wanted, Tier::Fresh);
    let backlog = of_tier(wanted, Tier::Backlog);
    let first = fresh_taken(budget, fresh.len() as int, backlog.len() as int);
    let second = backlog_taken(budget, fresh.len() as int, backlog.len() as int);
    &&& plan.over_cap == fresh.len() - first + backlog.len() - second
    &&& exists|f: Seq<Wanted>, b: Seq<Wanted>|
        {
            &&& #[trigger] order::sorted_from(fresh, f)
            &&& #[trigger] order::sorted_from(backlog, b)
            &&& plan.queue@ == f.take(first) + b.take(second)
        }
}

pub proof fn lemma_tiers_partition(queue: Seq<Wanted>)
    ensures
        of_tier(queue, Tier::Fresh).len() + of_tier(queue, Tier::Backlog).len() == queue.len(),
    decreases queue.len(),
{
    if queue.len() > 0 {
        lemma_tiers_partition(queue.drop_last());
    }
}

/// Order the wanted targets and cut them at the cycle's budget.
pub fn plan_cycle(wanted: Vec<Wanted>, budget: usize) -> (r: CyclePlan)
    requires
        budget >= 1,
    ensures
        is_cycle(wanted@, budget as int, r),
{
    let ghost all = wanted@;
    let total: usize = wanted.len();
    let mut fresh: Vec<Wanted> = Vec::new();
    let mut backlog: Vec<Wanted> = Vec::new();
    let mut rest = wanted;
    let ghost mut done: int = 0;
    while rest.len() > 0
        invariant
            total == all.len(),
            0 <= done <= all.len(),
            rest@ == all.skip(done),
            fresh@ == of_tier(all.take(done), Tier::Fresh),
            backlog@ == of_tier(all.take(done), Tier::Backlog),
        decreases rest.len(),
    {
        assert(rest@[0] == all[done]);
        assert(all.take(done + 1).drop_last() =~= all.take(done));
        let w = rest.remove(0);
        assert(rest@ =~= all.skip(done + 1));
        match w.tier {
            Tier::Fresh => {
                fresh.push(w);
            },
            Tier::Backlog => {
                backlog.push(w);
            },
        }
        proof {
            done = done + 1;
        }
    }
    assert(done == all.len());
    assert(all.take(done) =~= all);
    proof {
        lemma_tiers_partition(all);
    }
    let ghost f0 = fresh@;
    let ghost b0 = backlog@;
    sort_queue(&mut fresh);
    sort_queue(&mut backlog);
    let ghost f = fresh@;
    let ghost b = backlog@;
    proof {
        order::sorting_keeps_every_item(f0, f);
        order::sorting_keeps_every_item(b0, b);
        the_budget_splits_without_leaving_slots_unspent(
            budget as int,
            f.len() as int,
            b.len() as int,
        );
    }
    let (first, second) = split_budget(budget, fresh.len(), backlog.len());
    let over_cap: usize = (fresh.len() - first) + (backlog.len() - second);
    fresh.truncate(first);
    backlog.truncate(second);
    assert(fresh@ =~= f.take(first as int));
    assert(backlog@ =~= b.take(second as int));
    fresh.append(&mut backlog);
    CyclePlan { queue: fresh, over_cap }
}

pub proof fn lemma_of_tier_members(queue: Seq<Wanted>, tier: Tier)
    ensures
        forall|i: int| 0 <= i < of_tier(queue, tier).len() ==> queue.contains(
            #[trigger] of_tier(queue, tier)[i],
        ) && of_tier(queue, tier)[i].tier == tier,
    decreases queue.len(),
{
    if queue.len() > 0 {
        let before = queue.drop_last();
        lemma_of_tier_members(before, tier);
        let kept = of_tier(before, tier);
        assert forall|i: int| 0 <= i < of_tier(queue, tier).len() implies queue.contains(
            #[trigger] of_tier(queue, tier)[i],
        ) && of_tier(queue, tier)[i].tier == tier by {
            if i < kept.len() {
                assert(before.contains(kept[i]));
                let k = choose|k: int| 0 <= k < before.len() && before[k] == kept[i];
                assert(queue[k] == kept[i]);
            } else {
                assert(queue[queue.len() - 1] == queue.last());
            }
        }
    }
}

/// A cycle never exceeds its budget, wastes no slot while a target waits,
/// and searches only what is wanted.
pub proof fn a_cycle_spends_its_budget(wanted: Seq<Wanted>, budget: int, plan: CyclePlan)
    requires
        budget >= 1,
        is_cycle(wanted, budget, plan),
    ensures
        plan.queue@.len() == min(budget, wanted.len() as int),
        plan.queue@.len() + plan.over_cap == wanted.len(),
        forall|i: int| 0 <= i < plan.queue@.len() ==> wanted.contains(#[trigger] plan.queue@[i]),
{
    let fresh = of_tier(wanted, Tier::Fresh);
    let backlog = of_tier(wanted, Tier::Backlog);
    let first = fresh_taken(budget, fresh.len() as int, backlog.len() as int);
    let second = backlog_taken(budget, fresh.len() as int, backlog.len() as int);
    let (f, b) = choose|f: Seq<Wanted>, b: Seq<Wanted>|
        {
            &&& #[trigger] order::sorted_from(fresh, f)
            &&& #[trigger] order::sorted_from(backlog, b)
            &&& plan.queue@ == f.take(first) + b.take(second)
        };
    order::sorting_keeps_every_item(fresh, f);
    order::sorting_keeps_every_item(backlog, b);
    lemma_tiers_partition(wanted);
    lemma_of_tier_members(wanted, Tier::Fresh);
    lemma_of_tier_members(wanted, Tier::Backlog);
    the_budget_splits_without_leaving_slots_unspent(
        budget,
        fresh.len() as int,
        backlog.len() as int,
    );
    assert forall|i: int| 0 <= i < plan.queue@.len() implies wanted.contains(
        #[trigger] plan.queue@[i],
    ) by {
        if i < first {
            assert(plan.queue@[i] == f[i]);
            assert(fresh.contains(f[i]));
        } else {
            assert(plan.queue@[i] == b[i - first]);
            assert(backlog.contains(b[i - first]));
        }
    }
}

/// Rotation: within a tier, a target that was never searched, or was
/// searched longer ago, is never behind one searched more recently.
pub proof fn the_queue_rotates(before: Seq<Wanted>, after: Seq<Wanted>, i: int, j: int)
    requires
        order::sorted_from(before, after),
        0 <= i < j < after.len(),
        after[i].tier == after[j].tier,
    ensures
        !searched_before(after[j].last_searched, after[i].last_searched),
{
    let places = choose|places: Seq<int>| #[trigger]
        order::is_ranking(before, places) && after == order::listed(before, places);
    assert(order::in_order(before, places[i], places[j]));
}

// ---------------------------------------------------------------------
// Targets
// ---------------------------------------------------------------------

/// Whether a film exists to be found: it is not announced or in production,
/// and its digital release is not ahead. A missing date counts as out.
pub open spec fn is_out(item: LibraryItem, now: i128) -> bool {
    &&& item.status != Some(ProductionStatus::InProduction)
    &&& item.status != Some(ProductionStatus::Announced)
    &&& match item.digital_release_at {
        Some(date) => date <= now,
        None => true,
    }
}

/// Whether a film exists to be found yet.
pub fn movie_is_out(item: &LibraryItem, now: i128) -> (r: bool)
    ensures
        r == is_out(*item, now),
{
    if let Some(status) = item.status {
        match status {
            ProductionStatus::InProduction | ProductionStatus::Announced => {
                return false;
            },
            ProductionStatus::Released
            | ProductionStatus::Returning
            | ProductionStatus::Ended
            | ProductionStatus::Cancelled => {},
        }
    }
    match item.digital_release_at {
        Some(date) => date <= now,
        None => true,
    }
}

/// Whether `t` is the target of a film on this axis.
pub open spec fn is_movie_target(t: Target, item: LibraryItem, axis: SearchAxis) -> bool {
    &&& t.label@ == item.title@
    &&& t.episode is None
    &&& t.keys == (SearchKeys {
        tmdb: axis.tmdb,
        imdb: axis.imdb,
        tvdb: None,
        season: None,
        episode: None,
    })
    &&& t.episode_marker is None
}

/// What a film is looked for by.
pub open spec fn is_film_target(r: Option<Target>, item: LibraryItem, axis: SearchAxis) -> bool {
    match r {
        Some(t) => is_movie_target(t, item, axis) && (axis.tmdb is Some || axis.imdb is Some),
        None => axis.tmdb is None && axis.imdb is None,
    }
}

/// Search axis for a movie; `None` when the item carries no id a film can
/// be searched by.
pub fn movie_target(item: &LibraryItem, axis: &SearchAxis) -> (r: Option<Target>)
    ensures
        is_film_target(r, *item, *axis),
{
    if axis.tmdb.is_none() && axis.imdb.is_none() {
        return None;
    }
    Some(
        Target {
            label: item.title.clone(),
            episode: None,
            keys: SearchKeys {
                tmdb: axis.tmdb,
                imdb: axis.imdb,
                tvdb: None,
                season: None,
                episode: None,
            },
            episode_marker: None,
        },
    )
}

/// What happens to one episode of a sweep.
pub enum Fate {
    /// Outside the scope, or numbered in a way no release is.
    Outside,
    /// Paused by the operator.
    Unmonitored,
    /// Not aired, or without a date.
    Unaired,
    /// Searched for.
    Wanted,
}

pub open spec fn fits_marker(n: i32) -> bool {
    0 <= n <= u16::MAX
}

pub open spec fn fate(e: Episode, scope: Scope, now: i128) -> Fate {
    if e.season_number < 0 || !in_scope(scope, e.season_number, e.episode_number) {
        Fate::Outside
    } else if !e.monitored {
        Fate::Unmonitored
    } else if e.air_date is None || e.air_date->0 > now {
        Fate::Unaired
    } else if fits_marker(e.season_number) && fits_marker(e.episode_number) {
        Fate::Wanted
    } else {
        Fate::Outside
    }
}

/// The episodes with this fate, in order.
pub open spec fn with_fate(episodes: Seq<Episode>, scope: Scope, now: i128, f: Fate) -> Seq<Episode>
    decreases episodes.len(),
{
    if episodes.len() == 0 {
        Seq::empty()
    } else if fate(episodes.last(), scope, now) == f {
        with_fate(episodes.drop_last(), scope, now, f).push(episodes.last())
    } else {
        with_fate(episodes.drop_last(), scope, now, f)
    }
}

/// The label of an episode target: the title and its marker.
pub open spec fn episode_label(title: Seq<char>, season: int, episode: int) -> Seq<char> {
    title + " S"@ + text::padded(season as nat) + "E"@ + text::padded(episode as nat)
}

/// Whether `t` is the target of an episode: the stored coordinate is the
/// one asked for, and the one a title must carry.
pub open spec fn is_episode_target(t: Target, item: LibraryItem, e: Episode, tvdb: u32) -> bool {
    &&& t.label@ == episode_label(item.title@, e.season_number as int, e.episode_number as int)
    &&& t.episode == Some(e)
    &&& t.keys == (SearchKeys {
        tmdb: None,
        imdb: None,
        tvdb: Some(tvdb),
        season: Some(e.season_number as u16),
        episode: Some(e.episode_number as u16),
    })
    &&& t.episode_marker == Some((e.season_number as u16, e.episode_number as u16))
}

/// Whether the targets are those of these episodes, in order.
pub open spec fn targets_for(
    targets: Seq<Target>,
    item: LibraryItem,
    episodes: Seq<Episode>,
    tvdb: u32,
) -> bool {
    &&& targets.len() == episodes.len()
    &&& forall|i: int|
        0 <= i < targets.len() ==> is_episode_target(#[trigger] targets[i], item, episodes[i], tvdb)
}

/// Whether a plan is the one for these episodes.
pub open spec fn is_episode_plan(
    plan: TargetPlan,
    item: LibraryItem,
    episodes: Seq<Episode>,
    tvdb: u32,
    now: i128,
    scope: Scope,
) -> bool {
    &&& targets_for(plan.targets@, item, with_fate(episodes, scope, now, Fate::Wanted), tvdb)
    &&& plan.skipped_unmonitored == with_fate(episodes, scope, now, Fate::Unmonitored).len()
    &&& plan.skipped_unaired == with_fate(episodes, scope, now, Fate::Unaired).len()
    &&& plan.skipped_unreleased == 0
    &&& !plan.no_search_axis
    &&& plan.rejected@.len() == 0
}

/// One target per monitored episode that has already aired. Specials are
/// not excluded; the monitored flag is what keeps them out of the way.
pub fn episode_targets(
    item: &LibraryItem,
    episodes: &[Episode],
    tvdb: u32,
    now: i128,
    scope: Scope,
) -> (r: TargetPlan)
    ensures
        is_episode_plan(r, *item, episodes@, tvdb, now, scope),
{
    let mut targets: Vec<Target> = Vec::new();
    let mut skipped_unmonitored: usize = 0;
    let mut skipped_unaired: usize = 0;
    let mut i: usize = 0;
    while i < episodes.len()
        invariant
            i <= episodes.len(),
            skipped_unmonitored <= i,
            skipped_unaired <= i,
            targets_for(
                targets@,
                *item,
                with_fate(episodes@.take(i as int), scope, now, Fate::Wanted),
                tvdb,
            ),
            skipped_unmonitored == with_fate(
                episodes@.take(i as int),
                scope,
                now,
                Fate::Unmonitored,
            ).len(),
            skipped_unaired == with_fate(episodes@.take(i as int), scope, now, Fate::Unaired).len(),
        decreases episodes.len() - i,
    {
        assert(episodes@.take(i + 1).drop_last() == episodes@.take(i as int));
        assert(episodes@.take(i + 1).last() == episodes@[i as int]);
        let e: Episode = episodes[i];
        i += 1;
        if e.season_number < 0 || !scope.covers(e.season_number, e.episode_number) {
            continue;
        }
        if !e.monitored {
            skipped_unmonitored += 1;
            continue;
        }
        let aired = match e.air_date {
            Some(d) => d <= now,
            None => false,
        };
        if !aired {
            skipped_unaired += 1;
            continue;
        }
        if e.season_number > 65535 || e.episode_number < 0 || e.episode_number > 65535 {
            continue;
        }
        let season: u16 = e.season_number as u16;
        let number: u16 = e.episode_number as u16;
        let mut label = chars_of(item.title.as_str());
        extend_str(&mut label, " S");
        extend(&mut label, &padded_of(season as u64));
        extend_str(&mut label, "E");
        extend(&mut label, &padded_of(number as u64));
        targets.push(
            Target {
                label: string_of(&label),
                episode: Some(e),
                keys: SearchKeys {
                    tmdb: None,
                    imdb: None,
                    tvdb: Some(tvdb),
                    season: Some(season),
                    episode: Some(number),
                },
                episode_marker: Some((season, number)),
            },
        );
    }
    assert(episodes@.take(episodes.len() as int) == episodes@);
    TargetPlan {
        targets,
        skipped_unmonitored,
        skipped_unaired,
        skipped_unreleased: 0,
        no_search_axis: false,
        rejected: Vec::new(),
    }
}

/// A plan that only says why nothing was searched.
pub open spec fn is_refusal(
    plan: TargetPlan,
    unreleased: int,
    no_axis: bool,
    ids: Seq<StoredId>,
    media: MediaType,
) -> bool {
    &&& plan.targets@.len() == 0
    &&& plan.skipped_unmonitored == 0
    &&& plan.skipped_unaired == 0
    &&& plan.skipped_unreleased == unreleased
    &&& plan.no_search_axis == no_axis
    &&& axis::names(plan.rejected@, axis::refused(ids, media))
}

/// Whether a plan is the one for an item, within a scope.
pub open spec fn is_target_plan(
    r: TargetPlan,
    item: LibraryItem,
    ids: Seq<StoredId>,
    episodes: Seq<Episode>,
    now: i128,
    scope: Scope,
) -> bool {
    match item.media_type {
        MediaType::Movie => if scope != Scope::Item {
            is_empty_plan(r)
        } else if !is_out(item, now) {
            is_refusal(r, 1, false, ids, MediaType::Movie)
        } else if axis::axis_of(ids, MediaType::Movie, catalogue::MetadataSource::Tmdb) is None
            && axis::axis_of(ids, MediaType::Movie, catalogue::MetadataSource::Imdb) is None {
            is_refusal(r, 0, true, ids, MediaType::Movie)
        } else {
            &&& r.targets@.len() == 1
            &&& r.skipped_unmonitored == 0
            &&& r.skipped_unaired == 0
            &&& r.skipped_unreleased == 0
            &&& !r.no_search_axis
            &&& r.rejected@.len() == 0
            &&& exists|a: SearchAxis|
                {
                    &&& #[trigger] is_movie_target(r.targets@[0], item, a)
                    &&& axis::is_key(
                        a.tmdb,
                        axis::axis_of(
                            ids,
                            MediaType::Movie,
                            catalogue::MetadataSource::Tmdb,
                        ),
                    )
                    &&& axis::is_key(
                        a.imdb,
                        axis::axis_of(
                            ids,
                            MediaType::Movie,
                            catalogue::MetadataSource::Imdb,
                        ),
                    )
                }
        },
        MediaType::Tv => match axis::axis_of(
            ids,
            MediaType::Tv,
            catalogue::MetadataSource::Tvdb,
        ) {
            Some(tvdb) => is_episode_plan(r, item, episodes, tvdb as u32, now, scope),
            None => is_refusal(r, 0, true, ids, MediaType::Tv),
        },
    }
}

/// Everything worth searching for on one item, within `scope`. A film has
/// no seasons, so a narrowed sweep of one searches nothing; a film that is
/// not out is not missing; a title without a usable id says so and names the
/// ids that could not be used.
pub fn build_targets(
    item: &LibraryItem,
    ids: &[StoredId],
    episodes: &[Episode],
    now: i128,
    scope: Scope,
) -> (r: TargetPlan)
    ensures
        is_target_plan(r, *item, ids@, episodes@, now, scope),
{
    let (found, rejected) = axis::resolve(ids, item.media_type);
    match item.media_type {
        MediaType::Movie => {
            if scope.is_narrowed() {
                return TargetPlan::default();
            }
            if !movie_is_out(item, now) {
                let mut plan = TargetPlan::default();
                plan.skipped_unreleased = 1;
                plan.rejected = rejected;
                return plan;
            }
            match movie_target(item, &found) {
                Some(target) => {
                    let mut plan = TargetPlan::default();
                    plan.targets.push(target);
                    assert(is_movie_target(plan.targets@[0], *item, found));
                    plan
                },
                None => {
                    let mut plan = TargetPlan::default();
                    plan.no_search_axis = true;
                    plan.rejected = rejected;
                    plan
                },
            }
        },
        MediaType::Tv => match found.tvdb {
            Some(tvdb) => episode_targets(item, episodes, tvdb, now, scope),
            None => {
                let mut plan = TargetPlan::default();
                plan.no_search_axis = true;
                plan.rejected = rejected;
                plan
            },
        },
    }
}

// ---------------------------------------------------------------------
// One item's share of the queue
// ---------------------------------------------------------------------

/// What is known of a target before it is queued.
#[derive(Debug, Clone, Copy, PartialEq, Eq, Structural)]
pub struct Standing {
    /// A live grab already answers for it.
    pub covered: bool,
    /// When it was last searched.
    pub last_searched: Option<i128>,
}

/// Whether `r` says that a title is covered.
pub open spec fn is_coverage(r: bool, coverage: Seq<(u128, bool)>, item_id: u128) -> bool {
    r == exists|i: int|
        0 <= i < coverage.len() && (#[trigger] coverage[i]).0 == item_id && coverage[i].1
}

/// Whether any live grab of the item answers for the target. Each row
/// carries its item and whether it covers what is asked about.
pub fn is_covered(coverage: &[(u128, bool)], item_id: u128) -> (r: bool)
    ensures
        is_coverage(r, coverage@, item_id),
{
    let mut i: usize = 0;
    while i < coverage.len()
        invariant
            i <= coverage.len(),
            forall|j: int|
                0 <= j < i ==> !((#[trigger] coverage@[j]).0 == item_id && coverage@[j].1),
        decreases coverage.len() - i,
    {
        if coverage[i].0 == item_id && coverage[i].1 {
            return true;
        }
        i += 1;
    }
    false
}

/// The targets no grab covers, each with its place in line.
pub open spec fn queued(
    item: LibraryItem,
    targets: Seq<Target>,
    standings: Seq<Standing>,
    now: i128,
) -> Seq<Wanted>
    decreases targets.len(),
{
    if targets.len() == 0 {
        Seq::empty()
    } else {
        let n = targets.len() - 1;
        let before = queued(item, targets.drop_last(), standings, now);
        if standings[n].covered {
            before
        } else {
            before.push(
                Wanted {
                    tier: tier_view(item, targets[n].episode, now),
                    last_searched: standings[n].last_searched,
                    item_id: item.id,
                    target: targets[n],
                },
            )
        }
    }
}

/// What queueing a title's targets adds.
pub open spec fn is_enqueued(
    before: ScanSummary,
    after: ScanSummary,
    held: Seq<Wanted>,
    all: Seq<Wanted>,
    item: LibraryItem,
    targets: Seq<Target>,
    standings: Seq<Standing>,
    now: i128,
) -> bool {
    &&& all == held + queued(item, targets, standings, now)
    &&& after.targets == before.targets + targets.len()
    &&& after.skipped_covered == before.skipped_covered + targets.len() - queued(
        item,
        targets,
        standings,
        now,
    ).len()
    &&& after == (ScanSummary {
        targets: after.targets,
        skipped_covered: after.skipped_covered,
        ..before
    })
}

/// Queue what one item wants: every target is counted, the covered ones as
/// skipped, and the rest join the queue behind what is already there.
pub fn enqueue(
    summary: &mut ScanSummary,
    queue: &mut Vec<Wanted>,
    item: &LibraryItem,
    targets: Vec<Target>,
    standings: &[Standing],
    now: i128,
)
    requires
        standings.len() == targets.len(),
        old(summary).targets + targets.len() <= usize::MAX,
        old(summary).skipped_covered + targets.len() <= usize::MAX,
    ensures
        is_enqueued(*old(summary), *final(summary), old(queue)@, final(queue)@, *item, targets@, standings@, now),
{
    let ghost all = targets@;
    let ghost start = queue@;
    let ghost before = *summary;
    let n: usize = targets.len();
    let mut rest = targets;
    let mut i: usize = 0;
    assert(start + queued(*item, all.take(0), standings@, now) =~= start);
    while i < n
        invariant
            n == all.len(),
            n == standings.len(),
            i <= n,
            rest@ == all.skip(i as int),
            before.targets + n <= usize::MAX,
            before.skipped_covered + n <= usize::MAX,
            queue@ == start + queued(*item, all.take(i as int), standings@, now),
            queued(*item, all.take(i as int), standings@, now).len() <= i,
            summary.targets == before.targets + i,
            summary.skipped_covered == before.skipped_covered + i - queued(
                *item,
                all.take(i as int),
                standings@,
                now,
            ).len(),
            *summary == (ScanSummary {
                targets: summary.targets,
                skipped_covered: summary.skipped_covered,
                ..before
            }),
        decreases n - i,
    {
        assert(all.take(i + 1).drop_last() =~= all.take(i as int));
        assert(rest@[0] == all[i as int]);
        let target = rest.remove(0);
        assert(rest@ =~= all.skip(i + 1));
        summary.targets = summary.targets + 1;
        if standings[i].covered {
            summary.skipped_covered = summary.skipped_covered + 1;
        } else {
            let tier = tier_of(item, target.episode.as_ref(), now);
            queue.push(
                Wanted {
                    tier,
                    last_searched: standings[i].last_searched,
                    item_id: item.id,
                    target,
                },
            );
        }
        i += 1;
    }
    assert(all.take(n as int) =~= all);
}

// ---------------------------------------------------------------------
// The sweep
// ---------------------------------------------------------------------

/// One item of a sweep: what there is to search for, and what is known of
/// each target.
#[derive(Debug, Clone)]
pub struct ItemScan {
    pub item: LibraryItem,
    pub plan: TargetPlan,
    pub standings: Vec<Standing>,
}

/// What a sweep will search, in order, and its summary so far.
#[derive(Debug)]
pub struct Sweep {
    pub queue: Vec<Wanted>,
    pub summary: ScanSummary,
}

/// Everything the items want that no grab covers, in the items' order.
pub open spec fn all_queued(scans: Seq<ItemScan>, now: i128) -> Seq<Wanted>
    decreases scans.len(),
{
    if scans.len() == 0 {
        Seq::empty()
    } else {
        let s = scans.last();
        all_queued(scans.drop_last(), now) + queued(s.item, s.plan.targets@, s.standings@, now)
    }
}

/// What the items' plans add up to.
pub struct Tally {
    pub targets: nat,
    pub unmonitored: nat,
    pub unaired: nat,
    pub unreleased: nat,
    pub no_axis: bool,
    pub rejections: Seq<Seq<char>>,
}

pub open spec fn tally(scans: Seq<ItemScan>) -> Tally
    decreases scans.len(),
{
    if scans.len() == 0 {
        Tally {
            targets: 0,
            unmonitored: 0,
            unaired: 0,
            unreleased: 0,
            no_axis: false,
            rejections: Seq::empty(),
        }
    } else {
        let t = tally(scans.drop_last());
        let plan = scans.last().plan;
        Tally {
            targets: t.targets + plan.targets@.len(),
            unmonitored: t.unmonitored + plan.skipped_unmonitored as nat,
            unaired: t.unaired + plan.skipped_unaired as nat,
            unreleased: t.unreleased + plan.skipped_unreleased as nat,
            no_axis: t.no_axis || plan.no_search_axis,
            rejections: t.rejections + rejection_texts(plan.rejected@),
        }
    }
}

/// Whether a summary counts these plans, and nothing was searched yet.
pub open spec fn counts(s: ScanSummary, t: Tally, wanted: nat, over_cap: int) -> bool {
    &&& s.targets == t.targets
    &&& s.skipped_covered == t.targets - wanted
    &&& s.skipped_over_cap == over_cap
    &&& s.searches == 0
    &&& s.grabbed == 0
    &&& s.no_candidate == 0
    &&& s.exhausted == 0
    &&& s.skipped_unmonitored == t.unmonitored
    &&& s.skipped_unaired == t.unaired
    &&& s.skipped_unreleased == t.unreleased
    &&& s.no_search_axis == t.no_axis
    &&& text::views(s.axis_rejections@) == t.rejections
    &&& !s.paused
    &&& s.failures@.len() == 0
}

/// Whether the counters of a sweep fit the machine.
pub open spec fn fits_counters(t: Tally) -> bool {
    &&& t.targets <= usize::MAX
    &&& t.unmonitored <= usize::MAX
    &&& t.unaired <= usize::MAX
    &&& t.unreleased <= usize::MAX
}

proof fn lemma_tally_grows(scans: Seq<ItemScan>, n: int)
    requires
        0 <= n <= scans.len(),
    ensures
        tally(scans.take(n)).targets <= tally(scans).targets,
        tally(scans.take(n)).unmonitored <= tally(scans).unmonitored,
        tally(scans.take(n)).unaired <= tally(scans).unaired,
        tally(scans.take(n)).unreleased <= tally(scans).unreleased,
    decreases scans.len() - n,
{
    if n < scans.len() {
        lemma_tally_grows(scans, n + 1);
        assert(scans.take(n + 1).drop_last() =~= scans.take(n));
    } else {
        assert(scans.take(n) =~= scans);
    }
}

/// What a sweep over the library searches for.
pub open spec fn is_full_sweep(r: Sweep, scans: Seq<ItemScan>, budget: usize, now: i128) -> bool {
    &&& is_cycle(
        all_queued(scans, now),
        budget as int,
        (CyclePlan { queue: r.queue, over_cap: r.summary.skipped_over_cap }),
    )
    &&& counts(
        r.summary,
        tally(scans),
        all_queued(scans, now).len(),
        r.summary.skipped_over_cap as int,
    )
}

/// Plan a sweep over every monitored item: count what is left out and why,
/// then order what is wanted and cut it at the budget.
pub fn run_once(scans: Vec<ItemScan>, budget: usize, now: i128) -> (r: Sweep)
    requires
        budget >= 1,
        forall|i: int|
            0 <= i < scans@.len() ==> (#[trigger] scans@[i]).standings.len()
                == scans@[i].plan.targets.len(),
        fits_counters(tally(scans@)),
    ensures
        is_full_sweep(r, scans@, budget, now),
{
    let ghost all = scans@;
    let n: usize = scans.len();
    let mut rest = scans;
    let mut summary = ScanSummary::default();
    let mut wanted: Vec<Wanted> = Vec::new();
    let mut i: usize = 0;
    assert(text::views(summary.axis_rejections@) =~= tally(all.take(0)).rejections);
    while i < n
        invariant
            n == all.len(),
            i <= n,
            rest@ == all.skip(i as int),
            forall|k: int|
                0 <= k < all.len() ==> (#[trigger] all[k]).standings.len()
                    == all[k].plan.targets.len(),
            fits_counters(tally(all)),
            wanted@ == all_queued(all.take(i as int), now),
            wanted@.len() <= tally(all.take(i as int)).targets,
            counts(summary, tally(all.take(i as int)), wanted@.len(), 0),
        decreases n - i,
    {
        proof {
            lemma_tally_grows(all, i + 1);
            assert(all.take(i + 1).drop_last() =~= all.take(i as int));
            assert(all.take(i + 1).last() == all[i as int]);
            assert(rest@[0] == all[i as int]);
        }
        let scan = rest.remove(0);
        assert(rest@ =~= all.skip(i + 1));
        proof {
            lemma_queued_is_no_longer(scan.item, scan.plan.targets@, scan.standings@, now);
        }
        summary.absorb(&scan.plan);
        enqueue(
            &mut summary,
            &mut wanted,
            &scan.item,
            scan.plan.targets,
            &scan.standings,
            now,
        );
        i += 1;
    }
    assert(all.take(n as int) =~= all);
    let plan = plan_cycle(wanted, budget);
    summary.skipped_over_cap = plan.over_cap;
    Sweep { queue: plan.queue, summary }
}

proof fn lemma_queued_is_no_longer(
    item: LibraryItem,
    targets: Seq<Target>,
    standings: Seq<Standing>,
    now: i128,
)
    ensures
        queued(item, targets, standings, now).len() <= targets.len(),
    decreases targets.len(),
{
    if targets.len() > 0 {
        lemma_queued_is_no_longer(item, targets.drop_last(), standings, now);
    }
}

/// What a sweep over one title searches for.
pub open spec fn is_item_sweep(r: Sweep, scan: ItemScan, now: i128) -> bool {
    &&& r.queue@ == queued(scan.item, scan.plan.targets@, scan.standings@, now)
    &&& counts(r.summary, tally(seq![scan]), r.queue@.len(), 0)
}

/// Plan a sweep of one item, past the ceiling and the rotation: both share
/// a budget across the catalogue, and there is nothing to be fair to here.
pub fn scan_item(scan: ItemScan, now: i128) -> (r: Sweep)
    requires
        scan.standings.len() == scan.plan.targets.len(),
    ensures
        is_item_sweep(r, scan, now),
{
    let mut summary = ScanSummary::default();
    let mut queue: Vec<Wanted> = Vec::new();
    proof {
        let one = seq![scan];
        assert(one.drop_last() =~= Seq::<ItemScan>::empty());
        assert(one.last() == scan);
        reveal_with_fuel(tally, 2);
        assert(tally(one).rejections =~= rejection_texts(scan.plan.rejected@));
        lemma_queued_is_no_longer(scan.item, scan.plan.targets@, scan.standings@, now);
    }
    summary.absorb(&scan.plan);
    enqueue(&mut summary, &mut queue, &scan.item, scan.plan.targets, &scan.standings, now);
    Sweep { queue, summary }
}

/// What a sweep that was asked for searches for.
pub open spec fn is_asked_sweep(r: Sweep, paused: bool, scan: ItemScan, now: i128) -> bool {
    if paused {
        r.queue@.len() == 0 && r.summary.paused && is_blank(
            ScanSummary { paused: false, ..r.summary },
        )
    } else {
        r.queue@ == queued(scan.item, scan.plan.targets@, scan.standings@, now) && counts(
            r.summary,
            tally(seq![scan]),
            r.queue@.len(),
            0,
        )
    }
}

/// Plan a sweep an operator asked for. Nothing is swept while paused, and
/// the summary says so.
pub fn run_once_for_target(paused: bool, scan: ItemScan, now: i128) -> (r: Sweep)
    requires
        scan.standings.len() == scan.plan.targets.len(),
    ensures
        is_asked_sweep(r, paused, scan, now),
{
    if paused {
        return Sweep { queue: Vec::new(), summary: ScanSummary::paused() };
    }
    scan_item(scan, now)
}

/// Plan a sweep of a whole item that an operator asked for.
pub fn run_once_for_item(paused: bool, scan: ItemScan, now: i128) -> (r: Sweep)
    requires
        scan.standings.len() == scan.plan.targets.len(),
    ensures
        is_asked_sweep(r, paused, scan, now),
{
    run_once_for_target(paused, scan, now)
}

/// Whether `r` says that a cycle runs.
pub open spec fn is_cycle_run(r: bool, paused: bool, enabled_clients: Option<usize>) -> bool {
    r == (!paused && enabled_clients is Some && enabled_clients->0 > 0)
}

/// Whether a scheduled cycle runs: not while paused, not when the download
/// clients cannot be read, and not when none is enabled, since nothing could
/// be delivered.
pub fn run_one_cycle(paused: bool, enabled_clients: Option<usize>) -> (r: bool)
    ensures
        is_cycle_run(r, paused, enabled_clients),
{
    match enabled_clients {
        Some(n) => !paused && n > 0,
        None => false,
    }
}

/// The profile a title is judged by.
pub open spec fn is_profile(
    r: Result<Option<ProfileRule>, AppError>,
    profile_id: Option<u128>,
    found: Result<ProfileRule, AppError>,
) -> bool {
    match profile_id {
        None => r == Ok::<Option<ProfileRule>, AppError>(None),
        Some(_) => match found {
            Ok(p) => r == Ok::<Option<ProfileRule>, AppError>(Some(p)),
            Err(AppError::NotFound(_)) => r == Ok::<Option<ProfileRule>, AppError>(None),
            Err(e) => r == Err::<Option<ProfileRule>, AppError>(e),
        },
    }
}

/// The profile of an item: none when it names none, and none when the one it
/// names is gone, so that a stale id does not stall the sweep.
pub fn resolve_profile(
    profile_id: Option<u128>,
    found: Result<ProfileRule, AppError>,
) -> (r: Result<Option<ProfileRule>, AppError>)
    ensures
        is_profile(r, profile_id, found),
{
    if profile_id.is_none() {
        return Ok(None);
    }
    match found {
        Ok(p) => Ok(Some(p)),
        Err(AppError::NotFound(_)) => Ok(None),
        Err(e) => Err(e),
    }
}

// ---------------------------------------------------------------------
// Candidates
// ---------------------------------------------------------------------

/// The profile an item is judged under.
#[derive(Debug, Clone, Copy, PartialEq, Eq, Structural)]
pub struct ProfileRule {
    pub id: u128,
    pub push_threshold: u32,
}

pub open spec fn threshold_of(profile: Option<ProfileRule>) -> u32 {
    match profile {
        Some(p) => p.push_threshold,
        None => DEFAULT_PUSH_THRESHOLD,
    }
}

/// A release's score under the item's profile.
pub open spec fn score_view(decision: DecisionRow, profile: Option<ProfileRule>) -> u32 {
    match profile {
        Some(p) => catalogue::score_under(decision, p.id),
        None => decision.score,
    }
}

/// Whether a release is worth grabbing for a target.
pub open spec fn is_candidate(
    d: DecisionRow,
    profile: Option<ProfileRule>,
    marked: Option<(u16, u16)>,
) -> bool {
    &&& !d.rejected
    &&& d.download_url is Some
    &&& match marked {
        Some((season, episode)) => marker::names_episode(d.release_name@, season, episode),
        None => true,
    }
    &&& score_view(d, profile) >= threshold_of(profile)
}

/// A candidate's place among the rows, with what it is ordered by.
#[derive(Debug, Clone, Copy, PartialEq, Eq, Structural)]
pub struct Scored {
    pub index: usize,
    pub score: u32,
    pub seeders: u32,
}

impl Ranked for Scored {
    /// Score first, then seeders.
    open spec fn precedes(&self, other: &Self) -> bool {
        self.score > other.score || (self.score == other.score && self.seeders > other.seeders)
    }

    proof fn ranking_is_consistent(a: &Self, b: &Self, c: &Self) {
    }

    fn comes_before(&self, other: &Self) -> (r: bool) {
        self.score > other.score || (self.score == other.score && self.seeders > other.seeders)
    }
}

/// The candidates among the rows, in the order they came.
pub open spec fn candidates(
    rows: Seq<DecisionRow>,
    profile: Option<ProfileRule>,
    marked: Option<(u16, u16)>,
) -> Seq<Scored>
    decreases rows.len(),
{
    if rows.len() == 0 {
        Seq::empty()
    } else {
        let before = candidates(rows.drop_last(), profile, marked);
        let d = rows.last();
        if is_candidate(d, profile, marked) {
            before.push(
                Scored {
                    index: (rows.len() - 1) as usize,
                    score: score_view(d, profile),
                    seeders: d.seeders,
                },
            )
        } else {
            before
        }
    }
}

fn score_for(decision: &DecisionRow, profile: Option<ProfileRule>) -> (r: u32)
    ensures
        r == score_view(*decision, profile),
{
    match profile {
        Some(p) => decision.effective_score(p.id),
        None => decision.score,
    }
}

fn worth_grabbing(d: &DecisionRow, profile: Option<ProfileRule>, target: &Target) -> (r: bool)
    ensures
        r == is_candidate(*d, profile, target.episode_marker),
{
    if d.rejected || d.download_url.is_none() {
        return false;
    }
    if let Some((season, episode)) = target.episode_marker {
        if !title_matches_episode(d.release_name.as_str(), season, episode) {
            return false;
        }
    }
    let threshold: u32 = match profile {
        Some(p) => p.push_threshold,
        None => DEFAULT_PUSH_THRESHOLD,
    };
    score_for(d, profile) >= threshold
}

pub proof fn lemma_candidate_places(
    rows: Seq<DecisionRow>,
    profile: Option<ProfileRule>,
    marked: Option<(u16, u16)>,
)
    requires
        rows.len() <= usize::MAX,
    ensures
        forall|i: int|
            0 <= i < candidates(rows, profile, marked).len() ==> {
                let c = #[trigger] candidates(rows, profile, marked)[i];
                &&& c.index < rows.len()
                &&& is_candidate(rows[c.index as int], profile, marked)
                &&& c.score == score_view(rows[c.index as int], profile)
                &&& c.seeders == rows[c.index as int].seeders
            },
    decreases rows.len(),
{
    if rows.len() > 0 {
        let before = rows.drop_last();
        lemma_candidate_places(before, profile, marked);
        let kept = candidates(before, profile, marked);
        assert forall|i: int| 0 <= i < candidates(rows, profile, marked).len() implies {
            let c = #[trigger] candidates(rows, profile, marked)[i];
            &&& c.index < rows.len()
            &&& is_candidate(rows[c.index as int], profile, marked)
            &&& c.score == score_view(rows[c.index as int], profile)
            &&& c.seeders == rows[c.index as int].seeders
        } by {
            if i < kept.len() {
                let c = kept[i];
                assert(candidates(rows, profile, marked)[i] == c);
                assert(rows[c.index as int] == before[c.index as int]);
            }
        }
    }
}

/// Whether `picked` are the candidates, best first, ties in the order they
/// came.
pub open spec fn is_pick(
    rows: Seq<DecisionRow>,
    profile: Option<ProfileRule>,
    marked: Option<(u16, u16)>,
    picked: Seq<&DecisionRow>,
) -> bool {
    exists|order: Seq<Scored>|
        {
            &&& #[trigger] order::sorted_from(candidates(rows, profile, marked), order)
            &&& picked.len() == order.len()
            &&& forall|i: int|
                0 <= i < order.len() ==> *(#[trigger] picked[i]) == rows[order[i].index as int]
        }
}

/// Releases worth grabbing for one target, best first: by score under the
/// item's profile, then by seeders.
pub fn pick_candidates<'a>(
    decisions: &'a [DecisionRow],
    profile: Option<ProfileRule>,
    target: &Target,
) -> (r: Vec<&'a DecisionRow>)
    ensures
        is_pick(decisions@, profile, target.episode_marker, r@),
{
    let ghost marked = target.episode_marker;
    let mut kept: Vec<Scored> = Vec::new();
    let mut i: usize = 0;
    while i < decisions.len()
        invariant
            i <= decisions.len(),
            marked == target.episode_marker,
            kept@ == candidates(decisions@.take(i as int), profile, marked),
        decreases decisions.len() - i,
    {
        assert(decisions@.take(i + 1).drop_last() == decisions@.take(i as int));
        assert(decisions@.take(i + 1).last() == decisions@[i as int]);
        let d = &decisions[i];
        if worth_grabbing(d, profile, target) {
            kept.push(Scored { index: i, score: score_for(d, profile), seeders: d.seeders });
        }
        i += 1;
    }
    assert(decisions@.take(decisions.len() as int) == decisions@);
    let ghost found = kept@;
    order::sort(&mut kept);
    proof {
        lemma_candidate_places(decisions@, profile, marked);
        order::sorting_keeps_every_item(found, kept@);
    }
    let mut out: Vec<&'a DecisionRow> = Vec::new();
    let mut j: usize = 0;
    while j < kept.len()
        invariant
            j <= kept.len(),
            out@.len() == j,
            forall|k: int|
                0 <= k < kept@.len() ==> (#[trigger] kept@[k]).index < decisions@.len(),
            forall|k: int| 0 <= k < j ==> *(#[trigger] out@[k]) == decisions@[kept@[k].index as int],
        decreases kept.len() - j,
    {
        out.push(&decisions[kept[j].index]);
        j += 1;
    }
    proof {
        assert(order::sorted_from(candidates(decisions@, profile, marked), kept@));
    }
    out
}

/// Every pick is a candidate of the rows, and none is ahead of one with a
/// better score.
pub proof fn picks_are_candidates_best_first(
    rows: Seq<DecisionRow>,
    profile: Option<ProfileRule>,
    marked: Option<(u16, u16)>,
    picked: Seq<&DecisionRow>,
)
    requires
        rows.len() <= usize::MAX,
        is_pick(rows, profile, marked, picked),
    ensures
        forall|i: int|
            0 <= i < picked.len() ==> is_candidate(*(#[trigger] picked[i]), profile, marked)
                && rows.contains(*picked[i]),
        forall|i: int, j: int|
            0 <= i < j < picked.len() ==> score_view(*(#[trigger] picked[i]), profile)
                >= score_view(*(#[trigger] picked[j]), profile),
{
    let found = candidates(rows, profile, marked);
    let order = choose|order: Seq<Scored>|
        {
            &&& #[trigger] order::sorted_from(found, order)
            &&& picked.len() == order.len()
            &&& forall|i: int|
                0 <= i < order.len() ==> *(#[trigger] picked[i]) == rows[order[i].index as int]
        };
    lemma_candidate_places(rows, profile, marked);
    order::sorting_keeps_every_item(found, order);
    assert forall|i: int| 0 <= i < picked.len() implies is_candidate(
        *(#[trigger] picked[i]),
        profile,
        marked,
    ) && rows.contains(*picked[i]) && order[i].score == score_view(*picked[i], profile) by {
        assert(found.contains(order[i]));
        let k = choose|k: int| 0 <= k < found.len() && found[k] == order[i];
        assert(rows[order[i].index as int] == *picked[i]);
    }
    let places = choose|places: Seq<int>| #[trigger]
        order::is_ranking(found, places) && order == order::listed(found, places);
    assert forall|i: int, j: int| 0 <= i < j < picked.len() implies score_view(
        *(#[trigger] picked[i]),
        profile,
    ) >= score_view(*(#[trigger] picked[j]), profile) by {
        assert(order::in_order(found, places[i], places[j]));
        assert(order[i].score == score_view(*picked[i], profile));
        assert(order[j].score == score_view(*picked[j], profile));
    }
}

/// Usenet for a Newznab provider, torrent for everything else.
pub open spec fn protocol_view(kind: Option<String>) -> Protocol {
    match kind {
        Some(k) => if text::eq_fold(k@, "newznab"@) {
            Protocol::Usenet
        } else {
            Protocol::Torrent
        },
        None => Protocol::Torrent,
    }
}

/// Transport a decision travels over: usenet for a Newznab provider, torrent
/// for everything else.
pub fn protocol_of(decision: &DecisionRow) -> (r: Protocol)
    ensures
        r == protocol_view(decision.provider_kind),
{
    match &decision.provider_kind {
        Some(kind) => {
            let a = chars_of(kind.as_str());
            let b = chars_of("newznab");
            if same_fold(&a, &b) {
                Protocol::Usenet
            } else {
                Protocol::Torrent
            }
        },
        None => Protocol::Torrent,
    }
}

// ---------------------------------------------------------------------
// Taking the first available candidate
// ---------------------------------------------------------------------

/// A reservation to ask the barrier for.
#[derive(Debug, Clone)]
pub struct NewGrab {
    pub item_id: u128,
    pub episode_id: Option<u128>,
    pub season_number: Option<i32>,
    pub decision_id: Option<u128>,
    pub provider_id: u128,
    pub provider_name: String,
    pub release_key: String,
    pub release_name: String,
    pub download_url: Option<String>,
    pub protocol: Protocol,
}

/// Whether `g` asks for this release on behalf of this target.
pub open spec fn is_reservation(
    g: NewGrab,
    item_id: u128,
    target: Target,
    d: DecisionRow,
) -> bool {
    &&& g.item_id == item_id
    &&& g.episode_id == match target.episode {
        Some(e) => Some(e.id),
        None => None,
    }
    &&& g.season_number is None
    &&& g.decision_id == Some(d.id)
    &&& d.provider_id == Some(g.provider_id)
    &&& g.provider_name@ == d.provider_name@
    &&& g.release_key@ == d.release_key@
    &&& g.release_name@ == d.release_name@
    &&& text::opt_view(g.download_url) == text::opt_view(d.download_url)
    &&& g.protocol == protocol_view(d.provider_kind)
}

fn reservation(item_id: u128, target: &Target, d: &DecisionRow, provider_id: u128) -> (r: NewGrab)
    requires
        d.provider_id == Some(provider_id),
    ensures
        is_reservation(r, item_id, *target, *d),
{
    NewGrab {
        item_id,
        episode_id: match &target.episode {
            Some(e) => Some(e.id),
            None => None,
        },
        season_number: None,
        decision_id: Some(d.id),
        provider_id,
        provider_name: d.provider_name.clone(),
        release_key: d.release_key.clone(),
        release_name: d.release_name.clone(),
        download_url: match &d.download_url {
            Some(u) => Some(u.clone()),
            None => None,
        },
        protocol: protocol_of(d),
    }
}

/// What happened to one target after candidates were picked.
#[derive(Debug, Clone)]
pub enum TargetOutcome {
    /// A client took a release.
    Grabbed,
    /// Every candidate was refused by the barrier or is out for good.
    Nothing,
    /// The client or the network is down.
    Failed(String),
}

/// What came of trying one candidate.
#[derive(Debug, Clone)]
pub enum Attempt {
    /// The barrier holds the release's key already.
    Refused,
    /// It was reserved and handed over.
    Delivered(DeliveryOutcome),
}

/// What to do next in the walk over the candidates.
#[derive(Debug, Clone)]
pub enum Walk {
    /// Reserve and deliver the candidate at this place.
    Try(usize, NewGrab),
    /// The walk is over.
    Finished(TargetOutcome),
}

/// The first candidate from `from` on whose provider still exists: one
/// without a provider has no key the barrier could hold.
pub open spec fn next_place(candidates: Seq<&DecisionRow>, from: int) -> int
    decreases candidates.len() - from,
{
    if 0 <= from < candidates.len() && candidates[from].provider_id is None {
        next_place(candidates, from + 1)
    } else {
        from
    }
}

/// Whether `walk` moves on to the best candidate left from `from` on, or
/// ends with nothing when none is left.
pub open spec fn moves_on(
    walk: Walk,
    item_id: u128,
    target: Target,
    candidates: Seq<&DecisionRow>,
    from: int,
) -> bool {
    let at = next_place(candidates, from);
    if at < candidates.len() {
        walk matches Walk::Try(k, g) && k == at && is_reservation(g, item_id, target, *candidates[at])
    } else {
        walk matches Walk::Finished(o) && o is Nothing
    }
}

/// Walk on to the best candidate left from `from` on.
pub fn walk_from(
    item_id: u128,
    target: &Target,
    candidates: &[&DecisionRow],
    from: usize,
) -> (r: Walk)
    requires
        from <= candidates.len(),
    ensures
        moves_on(r, item_id, *target, candidates@, from as int),
{
    let mut at: usize = from;
    while at < candidates.len()
        invariant
            from <= at <= candidates.len(),
            next_place(candidates@, from as int) == next_place(candidates@, at as int),
        decreases candidates.len() - at,
    {
        let d: &DecisionRow = candidates[at];
        if let Some(provider_id) = d.provider_id {
            return Walk::Try(at, reservation(item_id, target, d, provider_id));
        }
        at += 1;
    }
    Walk::Finished(TargetOutcome::Nothing)
}

/// Whether `r` is what follows the attempt on the candidate at `at`.
pub open spec fn follows_attempt(
    r: Walk,
    item_id: u128,
    target: Target,
    candidates: Seq<&DecisionRow>,
    at: int,
    attempt: Attempt,
) -> bool {
    match attempt {
        Attempt::Delivered(DeliveryOutcome::Sent { .. }) => r matches Walk::Finished(o) && o
            is Grabbed,
        Attempt::Delivered(DeliveryOutcome::Retryable(reason)) => r matches Walk::Finished(
            TargetOutcome::Failed(why),
        ) && why == reason,
        Attempt::Delivered(DeliveryOutcome::Permanent(_)) => moves_on(
            r,
            item_id,
            target,
            candidates,
            at + 1,
        ),
        Attempt::Refused => moves_on(r, item_id, target, candidates, at + 1),
    }
}

/// What follows the attempt on the candidate at `at`: a sent release ends
/// the walk; a refused or permanently failed one moves on; a retryable
/// failure ends it, because every remaining candidate would fail the same
/// way.
pub fn take_first_available(
    item_id: u128,
    target: &Target,
    candidates: &[&DecisionRow],
    at: usize,
    attempt: Attempt,
) -> (r: Walk)
    requires
        at < candidates.len(),
    ensures
        follows_attempt(r, item_id, *target, candidates@, at as int, attempt),
{
    match attempt {
        Attempt::Delivered(outcome) => match outcome {
            DeliveryOutcome::Sent { .. } => Walk::Finished(TargetOutcome::Grabbed),
            DeliveryOutcome::Retryable(reason) => Walk::Finished(TargetOutcome::Failed(reason)),
            DeliveryOutcome::Permanent(_) => walk_from(item_id, target, candidates, at + 1),
        },
        Attempt::Refused => walk_from(item_id, target, candidates, at + 1),
    }
}

/// What a searched target came to.
#[derive(Debug, Clone)]
pub enum SearchResult {
    /// The search itself failed.
    Error(String),
    /// Nothing in the results was worth grabbing.
    NoCandidate,
    /// The walk over the candidates ended.
    Walked(TargetOutcome),
}

/// What an ended search adds to the summary.
pub open spec fn is_searched(
    before: ScanSummary,
    after: ScanSummary,
    label: &str,
    result: SearchResult,
) -> bool {
    &&& after.searches == before.searches + 1
    &&& after.no_candidate == before.no_candidate + if result is NoCandidate {
        1int
    } else {
        0
    }
    &&& after.grabbed == before.grabbed + if result == SearchResult::Walked(
        TargetOutcome::Grabbed,
    ) {
        1int
    } else {
        0
    }
    &&& after.exhausted == before.exhausted + if result == SearchResult::Walked(
        TargetOutcome::Nothing,
    ) {
        1int
    } else {
        0
    }
    &&& match result {
        SearchResult::Error(why) | SearchResult::Walked(TargetOutcome::Failed(why)) => {
            &&& after.failures@.len() == before.failures@.len() + 1
            &&& after.failures@.drop_last() == before.failures@
            &&& after.failures@.last().0@ == label@
            &&& after.failures@.last().1@ == why@
        },
        _ => after.failures == before.failures,
    }
    &&& after == (ScanSummary {
        searches: after.searches,
        no_candidate: after.no_candidate,
        grabbed: after.grabbed,
        exhausted: after.exhausted,
        failures: after.failures,
        ..before
    })
}

impl ScanSummary {
    /// Count one dispatched search and what it came to. A target whose
    /// candidates were all spent is told apart from one that had none.
    pub fn run_target(&mut self, label: &str, result: SearchResult)
        requires
            old(self).searches < usize::MAX,
            old(self).grabbed < usize::MAX,
            old(self).no_candidate < usize::MAX,
            old(self).exhausted < usize::MAX,
        ensures
            is_searched(*old(self), *final(self), label, result),
    {
        self.searches = self.searches + 1;
        match result {
            SearchResult::Error(why) => {
                self.failures.push((label.to_owned(), why));
                assert(self.failures@.drop_last() =~= old(self).failures@);
            },
            SearchResult::NoCandidate => {
                self.no_candidate = self.no_candidate + 1;
            },
            SearchResult::Walked(outcome) => match outcome {
                TargetOutcome::Grabbed => {
                    self.grabbed = self.grabbed + 1;
                },
                TargetOutcome::Nothing => {
                    self.exhausted = self.exhausted + 1;
                },
                TargetOutcome::Failed(why) => {
                    self.failures.push((label.to_owned(), why));
                    assert(self.failures@.drop_last() =~= old(self).failures@);
                },
            },
        }
    }
}

} // verus!
