//! The one-time move from a translated numbering to a declared owner.
//!
//! It answers one question per title: where does this one go, and what would
//! happen if it went there. Values a sweep derived arrive unpinned; values an
//! operator decided arrive pinned, so that no sweep takes them back.

use vstd::prelude::*;

use crate::catalogue;
use crate::catalogue::{MediaType, MetadataSource};
use crate::metadata::axis::StoredId;
use crate::metadata::owned;
use crate::metadata::owned::find_id;
use crate::text;
use crate::text::{chars_of, extend_str, string_of, trimmed_str};

verus! {

/// Who decided a title's numbering.
#[derive(Debug, Clone, Copy, PartialEq, Eq, Structural)]
pub enum Legacy {
    /// Derived from an \*arr instance.
    Arr,
    /// Derived from TheTVDB.
    Tvdb,
    /// An episode group the operator picked.
    Tmdb,
    /// Blocks the operator typed.
    Manual,
    /// The operator turned it off.
    Off,
}

/// The family an ordering belongs to.
#[derive(Debug, Clone, Copy, PartialEq, Eq, Structural)]
pub enum OrderFamily {
    Default,
    Alternate,
    Manual,
}

pub open spec fn family_label(family: OrderFamily) -> Seq<char> {
    match family {
        OrderFamily::Default => "default"@,
        OrderFamily::Alternate => "alternate"@,
        OrderFamily::Manual => "manual"@,
    }
}

impl OrderFamily {
    /// Label on the wire.
    pub fn label(self) -> (r: &'static str)
        ensures
            r@ == family_label(self),
    {
        match self {
            OrderFamily::Default => "default",
            OrderFamily::Alternate => "alternate",
            OrderFamily::Manual => "manual",
        }
    }
}

/// A run of episodes of one season.
#[derive(Debug, Clone, Copy, PartialEq, Eq, Structural)]
pub struct Block {
    pub season: i32,
    pub size: u32,
}

/// The order a source is asked to put episodes in.
#[derive(Debug, Clone)]
pub enum EpisodeOrder {
    /// The source's own.
    Default,
    /// One of the source's, by its handle.
    Named { family: OrderFamily, handle: String },
    /// Cut by hand.
    Manual { blocks: Vec<Block> },
}

/// The family of an ordering.
pub open spec fn family_of(order: EpisodeOrder) -> OrderFamily {
    match order {
        EpisodeOrder::Default => OrderFamily::Default,
        EpisodeOrder::Named { family, .. } => family,
        EpisodeOrder::Manual { .. } => OrderFamily::Manual,
    }
}

/// The handle of an ordering that has one.
pub open spec fn handle_of(order: EpisodeOrder) -> Option<Seq<char>> {
    match order {
        EpisodeOrder::Named { handle, .. } => Some(handle@),
        _ => None,
    }
}

impl EpisodeOrder {
    /// The family it belongs to.
    pub fn family(&self) -> (r: OrderFamily)
        ensures
            r == family_of(*self),
    {
        match self {
            EpisodeOrder::Default => OrderFamily::Default,
            EpisodeOrder::Named { family, .. } => *family,
            EpisodeOrder::Manual { .. } => OrderFamily::Manual,
        }
    }

    /// The handle that selects it, when there is one.
    pub fn handle(&self) -> (r: Option<&str>)
        ensures
            match r {
                Some(h) => handle_of(*self) == Some(h@),
                None => handle_of(*self) is None,
            },
    {
        match self {
            EpisodeOrder::Named { handle, .. } => Some(handle.as_str()),
            _ => None,
        }
    }
}

/// The sizes one canonical season is cut into.
#[derive(Debug, Clone)]
pub struct RecipeSeason {
    pub season: i32,
    pub sizes: Vec<u32>,
}

/// The sizes behind a hand-declared cut.
#[derive(Debug, Clone)]
pub struct Recipe {
    pub seasons: Vec<RecipeSeason>,
}

/// The blocks of the first `n` sizes of a season.
pub open spec fn season_blocks(s: RecipeSeason, n: int) -> Seq<Block> {
    Seq::new(n as nat, |i: int| Block { season: s.season, size: s.sizes@[i] })
}

/// The blocks of a recipe, season after season.
pub open spec fn recipe_blocks(seasons: Seq<RecipeSeason>) -> Seq<Block>
    decreases seasons.len(),
{
    if seasons.len() == 0 {
        Seq::empty()
    } else {
        recipe_blocks(seasons.drop_last()) + season_blocks(
            seasons.last(),
            seasons.last().sizes.len() as int,
        )
    }
}

impl Recipe {
    /// The blocks the sizes make, season after season.
    pub fn blocks(&self) -> (r: Vec<Block>)
        ensures
            r@ == recipe_blocks(self.seasons@),
    {
        let mut out: Vec<Block> = Vec::new();
        let mut i: usize = 0;
        while i < self.seasons.len()
            invariant
                i <= self.seasons.len(),
                out@ == recipe_blocks(self.seasons@.take(i as int)),
            decreases self.seasons.len() - i,
        {
            let ghost before = out@;
            let s = &self.seasons[i];
            let mut k: usize = 0;
            while k < s.sizes.len()
                invariant
                    k <= s.sizes.len(),
                    out@ == before + season_blocks(*s, k as int),
                decreases s.sizes.len() - k,
            {
                out.push(Block { season: s.season, size: s.sizes[k] });
                k += 1;
                assert(out@ =~= before + season_blocks(*s, k as int));
            }
            assert(self.seasons@.take(i + 1).drop_last() == self.seasons@.take(i as int));
            assert(self.seasons@.take(i + 1).last() == self.seasons@[i as int]);
            i += 1;
        }
        assert(self.seasons@.take(self.seasons.len() as int) == self.seasons@);
        out
    }
}

/// Where one title's numbering goes.
#[derive(Debug, Clone)]
pub struct Destination {
    /// Who will own the shape.
    pub source: MetadataSource,
    /// The ordering to ask that source for.
    pub ordering: EpisodeOrder,
    /// Whether a sweep may move it again.
    pub pinned: bool,
    /// The sizes behind a hand-declared cut.
    pub recipe: Option<Recipe>,
}

/// What reading one title's numbering produced.
#[derive(Debug, Clone)]
pub enum Verdict {
    /// Nobody ever decided a numbering here.
    Untouched,
    /// Where it goes.
    Move(Box<Destination>),
    /// The row does not read as a destination, and why.
    Unreadable(String),
}

/// Whether a destination is what a decision becomes.
pub open spec fn is_destination(
    d: Destination,
    legacy: Legacy,
    handle: Option<Seq<char>>,
    recipe: Option<Recipe>,
) -> bool {
    match legacy {
        Legacy::Arr | Legacy::Tvdb => {
            &&& d.source == MetadataSource::Tvdb
            &&& d.ordering is Default
            &&& !d.pinned
            &&& d.recipe is None
        },
        Legacy::Tmdb => {
            &&& d.source == MetadataSource::Tmdb
            &&& d.ordering is Named
            &&& family_of(d.ordering) == OrderFamily::Alternate
            &&& handle_of(d.ordering) == handle
            &&& d.pinned
            &&& d.recipe is None
        },
        Legacy::Manual => {
            &&& d.source == MetadataSource::Tmdb
            &&& (d.ordering matches EpisodeOrder::Manual { blocks } && recipe is Some && blocks@
                == recipe_blocks(recipe->0.seasons@))
            &&& d.pinned
            &&& d.recipe == recipe
        },
        Legacy::Off => {
            &&& d.source == MetadataSource::Tmdb
            &&& d.ordering is Default
            &&& d.pinned
            &&& d.recipe is None
        },
    }
}

/// Why a decision does not read as a destination.
pub open spec fn unreadable(
    legacy: Legacy,
    handle: Option<Seq<char>>,
    recipe: Option<Recipe>,
) -> Option<Seq<char>> {
    if legacy == Legacy::Tmdb && !(handle is Some && text::trim(handle->0).len() > 0) {
        Some(
            "a numeração veio de um agrupamento do TMDB, mas o título não guarda qual — escolha a ordenação de novo no painel"@,
        )
    } else if legacy == Legacy::Manual && !(recipe is Some && recipe->0.seasons.len() > 0) {
        Some(
            "a numeração foi declarada em blocos, mas não há linhas de onde reconstruí-los — declare os blocos de novo no painel"@,
        )
    } else {
        None
    }
}

pub open spec fn str_view(s: Option<&str>) -> Option<Seq<char>> {
    match s {
        Some(t) => Some(t@),
        None => None,
    }
}

/// Where a decision goes. Derived values land on TheTVDB unpinned; decided
/// values stay with TMDB, pinned. One that names nothing is reported.
pub fn destination_of(legacy: Legacy, handle: Option<&str>, recipe: Option<Recipe>) -> (r: Verdict)
    ensures
        is_verdict(r, legacy, str_view(handle), recipe),
{
    match legacy {
        Legacy::Arr | Legacy::Tvdb => Verdict::Move(
            Box::new(
                Destination {
                    source: MetadataSource::Tvdb,
                    ordering: EpisodeOrder::Default,
                    pinned: false,
                    recipe: None,
                },
            ),
        ),
        Legacy::Tmdb => {
            if let Some(h) = handle {
                if trimmed_str(h).len() > 0 {
                    return Verdict::Move(
                        Box::new(
                            Destination {
                                source: MetadataSource::Tmdb,
                                ordering: EpisodeOrder::Named {
                                    family: OrderFamily::Alternate,
                                    handle: h.to_owned(),
                                },
                                pinned: true,
                                recipe: None,
                            },
                        ),
                    );
                }
            }
            Verdict::Unreadable(
                "a numeração veio de um agrupamento do TMDB, mas o título não guarda qual — escolha a ordenação de novo no painel".to_owned(),
            )
        },
        Legacy::Manual => {
            if let Some(recipe) = recipe {
                if recipe.seasons.len() > 0 {
                    let blocks = recipe.blocks();
                    return Verdict::Move(
                        Box::new(
                            Destination {
                                source: MetadataSource::Tmdb,
                                ordering: EpisodeOrder::Manual { blocks },
                                pinned: true,
                                recipe: Some(recipe),
                            },
                        ),
                    );
                }
            }
            Verdict::Unreadable(
                "a numeração foi declarada em blocos, mas não há linhas de onde reconstruí-los — declare os blocos de novo no painel".to_owned(),
            )
        },
        Legacy::Off => Verdict::Move(
            Box::new(
                Destination {
                    source: MetadataSource::Tmdb,
                    ordering: EpisodeOrder::Default,
                    pinned: true,
                    recipe: None,
                },
            ),
        ),
    }
}

// ---------------------------------------------------------------------
// The blocks behind the rows
// ---------------------------------------------------------------------

/// One renumbered episode: where it stands in the canonical tree, and the
/// season it was put in.
#[derive(Debug, Clone, Copy, PartialEq, Eq, Structural)]
pub struct NumberedRow {
    pub canonical_season: i32,
    pub canonical_episode: i32,
    pub season: i32,
}

/// How many rows of a canonical season fall into a block.
pub open spec fn block_size(rows: Seq<NumberedRow>, season: i32, block: i32) -> nat
    decreases rows.len(),
{
    if rows.len() == 0 {
        0
    } else {
        block_size(rows.drop_last(), season, block) + if rows.last().canonical_season == season
            && rows.last().season == block {
            1nat
        } else {
            0
        }
    }
}

/// The number a listing goes by: the canonical season, or the block within
/// one season.
pub open spec fn key_of(row: NumberedRow, within: Option<i32>) -> Option<i32> {
    match within {
        None => Some(row.canonical_season),
        Some(season) => if row.canonical_season == season {
            Some(row.season)
        } else {
            None
        },
    }
}

pub open spec fn occurs(rows: Seq<NumberedRow>, within: Option<i32>, key: i32) -> bool {
    exists|i: int| 0 <= i < rows.len() && key_of(#[trigger] rows[i], within) == Some(key)
}

pub open spec fn is_ascending(keys: Seq<i32>) -> bool {
    forall|i: int, j: int| 0 <= i < j < keys.len() ==> #[trigger] keys[i] < #[trigger] keys[j]
}

/// Whether `keys` are the numbers that occur: each once, ascending.
pub open spec fn lists_keys(keys: Seq<i32>, rows: Seq<NumberedRow>, within: Option<i32>) -> bool {
    &&& is_ascending(keys)
    &&& forall|k: i32| #[trigger] keys.contains(k) <==> occurs(rows, within, k)
}

/// Whether the sizes are those of the blocks of a season, in order.
pub open spec fn are_sizes(sizes: Seq<u32>, rows: Seq<NumberedRow>, season: i32) -> bool {
    exists|blocks: Seq<i32>|
        {
            &&& #[trigger] lists_keys(blocks, rows, Some(season))
            &&& sizes.len() == blocks.len()
            &&& forall|i: int|
                0 <= i < sizes.len() ==> (#[trigger] sizes[i]) == block_size(
                    rows,
                    season,
                    blocks[i],
                )
        }
}

pub open spec fn season_numbers(seasons: Seq<RecipeSeason>) -> Seq<i32> {
    Seq::new(seasons.len(), |i: int| seasons[i].season)
}

/// Whether a recipe is the one behind the rows: the canonical seasons in
/// order, and for each how many rows fell into each of its blocks, in order.
pub open spec fn is_recipe(seasons: Seq<RecipeSeason>, rows: Seq<NumberedRow>) -> bool {
    &&& lists_keys(season_numbers(seasons), rows, None)
    &&& forall|i: int|
        0 <= i < seasons.len() ==> are_sizes(
            (#[trigger] seasons[i]).sizes@,
            rows,
            seasons[i].season,
        )
}

fn distinct(rows: &[NumberedRow], within: Option<i32>) -> (r: Vec<i32>)
    ensures
        lists_keys(r@, rows@, within),
        r.len() <= rows.len(),
{
    let mut out: Vec<i32> = Vec::new();
    let mut i: usize = 0;
    while i < rows.len()
        invariant
            i <= rows.len(),
            out.len() <= i,
            lists_keys(out@, rows@.take(i as int), within),
        decreases rows.len() - i,
    {
        let ghost seen = rows@.take(i as int);
        let ghost next = rows@.take(i + 1);
        let ghost before = out@;
        let row = rows[i];
        assert(next[i as int] == row);
        let key: Option<i32> = match within {
            None => Some(row.canonical_season),
            Some(season) => if row.canonical_season == season {
                Some(row.season)
            } else {
                None
            },
        };
        assert(key == key_of(row, within));
        if let Some(k) = key {
            let mut at: usize = 0;
            while at < out.len() && out[at] < k
                invariant
                    at <= out.len(),
                    forall|j: int| 0 <= j < at ==> #[trigger] out@[j] < k,
                decreases out.len() - at,
            {
                at += 1;
            }
            if at == out.len() || out[at] != k {
                out.insert(at, k);
                proof {
                    lemma_key_inserted(before, at as int, k);
                }
            } else {
                assert(before[at as int] == k);
            }
        }
        proof {
            assert forall|x: i32| #[trigger] out@.contains(x) <==> occurs(next, within, x) by {
                assert(before.contains(x) <==> occurs(seen, within, x));
                assert(out@.contains(x) <==> before.contains(x) || key == Some(x));
                lemma_occurs_next(rows@, i as int, within, x);
            }
        }
        i += 1;
    }
    assert(rows@.take(rows.len() as int) == rows@);
    out
}

proof fn lemma_key_inserted(before: Seq<i32>, at: int, k: i32)
    requires
        is_ascending(before),
        0 <= at <= before.len(),
        forall|j: int| 0 <= j < at ==> #[trigger] before[j] < k,
        at < before.len() ==> k < before[at],
    ensures
        is_ascending(before.insert(at, k)),
        forall|x: i32|
            #[trigger] before.insert(at, k).contains(x) <==> before.contains(x) || x == k,
{
    let after = before.insert(at, k);
    assert forall|i: int, j: int| 0 <= i < j < after.len() implies #[trigger] after[i]
        < #[trigger] after[j] by {
        let pi = if i < at { i } else { i - 1 };
        let pj = if j < at { j } else { j - 1 };
        if i != at {
            assert(after[i] == before[pi]);
        }
        if j != at {
            assert(after[j] == before[pj]);
        }
        if i == at && j > at + 1 {
            assert(before[at] < before[pj]);
        }
    }
    assert forall|x: i32| #[trigger] after.contains(x) <==> before.contains(x) || x == k by {
        if after.contains(x) {
            let i = choose|i: int| 0 <= i < after.len() && after[i] == x;
            if i != at {
                let p = if i < at { i } else { i - 1 };
                assert(before[p] == x);
            }
        }
        if before.contains(x) {
            let i = choose|i: int| 0 <= i < before.len() && before[i] == x;
            let p = if i < at { i } else { i + 1 };
            assert(after[p] == x);
        }
        if x == k {
            assert(after[at] == x);
        }
    }
}

proof fn lemma_occurs_next(rows: Seq<NumberedRow>, i: int, within: Option<i32>, x: i32)
    requires
        0 <= i < rows.len(),
    ensures
        occurs(rows.take(i + 1), within, x) <==> occurs(rows.take(i), within, x) || key_of(
            rows[i],
            within,
        ) == Some(x),
{
    let seen = rows.take(i);
    let next = rows.take(i + 1);
    if occurs(next, within, x) {
        let j = choose|j: int|
            0 <= j < next.len() && key_of(#[trigger] next[j], within) == Some(x);
        if j < i {
            assert(seen[j] == next[j]);
        }
    }
    if occurs(seen, within, x) {
        let j = choose|j: int|
            0 <= j < seen.len() && key_of(#[trigger] seen[j], within) == Some(x);
        assert(next[j] == seen[j]);
    }
    assert(next[i] == rows[i]);
}

fn size_of_block(rows: &[NumberedRow], season: i32, block: i32) -> (r: u32)
    requires
        rows.len() <= u32::MAX,
    ensures
        r == block_size(rows@, season, block),
{
    let mut n: u32 = 0;
    let mut i: usize = 0;
    while i < rows.len()
        invariant
            i <= rows.len(),
            rows.len() <= u32::MAX,
            n <= i,
            n == block_size(rows@.take(i as int), season, block),
        decreases rows.len() - i,
    {
        assert(rows@.take(i + 1).drop_last() == rows@.take(i as int));
        assert(rows@.take(i + 1).last() == rows@[i as int]);
        if rows[i].canonical_season == season && rows[i].season == block {
            n += 1;
        }
        i += 1;
    }
    assert(rows@.take(rows.len() as int) == rows@);
    n
}

/// Rebuild the sizes an operator typed from the rows they produced: how many
/// rows fell into each block, per canonical season, in order.
pub fn declared_blocks(rows: &[NumberedRow]) -> (r: Recipe)
    requires
        rows.len() <= u32::MAX,
    ensures
        is_recipe(r.seasons@, rows@),
{
    let numbers = distinct(rows, None);
    let mut seasons: Vec<RecipeSeason> = Vec::new();
    let mut i: usize = 0;
    while i < numbers.len()
        invariant
            rows.len() <= u32::MAX,
            i <= numbers.len(),
            seasons.len() == i,
            forall|k: int| 0 <= k < i ==> (#[trigger] seasons@[k]).season == numbers@[k],
            forall|k: int|
                0 <= k < i ==> are_sizes(
                    (#[trigger] seasons@[k]).sizes@,
                    rows@,
                    seasons@[k].season,
                ),
        decreases numbers.len() - i,
    {
        let season: i32 = numbers[i];
        let blocks = distinct(rows, Some(season));
        let mut sizes: Vec<u32> = Vec::new();
        let mut k: usize = 0;
        while k < blocks.len()
            invariant
                rows.len() <= u32::MAX,
                k <= blocks.len(),
                sizes.len() == k,
                forall|j: int|
                    0 <= j < k ==> (#[trigger] sizes@[j]) == block_size(rows@, season, blocks@[j]),
            decreases blocks.len() - k,
        {
            sizes.push(size_of_block(rows, season, blocks[k]));
            k += 1;
        }
        assert(lists_keys(blocks@, rows@, Some(season)));
        assert(are_sizes(sizes@, rows@, season));
        seasons.push(RecipeSeason { season, sizes });
        i += 1;
    }
    assert(season_numbers(seasons@) =~= numbers@);
    Recipe { seasons }
}

/// Where a title goes, given how it was numbered.
pub open spec fn is_flip(
    r: Verdict,
    legacy: Option<Legacy>,
    handle: Option<&str>,
    rows: Seq<NumberedRow>,
) -> bool {
    match legacy {
        None => r is Untouched,
        Some(Legacy::Manual) => exists|recipe: Recipe|
            #[trigger] is_recipe(recipe.seasons@, rows) && is_verdict(
                r,
                Legacy::Manual,
                str_view(handle),
                Some(recipe),
            ),
        Some(l) => is_verdict(r, l, str_view(handle), None),
    }
}

/// What a title's rows say: nothing when nobody decided, else where the
/// decision goes. Blocks are rebuilt from the rows.
pub fn destination(legacy: Option<Legacy>, handle: Option<&str>, rows: &[NumberedRow]) -> (r:
    Verdict)
    requires
        rows.len() <= u32::MAX,
    ensures
        is_flip(r, legacy, handle, rows@),
{
    match legacy {
        None => Verdict::Untouched,
        Some(Legacy::Manual) => {
            let recipe = declared_blocks(rows);
            let ghost g = recipe;
            let v = destination_of(Legacy::Manual, handle, Some(recipe));
            assert(is_verdict(v, Legacy::Manual, str_view(handle), Some(g)));
            v
        },
        Some(l) => destination_of(l, handle, None),
    }
}

/// Whether a verdict is what a decision becomes.
pub open spec fn is_verdict(
    v: Verdict,
    legacy: Legacy,
    handle: Option<Seq<char>>,
    recipe: Option<Recipe>,
) -> bool {
    match v {
        Verdict::Untouched => false,
        Verdict::Move(d) => unreadable(legacy, handle, recipe) is None && is_destination(
            *d,
            legacy,
            handle,
            recipe,
        ),
        Verdict::Unreadable(m) => unreadable(legacy, handle, recipe) == Some(m@),
    }
}

// ---------------------------------------------------------------------
// The dry run
// ---------------------------------------------------------------------

/// A season pack whose episodes change.
#[derive(Debug, Clone, Copy, PartialEq, Eq, Structural)]
pub struct PackChange {
    pub season: i32,
    /// Episodes it covered.
    pub was: usize,
    /// Episodes it would cover.
    pub now: usize,
    pub grabs: u32,
}

/// What writing a tree would do.
#[derive(Debug, Clone)]
pub struct StructurePlan {
    /// Episodes that keep their row.
    pub pairs: usize,
    /// Episodes that would lose their row.
    pub orphans: usize,
    /// Episodes that would be new.
    pub added: usize,
    /// Grabs whose episode would go.
    pub grabs_at_risk: u32,
    /// Whether any episode changes its number.
    pub moves_anything: bool,
    /// Whether too few air dates are known to pair by.
    pub air_dates_are_thin: bool,
    pub packs_affected: Vec<PackChange>,
}

/// A title that can move.
#[derive(Debug, Clone)]
pub struct Ready {
    /// Where it goes.
    pub destination: Destination,
    /// What the write would do.
    pub plan: StructurePlan,
}

/// Whether a plan would be accepted as it stands: nothing is orphaned, and
/// nothing moves on thin evidence.
pub open spec fn would_be_accepted(plan: StructurePlan) -> bool {
    plan.orphans == 0 && !(plan.moves_anything && plan.air_dates_are_thin)
}

impl Ready {
    /// Whether the write would be accepted as it stands.
    pub fn would_commit(&self) -> (r: bool)
        ensures
            r == would_be_accepted(self.plan),
    {
        self.plan.orphans == 0 && !(self.plan.moves_anything && self.plan.air_dates_are_thin)
    }
}

/// One title's verdict, with the plan when there is one.
#[derive(Debug, Clone)]
pub enum Outcome {
    /// Nobody decided a numbering here; nobody is asked.
    Untouched,
    /// It has somewhere to go and cannot get there, and why.
    Blocked { destination: Option<Box<Destination>>, reason: String },
    /// It can move, and this is what moving would do.
    Ready(Box<Ready>),
}

/// What a dry run found about one title.
#[derive(Debug, Clone)]
pub struct Preview {
    pub item_id: u128,
    pub title: String,
    pub outcome: Outcome,
}

/// What a dry run of one title has to do next.
#[derive(Debug, Clone)]
pub enum PreviewStep {
    /// It is done.
    Done(Outcome),
    /// The destination's provider has to be asked for the tree of the id at
    /// this place.
    Ask(Box<Destination>, usize),
}

/// The sentence that a title lacks an id of a source.
pub open spec fn no_id_text(source: MetadataSource) -> Seq<char> {
    "o título não guarda um id da "@ + catalogue::source_name(source)
        + " — resolva o id antes de trocar a fonte"@
}

/// Whether a blocked title is blocked on its way to `d`, for `reason`.
pub open spec fn is_blocked(o: Outcome, d: Option<Destination>, reason: Seq<char>) -> bool {
    o matches Outcome::Blocked { destination, reason: m } && m@ == reason && match d {
        Some(d) => destination is Some && *destination->0 == d,
        None => destination is None,
    }
}

/// How a preview starts.
pub open spec fn is_preview(
    r: PreviewStep,
    media: MediaType,
    verdict: Verdict,
    ids: Seq<StoredId>,
) -> bool {
    if media != MediaType::Tv {
        r matches PreviewStep::Done(o) && o is Untouched
    } else {
        match verdict {
            Verdict::Untouched => r matches PreviewStep::Done(o) && o is Untouched,
            Verdict::Unreadable(m) => r matches PreviewStep::Done(o) && is_blocked(
                o,
                None,
                m@,
            ),
            Verdict::Move(d) => match r {
                PreviewStep::Done(o) => owned::holds_no_id(ids, d.source) && is_blocked(
                    o,
                    Some(*d),
                    no_id_text(d.source),
                ),
                PreviewStep::Ask(to, k) => to == d && owned::is_first_id(
                    ids,
                    d.source,
                    k as int,
                ),
            },
        }
    }
}

/// Begin a dry run. A film, and a title nobody decided, cost no question;
/// one that names nothing, or that holds no id of its destination, is
/// blocked by name; every other asks its destination for the tree.
pub fn preview(media: MediaType, verdict: Verdict, ids: &[StoredId]) -> (r: PreviewStep)
    ensures
        is_preview(r, media, verdict, ids@),
{
    if media != MediaType::Tv {
        return PreviewStep::Done(Outcome::Untouched);
    }
    match verdict {
        Verdict::Untouched => PreviewStep::Done(Outcome::Untouched),
        Verdict::Unreadable(reason) => PreviewStep::Done(
            Outcome::Blocked { destination: None, reason },
        ),
        Verdict::Move(d) => match find_id(ids, d.source) {
            Some(k) => PreviewStep::Ask(d, k),
            None => {
                let mut out = chars_of("o título não guarda um id da ");
                extend_str(&mut out, d.source.display_name());
                extend_str(&mut out, " — resolva o id antes de trocar a fonte");
                PreviewStep::Done(
                    Outcome::Blocked { destination: Some(d), reason: string_of(&out) },
                )
            },
        },
    }
}

/// How a preview ends.
pub open spec fn is_preview_end(
    r: Outcome,
    destination: Box<Destination>,
    answer: Result<StructurePlan, String>,
) -> bool {
    match answer {
        Ok(plan) => r matches Outcome::Ready(ready) && ready.destination == *destination
            && ready.plan == plan,
        Err(why) => is_blocked(r, Some(*destination), why@),
    }
}

/// End a dry run with what the destination's provider said: the plan against
/// its tree, or why there is none. A provider that cannot be had, refuses or
/// does not answer blocks the title, and only it.
pub fn preview_end(destination: Box<Destination>, answer: Result<StructurePlan, String>) -> (r:
    Outcome)
    ensures
        is_preview_end(r, destination, answer),
{
    match answer {
        Ok(plan) => Outcome::Ready(Box::new(Ready { destination: *destination, plan })),
        Err(reason) => Outcome::Blocked { destination: Some(destination), reason },
    }
}

// ---------------------------------------------------------------------
// Laws
// ---------------------------------------------------------------------

/// What an operator decided arrives pinned and with TMDB; what a sweep
/// derived arrives unpinned and with TheTVDB.
pub proof fn decisions_stay_decided(
    d: Destination,
    legacy: Legacy,
    handle: Option<Seq<char>>,
    recipe: Option<Recipe>,
)
    requires
        is_destination(d, legacy, handle, recipe),
    ensures
        d.pinned <==> (legacy == Legacy::Tmdb || legacy == Legacy::Manual || legacy
            == Legacy::Off),
        d.pinned <==> d.source == MetadataSource::Tmdb,
        !d.pinned <==> d.source == MetadataSource::Tvdb,
{
}

} // verus!
