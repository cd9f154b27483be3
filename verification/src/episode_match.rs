//! Which catalogue episode a file is, when the file is not numbered the way
//! the catalogue is.
//!
//! Two tries: the coordinate as given, and then the absolute number, only
//! when the tree is a single season. Canonical first is the safety argument:
//! a later tier only ever runs for a coordinate the one above could not
//! place, and it still has to land on a row that exists.

use vstd::prelude::*;

use crate::catalogue::Episode;

verus! {

/// An episode's coordinate and its row.
#[derive(Debug, Clone, Copy, PartialEq, Eq, Structural)]
pub struct TreeEntry {
    pub season: i32,
    pub episode: i32,
    pub id: u128,
}

/// Resolves a file's coordinates onto a catalogue episode.
#[derive(Debug, Clone)]
pub struct EpisodeMatcher {
    /// Coordinates and rows, later entries replacing earlier ones.
    tree: Vec<TreeEntry>,
    /// The only non-special season, when there is exactly one.
    flat_season: Option<i32>,
}

/// The rows by coordinate.
pub open spec fn tree_map(entries: Seq<TreeEntry>) -> Map<(int, int), u128>
    decreases entries.len(),
{
    if entries.len() == 0 {
        Map::empty()
    } else {
        let e = entries.last();
        tree_map(entries.drop_last()).insert((e.season as int, e.episode as int), e.id)
    }
}

/// Whether `season` is the tree's only season beside the specials.
pub open spec fn is_flat(tree: Map<(int, int), u128>, season: int) -> bool {
    &&& season > 0
    &&& exists|e: int| #[trigger] tree.contains_key((season, e))
    &&& forall|s: int, e: int| #[trigger] tree.contains_key((s, e)) && s > 0 ==> s == season
}

/// Where a coordinate lands: its own row, or in a flat tree the row of the
/// absolute number.
pub open spec fn placed(
    tree: Map<(int, int), u128>,
    season: int,
    episode: int,
    absolute: Option<i32>,
) -> Option<u128> {
    if tree.contains_key((season, episode)) {
        Some(tree[(season, episode)])
    } else if absolute is Some && exists|flat: int|
        #[trigger] is_flat(tree, flat) && tree.contains_key((flat, absolute->0 as int)) {
        let flat = choose|flat: int|
            #[trigger] is_flat(tree, flat) && tree.contains_key((flat, absolute->0 as int));
        Some(tree[(flat, absolute->0 as int)])
    } else {
        None
    }
}

/// The coordinates of a title's episodes.
pub open spec fn entries_of(episodes: Seq<Episode>) -> Seq<TreeEntry> {
    episodes.map_values(
        |e: Episode| TreeEntry { season: e.season_number, episode: e.episode_number, id: e.id },
    )
}

proof fn lemma_tree_map_keys(entries: Seq<TreeEntry>, season: int, episode: int)
    ensures
        tree_map(entries).contains_key((season, episode)) <==> exists|i: int|
            0 <= i < entries.len() && (#[trigger] entries[i]).season == season && entries[i].episode
                == episode,
    decreases entries.len(),
{
    if entries.len() > 0 {
        let before = entries.drop_last();
        lemma_tree_map_keys(before, season, episode);
        if exists|i: int|
            0 <= i < entries.len() && (#[trigger] entries[i]).season == season && entries[i].episode
                == episode {
            let i = choose|i: int|
                0 <= i < entries.len() && (#[trigger] entries[i]).season == season
                    && entries[i].episode == episode;
            if i < before.len() {
                assert(before[i] == entries[i]);
            }
        }
        if tree_map(before).contains_key((season, episode)) {
            let i = choose|i: int|
                0 <= i < before.len() && (#[trigger] before[i]).season == season
                    && before[i].episode == episode;
            assert(entries[i] == before[i]);
        }
        let n = entries.len() - 1;
        assert(entries[n] == entries.last());
    }
}

impl EpisodeMatcher {
    /// The rows by coordinate.
    pub closed spec fn view(&self) -> Map<(int, int), u128> {
        tree_map(self.tree@)
    }

    /// The remembered season is the flat one, if there is one.
    pub closed spec fn well_formed(&self) -> bool {
        match self.flat_season {
            Some(s) => is_flat(self.view(), s as int),
            None => forall|s: int| !#[trigger] is_flat(self.view(), s),
        }
    }

    /// Build from a title's episode rows.
    pub fn new(episodes: &[Episode]) -> (r: EpisodeMatcher)
        ensures
            r.well_formed(),
            r.view() == tree_map(entries_of(episodes@)),
    {
        let ghost all = entries_of(episodes@);
        let mut tree: Vec<TreeEntry> = Vec::new();
        let mut i: usize = 0;
        while i < episodes.len()
            invariant
                i <= episodes.len(),
                all == entries_of(episodes@),
                tree@ == all.take(i as int),
            decreases episodes.len() - i,
        {
            let e = &episodes[i];
            assert(all.take(i + 1) =~= all.take(i as int).push(all[i as int]));
            tree.push(TreeEntry { season: e.season_number, episode: e.episode_number, id: e.id });
            i += 1;
        }
        assert(all.take(episodes.len() as int) =~= all);
        EpisodeMatcher::from_tree(tree)
    }

    /// Build straight from coordinates; a later entry for a coordinate
    /// replaces an earlier one.
    pub fn from_tree(tree: Vec<TreeEntry>) -> (r: EpisodeMatcher)
        ensures
            r.well_formed(),
            r.view() == tree_map(tree@),
    {
        let mut only: Option<i32> = None;
        let mut several: bool = false;
        let mut i: usize = 0;
        while i < tree.len()
            invariant
                i <= tree.len(),
                match only {
                    Some(s) => s > 0 && exists|j: int| 0 <= j < i && (#[trigger] tree@[j]).season == s,
                    None => !several,
                },
                !several ==> forall|j: int|
                    0 <= j < i && (#[trigger] tree@[j]).season > 0 ==> only == Some(tree@[j].season),
                several ==> exists|j: int, k: int|
                    0 <= j < i && 0 <= k < i && (#[trigger] tree@[j]).season > 0 && (
                    #[trigger] tree@[k]).season > 0 && tree@[j].season != tree@[k].season,
            decreases tree.len() - i,
        {
            let s: i32 = tree[i].season;
            assert(tree@[i as int].season == s);
            if s > 0 {
                match only {
                    None => {
                        only = Some(s);
                    },
                    Some(o) => {
                        if o != s {
                            several = true;
                        }
                    },
                }
            }
            i += 1;
        }
        let flat_season = if several {
            None
        } else {
            only
        };
        let out = EpisodeMatcher { tree, flat_season };
        proof {
            let map = tree_map(tree@);
            assert forall|s: int, e: int| true implies (#[trigger] map.contains_key((s, e)) <==> exists|i: int|
                0 <= i < tree@.len() && (#[trigger] tree@[i]).season == s && tree@[i].episode == e) by {
                lemma_tree_map_keys(tree@, s, e);
            }
            assert forall|i: int| 0 <= i < tree@.len() implies map.contains_key(
                ((#[trigger] tree@[i]).season as int, tree@[i].episode as int),
            ) by {}
            if several {
                assert forall|s: int| !#[trigger] is_flat(map, s) by {
                    let (j, k) = choose|j: int, k: int|
                        0 <= j < tree@.len() && 0 <= k < tree@.len() && (#[trigger] tree@[j]).season
                            > 0 && (#[trigger] tree@[k]).season > 0 && tree@[j].season
                            != tree@[k].season;
                    assert(map.contains_key((tree@[j].season as int, tree@[j].episode as int)));
                    assert(map.contains_key((tree@[k].season as int, tree@[k].episode as int)));
                }
            } else {
                match only {
                    Some(o) => {
                        let j = choose|j: int|
                            0 <= j < tree@.len() && (#[trigger] tree@[j]).season == o;
                        assert(map.contains_key((o as int, tree@[j].episode as int)));
                        assert(is_flat(map, o as int));
                    },
                    None => {
                        assert forall|s: int| !#[trigger] is_flat(map, s) by {}
                    },
                }
            }
        }
        out
    }

    /// The row of a coordinate.
    fn lookup(&self, season: i32, episode: i32) -> (r: Option<u128>)
        ensures
            match r {
                Some(id) => self.view().contains_key((season as int, episode as int))
                    && self.view()[(season as int, episode as int)] == id,
                None => !self.view().contains_key((season as int, episode as int)),
            },
    {
        let ghost key = (season as int, episode as int);
        let mut i: usize = self.tree.len();
        assert(self.tree@.take(i as int) == self.tree@);
        while i > 0
            invariant
                i <= self.tree.len(),
                key == (season as int, episode as int),
                self.view().contains_key(key) == tree_map(self.tree@.take(i as int)).contains_key(
                    key,
                ),
                self.view().contains_key(key) ==> self.view()[key] == tree_map(
                    self.tree@.take(i as int),
                )[key],
            decreases i,
        {
            let ghost part = self.tree@.take(i as int);
            assert(part.drop_last() == self.tree@.take(i - 1));
            assert(part.last() == self.tree@[i - 1]);
            let e = &self.tree[i - 1];
            if e.season == season && e.episode == episode {
                return Some(e.id);
            }
            i -= 1;
        }
        None
    }

    /// The episode a file at `(season, episode)` belongs to. `absolute` is
    /// the absolute episode number when the file has one. `None` means no
    /// tier placed it.
    pub fn resolve(&self, season: i32, episode: i32, absolute: Option<i32>) -> (r: Option<u128>)
        requires
            self.well_formed(),
        ensures
            r == placed(self.view(), season as int, episode as int, absolute),
    {
        match self.lookup(season, episode) {
            Some(id) => {
                return Some(id);
            },
            None => {},
        }
        if let Some(abs) = absolute {
            if let Some(flat) = self.flat_season {
                proof {
                    assert(is_flat(self.view(), flat as int));
                    assert forall|other: int| #[trigger] is_flat(self.view(), other) implies other
                        == flat by {}
                }
                return self.lookup(flat, abs);
            }
        }
        None
    }
}

// ---------------------------------------------------------------------
// Laws
// ---------------------------------------------------------------------

/// The coordinate as given always wins: an absolute number that would land
/// elsewhere is not consulted.
pub proof fn canonical_is_tried_first(
    tree: Map<(int, int), u128>,
    season: int,
    episode: int,
    absolute: Option<i32>,
)
    requires
        tree.contains_key((season, episode)),
    ensures
        placed(tree, season, episode, absolute) == Some(tree[(season, episode)]),
{
}

/// A tree with two seasons never falls back to absolute numbers.
pub proof fn a_seasoned_tree_never_falls_back(
    tree: Map<(int, int), u128>,
    a: (int, int),
    b: (int, int),
    season: int,
    episode: int,
    absolute: Option<i32>,
)
    requires
        tree.contains_key(a),
        tree.contains_key(b),
        a.0 > 0,
        b.0 > 0,
        a.0 != b.0,
        !tree.contains_key((season, episode)),
    ensures
        placed(tree, season, episode, absolute) is None,
{
    assert forall|flat: int| !#[trigger] is_flat(tree, flat) by {
        assert(tree.contains_key((a.0, a.1)));
        assert(tree.contains_key((b.0, b.1)));
    }
}

/// A coordinate only ever lands on a row that exists.
pub proof fn a_placed_file_has_a_row(
    tree: Map<(int, int), u128>,
    season: int,
    episode: int,
    absolute: Option<i32>,
)
    requires
        placed(tree, season, episode, absolute) is Some,
    ensures
        exists|key: (int, int)|
            tree.contains_key(key) && tree[key] == placed(tree, season, episode, absolute)->0,
{
}

} // verus!
