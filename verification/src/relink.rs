//! Re-point grabs that lost the episode they hold.
//!
//! Only what can be positively identified is repaired: the file name has to
//! name one episode, and the catalogue has to have it. A wrong link is worse
//! than none, because it looks right.

use vstd::prelude::*;

use crate::catalogue::Episode;
use crate::host_path;
use crate::host_path::file_name_of;
use crate::marker;
use crate::marker::episode_markers;
use crate::text::string_of;

verus! {

/// What one repair pass did.
#[derive(Debug, Clone, Copy, PartialEq, Eq, Structural)]
pub struct RelinkReport {
    /// Orphans considered.
    pub examined: usize,
    /// Orphans pointed back at their episode.
    pub linked: usize,
    /// File names that name no one episode.
    pub no_marker: usize,
    /// Markers of an episode the catalogue does not have.
    pub unknown_episode: usize,
    /// Episodes already covered by a live grab of the same release.
    pub occupied: usize,
}

impl Default for RelinkReport {
    fn default() -> (r: RelinkReport)
        ensures
            r == (RelinkReport {
                examined: 0,
                linked: 0,
                no_marker: 0,
                unknown_episode: 0,
                occupied: 0,
            }),
    {
        RelinkReport { examined: 0, linked: 0, no_marker: 0, unknown_episode: 0, occupied: 0 }
    }
}

impl RelinkReport {
    /// Whether nothing at all was found to look at.
    pub fn is_empty(self) -> (r: bool)
        ensures
            r == (self.examined == 0),
    {
        self.examined == 0
    }
}

/// The one episode a name names: every marker in it agrees, and none is the
/// first of several.
pub open spec fn named_episode(name: Seq<char>) -> Option<(u16, u16)> {
    let found = marker::markers(name);
    if found.len() > 0 && forall|i: int|
        0 <= i < found.len() ==> !(#[trigger] found[i]).chained && found[i].season
            == found[0].season && found[i].episode == found[0].episode {
        Some((found[0].season, found[0].episode))
    } else {
        None
    }
}

/// The one episode a name names.
pub fn parse_marker(name: &str) -> (r: Option<(u16, u16)>)
    ensures
        r == named_episode(name@),
{
    let found = episode_markers(name);
    if found.len() == 0 {
        return None;
    }
    let season: u16 = found[0].season;
    let episode: u16 = found[0].episode;
    let mut i: usize = 0;
    while i < found.len()
        invariant
            i <= found.len(),
            found@ == marker::markers(name@),
            found.len() > 0,
            season == found@[0].season,
            episode == found@[0].episode,
            forall|k: int|
                0 <= k < i ==> !(#[trigger] found@[k]).chained && found@[k].season == season
                    && found@[k].episode == episode,
        decreases found.len() - i,
    {
        if found[i].chained || found[i].season != season || found[i].episode != episode {
            assert(!(!found@[i as int].chained && found@[i as int].season == found@[0].season
                && found@[i as int].episode == found@[0].episode));
            return None;
        }
        i += 1;
    }
    Some((season, episode))
}

/// The row of an episode; a later row replaces an earlier one.
pub open spec fn episode_row(tree: Seq<Episode>, season: int, number: int) -> Option<u128>
    decreases tree.len(),
{
    if tree.len() == 0 {
        None
    } else if tree.last().season_number == season && tree.last().episode_number == number {
        Some(tree.last().id)
    } else {
        episode_row(tree.drop_last(), season, number)
    }
}

fn find_episode(tree: &[Episode], season: i32, number: i32) -> (r: Option<u128>)
    ensures
        r == episode_row(tree@, season as int, number as int),
{
    let mut n: usize = tree.len();
    assert(tree@.take(n as int) == tree@);
    while n > 0
        invariant
            n <= tree.len(),
            episode_row(tree@, season as int, number as int) == episode_row(
                tree@.take(n as int),
                season as int,
                number as int,
            ),
        decreases n,
    {
        let ghost seen = tree@.take(n as int);
        assert(seen.last() == tree@[n - 1]);
        assert(seen.drop_last() == tree@.take(n - 1));
        if tree[n - 1].season_number == season && tree[n - 1].episode_number == number {
            return Some(tree[n - 1].id);
        }
        n -= 1;
    }
    None
}

/// What to do about one orphan.
#[derive(Debug, Clone, Copy, PartialEq, Eq, Structural)]
pub enum OrphanStep {
    /// It never was on disk.
    Nothing,
    /// Its name names no one episode.
    NoMarker,
    /// The catalogue has no such episode.
    UnknownEpisode,
    /// It is this episode's.
    Link(u128),
}

/// What an orphan's file name and its series' tree say.
pub open spec fn step_of(path: Option<Seq<char>>, tree: Seq<Episode>, separator: char) -> OrphanStep {
    match path {
        None => OrphanStep::Nothing,
        Some(p) => match host_path::file_name(p, separator) {
            None => OrphanStep::NoMarker,
            Some(name) => match named_episode(name) {
                None => OrphanStep::NoMarker,
                Some((season, number)) => match episode_row(tree, season as int, number as int) {
                    None => OrphanStep::UnknownEpisode,
                    Some(id) => OrphanStep::Link(id),
                },
            },
        },
    }
}

/// What to do about one orphan.
pub fn orphan_step(imported_path: Option<&str>, tree: &[Episode], separator: char) -> (r:
    OrphanStep)
    ensures
        r == step_of(
            match imported_path {
                Some(p) => Some(p@),
                None => None,
            },
            tree@,
            separator,
        ),
{
    let path = match imported_path {
        Some(p) => p,
        None => {
            return OrphanStep::Nothing;
        },
    };
    match file_name_of(path, separator) {
        None => OrphanStep::NoMarker,
        Some(name) => match parse_marker(string_of(&name).as_str()) {
            None => OrphanStep::NoMarker,
            Some((season, number)) => match find_episode(tree, season as i32, number as i32) {
                None => OrphanStep::UnknownEpisode,
                Some(id) => OrphanStep::Link(id),
            },
        },
    }
}

/// How one orphan ended.
#[derive(Debug, Clone, Copy, PartialEq, Eq, Structural)]
pub enum OrphanEnd {
    Nothing,
    NoMarker,
    UnknownEpisode,
    /// It was pointed at its episode.
    Linked,
    /// A live grab of the release covers the episode already.
    Occupied,
    /// It had been linked meanwhile.
    AlreadyLinked,
}

/// What the database answers to a link: it only ever fills a blank.
#[derive(Debug, Clone, Copy, PartialEq, Eq, Structural)]
pub enum Relink {
    /// The grab is pointed at the episode.
    Linked,
    /// A live grab of the same release covers the episode already.
    Occupied,
    /// The grab had an episode by then.
    AlreadyLinked,
}

/// How a step ends: a link as the database answered, and any other step
/// without asking.
pub open spec fn ended(step: OrphanStep, answer: Option<Relink>) -> OrphanEnd {
    match step {
        OrphanStep::Nothing => OrphanEnd::Nothing,
        OrphanStep::NoMarker => OrphanEnd::NoMarker,
        OrphanStep::UnknownEpisode => OrphanEnd::UnknownEpisode,
        OrphanStep::Link(_) => match answer->0 {
            Relink::Linked => OrphanEnd::Linked,
            Relink::Occupied => OrphanEnd::Occupied,
            Relink::AlreadyLinked => OrphanEnd::AlreadyLinked,
        },
    }
}

/// How a step ends. The database is asked about a link and about nothing
/// else.
pub fn orphan_end(step: OrphanStep, answer: Option<Relink>) -> (r: OrphanEnd)
    requires
        step is Link ==> answer is Some,
    ensures
        r == ended(step, answer),
{
    match step {
        OrphanStep::Nothing => OrphanEnd::Nothing,
        OrphanStep::NoMarker => OrphanEnd::NoMarker,
        OrphanStep::UnknownEpisode => OrphanEnd::UnknownEpisode,
        OrphanStep::Link(_) => match answer {
            Some(Relink::Linked) => OrphanEnd::Linked,
            Some(Relink::Occupied) => OrphanEnd::Occupied,
            _ => OrphanEnd::AlreadyLinked,
        },
    }
}

pub open spec fn count_ends(ends: Seq<OrphanEnd>, end: OrphanEnd) -> nat
    decreases ends.len(),
{
    if ends.len() == 0 {
        0
    } else {
        count_ends(ends.drop_last(), end) + if ends.last() == end {
            1nat
        } else {
            0
        }
    }
}

/// Whether a report counts these ends.
pub open spec fn is_report(r: RelinkReport, ends: Seq<OrphanEnd>) -> bool {
    &&& r.examined == ends.len()
    &&& r.linked == count_ends(ends, OrphanEnd::Linked)
    &&& r.no_marker == count_ends(ends, OrphanEnd::NoMarker)
    &&& r.unknown_episode == count_ends(ends, OrphanEnd::UnknownEpisode)
    &&& r.occupied == count_ends(ends, OrphanEnd::Occupied)
}

/// The report of a pass over every orphan.
pub fn run(ends: &[OrphanEnd]) -> (r: RelinkReport)
    ensures
        is_report(r, ends@),
{
    let mut report = RelinkReport::default();
    let mut i: usize = 0;
    while i < ends.len()
        invariant
            i <= ends.len(),
            is_report(report, ends@.take(i as int)),
            report.linked <= i,
            report.no_marker <= i,
            report.unknown_episode <= i,
            report.occupied <= i,
        decreases ends.len() - i,
    {
        assert(ends@.take(i + 1).drop_last() == ends@.take(i as int));
        assert(ends@.take(i + 1).last() == ends@[i as int]);
        report.examined += 1;
        match ends[i] {
            OrphanEnd::Linked => {
                report.linked += 1;
            },
            OrphanEnd::NoMarker => {
                report.no_marker += 1;
            },
            OrphanEnd::UnknownEpisode => {
                report.unknown_episode += 1;
            },
            OrphanEnd::Occupied => {
                report.occupied += 1;
            },
            OrphanEnd::Nothing | OrphanEnd::AlreadyLinked => {},
        }
        i += 1;
    }
    assert(ends@.take(ends.len() as int) == ends@);
    report
}

// ---------------------------------------------------------------------
// Laws
// ---------------------------------------------------------------------

/// An orphan, with what a pass reads of it.
pub struct OrphanRow {
    /// The release it was grabbed from.
    pub release: u128,
    /// Where its file was imported to.
    pub path: Option<Seq<char>>,
    /// The episodes of its series.
    pub tree: Seq<Episode>,
    /// Another writer has linked it since it was listed.
    pub taken_up: bool,
}

/// What the database answers to linking an orphan to an episode, when these
/// episodes are covered, each by a live grab of a release.
pub open spec fn answer_to(
    row: OrphanRow,
    episode: u128,
    covered: Set<(u128, u128)>,
) -> Relink {
    if row.taken_up {
        Relink::AlreadyLinked
    } else if covered.contains((row.release, episode)) {
        Relink::Occupied
    } else {
        Relink::Linked
    }
}

/// What the database is asked about an orphan, and answers.
pub open spec fn answer_for(
    row: OrphanRow,
    covered: Set<(u128, u128)>,
    separator: char,
) -> Option<Relink> {
    match step_of(row.path, row.tree, separator) {
        OrphanStep::Link(episode) => Some(answer_to(row, episode, covered)),
        _ => None,
    }
}

/// How an orphan ends when these episodes are covered: its step, ended by the
/// database's answer.
pub open spec fn end_of(
    row: OrphanRow,
    covered: Set<(u128, u128)>,
    separator: char,
) -> OrphanEnd {
    ended(step_of(row.path, row.tree, separator), answer_for(row, covered, separator))
}

/// What is covered after a pass: what was, and what the pass linked.
pub open spec fn covered_after(
    rows: Seq<OrphanRow>,
    covered: Set<(u128, u128)>,
    separator: char,
) -> Set<(u128, u128)>
    decreases rows.len(),
{
    if rows.len() == 0 {
        covered
    } else {
        let before = covered_after(rows.drop_last(), covered, separator);
        let row = rows.last();
        if end_of(row, before, separator) == OrphanEnd::Linked {
            before.insert((row.release, step_of(row.path, row.tree, separator)->Link_0))
        } else {
            before
        }
    }
}

/// How the orphans of a pass end, in order.
pub open spec fn ends_of(
    rows: Seq<OrphanRow>,
    covered: Set<(u128, u128)>,
    separator: char,
) -> Seq<OrphanEnd>
    decreases rows.len(),
{
    if rows.len() == 0 {
        Seq::empty()
    } else {
        ends_of(rows.drop_last(), covered, separator).push(
            end_of(rows.last(), covered_after(rows.drop_last(), covered, separator), separator),
        )
    }
}

/// The orphans a pass leaves: what it neither linked nor found linked.
pub open spec fn left_over(
    rows: Seq<OrphanRow>,
    covered: Set<(u128, u128)>,
    separator: char,
) -> Seq<OrphanRow>
    decreases rows.len(),
{
    if rows.len() == 0 {
        Seq::empty()
    } else {
        let rest = left_over(rows.drop_last(), covered, separator);
        let end = end_of(
            rows.last(),
            covered_after(rows.drop_last(), covered, separator),
            separator,
        );
        if end == OrphanEnd::Linked || end == OrphanEnd::AlreadyLinked {
            rest
        } else {
            rest.push(rows.last())
        }
    }
}

/// Whether a pass over a row would link nothing.
pub open spec fn is_settled(row: OrphanRow, covered: Set<(u128, u128)>, separator: char) -> bool {
    let end = end_of(row, covered, separator);
    end != OrphanEnd::Linked && end != OrphanEnd::AlreadyLinked
}

proof fn lemma_left_over_is_settled(
    rows: Seq<OrphanRow>,
    covered: Set<(u128, u128)>,
    separator: char,
)
    ensures
        covered.subset_of(covered_after(rows, covered, separator)),
        forall|i: int|
            0 <= i < left_over(rows, covered, separator).len() ==> is_settled(
                #[trigger] left_over(rows, covered, separator)[i],
                covered_after(rows, covered, separator),
                separator,
            ),
        left_over(rows, covered, separator).len() + count_ends(
            ends_of(rows, covered, separator),
            OrphanEnd::Linked,
        ) + count_ends(ends_of(rows, covered, separator), OrphanEnd::AlreadyLinked)
            == rows.len(),
        ends_of(rows, covered, separator).len() == rows.len(),
    decreases rows.len(),
{
    if rows.len() > 0 {
        let before = rows.drop_last();
        lemma_left_over_is_settled(before, covered, separator);
        let c = covered_after(before, covered, separator);
        let d = covered_after(rows, covered, separator);
        let rest = left_over(before, covered, separator);
        let e = ends_of(before, covered, separator);
        let last = end_of(rows.last(), c, separator);
        assert(e.push(last).drop_last() =~= e);
        assert(c.subset_of(d));
        assert forall|i: int| 0 <= i < left_over(rows, covered, separator).len() implies is_settled(
            #[trigger] left_over(rows, covered, separator)[i],
            d,
            separator,
        ) by {
            if i < rest.len() {
                assert(left_over(rows, covered, separator)[i] == rest[i]);
                assert(is_settled(rest[i], c, separator));
            } else {
                assert(is_settled(rows.last(), c, separator));
            }
        }
    }
}

proof fn lemma_settled_rows_stay(
    rows: Seq<OrphanRow>,
    covered: Set<(u128, u128)>,
    separator: char,
)
    requires
        forall|i: int| 0 <= i < rows.len() ==> is_settled(#[trigger] rows[i], covered, separator),
    ensures
        covered_after(rows, covered, separator) == covered,
        left_over(rows, covered, separator) == rows,
        ends_of(rows, covered, separator).len() == rows.len(),
        count_ends(ends_of(rows, covered, separator), OrphanEnd::Linked) == 0,
        count_ends(ends_of(rows, covered, separator), OrphanEnd::AlreadyLinked) == 0,
    decreases rows.len(),
{
    if rows.len() > 0 {
        let before = rows.drop_last();
        assert forall|i: int| 0 <= i < before.len() implies is_settled(
            #[trigger] before[i],
            covered,
            separator,
        ) by {
            assert(before[i] == rows[i]);
        }
        lemma_settled_rows_stay(before, covered, separator);
        assert(is_settled(rows[rows.len() - 1], covered, separator));
        let e = ends_of(before, covered, separator);
        let last = end_of(rows.last(), covered, separator);
        assert(e.push(last).drop_last() =~= e);
        assert(before.push(rows.last()) =~= rows);
    } else {
        assert(rows =~= Seq::empty());
    }
}

/// A second pass over the rows a first one left links none of them and
/// leaves them all: it examines what the first did, less what that linked and
/// what it found linked.
pub proof fn a_second_pass_links_nothing(
    rows: Seq<OrphanRow>,
    covered: Set<(u128, u128)>,
    separator: char,
    first: RelinkReport,
    second: RelinkReport,
)
    requires
        is_report(first, ends_of(rows, covered, separator)),
        is_report(
            second,
            ends_of(
                left_over(rows, covered, separator),
                covered_after(rows, covered, separator),
                separator,
            ),
        ),
    ensures
        second.linked == 0,
        second.examined == first.examined - first.linked - count_ends(
            ends_of(rows, covered, separator),
            OrphanEnd::AlreadyLinked,
        ),
        (forall|i: int| 0 <= i < rows.len() ==> !(#[trigger] rows[i]).taken_up) ==> second.examined
            == first.examined - first.linked,
        left_over(
            left_over(rows, covered, separator),
            covered_after(rows, covered, separator),
            separator,
        ) == left_over(rows, covered, separator),
        covered_after(
            left_over(rows, covered, separator),
            covered_after(rows, covered, separator),
            separator,
        ) == covered_after(rows, covered, separator),
{
    lemma_left_over_is_settled(rows, covered, separator);
    lemma_settled_rows_stay(
        left_over(rows, covered, separator),
        covered_after(rows, covered, separator),
        separator,
    );
    if forall|i: int| 0 <= i < rows.len() ==> !(#[trigger] rows[i]).taken_up {
        lemma_nothing_taken_up(rows, covered, separator);
    }
}

proof fn lemma_nothing_taken_up(
    rows: Seq<OrphanRow>,
    covered: Set<(u128, u128)>,
    separator: char,
)
    requires
        forall|i: int| 0 <= i < rows.len() ==> !(#[trigger] rows[i]).taken_up,
    ensures
        count_ends(ends_of(rows, covered, separator), OrphanEnd::AlreadyLinked) == 0,
    decreases rows.len(),
{
    if rows.len() > 0 {
        let before = rows.drop_last();
        assert forall|i: int| 0 <= i < before.len() implies !(#[trigger] before[i]).taken_up by {
            assert(before[i] == rows[i]);
        }
        lemma_nothing_taken_up(before, covered, separator);
        assert(!rows[rows.len() - 1].taken_up);
        let e = ends_of(before, covered, separator);
        assert(ends_of(rows, covered, separator).drop_last() =~= e);
    }
}

/// A report counts no orphan twice.
pub proof fn a_report_adds_up(r: RelinkReport, ends: Seq<OrphanEnd>)
    requires
        is_report(r, ends),
    ensures
        r.linked + r.no_marker + r.unknown_episode + r.occupied <= r.examined,
{
    lemma_counts_add_up(ends);
}

proof fn lemma_counts_add_up(ends: Seq<OrphanEnd>)
    ensures
        count_ends(ends, OrphanEnd::Linked) + count_ends(ends, OrphanEnd::NoMarker) + count_ends(
            ends,
            OrphanEnd::UnknownEpisode,
        ) + count_ends(ends, OrphanEnd::Occupied) <= ends.len(),
    decreases ends.len(),
{
    if ends.len() > 0 {
        lemma_counts_add_up(ends.drop_last());
    }
}

/// An orphan is only ever linked to an episode its name names and its
/// series has.
pub proof fn a_link_is_never_guessed(path: Seq<char>, tree: Seq<Episode>, separator: char)
    ensures
        step_of(Some(path), tree, separator) matches OrphanStep::Link(id) ==> (
        host_path::file_name(path, separator) matches Some(name) && (named_episode(name) matches Some(
            (season, number),
        ) && exists|k: int|
            0 <= k < tree.len() && (#[trigger] tree[k]).id == id && tree[k].season_number
                == season as int && tree[k].episode_number == number as int)),
{
    if let OrphanStep::Link(id) = step_of(Some(path), tree, separator) {
        let name = host_path::file_name(path, separator)->0;
        let (season, number) = named_episode(name)->0;
        lemma_row_is_in_tree(tree, season as int, number as int);
    }
}

proof fn lemma_row_is_in_tree(tree: Seq<Episode>, season: int, number: int)
    ensures
        episode_row(tree, season, number) matches Some(id) ==> exists|k: int|
            0 <= k < tree.len() && (#[trigger] tree[k]).id == id && tree[k].season_number == season
                && tree[k].episode_number == number,
    decreases tree.len(),
{
    if tree.len() > 0 {
        let n = tree.len() - 1;
        if tree[n].season_number == season && tree[n].episode_number == number {
            assert(tree[n].id == tree.last().id);
        } else {
            lemma_row_is_in_tree(tree.drop_last(), season, number);
            if let Some(id) = episode_row(tree, season, number) {
                let k = choose|k: int|
                    0 <= k < tree.drop_last().len() && (#[trigger] tree.drop_last()[k]).id == id
                        && tree.drop_last()[k].season_number == season
                        && tree.drop_last()[k].episode_number == number;
                assert(tree[k] == tree.drop_last()[k]);
            }
        }
    }
}

} // verus!
