//! Episode markers in release and file names.
//!
//! Two spellings are read, `S01E02` and `1x02`, without regard to case.
//! Padding is a spelling, not a meaning, so a marker is parsed and never
//! rendered and compared.

use vstd::prelude::*;

use crate::text;
use crate::text::{chars_of, digit, letter, lower_all, parse_digits, slice};

verus! {

/// One episode marker read out of a name.
#[derive(Debug, Clone, Copy, PartialEq, Eq, Structural)]
pub struct Marker {
    /// Season it names.
    pub season: u16,
    /// Episode it names.
    pub episode: u16,
    /// A second episode group followed immediately, as in `S01E01E02`.
    pub chained: bool,
}

// ---------------------------------------------------------------------
// Model
// ---------------------------------------------------------------------

pub open spec fn is_alnum(c: char) -> bool {
    text::is_letter(c) || text::is_digit(c)
}

/// How many digits stand in a row from `from` on.
pub open spec fn digit_run(s: Seq<char>, from: int) -> nat
    decreases s.len() - from,
{
    if 0 <= from < s.len() && text::is_digit(s[from]) {
        1 + digit_run(s, from + 1)
    } else {
        0
    }
}

/// The number at `from` and the place just past it: at least one digit, no
/// more than `max_len`, and a value that fits 16 bits.
pub open spec fn number_at(s: Seq<char>, from: int, max_len: nat) -> Option<(u16, int)> {
    let n = digit_run(s, from);
    if n == 0 || n > max_len {
        None
    } else {
        match text::spelled(s.subrange(from, from + n), u16::MAX as nat) {
            Some(v) => Some((v as u16, from + n)),
            None => None,
        }
    }
}

pub open spec fn char_at(s: Seq<char>, at: int, c: char) -> bool {
    0 <= at < s.len() && s[at] == c
}

/// Whether nothing that belongs to a word stands before `at`.
pub open spec fn starts_a_word(s: Seq<char>, at: int) -> bool {
    at == 0 || !is_alnum(s[at - 1])
}

/// `s<digits>e<digits>` at `at`, any padding.
pub open spec fn season_episode_at(s: Seq<char>, at: int) -> Option<Marker> {
    if !starts_a_word(s, at) {
        None
    } else {
        match number_at(s, at + 1, s.len()) {
            Some((season, mid)) => if char_at(s, mid, 'e') {
                match number_at(s, mid + 1, s.len()) {
                    Some((episode, end)) => Some(
                        Marker {
                            season,
                            episode,
                            chained: char_at(s, end, 'e') && number_at(s, end + 1, s.len())
                                is Some,
                        },
                    ),
                    None => None,
                }
            } else {
                None
            },
            None => None,
        }
    }
}

/// `<digits>x<digits>` at `at`: one or two digits each side, standing alone,
/// and not season 0.
pub open spec fn cross_at(s: Seq<char>, at: int) -> Option<Marker> {
    if !starts_a_word(s, at) {
        None
    } else {
        match number_at(s, at, 2) {
            Some((season, mid)) => if season != 0 && char_at(s, mid, 'x') {
                match number_at(s, mid + 1, 2) {
                    Some((episode, end)) => if end < s.len() && is_alnum(s[end]) {
                        None
                    } else {
                        Some(Marker { season, episode, chained: false })
                    },
                    None => None,
                }
            } else {
                None
            },
            None => None,
        }
    }
}

/// The marker starting at `at` of a lower-cased name.
pub open spec fn read_at(s: Seq<char>, at: int) -> Option<Marker> {
    if char_at(s, at, 's') {
        season_episode_at(s, at)
    } else {
        cross_at(s, at)
    }
}

/// The markers starting before `n`, in order.
pub open spec fn read_upto(s: Seq<char>, n: int) -> Seq<Marker>
    decreases n,
{
    if n <= 0 {
        Seq::empty()
    } else {
        match read_at(s, n - 1) {
            Some(m) => read_upto(s, n - 1).push(m),
            None => read_upto(s, n - 1),
        }
    }
}

/// Every marker a name carries, in order.
pub open spec fn markers(title: Seq<char>) -> Seq<Marker> {
    read_upto(text::lowered(title), title.len() as int)
}

/// Whether a name carries a marker of this episode.
pub open spec fn names_episode(title: Seq<char>, season: u16, episode: u16) -> bool {
    exists|i: int|
        0 <= i < markers(title).len() && (#[trigger] markers(title)[i]).season == season
            && markers(title)[i].episode == episode
}

// ---------------------------------------------------------------------
// Executable
// ---------------------------------------------------------------------

fn alnum(c: char) -> (r: bool)
    ensures
        r == is_alnum(c),
{
    letter(c) || digit(c)
}

fn is_at(s: &[char], at: usize, c: char) -> (r: bool)
    ensures
        r == char_at(s@, at as int, c),
{
    at < s.len() && s[at] == c
}

/// The run of digits at `from`: its value and the place just past it.
pub(crate) fn digits(s: &[char], from: usize, max_len: usize) -> (r: Option<(u16, usize)>)
    requires
        from <= s.len(),
    ensures
        match r {
            Some((v, end)) => number_at(s@, from as int, max_len as nat) == Some((v, end as int))
                && from < end <= s.len(),
            None => number_at(s@, from as int, max_len as nat) is None,
        },
{
    let mut end: usize = from;
    while end < s.len() && digit(s[end])
        invariant
            from <= end <= s.len(),
            digit_run(s@, from as int) == (end - from) + digit_run(s@, end as int),
        decreases s.len() - end,
    {
        end += 1;
    }
    if end == from || end - from > max_len {
        return None;
    }
    let run = slice(s, from, end);
    match parse_digits(&run, u16::MAX as u64) {
        Some(v) => Some((v as u16, end)),
        None => None,
    }
}

/// `s<digits>e<digits>`, any padding.
fn season_episode_marker(s: &[char], at: usize) -> (r: Option<Marker>)
    requires
        at < s.len(),
    ensures
        r == season_episode_at(s@, at as int),
{
    // Glued to a word, it is part of that word.
    if at > 0 && alnum(s[at - 1]) {
        return None;
    }
    let n: usize = s.len();
    match digits(s, at + 1, n) {
        Some((season, mid)) => {
            if !is_at(s, mid, 'e') {
                return None;
            }
            match digits(s, mid + 1, n) {
                Some((episode, end)) => {
                    let chained = is_at(s, end, 'e') && digits(s, end + 1, n).is_some();
                    Some(Marker { season, episode, chained })
                },
                None => None,
            }
        },
        None => None,
    }
}

/// `<digits>x<digits>`, the spelling `1x02` uses.
fn cross_marker(s: &[char], at: usize) -> (r: Option<Marker>)
    requires
        at < s.len(),
    ensures
        r == cross_at(s@, at as int),
{
    if at > 0 && alnum(s[at - 1]) {
        return None;
    }
    match digits(s, at, 2) {
        Some((season, mid)) => {
            if season == 0 || !is_at(s, mid, 'x') {
                return None;
            }
            match digits(s, mid + 1, 2) {
                Some((episode, end)) => {
                    if end < s.len() && alnum(s[end]) {
                        return None;
                    }
                    Some(Marker { season, episode, chained: false })
                },
                None => None,
            }
        },
        None => None,
    }
}

/// The episode marker starting at `at`, in either spelling.
fn marker_at(s: &[char], at: usize) -> (r: Option<Marker>)
    requires
        at < s.len(),
    ensures
        r == read_at(s@, at as int),
{
    if s[at] == 's' {
        season_episode_marker(s, at)
    } else {
        cross_marker(s, at)
    }
}

/// Every episode marker the name carries, in order.
pub fn episode_markers(title: &str) -> (r: Vec<Marker>)
    ensures
        r@ == markers(title@),
{
    let chars = chars_of(title);
    let s = lower_all(&chars);
    let mut out: Vec<Marker> = Vec::new();
    let mut at: usize = 0;
    while at < s.len()
        invariant
            at <= s.len(),
            out@ == read_upto(s@, at as int),
        decreases s.len() - at,
    {
        if let Some(m) = marker_at(&s, at) {
            out.push(m);
        }
        at += 1;
    }
    out
}

/// `true` when the name positively identifies this episode. A name with no
/// recognisable marker is not accepted.
pub fn title_matches_episode(title: &str, season: u16, episode: u16) -> (r: bool)
    ensures
        r == names_episode(title@, season, episode),
{
    let found = episode_markers(title);
    let mut i: usize = 0;
    while i < found.len()
        invariant
            i <= found.len(),
            found@ == markers(title@),
            forall|j: int|
                0 <= j < i ==> !((#[trigger] found@[j]).season == season && found@[j].episode
                    == episode),
        decreases found.len() - i,
    {
        if found[i].season == season && found[i].episode == episode {
            return true;
        }
        i += 1;
    }
    false
}

// ---------------------------------------------------------------------
// Laws
// ---------------------------------------------------------------------

pub proof fn lemma_read_is_listed(s: Seq<char>, n: int, at: int)
    requires
        0 <= at < n,
        read_at(s, at) is Some,
    ensures
        read_upto(s, n).contains(read_at(s, at)->0),
    decreases n,
{
    let all = read_upto(s, n);
    if at == n - 1 {
        assert(all[all.len() - 1] == read_at(s, at)->0);
    } else {
        lemma_read_is_listed(s, n - 1, at);
        let before = read_upto(s, n - 1);
        let k = choose|k: int| 0 <= k < before.len() && before[k] == read_at(s, at)->0;
        assert(all[k] == before[k]);
    }
}

pub proof fn lemma_run_of(s: Seq<char>, from: int, run: Seq<char>)
    requires
        0 <= from,
        from + run.len() <= s.len(),
        s.subrange(from, from + run.len()) == run,
        text::all_digits(run),
        from + run.len() < s.len() ==> !text::is_digit(s[from + run.len()]),
    ensures
        digit_run(s, from) == run.len(),
    decreases run.len(),
{
    if run.len() > 0 {
        assert(s[from] == run[0]);
        assert(text::is_digit(run[0]));
        let rest = run.drop_first();
        assert(s.subrange(from + 1, from + run.len()) =~= rest);
        assert forall|i: int| 0 <= i < rest.len() implies text::is_digit(#[trigger] rest[i]) by {
            assert(rest[i] == run[i + 1]);
        }
        lemma_run_of(s, from + 1, rest);
    }
}

/// Padding is a spelling, not a meaning: wherever `s<digits>e<digits>`
/// stands apart from the word before it, the name carries the episode its
/// numbers spell, however many zeros lead them.
pub proof fn a_marker_is_read_whatever_its_padding(
    title: Seq<char>,
    at: int,
    season: Seq<char>,
    episode: Seq<char>,
)
    requires
        0 <= at,
        at + 2 + season.len() + episode.len() <= title.len(),
        starts_a_word(title, at),
        title[at] == 's' || title[at] == 'S',
        title.subrange(at + 1, at + 1 + season.len()) == season,
        title[at + 1 + season.len()] == 'e' || title[at + 1 + season.len()] == 'E',
        title.subrange(at + 2 + season.len(), at + 2 + season.len() + episode.len()) == episode,
        at + 2 + season.len() + episode.len() < title.len() ==> !text::is_digit(
            title[at + 2 + season.len() + episode.len()],
        ),
        text::spelled(season, u16::MAX as nat) is Some,
        text::spelled(episode, u16::MAX as nat) is Some,
    ensures
        names_episode(title, text::number(season) as u16, text::number(episode) as u16),
{
    let s = text::lowered(title);
    let mid = at + 1 + season.len();
    let end = mid + 1 + episode.len();
    assert(s.len() == title.len());
    assert(s.subrange(at + 1, mid) =~= season) by {
        assert forall|i: int| 0 <= i < season.len() implies s[at + 1 + i] == season[i] by {
            assert(title.subrange(at + 1, mid)[i] == title[at + 1 + i]);
            assert(text::is_digit(season[i]));
        }
    }
    assert(s.subrange(mid + 1, end) =~= episode) by {
        assert forall|i: int| 0 <= i < episode.len() implies s[mid + 1 + i] == episode[i] by {
            assert(title.subrange(mid + 1, end)[i] == title[mid + 1 + i]);
            assert(text::is_digit(episode[i]));
        }
    }
    assert(s[at] == 's');
    assert(s[mid] == 'e');
    assert(at > 0 ==> s[at - 1] == text::lower(title[at - 1]));
    lemma_run_of(s, at + 1, season);
    lemma_run_of(s, mid + 1, episode);
    let m = read_at(s, at);
    assert(m is Some);
    lemma_read_is_listed(s, title.len() as int, at);
    let k = choose|k: int|
        0 <= k < markers(title).len() && markers(title)[k] == m->0;
    assert(markers(title)[k].season == text::number(season));
}

pub proof fn lemma_listed_was_read(s: Seq<char>, n: int, k: int)
    requires
        0 <= k < read_upto(s, n).len(),
    ensures
        exists|at: int| 0 <= at < n && #[trigger] read_at(s, at) == Some(read_upto(s, n)[k]),
    decreases n,
{
    let before = read_upto(s, n - 1);
    if k < before.len() {
        lemma_listed_was_read(s, n - 1, k);
        let at = choose|at: int| 0 <= at < n - 1 && #[trigger] read_at(s, at) == Some(before[k]);
        assert(read_at(s, at) == Some(read_upto(s, n)[k]));
    } else {
        assert(read_at(s, n - 1) == Some(read_upto(s, n)[k]));
    }
}

/// A name with one marker names that episode and no other, whatever the
/// padding.
pub proof fn a_lone_marker_names_one_episode(
    title: Seq<char>,
    at: int,
    season: u16,
    episode: u16,
)
    requires
        0 <= at < title.len(),
        read_at(text::lowered(title), at) matches Some(m) && m.season == season && m.episode
            == episode,
        forall|i: int|
            0 <= i < title.len() && i != at ==> #[trigger] read_at(text::lowered(title), i) is None,
    ensures
        forall|s: u16, e: u16| #[trigger]
            names_episode(title, s, e) == (s == season && e == episode),
{
    let low = text::lowered(title);
    let n = title.len() as int;
    lemma_read_is_listed(low, n, at);
    let k = choose|k: int| 0 <= k < markers(title).len() && markers(title)[k] == read_at(low, at)->0;
    assert(names_episode(title, season, episode)) by {
        assert(markers(title)[k].season == season);
    }
    assert forall|s: u16, e: u16| #[trigger] names_episode(title, s, e) implies s == season && e
        == episode by {
        let j = choose|j: int|
            0 <= j < markers(title).len() && (#[trigger] markers(title)[j]).season == s
                && markers(title)[j].episode == e;
        lemma_listed_was_read(low, n, j);
        let i = choose|i: int| 0 <= i < n && #[trigger] read_at(low, i) == Some(markers(title)[j]);
        assert(i == at);
    }
}

/// A name whose only digits are those of `s<digits>e<digits>` names the
/// episode they spell and no other, however many zeros lead them.
pub proof fn padding_names_no_other_episode(
    title: Seq<char>,
    at: int,
    season: Seq<char>,
    episode: Seq<char>,
)
    requires
        0 <= at,
        at + 2 + season.len() + episode.len() <= title.len(),
        starts_a_word(title, at),
        title[at] == 's' || title[at] == 'S',
        title.subrange(at + 1, at + 1 + season.len()) == season,
        title[at + 1 + season.len()] == 'e' || title[at + 1 + season.len()] == 'E',
        title.subrange(at + 2 + season.len(), at + 2 + season.len() + episode.len()) == episode,
        forall|i: int|
            0 <= i < title.len() && (i <= at || i >= at + 2 + season.len() + episode.len())
                ==> !text::is_digit(#[trigger] title[i]),
        text::spelled(season, u16::MAX as nat) is Some,
        text::spelled(episode, u16::MAX as nat) is Some,
    ensures
        forall|s: u16, e: u16| #[trigger]
            names_episode(title, s, e) == (s == text::number(season) && e == text::number(
                episode,
            )),
{
    let s = text::lowered(title);
    let mid = at + 1 + season.len();
    let end = mid + 1 + episode.len();
    assert(s.len() == title.len());
    assert forall|i: int| 0 <= i < title.len() implies text::is_digit(#[trigger] s[i])
        == text::is_digit(title[i]) && is_alnum(s[i]) == is_alnum(title[i]) && (text::is_digit(
        title[i],
    ) ==> s[i] == title[i]) by {}
    assert(s.subrange(at + 1, mid) =~= season) by {
        assert forall|i: int| 0 <= i < season.len() implies s[at + 1 + i] == season[i] by {
            assert(title.subrange(at + 1, mid)[i] == title[at + 1 + i]);
            assert(text::is_digit(season[i]));
        }
    }
    assert(s.subrange(mid + 1, end) =~= episode) by {
        assert forall|i: int| 0 <= i < episode.len() implies s[mid + 1 + i] == episode[i] by {
            assert(title.subrange(mid + 1, end)[i] == title[mid + 1 + i]);
            assert(text::is_digit(episode[i]));
        }
    }
    assert(s[at] == 's');
    assert(s[mid] == 'e');
    lemma_run_of(s, at + 1, season);
    lemma_run_of(s, mid + 1, episode);
    assert forall|i: int| 0 <= i < title.len() && i != at implies #[trigger] read_at(s, i) is None by {
        if at < i < mid {
            assert(s[i] == season[i - at - 1]);
            assert(text::is_digit(season[i - at - 1]));
            if i > at + 1 {
                assert(s[i - 1] == season[i - at - 2]);
                assert(text::is_digit(season[i - at - 2]));
            }
        } else if mid < i < end {
            assert(s[i] == episode[i - mid - 1]);
            assert(text::is_digit(episode[i - mid - 1]));
            if i > mid + 1 {
                assert(s[i - 1] == episode[i - mid - 2]);
                assert(text::is_digit(episode[i - mid - 2]));
            }
        } else if i == mid {
            assert(digit_run(s, i) == 0);
        } else {
            assert(!text::is_digit(title[i]));
            assert(digit_run(s, i) == 0);
            if i + 1 < title.len() {
                assert(!text::is_digit(title[i + 1]));
            }
            assert(digit_run(s, i + 1) == 0);
        }
    }
    a_lone_marker_names_one_episode(
        title,
        at,
        text::number(season) as u16,
        text::number(episode) as u16,
    );
}

} // verus!
