//! How a title names an episode or a season.

use vstd::prelude::*;

use crate::marker;
use crate::poll;
use crate::relink;
use crate::text;

verus! {

/// A figure from zero to nine.
pub open spec fn is_figure(c: char) -> bool {
    48 <= c as int <= 57
}

/// What two figures in a row are worth.
pub open spec fn worth(tens: char, ones: char) -> int {
    10 * (tens as int - 48) + (ones as int - 48)
}

/// A letter of the English alphabet, or a figure.
pub open spec fn is_plain(c: char) -> bool {
    is_figure(c) || 65 <= c as int <= 90 || 97 <= c as int <= 122
}

/// Whether no letter and no figure stands right before a place.
pub open spec fn opens(s: Seq<char>, at: int) -> bool {
    at == 0 || !is_plain(s[at - 1])
}

/// Whether the letters and figures `S01E02` stand at a place, in any case.
pub open spec fn has_episode(s: Seq<char>, at: int) -> bool {
    &&& 0 <= at && at + 6 <= s.len()
    &&& s[at] == 's' || s[at] == 'S'
    &&& is_figure(s[at + 1]) && is_figure(s[at + 2])
    &&& s[at + 3] == 'e' || s[at + 3] == 'E'
    &&& is_figure(s[at + 4]) && is_figure(s[at + 5])
}

proof fn lemma_two_figures(tens: char, ones: char)
    requires
        is_figure(tens),
        is_figure(ones),
    ensures
        text::all_digits(seq![tens, ones]),
        text::number(seq![tens, ones]) == worth(tens, ones),
        text::spelled(seq![tens, ones], u16::MAX as nat) == Some(worth(tens, ones) as nat),
        text::all_digits(seq![ones]),
        text::number(seq![ones]) == ones as int - 48,
        text::spelled(seq![ones], u16::MAX as nat) == Some((ones as int - 48) as nat),
{
    reveal_with_fuel(text::number, 3);
    let two = seq![tens, ones];
    assert(two.drop_last() =~= seq![tens]);
    assert(seq![tens].drop_last() =~= Seq::empty());
    assert(seq![ones].drop_last() =~= Seq::empty());
}

/// `S01E02` names the second episode of the first season, whatever stands
/// around it but a letter or figure before and a figure behind.
pub proof fn s_and_e_name_an_episode(title: Seq<char>, at: int)
    requires
        has_episode(title, at),
        opens(title, at),
        at + 6 < title.len() ==> !is_figure(title[at + 6]),
    ensures
        marker::names_episode(
            title,
            worth(title[at + 1], title[at + 2]) as u16,
            worth(title[at + 4], title[at + 5]) as u16,
        ),
{
    let season = seq![title[at + 1], title[at + 2]];
    let episode = seq![title[at + 4], title[at + 5]];
    lemma_two_figures(title[at + 1], title[at + 2]);
    lemma_two_figures(title[at + 4], title[at + 5]);
    assert(title.subrange(at + 1, at + 3) =~= season);
    assert(title.subrange(at + 4, at + 6) =~= episode);
    marker::a_marker_is_read_whatever_its_padding(title, at, season, episode);
}

/// `1x02` names the second episode of the first season, standing alone.
pub proof fn a_cross_names_an_episode(title: Seq<char>, at: int)
    requires
        0 <= at && at + 4 <= title.len(),
        49 <= title[at] as int <= 57,
        title[at + 1] == 'x' || title[at + 1] == 'X',
        is_figure(title[at + 2]) && is_figure(title[at + 3]),
        opens(title, at),
        at + 4 < title.len() ==> !is_plain(title[at + 4]),
    ensures
        marker::names_episode(
            title,
            (title[at] as int - 48) as u16,
            worth(title[at + 2], title[at + 3]) as u16,
        ),
{
    let low = text::lowered(title);
    lemma_two_figures(title[at], title[at]);
    lemma_two_figures(title[at + 2], title[at + 3]);
    assert(low.subrange(at, at + 1) =~= seq![title[at]]);
    assert(low.subrange(at + 2, at + 4) =~= seq![title[at + 2], title[at + 3]]);
    marker::lemma_run_of(low, at, seq![title[at]]);
    marker::lemma_run_of(low, at + 2, seq![title[at + 2], title[at + 3]]);
    marker::lemma_read_is_listed(low, title.len() as int, at);
    let m = marker::read_at(low, at)->0;
    let k = choose|k: int| 0 <= k < marker::markers(title).len() && marker::markers(title)[k] == m;
    assert(marker::markers(title)[k].season == (title[at] as int - 48) as u16);
}

proof fn lemma_nothing_read(title: Seq<char>)
    requires
        forall|i: int|
            0 <= i < title.len() ==> #[trigger] marker::read_at(text::lowered(title), i) is None,
    ensures
        forall|season: u16, episode: u16| !#[trigger] marker::names_episode(title, season, episode),
{
    let low = text::lowered(title);
    assert forall|season: u16, episode: u16| !#[trigger]
        marker::names_episode(title, season, episode) by {
        if marker::names_episode(title, season, episode) {
            let k = choose|k: int|
                0 <= k < marker::markers(title).len() && (#[trigger] marker::markers(
                    title,
                )[k]).season == season && marker::markers(title)[k].episode == episode;
            marker::lemma_listed_was_read(low, title.len() as int, k);
        }
    }
}

/// A title without figures names no episode.
pub proof fn no_figures_no_episode(title: Seq<char>, season: u16, episode: u16)
    requires
        forall|i: int| 0 <= i < title.len() ==> !is_figure(#[trigger] title[i]),
    ensures
        !marker::names_episode(title, season, episode),
{
    let low = text::lowered(title);
    assert forall|i: int| 0 <= i < title.len() implies #[trigger] marker::read_at(low, i)
        is None by {
        assert(low[i] == text::lower(title[i]));
        assert(!text::is_digit(low[i]));
        if i + 1 < title.len() {
            assert(low[i + 1] == text::lower(title[i + 1]));
            assert(!text::is_digit(low[i + 1]));
        }
    }
    lemma_nothing_read(title);
}

/// A marker inside a word is none.
pub proof fn a_marker_inside_a_word_is_none(
    title: Seq<char>,
    at: int,
    season: u16,
    episode: u16,
)
    requires
        has_episode(title, at),
        at > 0,
        is_plain(title[at - 1]),
        forall|i: int|
            0 <= i < title.len() && (i <= at || i >= at + 6) ==> !is_figure(#[trigger] title[i]),
    ensures
        !marker::names_episode(title, season, episode),
{
    let low = text::lowered(title);
    assert forall|i: int| 0 <= i < title.len() implies #[trigger] marker::read_at(low, i)
        is None by {
        assert(forall|j: int| 0 <= j < title.len() ==> #[trigger] low[j] == text::lower(title[j]));
        if text::is_digit(low[i]) {
            assert(is_figure(title[i]));
            assert(marker::is_alnum(low[i - 1]));
        } else if i + 1 < title.len() && text::is_digit(low[i + 1]) {
            assert(is_figure(title[i + 1]));
            assert(is_figure(title[i]) || i == at || i == at + 3);
            if i == at {
                assert(marker::is_alnum(low[at - 1]));
            }
        }
    }
    lemma_nothing_read(title);
}

/// A picture's width and height name no episode, nor does a season zero.
pub proof fn a_resolution_is_no_episode(
    title: Seq<char>,
    at: int,
    wide: int,
    high: int,
    season: u16,
    episode: u16,
)
    requires
        0 <= at && wide > 0 && high > 0 && at + wide + 1 + high <= title.len(),
        wide > 2 || high > 2 || (wide == 1 && title[at] == '0'),
        title[at + wide] == 'x' || title[at + wide] == 'X',
        at > 0 ==> title[at - 1] != 's' && title[at - 1] != 'S',
        forall|i: int|
            0 <= i < title.len() ==> (is_figure(#[trigger] title[i]) <==> (at <= i < at + wide) || (at
                + wide + 1 <= i < at + wide + 1 + high)),
    ensures
        !marker::names_episode(title, season, episode),
{
    let low = text::lowered(title);
    assert(forall|j: int| 0 <= j < title.len() ==> #[trigger] low[j] == text::lower(title[j]));
    assert(forall|j: int|
        0 <= j < title.len() ==> text::is_digit(#[trigger] low[j]) == is_figure(title[j]));
    let first = low.subrange(at, at + wide);
    let second = low.subrange(at + wide + 1, at + wide + 1 + high);
    assert forall|j: int| 0 <= j < first.len() implies text::is_digit(#[trigger] first[j]) by {
        assert(first[j] == low[at + j]);
    }
    assert forall|j: int| 0 <= j < second.len() implies text::is_digit(#[trigger] second[j]) by {
        assert(second[j] == low[at + wide + 1 + j]);
    }
    marker::lemma_run_of(low, at, first);
    marker::lemma_run_of(low, at + wide + 1, second);
    if wide == 1 && title[at] == '0' {
        reveal_with_fuel(text::number, 2);
        assert(first =~= seq!['0']);
        assert(first.drop_last() =~= Seq::empty());
    }
    assert forall|i: int| 0 <= i < title.len() implies #[trigger] marker::read_at(low, i)
        is None by {
        if i == at {
        } else if text::is_digit(low[i]) {
            if i == at + wide + 1 {
                assert(marker::is_alnum(low[at + wide]));
            } else {
                assert(text::is_digit(low[i - 1]));
            }
        } else if i + 1 < title.len() && text::is_digit(low[i + 1]) {
            assert(is_figure(title[i + 1]));
            assert(i + 1 == at || i == at + wide);
        }
    }
    lemma_nothing_read(title);
}

/// A name that carries two episodes at once stands for no one episode.
pub proof fn two_episodes_at_once_are_no_one(title: Seq<char>, at: int)
    requires
        has_episode(title, at),
        opens(title, at),
        at + 9 <= title.len(),
        title[at + 6] == 'e' || title[at + 6] == 'E',
        is_figure(title[at + 7]) && is_figure(title[at + 8]),
        at + 9 < title.len() ==> !is_figure(title[at + 9]),
    ensures
        relink::named_episode(title) is None,
{
    let low = text::lowered(title);
    lemma_two_figures(title[at + 1], title[at + 2]);
    lemma_two_figures(title[at + 4], title[at + 5]);
    lemma_two_figures(title[at + 7], title[at + 8]);
    assert(low.subrange(at + 1, at + 3) =~= seq![title[at + 1], title[at + 2]]);
    assert(low.subrange(at + 4, at + 6) =~= seq![title[at + 4], title[at + 5]]);
    assert(low.subrange(at + 7, at + 9) =~= seq![title[at + 7], title[at + 8]]);
    marker::lemma_run_of(low, at + 1, seq![title[at + 1], title[at + 2]]);
    marker::lemma_run_of(low, at + 4, seq![title[at + 4], title[at + 5]]);
    marker::lemma_run_of(low, at + 7, seq![title[at + 7], title[at + 8]]);
    marker::lemma_read_is_listed(low, title.len() as int, at);
    let m = marker::read_at(low, at)->0;
    let k = choose|k: int| 0 <= k < marker::markers(title).len() && marker::markers(title)[k] == m;
    assert(marker::markers(title)[k].chained);
}

/// A file stands for the episode it names where it names only that one.
pub proof fn a_file_stands_for_the_one_episode_it_names(
    title: Seq<char>,
    one: (u16, u16),
    other: (u16, u16),
)
    requires
        marker::names_episode(title, one.0, one.1),
    ensures
        relink::named_episode(title) is Some ==> relink::named_episode(title) == Some(one),
        one != other && marker::names_episode(title, other.0, other.1) ==> relink::named_episode(
            title,
        ) is None,
        relink::named_episode(title) is None ==> (exists|k: int|
            0 <= k < marker::markers(title).len() && (#[trigger] marker::markers(
                title,
            )[k]).chained) || (exists|season: u16, episode: u16|
            (season, episode) != one && #[trigger] marker::names_episode(title, season, episode)),
{
    let found = marker::markers(title);
    let i = choose|i: int|
        0 <= i < found.len() && (#[trigger] found[i]).season == one.0 && found[i].episode == one.1;
    if one != other && marker::names_episode(title, other.0, other.1) {
        let j = choose|j: int|
            0 <= j < found.len() && (#[trigger] found[j]).season == other.0 && found[j].episode
                == other.1;
        assert(found[i] != found[j]);
    }
    if relink::named_episode(title) is None {
        let j = choose|j: int|
            0 <= j < found.len() && !(!(#[trigger] found[j]).chained && found[j].season
                == found[0].season && found[j].episode == found[0].episode);
        if !found[j].chained {
            assert(marker::names_episode(title, found[j].season, found[j].episode));
            assert(marker::names_episode(title, found[0].season, found[0].episode));
        }
    }
}

// ---------------------------------------------------------------------
// Seasons
// ---------------------------------------------------------------------

/// Whether a text is plain ASCII.
pub open spec fn is_ascii(s: Seq<char>) -> bool {
    forall|i: int| 0 <= i < s.len() ==> #[trigger] s[i] as int <= 127
}

/// Whether `S01` stands at a place, in any case, and apart.
pub open spec fn has_season(s: Seq<char>, at: int, season: int) -> bool {
    &&& 0 <= at && at + 3 <= s.len()
    &&& s[at] == 's' || s[at] == 'S'
    &&& is_figure(s[at + 1]) && is_figure(s[at + 2])
    &&& worth(s[at + 1], s[at + 2]) == season
    &&& opens(s, at)
}

/// Whether no figure follows on an `e`.
pub open spec fn tells_no_episode(s: Seq<char>) -> bool {
    forall|i: int|
        0 <= i < s.len() - 1 && (#[trigger] s[i] == 'e' || s[i] == 'E') ==> !is_figure(s[i + 1])
}

proof fn lemma_ascii_lowered(s: Seq<char>)
    requires
        is_ascii(s),
    ensures
        text::unicode_lowered(s) == text::lowered(s),
    decreases s.len(),
{
    if s.len() > 0 {
        let short = s.drop_last();
        assert forall|i: int| 0 <= i < short.len() implies #[trigger] short[i] as int <= 127 by {
            assert(short[i] == s[i]);
        }
        lemma_ascii_lowered(short);
        assert(s.last() as int <= 127);
        assert(text::lowered(s) =~= text::lowered(short) + seq![text::lower(s.last())]);
    } else {
        assert(text::lowered(s) =~= Seq::empty());
    }
}

proof fn lemma_padded(tens: char, ones: char)
    requires
        is_figure(tens),
        is_figure(ones),
    ensures
        text::padded(worth(tens, ones) as nat) == seq![tens, ones],
{
    reveal_with_fuel(text::decimal, 3);
    let n = worth(tens, ones) as nat;
    if n < 10 {
        assert(text::decimal(n) =~= seq![ones]);
    } else {
        assert(n / 10 == tens as int - 48);
        assert(n % 10 == ones as int - 48);
        assert(text::decimal(n / 10) =~= seq![tens]);
    }
    assert(text::padded(n) =~= seq![tens, ones]);
}

proof fn lemma_decimal_starts(n: nat)
    ensures
        text::decimal(n).len() > 0,
        is_figure(text::decimal(n)[0]),
        text::padded(n).len() > 0,
        is_figure(text::padded(n)[0]),
    decreases n,
{
    if n >= 10 {
        lemma_decimal_starts(n / 10);
    }
}

proof fn lemma_no_episode_marked(title: Seq<char>, season: u16)
    requires
        is_ascii(title),
        tells_no_episode(title),
    ensures
        !poll::names_an_episode(title, season),
{
    let low = text::lowered(title);
    lemma_ascii_lowered(title);
    assert forall|needle: Seq<char>, at: int| !#[trigger] poll::episode_at(low, needle, at) by {
        if poll::episode_at(low, needle, at) {
            let after = at + needle.len();
            assert(low[after] == text::lower(title[after]));
            assert(low[after + 1] == text::lower(title[after + 1]));
            assert(title[after] == 'e' || title[after] == 'E');
        }
    }
}

/// A season's marker without an episode behind it makes a title that season's
/// pack.
pub proof fn a_bare_season_is_a_pack(title: Seq<char>, at: int, season: u16)
    requires
        is_ascii(title),
        has_season(title, at, season as int),
        tells_no_episode(title),
        at + 3 < title.len() ==> !is_figure(title[at + 3]),
    ensures
        poll::is_season_pack(title, season),
{
    let low = text::lowered(title);
    lemma_ascii_lowered(title);
    lemma_padded(title[at + 1], title[at + 2]);
    lemma_no_episode_marked(title, season);
    let needle = poll::padded_marker(season);
    assert(needle =~= seq!['s', title[at + 1], title[at + 2]]);
    assert(low.subrange(at, at + 3) =~= needle);
    if at + 3 < title.len() {
        assert(low[at + 3] == text::lower(title[at + 3]));
        if at + 4 < title.len() {
            assert(low[at + 4] == text::lower(title[at + 4]));
            assert(title[at + 3] == 'e' || title[at + 3] == 'E' ==> !is_figure(title[at + 4]));
        }
    }
    assert(poll::pack_at(low, needle, at));
}

/// A title that names an episode of a season is not that season's pack,
/// whatever else it says.
pub proof fn an_episode_is_no_pack(title: Seq<char>, at: int, season: u16)
    requires
        is_ascii(title),
        has_season(title, at, season as int),
        at + 4 < title.len(),
        title[at + 3] == 'e' || title[at + 3] == 'E',
        is_figure(title[at + 4]),
    ensures
        !poll::is_season_pack(title, season),
{
    let low = text::lowered(title);
    lemma_ascii_lowered(title);
    lemma_padded(title[at + 1], title[at + 2]);
    let needle = poll::padded_marker(season);
    assert(needle =~= seq!['s', title[at + 1], title[at + 2]]);
    assert(low.subrange(at, at + 3) =~= needle);
    assert(poll::episode_at(low, needle, at));
}

/// `S01-S05` is the pack of every season from the first to the fifth.
pub proof fn a_range_is_a_pack_of_each(
    title: Seq<char>,
    at: int,
    first: int,
    last: int,
    season: u16,
)
    requires
        is_ascii(title),
        has_season(title, at, first),
        at + 7 <= title.len(),
        title[at + 3] == '-',
        has_season(title, at + 4, last),
        at + 7 < title.len() ==> !is_figure(title[at + 7]),
        tells_no_episode(title),
        first <= season <= last,
    ensures
        poll::is_season_pack(title, season),
{
    let low = text::lowered(title);
    lemma_ascii_lowered(title);
    lemma_no_episode_marked(title, season);
    lemma_two_figures(title[at + 1], title[at + 2]);
    lemma_two_figures(title[at + 5], title[at + 6]);
    assert(low.subrange(at + 1, at + 3) =~= seq![title[at + 1], title[at + 2]]);
    assert(low.subrange(at + 5, at + 7) =~= seq![title[at + 5], title[at + 6]]);
    assert(low[at + 3] == '-');
    if at + 7 < title.len() {
        assert(low[at + 7] == text::lower(title[at + 7]));
        if at + 8 < title.len() {
            assert(low[at + 8] == text::lower(title[at + 8]));
            assert(title[at + 7] == 'e' || title[at + 7] == 'E' ==> !is_figure(title[at + 8]));
        }
    }
    marker::lemma_run_of(low, at + 1, seq![title[at + 1], title[at + 2]]);
    marker::lemma_run_of(low, at + 5, seq![title[at + 5], title[at + 6]]);
    assert(poll::range_at(low, at, season));
}

/// A title whose only season marker is another season's is no pack of this
/// one.
pub proof fn another_season_is_no_pack(title: Seq<char>, at: int, other: int, season: u16)
    requires
        is_ascii(title),
        has_season(title, at, other),
        other != season,
        at + 3 < title.len() ==> !is_figure(title[at + 3]) && title[at + 3] != '-',
        forall|i: int|
            0 <= i < title.len() - 1 && i != at && (#[trigger] title[i] == 's' || title[i] == 'S')
                ==> !is_figure(title[i + 1]),
    ensures
        !poll::is_season_pack(title, season),
{
    let low = text::lowered(title);
    lemma_ascii_lowered(title);
    assert(forall|j: int| 0 <= j < title.len() ==> #[trigger] low[j] == text::lower(title[j]));
    lemma_two_figures(title[at + 1], title[at + 2]);
    assert(low.subrange(at + 1, at + 3) =~= seq![title[at + 1], title[at + 2]]);
    marker::lemma_run_of(low, at + 1, seq![title[at + 1], title[at + 2]]);
    assert forall|p: int| !#[trigger] poll::range_at(low, p, season) by {
        if poll::range_at(low, p, season) {
            assert(marker::digit_run(low, p + 1) > 0);
            assert(is_figure(title[p + 1]));
            assert(p == at);
        }
    }
    let spellings = seq![text::padded(season as nat), text::decimal(season as nat)];
    assert forall|k: int, p: int|
        0 <= k < 2 implies !#[trigger] poll::pack_at(low, seq!['s'] + spellings[k], p) by {
        let needle = seq!['s'] + spellings[k];
        if poll::pack_at(low, needle, p) {
            lemma_decimal_starts(season as nat);
            let here = low.subrange(p, p + needle.len());
            assert(here == needle);
            assert(here[0] == low[p]);
            assert(here[1] == low[p + 1]);
            assert(is_figure(title[p + 1]));
            assert(p == at);
            lemma_spelling(season as nat, spellings[k]);
            assert(marker::digit_run(low, at + 1) == 2);
            let run = low.subrange(at + 1, at + 1 + spellings[k].len());
            assert(run =~= spellings[k]) by {
                assert forall|j: int| 0 <= j < run.len() implies run[j] == spellings[k][j] by {
                    assert(here[j + 1] == low[at + 1 + j]);
                    assert(needle[j + 1] == spellings[k][j]);
                }
            }
            marker::lemma_run_of(low, at + 1, run);
            assert(run =~= seq![title[at + 1], title[at + 2]]);
            assert(false);
        }
    }
    assert(poll::padded_marker(season) == seq!['s'] + spellings[0]);
    assert(poll::bare_marker(season) == seq!['s'] + spellings[1]);
}

proof fn lemma_spelling(n: nat, s: Seq<char>)
    requires
        s == text::padded(n) || s == text::decimal(n),
    ensures
        text::all_digits(s),
        text::number(s) == n,
    decreases n,
{
    reveal_with_fuel(text::number, 3);
    if n < 10 {
        assert(text::decimal(n).drop_last() =~= Seq::empty());
        let p = text::padded(n);
        assert(p =~= seq!['0', ('0' as int + n) as char]);
        assert(p.drop_last() =~= seq!['0']);
        assert(seq!['0'].drop_last() =~= Seq::<char>::empty());
    } else {
        lemma_spelling(n / 10, text::decimal(n / 10));
        let d = text::decimal(n);
        assert(d.drop_last() =~= text::decimal(n / 10));
        assert forall|i: int| 0 <= i < d.len() implies text::is_digit(#[trigger] d[i]) by {
            if i < d.len() - 1 {
                assert(d[i] == text::decimal(n / 10)[i]);
            }
        }
    }
}

} // verus!
