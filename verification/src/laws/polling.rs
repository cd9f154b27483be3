//! Picking what to push to an instance.

use vstd::prelude::*;

use crate::catalogue::{DecisionRow, SearchKeys};
use crate::db::push_history::PushStatus;
use crate::error::AppError;
use crate::laws::spelling;
use crate::poll;
use crate::poll::{
    ArrKind, ArrRule, CycleStep, Dispatch, PackEnd, PollSummary, SearchEnd, SeasonGroup,
    SonarrCycle, WantedEpisode, WantedMovie,
};
use crate::text;

verus! {

/// Whether a release comes from Usenet: its provider is a Newznab one.
pub open spec fn from_usenet(d: DecisionRow) -> bool {
    d.provider_kind matches Some(k) && spelling::reads_as(
        k@,
        seq!['n', 'e', 'w', 'z', 'n', 'a', 'b'],
    )
}

pub proof fn lemma_usenet(kind: Seq<char>)
    ensures
        text::eq_fold(kind, "newznab"@) <==> spelling::reads_as(
            kind,
            seq!['n', 'e', 'w', 'z', 'n', 'a', 'b'],
        ),
{
    reveal_strlit("newznab");
    assert("newznab"@ =~= seq!['n', 'e', 'w', 'z', 'n', 'a', 'b']);
    spelling::lemma_reads(kind, "newznab"@);
}

proof fn lemma_bar(d: DecisionRow)
    ensures
        poll::is_usenet(d) == from_usenet(d),
{
    if let Some(k) = d.provider_kind {
        lemma_usenet(k@);
    }
}

/// Whether two rows are one release that a profile may have been given
/// another baseline for: only the baseline score tells them apart.
pub open spec fn differ_in_baseline_only(a: DecisionRow, b: DecisionRow) -> bool {
    &&& a.provider_id == b.provider_id
    &&& a.provider_kind == b.provider_kind
    &&& a.release_name@ == b.release_name@
    &&& a.seeders == b.seeders
    &&& a.profile_scores@ == b.profile_scores@
}

/// A release its instance's profile scored is judged by that score alone: a
/// score under the threshold is never pushed, nor one on it unless it comes
/// from Usenet, whatever the baseline, and another baseline changes nothing.
pub proof fn a_profile_outweighs_the_baseline(
    a: DecisionRow,
    b: DecisionRow,
    arr: ArrRule,
    profile: u128,
)
    requires
        arr.profile_id == Some(profile),
        a.profile_scores@.contains_key(profile),
        differ_in_baseline_only(a, b),
    ensures
        poll::is_pushable(a, arr) == poll::is_pushable(b, arr),
        a.profile_scores@[profile] < arr.threshold ==> !poll::is_pushable(a, arr),
        a.profile_scores@[profile] == arr.threshold < u32::MAX && !from_usenet(a)
            ==> !poll::is_pushable(a, arr),
{
    lemma_bar(a);
    lemma_bar(b);
}

/// What is pushed has a provider, was not tried on the instance, reaches the
/// threshold, past it unless it comes from Usenet, and has a seeder unless it
/// comes from Usenet or from before kinds were kept. Where the instance's
/// profile scored it the score is the profile's, and else the baseline.
pub proof fn what_is_pushed_is_worth_pushing(
    r: Option<usize>,
    decisions: Seq<DecisionRow>,
    arr: ArrRule,
    tried: Seq<bool>,
)
    requires
        poll::is_next_push(r, decisions, arr, tried),
        r is Some,
    ensures
        ({
            let k = r->0 as int;
            let d = decisions[k];
            let score = if arr.profile_id is Some && d.profile_scores@.contains_key(
                arr.profile_id->0,
            ) {
                d.profile_scores@[arr.profile_id->0]
            } else {
                d.score
            };
            &&& 0 <= k < decisions.len()
            &&& !tried[k]
            &&& d.provider_id is Some
            &&& score >= arr.threshold
            &&& score == arr.threshold ==> from_usenet(d) || arr.threshold == u32::MAX
            &&& d.seeders == 0 ==> from_usenet(d) || d.provider_kind is None
        }),
{
    lemma_bar(decisions[r->0 as int]);
}

/// Whether a title carries an episode or a season: an `S` that starts a word,
/// digits behind it, and behind those either an `E` and a digit, or, after no
/// more than three, anything but a letter.
pub open spec fn tells_of_tv(title: Seq<char>, at: int, digits: int) -> bool {
    &&& 0 <= at
    &&& 1 <= digits
    &&& at + digits < title.len()
    &&& title[at] == 's' || title[at] == 'S'
    &&& at == 0 || !is_alphanumeric(title[at - 1])
    &&& forall|i: int| at < i <= at + digits ==> '0' <= #[trigger] title[i] <= '9'
    &&& at + digits + 1 < title.len() ==> !('0' <= title[at + digits + 1] <= '9')
    &&& {
        ||| at + digits + 2 < title.len() && (title[at + digits + 1] == 'e' || title[at + digits
            + 1] == 'E') && '0' <= title[at + digits + 2] <= '9'
        ||| digits <= 3 && (at + digits + 1 == title.len() || !is_alphabetic(
            title[at + digits + 1],
        ))
    }
}

pub open spec fn is_alphabetic(c: char) -> bool {
    65 <= c as int <= 90 || 97 <= c as int <= 122
}

pub open spec fn is_alphanumeric(c: char) -> bool {
    is_alphabetic(c) || 48 <= c as int <= 57
}

proof fn lemma_run(title: Seq<char>, from: int, n: int)
    requires
        0 <= from,
        0 <= n,
        from + n <= title.len(),
        forall|i: int| from <= i < from + n ==> '0' <= #[trigger] title[i] <= '9',
        from + n < title.len() ==> !('0' <= title[from + n] <= '9'),
    ensures
        crate::marker::digit_run(title, from) == n,
    decreases n,
{
    if n > 0 {
        assert('0' <= title[from] <= '9');
        lemma_run(title, from + 1, n - 1);
    }
}

proof fn lemma_run_is_digits(title: Seq<char>, from: int)
    requires
        0 <= from,
    ensures
        from <= title.len() ==> from + crate::marker::digit_run(title, from) <= title.len(),
        forall|i: int|
            from <= i < from + crate::marker::digit_run(title, from) ==> '0' <= #[trigger] title[i]
                <= '9',
        from + crate::marker::digit_run(title, from) < title.len() ==> !('0' <= title[from
            + crate::marker::digit_run(title, from)] <= '9'),
    decreases title.len() - from,
{
    if from < title.len() && text::is_digit(title[from]) {
        lemma_run_is_digits(title, from + 1);
    }
}

/// A release that tells of an episode or a season never goes to an instance
/// that keeps films, and any other title does not stop a release from going
/// there; an instance that keeps series takes every title.
pub proof fn films_get_no_series(d: DecisionRow, e: DecisionRow, arr: ArrRule)
    requires
        d.provider_id == e.provider_id,
        d.provider_kind == e.provider_kind,
        d.seeders == e.seeders,
        d.score == e.score,
        d.profile_scores@ == e.profile_scores@,
    ensures
        arr.kind == ArrKind::Radarr && (exists|at: int, digits: int|
            tells_of_tv(d.release_name@, at, digits)) ==> !poll::is_pushable(d, arr),
        arr.kind == ArrKind::Radarr && !(exists|at: int, digits: int|
            tells_of_tv(d.release_name@, at, digits)) && poll::is_pushable(e, arr)
            ==> poll::is_pushable(d, arr),
        arr.kind == ArrKind::Sonarr ==> poll::is_pushable(d, arr) == poll::is_pushable(e, arr),
{
    let s = d.release_name@;
    if exists|at: int, digits: int| tells_of_tv(s, at, digits) {
        let (at, digits) = choose|at: int, digits: int| tells_of_tv(s, at, digits);
        lemma_run(s, at + 1, digits);
        assert(poll::tv_mark(s, at));
    }
    if poll::looks_like_tv(s) {
        let at = choose|at: int| #[trigger] poll::tv_mark(s, at);
        lemma_run_is_digits(s, at + 1);
        let digits = crate::marker::digit_run(s, at + 1) as int;
        assert(tells_of_tv(s, at, digits));
    }
}

/// More seeders, or a higher score, never make a release less worth pushing,
/// and a lower threshold takes no release away.
pub proof fn better_is_never_worse(d: DecisionRow, e: DecisionRow, arr: ArrRule, lower: ArrRule)
    requires
        d.provider_id == e.provider_id,
        d.provider_kind == e.provider_kind,
        d.release_name@ == e.release_name@,
        d.seeders <= e.seeders,
        d.score <= e.score,
        forall|p: u128|
            d.profile_scores@.contains_key(p) == #[trigger] e.profile_scores@.contains_key(p),
        forall|p: u128| #[trigger]
            d.profile_scores@.contains_key(p) ==> d.profile_scores@[p] <= e.profile_scores@[p],
        lower.kind == arr.kind,
        lower.profile_id == arr.profile_id,
        lower.threshold <= arr.threshold,
        poll::is_pushable(d, arr),
    ensures
        poll::is_pushable(e, lower),
{
    if let Some(p) = arr.profile_id {
        assert(d.profile_scores@.contains_key(p) == e.profile_scores@.contains_key(p));
    }
}

/// A release is passed over only for a reason: where nothing is pushed, or a
/// later release is, an earlier one was tried, has no provider, falls short
/// of the threshold, has no seeder, or is a series offered to an instance
/// that keeps films.
pub proof fn nothing_worth_pushing_is_passed_over(
    r: Option<usize>,
    decisions: Seq<DecisionRow>,
    arr: ArrRule,
    tried: Seq<bool>,
    j: int,
)
    requires
        poll::is_next_push(r, decisions, arr, tried),
        0 <= j < decisions.len(),
        r matches Some(k) ==> j < k,
        !tried[j],
        decisions[j].provider_id is Some,
        decisions[j].seeders > 0,
        arr.kind == ArrKind::Sonarr,
        arr.threshold < u32::MAX,
    ensures
        arr.profile_id is None ==> decisions[j].score <= arr.threshold,
        arr.profile_id matches Some(p) ==> (decisions[j].profile_scores@.contains_key(p)
            ==> decisions[j].profile_scores@[p] <= arr.threshold),
        arr.profile_id matches Some(p) ==> (!decisions[j].profile_scores@.contains_key(p)
            ==> decisions[j].score <= arr.threshold),
        from_usenet(decisions[j]) && arr.profile_id is None ==> decisions[j].score < arr.threshold,
{
    lemma_bar(decisions[j]);
    assert(!poll::is_pushable(decisions[j], arr));
}

// ---------------------------------------------------------------------
// What is searched for
// ---------------------------------------------------------------------

/// A film or an episode is looked for while it is monitored and has no file.
pub proof fn what_has_a_file_is_not_looked_for(
    film: bool,
    m: WantedMovie,
    episode: bool,
    e: WantedEpisode,
)
    requires
        poll::is_polled(film, m),
        poll::is_polled_episode(episode, e),
    ensures
        film <==> m.monitored && !m.has_file,
        episode <==> e.monitored && !e.has_file,
{
}

proof fn lemma_figures(s: Seq<char>)
    requires
        s.len() > 0,
        forall|i: int| 0 <= i < s.len() ==> 48 <= #[trigger] s[i] as int <= 57,
    ensures
        text::number(poll::without_zeros(s)) == text::number(s),
        text::all_digits(poll::without_zeros(s)),
        text::number(s) > 0 ==> poll::without_zeros(s).len() > 0,
        poll::without_zeros(s).len() == 0 ==> text::number(s) == 0,
        poll::without_zeros(s).len() > 0 ==> 49 <= poll::without_zeros(s)[0] as int <= 57,
    decreases s.len(),
{
    if s[0] == '0' {
        let rest = s.skip(1);
        lemma_leading_zero(rest);
        assert(seq!['0'] + rest =~= s);
        assert(forall|i: int| 0 <= i < rest.len() ==> #[trigger] rest[i] == s[i + 1]);
        if rest.len() > 0 {
            lemma_figures(rest);
        }
    }
}

proof fn lemma_leading_zero(s: Seq<char>)
    ensures
        text::number(seq!['0'] + s) == text::number(s),
    decreases s.len(),
{
    let all = seq!['0'] + s;
    if s.len() == 0 {
        assert(all =~= seq!['0']);
        assert(all.drop_last() =~= Seq::<char>::empty());
        assert(text::number(all.drop_last()) == 0);
    } else {
        assert(all.drop_last() =~= seq!['0'] + s.drop_last());
        assert(all.last() == s.last());
        lemma_leading_zero(s.drop_last());
    }
}

/// An IMDb id is its number, with `tt` in front or without, whatever zeros
/// lead it. Zero is no id, nor is what holds anything but figures.
pub proof fn an_imdb_id_is_its_number(figures: Seq<char>)
    requires
        figures.len() > 0,
        forall|i: int| 0 <= i < figures.len() ==> 48 <= #[trigger] figures[i] as int <= 57,
    ensures
        0 < text::number(figures) <= u32::MAX ==> poll::imdb_number(figures) == Some(
            text::number(figures),
        ),
        !(0 < text::number(figures) <= u32::MAX) ==> poll::imdb_number(figures) is None,
        poll::imdb_number(seq!['t', 't'] + figures) == poll::imdb_number(figures),
{
    lemma_figures(figures);
    let marked = seq!['t', 't'] + figures;
    assert(marked.skip(2) =~= figures);
    assert(figures[0] != 't');
    assert(poll::without_tt(figures) == figures);
    assert(poll::without_tt(marked) == figures);
    let bare = poll::without_zeros(figures);
    assert(bare.len() > 0 ==> bare[0] != '+');
}

/// What no figure ends is no IMDb id.
pub proof fn a_name_is_no_imdb_id(raw: Seq<char>)
    requires
        raw.len() > 0,
        !(48 <= raw.last() as int <= 57),
    ensures
        poll::imdb_number(raw) is None,
{
    lemma_tail_of(raw);
    let cut = poll::without_tt(raw);
    if cut.len() > 0 {
        lemma_zeros_tail(cut);
        let bare = poll::without_zeros(cut);
        if bare.len() > 0 {
            assert(bare.last() == raw.last());
            if bare[0] == '+' && bare.len() > 1 {
                assert(bare.skip(1).last() == raw.last());
                assert(bare.skip(1)[bare.len() - 2] == raw.last());
            }
            assert(!text::is_digit(bare[bare.len() - 1]));
        }
    }
}

proof fn lemma_tail_of(s: Seq<char>)
    ensures
        poll::without_tt(s).len() > 0 ==> s.len() > 0 && poll::without_tt(s).last() == s.last(),
    decreases s.len(),
{
    if s.len() >= 2 && s[0] == 't' && s[1] == 't' {
        lemma_tail_of(s.skip(2));
    }
}

proof fn lemma_zeros_tail(s: Seq<char>)
    ensures
        poll::without_zeros(s).len() > 0 ==> s.len() > 0 && poll::without_zeros(s).last()
            == s.last(),
    decreases s.len(),
{
    if s.len() > 0 && s[0] == '0' {
        lemma_zeros_tail(s.skip(1));
    }
}

/// A film is searched by the ids it has, and by nothing else; without any it
/// is not searched.
pub proof fn a_film_is_searched_by_its_ids(r: Option<SearchKeys>, m: WantedMovie)
    requires
        poll::is_film_search(r, m),
    ensures
        r is None <==> m.tmdb_id == 0 && poll::imdb_number(m.imdb_id@) is None,
        r matches Some(keys) ==> {
            &&& keys.tvdb is None && keys.season is None && keys.episode is None
            &&& m.tmdb_id > 0 ==> keys.tmdb == Some(m.tmdb_id)
            &&& m.tmdb_id == 0 ==> keys.tmdb is None
            &&& poll::imdb_number(m.imdb_id@) is None ==> keys.imdb is None
            &&& poll::imdb_number(m.imdb_id@) matches Some(n) ==> (keys.imdb matches Some(id) && id
                == n)
        },
{
}

/// An episode is searched by its series' TVDB id, its season and its number;
/// without such an id it is not searched.
pub proof fn an_episode_is_searched_by_its_place(r: Option<SearchKeys>, e: WantedEpisode)
    requires
        poll::is_episode_search(r, e),
    ensures
        r is Some <==> (e.series matches Some(s) && s.tvdb_id > 0),
        r matches Some(keys) ==> {
            &&& keys.tvdb == Some(e.series->0.tvdb_id)
            &&& keys.season == Some(e.season_number)
            &&& keys.episode == Some(e.episode_number)
            &&& keys.tmdb is None && keys.imdb is None
        },
{
}

/// The poller waits as many seconds as configured, a minute at least, and
/// half an hour where nothing readable is configured.
pub proof fn a_minute_is_the_least(r: u64, configured: Option<&str>)
    requires
        poll::is_interval(r, configured),
    ensures
        r >= 60,
        configured is None ==> r == 30 * 60,
        configured matches Some(s) ==> (s@.len() > 0 && (forall|i: int|
            0 <= i < s@.len() ==> 48 <= #[trigger] s@[i] as int <= 57) && 60 <= text::number(s@)
            <= u64::MAX ==> r == text::number(s@)),
        configured matches Some(s) ==> (s@.len() > 0 && (forall|i: int|
            0 <= i < s@.len() ==> 48 <= #[trigger] s@[i] as int <= 57) && text::number(s@) < 60
            ==> r == 60),
        configured matches Some(s) ==> (s@.len() == 0 ==> r == 30 * 60),
        configured matches Some(s) ==> (s@.len() > 0 && !(48 <= s@.last() as int <= 57) ==> r == 30
            * 60),
{
    if let Some(s) = configured {
        if s@.len() > 0 && !(48 <= s@.last() as int <= 57) {
            assert(!text::is_digit(s@[s@.len() - 1]));
            if s@.len() > 1 {
                assert(s@.skip(1)[s@.len() - 2] == s@.last());
            }
        }
        if s@.len() > 0 && forall|i: int| 0 <= i < s@.len() ==> 48 <= #[trigger] s@[i] as int <= 57 {
            assert(48 <= s@[0] as int);
            assert(text::all_digits(s@));
        }
    }
}

/// A pass over the films searches each that is looked for and has an id, one
/// time, in order, and pauses behind each that is not the last of the list.
pub proof fn a_film_pass_leaves_none_out(
    r: (Vec<Dispatch>, PollSummary),
    movies: Seq<WantedMovie>,
)
    requires
        poll::is_film_pass(r, movies),
    ensures
        forall|i: int, j: int|
            0 <= i < j < r.0@.len() ==> (#[trigger] r.0@[i]).row < (#[trigger] r.0@[j]).row,
        forall|i: int|
            0 <= i < r.0@.len() ==> (#[trigger] r.0@[i]).row < movies.len() && r.0@[i].pause == (
            r.0@[i].row + 1 < movies.len()),
        forall|m: int|
            0 <= m < movies.len() ==> (is_row(r.0@, m) <==> (#[trigger] movies[m]).monitored
                && !movies[m].has_file && (movies[m].tmdb_id > 0 || poll::imdb_number(
                movies[m].imdb_id@,
            ) is Some)),
        r.1.considered == movies.len() && r.1.searched == r.0@.len() && r.1.pushed == 0
            && r.1.search_errors == 0,
{
    let rows = poll::searched_rows(movies);
    lemma_searched_rows(movies);
    assert forall|i: int, j: int| 0 <= i < j < r.0@.len() implies (#[trigger] r.0@[i]).row < (
    #[trigger] r.0@[j]).row by {
        assert(rows[i] < rows[j]);
    }
    assert forall|m: int| 0 <= m < movies.len() implies (is_row(r.0@, m) <==> (
    #[trigger] movies[m]).monitored && !movies[m].has_file && (movies[m].tmdb_id > 0
        || poll::imdb_number(movies[m].imdb_id@) is Some)) by {
        if is_row(r.0@, m) {
            let i = choose|i: int| 0 <= i < r.0@.len() && (#[trigger] r.0@[i]).row == m;
            assert(rows[i] == m);
            assert(poll::is_searched(movies[m]));
        }
        if poll::is_searched(movies[m]) {
            assert(rows.contains(m));
            let i = choose|i: int| 0 <= i < rows.len() && rows[i] == m;
            assert(r.0@[i].row == m);
        }
    }
}

/// Whether a place is among those searched.
pub open spec fn is_row(plan: Seq<Dispatch>, m: int) -> bool {
    exists|i: int| 0 <= i < plan.len() && (#[trigger] plan[i]).row == m
}

proof fn lemma_searched_rows(movies: Seq<WantedMovie>)
    ensures
        forall|i: int, j: int|
            0 <= i < j < poll::searched_rows(movies).len() ==> (#[trigger] poll::searched_rows(
                movies,
            )[i]) < #[trigger] poll::searched_rows(movies)[j],
        forall|i: int|
            0 <= i < poll::searched_rows(movies).len() ==> 0 <= #[trigger] poll::searched_rows(
                movies,
            )[i] < movies.len() && poll::is_searched(movies[poll::searched_rows(movies)[i]]),
        forall|m: int|
            0 <= m < movies.len() && poll::is_searched(#[trigger] movies[m])
                ==> poll::searched_rows(movies).contains(m),
    decreases movies.len(),
{
    if movies.len() > 0 {
        let short = movies.drop_last();
        lemma_searched_rows(short);
        let before = poll::searched_rows(short);
        let all = poll::searched_rows(movies);
        assert forall|m: int| 0 <= m < movies.len() && poll::is_searched(
            #[trigger] movies[m],
        ) implies all.contains(m) by {
            if m < short.len() {
                assert(short[m] == movies[m]);
                let i = choose|i: int| 0 <= i < before.len() && before[i] == m;
                assert(all[i] == m);
            } else {
                assert(all[before.len() as int] == m);
            }
        }
        assert forall|i: int| 0 <= i < all.len() implies 0 <= #[trigger] all[i] < movies.len()
            && poll::is_searched(movies[all[i]]) by {
            if i < before.len() {
                assert(all[i] == before[i]);
                assert(short[before[i]] == movies[before[i]]);
            }
        }
        assert forall|i: int, j: int| 0 <= i < j < all.len() implies (#[trigger] all[i])
            < #[trigger] all[j] by {
            assert(all[i] == before[i]);
            if j < before.len() {
                assert(all[j] == before[j]);
            }
        }
    }
}

/// A search counts as a push where the instance accepted the release, as an
/// error where it failed, and as neither otherwise.
pub proof fn only_what_was_accepted_counts_as_pushed(
    before: PollSummary,
    after: PollSummary,
    end: SearchEnd,
)
    requires
        poll::is_recorded(before, after, end),
    ensures
        after.considered == before.considered && after.searched == before.searched,
        end matches SearchEnd::Pushed(status) ==> after.search_errors == before.search_errors
            && after.pushed == before.pushed + if status == PushStatus::Accepted {
            1int
        } else {
            0
        },
        end is Failed ==> after.pushed == before.pushed && after.search_errors
            == before.search_errors + 1,
        end is Nothing || end is Unrecorded ==> after.pushed == before.pushed
            && after.search_errors == before.search_errors,
{
}

// ---------------------------------------------------------------------
// Seasons
// ---------------------------------------------------------------------

/// An episode stands in the group of its series and season exactly where it
/// is looked for and its series has a TVDB id, and each such episode has its
/// group.
pub proof fn an_episode_stands_with_its_season(
    groups: Seq<SeasonGroup>,
    episodes: Seq<WantedEpisode>,
    g: int,
    e: int,
)
    requires
        poll::are_groups(groups, episodes),
        0 <= g < groups.len(),
        0 <= e < episodes.len(),
        e <= usize::MAX,
    ensures
        groups[g].episodes@.contains(e as usize) <==> episodes[e].monitored && !episodes[e].has_file
            && (episodes[e].series matches Some(s) && s.tvdb_id > 0 && s.id == groups[g].series_id)
            && episodes[e].season_number == groups[g].season,
        episodes[e].monitored && !episodes[e].has_file && (episodes[e].series matches Some(s)
            && s.tvdb_id > 0) ==> poll::has_group(
            groups,
            (episodes[e].series->0.id, episodes[e].season_number),
        ),
        groups[g].episodes@.len() > 0,
        forall|h: int|
            0 <= h < groups.len() && h != g ==> (#[trigger] groups[h]).series_id
                != groups[g].series_id || groups[h].season != groups[g].season,
{
    let key = poll::group_key(groups[g]);
    let places = poll::members(episodes, key);
    let held = groups[g].episodes@;
    poll::lemma_members(episodes, key);
    assert(poll::as_places(held) == places);
    assert(poll::as_places(held).len() == held.len());
    if held.contains(e as usize) {
        let i = choose|i: int| 0 <= i < held.len() && held[i] == e as usize;
        assert(poll::as_places(held)[i] == e);
        assert(places[i] == e);
    }
    if poll::season_key(episodes[e]) == Some(key) {
        lemma_members_hold(episodes, key, e);
        let i = choose|i: int| 0 <= i < places.len() && places[i] == e;
        assert(poll::as_places(held)[i] == held[i] as int);
        assert(held[i] == e as usize);
    }
    assert forall|h: int| 0 <= h < groups.len() && h != g implies (#[trigger] groups[h]).series_id
        != groups[g].series_id || groups[h].season != groups[g].season by {
        if h < g {
            assert(poll::key_before(poll::group_key(groups[h]), poll::group_key(groups[g])));
        } else {
            assert(poll::key_before(poll::group_key(groups[g]), poll::group_key(groups[h])));
        }
    }
}

proof fn lemma_members_hold(episodes: Seq<WantedEpisode>, key: (u64, u16), e: int)
    requires
        0 <= e < episodes.len(),
        poll::season_key(episodes[e]) == Some(key),
    ensures
        poll::members(episodes, key).contains(e),
    decreases episodes.len(),
{
    let all = poll::members(episodes, key);
    let before = poll::members(episodes.drop_last(), key);
    if e < episodes.len() - 1 {
        lemma_members_hold(episodes.drop_last(), key, e);
        let i = choose|i: int| 0 <= i < before.len() && before[i] == e;
        assert(all[i] == e);
    } else {
        assert(all[before.len() as int] == e);
    }
}

/// Series come in order of their ids, and the seasons of one in order.
pub proof fn seasons_come_in_order(groups: Seq<SeasonGroup>, episodes: Seq<WantedEpisode>, i: int, j: int)
    requires
        poll::are_groups(groups, episodes),
        0 <= i < j < groups.len(),
    ensures
        groups[i].series_id <= groups[j].series_id,
        groups[i].series_id == groups[j].series_id ==> groups[i].season < groups[j].season,
{
    assert(poll::key_before(poll::group_key(groups[i]), poll::group_key(groups[j])));
}

/// A season is searched for as a whole where two of its episodes or more are
/// missing.
pub proof fn one_episode_is_no_season(r: bool, wanted: usize, groups: Seq<SeasonGroup>, at: int)
    requires
        poll::is_worth_a_pack(r, wanted),
        0 <= at < groups.len(),
    ensures
        r <==> wanted > 1,
        groups[at].episodes@.len() > 1 ==> poll::season_start(groups, at) == CycleStep::SearchPack,
        groups[at].episodes@.len() == 1 ==> poll::season_start(groups, at)
            == CycleStep::SearchEpisode(0),
        poll::season_start(groups, groups.len() as int) == CycleStep::Finished,
{
}

/// A season is searched by its series' TVDB id and its number, and by no
/// episode.
pub proof fn a_season_is_searched_by_its_place(
    r: Result<SearchKeys, AppError>,
    episodes: Seq<WantedEpisode>,
    group: SeasonGroup,
)
    requires
        poll::is_pack_search(r, episodes, group),
        group.episodes@.len() > 0,
        group.episodes@[0] < episodes.len(),
    ensures
        r is Ok <==> (episodes[group.episodes@[0] as int].series matches Some(s) && s.tvdb_id > 0),
        r matches Ok(keys) ==> {
            &&& keys.tvdb == Some(episodes[group.episodes@[0] as int].series->0.tvdb_id)
            &&& keys.season == Some(group.season)
            &&& keys.episode is None && keys.tmdb is None && keys.imdb is None
        },
{
}

/// What is pushed as a season is a pack of it that may be pushed and was not
/// tried, and no such pack before it is passed over.
pub proof fn the_first_pack_is_pushed(
    r: Option<usize>,
    decisions: Seq<DecisionRow>,
    arr: ArrRule,
    tried: Seq<bool>,
    season: u16,
    j: int,
)
    requires
        poll::is_pack_pick(r, decisions, arr, tried, season),
        tried.len() == decisions.len(),
        0 <= j < decisions.len(),
    ensures
        r == Some(j as usize) ==> j > usize::MAX || !tried[j] && poll::is_season_pack(
            decisions[j].release_name@,
            season,
        ) && poll::is_pushable(decisions[j], arr),
        !tried[j] && poll::is_season_pack(decisions[j].release_name@, season) && poll::is_pushable(
            decisions[j],
            arr,
        ) ==> (r matches Some(k) && k <= j),
{
}

/// A season that was pushed as a whole is done with; one that was not is
/// searched for episode by episode, from the first.
pub proof fn a_pushed_season_is_done(
    before: SonarrCycle,
    after: SonarrCycle,
    end: PackEnd,
    pause: bool,
)
    requires
        poll::follows_pack(before, after, end, pause),
        before.summary.pushed < usize::MAX,
        before.summary.search_errors < usize::MAX,
    ensures
        after.groups == before.groups,
        end is Pushed ==> after.at == before.at + 1 && after.summary.pushed == before.summary.pushed
            + 1,
        !(end is Pushed) ==> after.at == before.at && after.step == CycleStep::SearchEpisode(0)
            && after.summary.pushed == before.summary.pushed,
        end is Failed ==> after.summary.search_errors == before.summary.search_errors + 1,
        !(end is Failed) ==> after.summary.search_errors == before.summary.search_errors,
        after.summary.searched == before.summary.searched && after.summary.considered
            == before.summary.considered,
        pause <==> end is Pushed && after.at < after.groups@.len(),
{
}

/// Behind an episode comes the next of its season, and behind the last of a
/// season the next season; each counts as one search.
pub proof fn no_episode_is_skipped(
    before: SonarrCycle,
    after: SonarrCycle,
    end: SearchEnd,
    pause: bool,
)
    requires
        poll::follows_episode(before, after, end, pause),
        before.well_formed(),
        before.step is SearchEpisode,
    ensures
        after.groups == before.groups,
        after.at == before.at ==> after.step == CycleStep::SearchEpisode(
            (before.step->SearchEpisode_0 + 1) as usize,
        ),
        after.at == before.at <==> before.step->SearchEpisode_0 + 1
            < before.groups@[before.at as int].episodes@.len(),
        after.at == before.at || after.at == before.at + 1,
        pause <==> after.at < after.groups@.len(),
        after.summary.searched == before.summary.searched + 1,
        end == SearchEnd::Pushed(PushStatus::Accepted) <==> after.summary.pushed
            == before.summary.pushed + 1,
        end is Failed <==> after.summary.search_errors == before.summary.search_errors + 1,
{
}

/// A pack counts as pushed exactly where the instance accepted it.
pub proof fn a_refused_pack_is_no_push(r: PackEnd, status: PushStatus)
    requires
        poll::is_pack_end(r, status),
    ensures
        r is Pushed <==> status == PushStatus::Accepted,
        !(r is Failed),
{
}

/// An instance for series takes every release, one for films those that tell
/// of no episode and no season.
pub proof fn a_film_instance_takes_no_series(r: bool, title: &str, kind: ArrKind)
    requires
        poll::is_fit(r, title, kind),
    ensures
        kind == ArrKind::Sonarr ==> r,
        kind == ArrKind::Radarr ==> (r <==> !poll::looks_like_tv(title@)),
{
}

/// A cycle over the episodes starts with the first season there is, and with
/// nothing counted but the episodes.
pub proof fn a_cycle_starts_with_the_first_season(r: SonarrCycle, episodes: Seq<WantedEpisode>)
    requires
        poll::is_series_start(r, episodes),
    ensures
        r.at == 0,
        r.summary.considered == episodes.len() && r.summary.searched == 0 && r.summary.pushed == 0
            && r.summary.search_errors == 0,
        poll::are_groups(r.groups@, episodes),
        r.groups@.len() == 0 <==> r.step == CycleStep::Finished,
        r.step == CycleStep::SearchPack <==> r.groups@.len() > 0 && r.groups@[0].episodes@.len()
            > 1,
{
}

} // verus!
