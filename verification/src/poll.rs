//! The scheduled poller: for each wanted row of an \*arr instance, search,
//! pick the best release worth pushing, and push at most one.
//!
//! A Sonarr instance's wanted episodes are grouped by series and season, and
//! a season with two or more is first tried as one pack.

use vstd::prelude::*;

use crate::catalogue;
use crate::catalogue::{DecisionRow, SearchKeys};
use crate::db::push_history::PushStatus;
use crate::error::AppError;
use crate::marker;
use crate::text;
use crate::text::{
    chars_of, decimal_of, digit, extend, letter, padded_of, parse_unsigned, same_fold, slice,
    stands_at, unicode_lower,
};

verus! {

/// Poll interval when none is configured, in seconds.
pub const DEFAULT_POLL_INTERVAL: u64 = 1800;

/// The shortest interval a configuration can ask for, in seconds.
pub const MIN_POLL_INTERVAL: u64 = 60;

/// Pause between two searches of one cycle, in seconds.
pub const PER_MOVIE_DELAY: u64 = 5;

/// Flavour of an \*arr instance.
#[derive(Debug, Clone, Copy, PartialEq, Eq, Structural)]
pub enum ArrKind {
    Sonarr,
    Radarr,
}

pub open spec fn kind_label(kind: ArrKind) -> Seq<char> {
    match kind {
        ArrKind::Sonarr => "sonarr"@,
        ArrKind::Radarr => "radarr"@,
    }
}

impl ArrKind {
    /// Persisted label.
    pub fn label(self) -> (r: &'static str)
        ensures
            r@ == kind_label(self),
    {
        match self {
            ArrKind::Sonarr => "sonarr",
            ArrKind::Radarr => "radarr",
        }
    }
}

/// A movie a Radarr instance monitors.
#[derive(Debug, Clone)]
pub struct WantedMovie {
    pub id: u64,
    pub title: String,
    pub tmdb_id: u32,
    pub imdb_id: String,
    pub monitored: bool,
    pub has_file: bool,
}

/// The series of a wanted episode.
#[derive(Debug, Clone)]
pub struct WantedEpisodeSeries {
    pub id: u64,
    pub title: String,
    pub tvdb_id: u32,
    pub monitored: bool,
}

/// An episode a Sonarr instance is missing.
#[derive(Debug, Clone)]
pub struct WantedEpisode {
    pub id: u64,
    pub series_id: u64,
    pub title: String,
    pub season_number: u16,
    pub episode_number: u16,
    pub monitored: bool,
    pub has_file: bool,
    pub series: Option<WantedEpisodeSeries>,
}

// ---------------------------------------------------------------------
// Titles
// ---------------------------------------------------------------------

/// An `S` that starts a word and is followed by a digit.
pub open spec fn season_mark(s: Seq<char>, i: int) -> bool {
    &&& 0 <= i < s.len()
    &&& s[i] == 's' || s[i] == 'S'
    &&& marker::starts_a_word(s, i)
    &&& marker::digit_run(s, i + 1) > 0
}

/// `S<digits>E<digit>`, or `S` and up to three digits that no letter
/// follows.
pub open spec fn tv_mark(s: Seq<char>, i: int) -> bool {
    let j = i + 1 + marker::digit_run(s, i + 1);
    &&& season_mark(s, i)
    &&& {
        ||| (marker::char_at(s, j, 'e') || marker::char_at(s, j, 'E')) && j + 1 < s.len()
            && text::is_digit(s[j + 1])
        ||| marker::digit_run(s, i + 1) <= 3 && (j >= s.len() || !text::is_letter(s[j]))
    }
}

pub open spec fn looks_like_tv(s: Seq<char>) -> bool {
    exists|i: int| #[trigger] tv_mark(s, i)
}

/// Whether a title carries an episode or season marker.
pub fn title_looks_like_tv(title: &str) -> (r: bool)
    ensures
        r == looks_like_tv(title@),
{
    let s = chars_of(title);
    let n: usize = s.len();
    let mut i: usize = 0;
    while i < n
        invariant
            n == s.len(),
            s@ == title@,
            i <= n,
            forall|k: int| 0 <= k < i ==> !#[trigger] tv_mark(s@, k),
        decreases n - i,
    {
        if (s[i] == 's' || s[i] == 'S') && (i == 0 || !(letter(s[i - 1]) || digit(s[i - 1]))) && i
            + 1 < n && digit(s[i + 1]) {
            let mut j: usize = i + 1;
            while j < n && digit(s[j])
                invariant
                    n == s.len(),
                    i < j <= n,
                    marker::digit_run(s@, i + 1) == (j - (i + 1)) + marker::digit_run(
                        s@,
                        j as int,
                    ),
                decreases n - j,
            {
                j += 1;
            }
            assert(marker::digit_run(s@, i + 1) == j - (i + 1));
            if j < n && (s[j] == 'e' || s[j] == 'E') && j + 1 < n && digit(s[j + 1]) {
                assert(tv_mark(s@, i as int));
                return true;
            }
            if j - (i + 1) <= 3 && (j == n || !letter(s[j])) {
                assert(tv_mark(s@, i as int));
                return true;
            }
        }
        assert(!tv_mark(s@, i as int));
        i += 1;
    }
    assert forall|k: int| !#[trigger] tv_mark(s@, k) by {}
    false
}

/// Whether `r` says that a release is of the kind an instance takes.
pub open spec fn is_fit(r: bool, title: &str, kind: ArrKind) -> bool {
    r == (kind == ArrKind::Sonarr || !looks_like_tv(title@))
}

/// Whether an instance of this kind can take a release of this title:
/// Radarr cannot parse an episode or a season, Sonarr takes anything.
pub fn matches_arr_kind(title: &str, kind: ArrKind) -> (r: bool)
    ensures
        is_fit(r, title, kind),
{
    match kind {
        ArrKind::Radarr => !title_looks_like_tv(title),
        ArrKind::Sonarr => true,
    }
}

/// A season marker at `at` that is not the start of an episode marker or of
/// a longer number.
pub open spec fn pack_at(s: Seq<char>, needle: Seq<char>, at: int) -> bool {
    let after = at + needle.len();
    &&& text::occurs_at(s, needle, at)
    &&& marker::starts_a_word(s, at)
    &&& {
        ||| after >= s.len()
        ||| s[after] == 'e' && (after + 1 >= s.len() || !text::is_digit(s[after + 1]))
        ||| s[after] != 'e' && !text::is_digit(s[after])
    }
}

pub open spec fn marks_pack(s: Seq<char>, needle: Seq<char>) -> bool {
    exists|at: int| #[trigger] pack_at(s, needle, at)
}

/// Whether a range of seasons stands at `at`, such as `S01-S03`, that holds
/// the season. No episode may follow it.
pub open spec fn range_at(s: Seq<char>, at: int, season: u16) -> bool {
    &&& marker::char_at(s, at, 's')
    &&& marker::starts_a_word(s, at)
    &&& match marker::number_at(s, at + 1, s.len()) {
        Some((first, mid)) => {
            &&& first <= season
            &&& marker::char_at(s, mid, '-')
            &&& marker::char_at(s, mid + 1, 's')
            &&& match marker::number_at(s, mid + 2, s.len()) {
                Some((last, end)) => season <= last && !(marker::char_at(s, end, 'e') && end + 1
                    < s.len() && text::is_digit(s[end + 1])),
                None => false,
            }
        },
        None => false,
    }
}

pub open spec fn in_a_range(s: Seq<char>, season: u16) -> bool {
    exists|at: int| #[trigger] range_at(s, at, season)
}

/// A season marker at `at` with an episode behind it.
pub open spec fn episode_at(s: Seq<char>, needle: Seq<char>, at: int) -> bool {
    let after = at + needle.len();
    &&& text::occurs_at(s, needle, at)
    &&& marker::starts_a_word(s, at)
    &&& marker::char_at(s, after, 'e')
    &&& after + 1 < s.len()
    &&& text::is_digit(s[after + 1])
}

pub open spec fn marks_episode(s: Seq<char>, needle: Seq<char>) -> bool {
    exists|at: int| #[trigger] episode_at(s, needle, at)
}

/// The two spellings of a season marker, `s01` and `s1`.
pub open spec fn padded_marker(season: u16) -> Seq<char> {
    seq!['s'] + text::padded(season as nat)
}

pub open spec fn bare_marker(season: u16) -> Seq<char> {
    seq!['s'] + text::decimal(season as nat)
}

/// Whether a title names an episode of the season, `S01E05` or `S1E05`.
pub open spec fn names_an_episode(title: Seq<char>, season: u16) -> bool {
    let s = text::unicode_lowered(title);
    marks_episode(s, padded_marker(season)) || marks_episode(s, bare_marker(season))
}

/// Whether a title packages all of a season: it has `S01` or `S1`, or a range
/// of seasons that holds the season, and names no episode of that season. An
/// episode of another season is no matter.
pub open spec fn is_season_pack(title: Seq<char>, season: u16) -> bool {
    let s = text::unicode_lowered(title);
    &&& marks_pack(s, padded_marker(season)) || marks_pack(s, bare_marker(season)) || in_a_range(
        s,
        season,
    )
    &&& !names_an_episode(title, season)
}

/// Whether some occurrence of `needle` reads as a pack marker.
fn season_marker_is_pack(s: &[char], needle: &[char]) -> (r: bool)
    requires
        needle.len() > 0,
    ensures
        r == marks_pack(s@, needle@),
{
    let n: usize = s.len();
    let mut at: usize = 0;
    while at < n
        invariant
            n == s.len(),
            needle.len() > 0,
            at <= n,
            forall|k: int| 0 <= k < at ==> !#[trigger] pack_at(s@, needle@, k),
        decreases n - at,
    {
        if stands_at(s, needle, at) {
            let after: usize = at + needle.len();
            let prev_ok = at == 0 || !(letter(s[at - 1]) || digit(s[at - 1]));
            let next_ok = if after >= n {
                true
            } else if s[after] == 'e' {
                after + 1 >= n || !digit(s[after + 1])
            } else {
                !digit(s[after])
            };
            if prev_ok && next_ok {
                assert(pack_at(s@, needle@, at as int));
                return true;
            }
        }
        at += 1;
    }
    assert forall|k: int| !#[trigger] pack_at(s@, needle@, k) by {}
    false
}

/// Whether some occurrence of `needle` has an episode behind it.
fn season_marker_is_episode(s: &[char], needle: &[char]) -> (r: bool)
    requires
        needle.len() > 0,
    ensures
        r == marks_episode(s@, needle@),
{
    let n: usize = s.len();
    let mut at: usize = 0;
    while at < n
        invariant
            n == s.len(),
            needle.len() > 0,
            at <= n,
            forall|k: int| 0 <= k < at ==> !#[trigger] episode_at(s@, needle@, k),
        decreases n - at,
    {
        if stands_at(s, needle, at) {
            let after: usize = at + needle.len();
            let starts = at == 0 || !(letter(s[at - 1]) || digit(s[at - 1]));
            if starts && after < n && s[after] == 'e' && after + 1 < n && digit(s[after + 1]) {
                assert(episode_at(s@, needle@, at as int));
                return true;
            }
        }
        at += 1;
    }
    assert forall|k: int| !#[trigger] episode_at(s@, needle@, k) by {}
    false
}

/// Whether a range of seasons at `at` holds the season.
fn range_holds(s: &[char], at: usize, season: u16) -> (r: bool)
    requires
        at < s.len(),
    ensures
        r == range_at(s@, at as int, season),
{
    let n: usize = s.len();
    if s[at] != 's' || (at > 0 && (letter(s[at - 1]) || digit(s[at - 1]))) {
        return false;
    }
    let (first, mid) = match marker::digits(s, at + 1, n) {
        Some(found) => found,
        None => {
            return false;
        },
    };
    if first > season || mid >= n || s[mid] != '-' || mid + 1 >= n || s[mid + 1] != 's' {
        return false;
    }
    match marker::digits(s, mid + 2, n) {
        Some((last, end)) => season <= last && !(end < n && s[end] == 'e' && end + 1 < n && digit(
            s[end + 1],
        )),
        None => false,
    }
}

fn within_a_range(s: &[char], season: u16) -> (r: bool)
    ensures
        r == in_a_range(s@, season),
{
    let mut at: usize = 0;
    while at < s.len()
        invariant
            at <= s.len(),
            forall|k: int| 0 <= k < at ==> !#[trigger] range_at(s@, k, season),
        decreases s.len() - at,
    {
        if range_holds(s, at, season) {
            return true;
        }
        at += 1;
    }
    assert forall|k: int| !#[trigger] range_at(s@, k, season) by {}
    false
}

/// Whether a title packages all of season `season`: it carries the season's
/// marker, or a range that holds it, and no episode of it.
pub fn title_looks_like_season_pack(title: &str, season: u16) -> (r: bool)
    ensures
        r == is_season_pack(title@, season),
{
    let s = unicode_lower(&chars_of(title));
    let mut padded: Vec<char> = Vec::new();
    padded.push('s');
    extend(&mut padded, &padded_of(season as u64));
    assert(padded@ =~= padded_marker(season));
    let mut bare: Vec<char> = Vec::new();
    bare.push('s');
    extend(&mut bare, &decimal_of(season as u64));
    assert(bare@ =~= bare_marker(season));
    if season_marker_is_episode(&s, &padded) || season_marker_is_episode(&s, &bare) {
        return false;
    }
    season_marker_is_pack(&s, &padded) || season_marker_is_pack(&s, &bare) || within_a_range(
        &s,
        season,
    )
}

// ---------------------------------------------------------------------
// Picking what to push
// ---------------------------------------------------------------------

pub open spec fn is_usenet(d: DecisionRow) -> bool {
    match d.provider_kind {
        Some(k) => text::eq_fold(k@, "newznab"@),
        None => false,
    }
}

/// The score a release has to reach: the threshold for usenet, one more for
/// anything else, a missing kind included.
pub open spec fn bar(d: DecisionRow, threshold: u32) -> u32 {
    if is_usenet(d) || threshold == u32::MAX {
        threshold
    } else {
        (threshold + 1) as u32
    }
}

fn usenet(d: &DecisionRow) -> (r: bool)
    ensures
        r == is_usenet(*d),
{
    match &d.provider_kind {
        Some(k) => same_fold(&chars_of(k.as_str()), &chars_of("newznab")),
        None => false,
    }
}

/// The score a release has to reach.
pub fn pick_threshold_for(d: &DecisionRow, threshold: u32) -> (r: u32)
    ensures
        r == bar(*d, threshold),
{
    if usenet(d) {
        threshold
    } else {
        threshold.saturating_add(1)
    }
}

/// Whether a release can be grabbed: a torrent needs a seeder, and a row
/// without a kind is not taken for a torrent.
pub open spec fn is_alive(d: DecisionRow) -> bool {
    d.provider_kind is None || is_usenet(d) || d.seeders > 0
}

/// Whether a release can be grabbed.
pub fn meets_quality(d: &DecisionRow) -> (r: bool)
    ensures
        r == is_alive(*d),
{
    d.provider_kind.is_none() || usenet(d) || d.seeders > 0
}

/// An instance, as far as picking reads it.
#[derive(Debug, Clone, Copy, PartialEq, Eq, Structural)]
pub struct ArrRule {
    pub kind: ArrKind,
    /// The quality profile attached to it.
    pub profile_id: Option<u128>,
    /// The threshold in force.
    pub threshold: u32,
}

/// The release's score under the instance's profile.
pub open spec fn score_at(d: DecisionRow, arr: ArrRule) -> u32 {
    match arr.profile_id {
        Some(p) => catalogue::score_under(d, p),
        None => d.score,
    }
}

/// Whether a release may be pushed to the instance, given that it was not
/// tried there before.
pub open spec fn is_pushable(d: DecisionRow, arr: ArrRule) -> bool {
    &&& score_at(d, arr) >= bar(d, arr.threshold)
    &&& is_alive(d)
    &&& arr.kind == ArrKind::Sonarr || !looks_like_tv(d.release_name@)
    &&& d.provider_id is Some
}

/// Whether a release may be pushed to the instance.
pub fn pushable(d: &DecisionRow, arr: ArrRule) -> (r: bool)
    ensures
        r == is_pushable(*d, arr),
{
    let score: u32 = match arr.profile_id {
        Some(p) => d.effective_score(p),
        None => d.score,
    };
    score >= pick_threshold_for(d, arr.threshold) && meets_quality(d) && matches_arr_kind(
        d.release_name.as_str(),
        arr.kind,
    ) && d.provider_id.is_some()
}

/// Whether `k` is the first release that may be pushed and was not tried.
pub open spec fn is_pushed_next(
    decisions: Seq<DecisionRow>,
    arr: ArrRule,
    tried: Seq<bool>,
    k: int,
) -> bool {
    &&& 0 <= k < decisions.len()
    &&& is_pushable(decisions[k], arr)
    &&& !tried[k]
    &&& forall|j: int|
        0 <= j < k ==> !is_pushable(#[trigger] decisions[j], arr) || tried[j]
}

/// Whether `r` is the place of the release to push next, if there is one.
pub open spec fn is_next_push(
    r: Option<usize>,
    decisions: Seq<DecisionRow>,
    arr: ArrRule,
    tried: Seq<bool>,
) -> bool {
    match r {
        Some(k) => is_pushed_next(decisions, arr, tried, k as int),
        None => forall|j: int|
            0 <= j < decisions.len() ==> !is_pushable(#[trigger] decisions[j], arr) || tried[j],
    }
}

/// The first decision worth pushing: it reaches the bar under the
/// instance's profile, is alive, has the right shape and a provider, and
/// was not tried on this instance before, whatever came of it. `tried` says
/// that of each decision. The rows are in baseline order, so one below the
/// bar does not end the scan.
pub fn pick_pushable(decisions: &[DecisionRow], arr: ArrRule, tried: &[bool]) -> (r: Option<usize>)
    requires
        tried.len() == decisions.len(),
    ensures
        is_next_push(r, decisions@, arr, tried@),
{
    let mut i: usize = 0;
    while i < decisions.len()
        invariant
            i <= decisions.len(),
            tried.len() == decisions.len(),
            forall|j: int|
                0 <= j < i ==> !is_pushable(#[trigger] decisions@[j], arr) || tried@[j],
        decreases decisions.len() - i,
    {
        if pushable(&decisions[i], arr) && !tried[i] {
            return Some(i);
        }
        i += 1;
    }
    None
}

/// A release is never pushed twice to one instance: with every release
/// tried there is nothing left to push.
pub proof fn a_tried_release_is_never_picked(
    decisions: Seq<DecisionRow>,
    arr: ArrRule,
    tried: Seq<bool>,
    k: int,
)
    requires
        is_pushed_next(decisions, arr, tried, k),
    ensures
        !tried[k],
        decisions[k].provider_id is Some,
{
}

// ---------------------------------------------------------------------
// Keys
// ---------------------------------------------------------------------

/// Whether `r` says that a film is looked for.
pub open spec fn is_polled(r: bool, m: WantedMovie) -> bool {
    r == (m.monitored && !m.has_file)
}

/// Whether a movie is something to search for.
pub fn is_pollable(m: &WantedMovie) -> (r: bool)
    ensures
        is_polled(r, *m),
{
    m.monitored && !m.has_file
}

/// Whether `r` says that an episode is looked for.
pub open spec fn is_polled_episode(r: bool, e: WantedEpisode) -> bool {
    r == (e.monitored && !e.has_file)
}

/// Whether an episode is something to search for.
pub fn is_pollable_episode(e: &WantedEpisode) -> (r: bool)
    ensures
        is_polled_episode(r, *e),
{
    e.monitored && !e.has_file
}

/// The text without the `tt`s it starts with.
pub open spec fn without_tt(s: Seq<char>) -> Seq<char>
    decreases s.len(),
{
    if s.len() >= 2 && s[0] == 't' && s[1] == 't' {
        without_tt(s.skip(2))
    } else {
        s
    }
}

/// The text without the zeros it starts with.
pub open spec fn without_zeros(s: Seq<char>) -> Seq<char>
    decreases s.len(),
{
    if s.len() > 0 && s[0] == '0' {
        without_zeros(s.skip(1))
    } else {
        s
    }
}

/// The number of an IMDb id, with or without its `tt`; never zero.
pub open spec fn imdb_number(raw: Seq<char>) -> Option<nat> {
    match text::unsigned(without_zeros(without_tt(raw)), u32::MAX as nat) {
        Some(n) => if n == 0 {
            None
        } else {
            Some(n)
        },
        None => None,
    }
}

/// Where a text goes on after the `tt`s it starts with.
pub fn after_tt(s: &[char]) -> (r: usize)
    ensures
        r <= s.len(),
        without_tt(s@) == s@.skip(r as int),
{
    let n: usize = s.len();
    let mut i: usize = 0;
    assert(s@.skip(0) =~= s@);
    while n - i >= 2 && s[i] == 't' && s[i + 1] == 't'
        invariant
            n == s.len(),
            i <= n,
            without_tt(s@) == without_tt(s@.skip(i as int)),
        decreases n - i,
    {
        assert(s@.skip(i as int).skip(2) =~= s@.skip(i + 2));
        i += 2;
    }
    i
}

/// The number of an IMDb id.
pub fn parse_imdb(raw: &str) -> (r: Option<u32>)
    ensures
        match r {
            Some(n) => imdb_number(raw@) == Some(n as nat) && n > 0,
            None => imdb_number(raw@) is None,
        },
{
    let s = chars_of(raw);
    let n: usize = s.len();
    let mut i: usize = after_tt(&s);
    let ghost middle = s@.skip(i as int);
    while i < n && s[i] == '0'
        invariant
            n == s.len(),
            i <= n,
            without_zeros(middle) == without_zeros(s@.skip(i as int)),
        decreases n - i,
    {
        assert(s@.skip(i as int).skip(1) =~= s@.skip(i + 1));
        i += 1;
    }
    let rest = slice(&s, i, n);
    assert(rest@ =~= s@.skip(i as int));
    match parse_unsigned(&rest, u32::MAX as u64) {
        Some(v) => if v == 0 {
            None
        } else {
            Some(v as u32)
        },
        None => None,
    }
}

/// Whether these are a movie's search keys.
pub open spec fn is_movie_keys(keys: SearchKeys, m: WantedMovie) -> bool {
    &&& keys.tmdb == if m.tmdb_id > 0 {
        Some(m.tmdb_id)
    } else {
        None
    }
    &&& match keys.imdb {
        Some(n) => imdb_number(m.imdb_id@) == Some(n as nat),
        None => imdb_number(m.imdb_id@) is None,
    }
    &&& keys.tvdb is None
    &&& keys.season is None
    &&& keys.episode is None
}

/// What a film is searched by.
pub open spec fn is_film_search(r: Option<SearchKeys>, m: WantedMovie) -> bool {
    match r {
        Some(keys) => is_movie_keys(keys, m) && (keys.tmdb is Some || keys.imdb is Some),
        None => m.tmdb_id == 0 && imdb_number(m.imdb_id@) is None,
    }
}

/// Search keys of a movie: its IMDb and TMDb ids, as far as they are usable;
/// `None` when neither is.
pub fn build_keys(m: &WantedMovie) -> (r: Option<SearchKeys>)
    ensures
        is_film_search(r, *m),
{
    let imdb = parse_imdb(m.imdb_id.as_str());
    let tmdb: Option<u32> = if m.tmdb_id > 0 {
        Some(m.tmdb_id)
    } else {
        None
    };
    if imdb.is_none() && tmdb.is_none() {
        return None;
    }
    Some(SearchKeys { tmdb, imdb, tvdb: None, season: None, episode: None })
}

/// The TVDB id of an episode's series, when it has one.
pub open spec fn series_tvdb(e: WantedEpisode) -> Option<u32> {
    match e.series {
        Some(s) => if s.tvdb_id == 0 {
            None
        } else {
            Some(s.tvdb_id)
        },
        None => None,
    }
}

/// What an episode is searched by.
pub open spec fn is_episode_search(r: Option<SearchKeys>, e: WantedEpisode) -> bool {
    r == match series_tvdb(e) {
        Some(tvdb) => Some(
            SearchKeys {
                tmdb: None,
                imdb: None,
                tvdb: Some(tvdb),
                season: Some(e.season_number),
                episode: Some(e.episode_number),
            },
        ),
        None => None,
    }
}

/// Search keys of a wanted episode; `None` when its series is missing or
/// not linked to TVDB.
pub fn build_keys_for_episode(e: &WantedEpisode) -> (r: Option<SearchKeys>)
    ensures
        is_episode_search(r, *e),
{
    match &e.series {
        Some(s) => if s.tvdb_id == 0 {
            None
        } else {
            Some(
                SearchKeys {
                    tmdb: None,
                    imdb: None,
                    tvdb: Some(s.tvdb_id),
                    season: Some(e.season_number),
                    episode: Some(e.episode_number),
                },
            )
        },
        None => None,
    }
}

/// How long the poller waits, as configured.
pub open spec fn is_interval(r: u64, configured: Option<&str>) -> bool {
    r == match configured {
        Some(s) => match text::unsigned(s@, u64::MAX as nat) {
            Some(n) => if n < 60 {
                60
            } else {
                n as u64
            },
            None => 1800,
        },
        None => 1800,
    }
}

/// The poll interval a configured text asks for: at least a minute, and the
/// default when it is absent or no number.
pub fn interval_from(configured: Option<&str>) -> (r: u64)
    ensures
        is_interval(r, configured),
{
    match configured {
        Some(s) => match parse_unsigned(&chars_of(s), u64::MAX) {
            Some(n) => if n < MIN_POLL_INTERVAL {
                MIN_POLL_INTERVAL
            } else {
                n
            },
            None => DEFAULT_POLL_INTERVAL,
        },
        None => DEFAULT_POLL_INTERVAL,
    }
}

// ---------------------------------------------------------------------
// Cycles
// ---------------------------------------------------------------------

/// What one poll of an instance did.
#[derive(Debug, Clone, Copy, PartialEq, Eq, Structural)]
pub struct PollSummary {
    /// Wanted rows considered.
    pub considered: usize,
    /// Searches run.
    pub searched: usize,
    /// Rows that led to an accepted push.
    pub pushed: usize,
    /// Searches that failed.
    pub search_errors: usize,
}

impl Default for PollSummary {
    fn default() -> (r: PollSummary)
        ensures
            r == (PollSummary { considered: 0, searched: 0, pushed: 0, search_errors: 0 }),
    {
        PollSummary { considered: 0, searched: 0, pushed: 0, search_errors: 0 }
    }
}

/// One search of a cycle.
#[derive(Debug, Clone, Copy, PartialEq, Eq, Structural)]
pub struct Dispatch {
    /// The wanted row it is for.
    pub row: usize,
    pub keys: SearchKeys,
    /// Whether to pause after it: there are rows left.
    pub pause: bool,
}

/// Whether a movie is searched for.
pub open spec fn is_searched(m: WantedMovie) -> bool {
    m.monitored && !m.has_file && (m.tmdb_id > 0 || imdb_number(m.imdb_id@) is Some)
}

/// The places of the movies that are searched for.
pub open spec fn searched_rows(movies: Seq<WantedMovie>) -> Seq<int>
    decreases movies.len(),
{
    if movies.len() == 0 {
        Seq::empty()
    } else if is_searched(movies.last()) {
        searched_rows(movies.drop_last()).push(movies.len() - 1)
    } else {
        searched_rows(movies.drop_last())
    }
}

/// Whether the dispatches are the searches of these movies, in order.
pub open spec fn dispatches(plan: Seq<Dispatch>, movies: Seq<WantedMovie>, rows: Seq<int>) -> bool {
    &&& plan.len() == rows.len()
    &&& forall|i: int|
        0 <= i < plan.len() ==> {
            &&& (#[trigger] plan[i]).row == rows[i]
            &&& 0 <= rows[i] < movies.len()
            &&& is_movie_keys(plan[i].keys, movies[rows[i]])
            &&& plan[i].pause == (rows[i] + 1 < movies.len())
        }
}

/// What a pass over the films searches for.
pub open spec fn is_film_pass(r: (Vec<Dispatch>, PollSummary), movies: Seq<WantedMovie>) -> bool {
    &&& dispatches(r.0@, movies, searched_rows(movies))
    &&& r.1.considered == movies.len()
    &&& r.1.searched == r.0.len()
    &&& r.1.pushed == 0
    &&& r.1.search_errors == 0
}

/// The searches one Radarr cycle runs, and the counts it starts with: every
/// movie is considered, the monitored ones without a file and with a usable
/// id are searched for, pausing between rows but not after the last.
pub fn run_once_radarr(movies: &[WantedMovie]) -> (r: (Vec<Dispatch>, PollSummary))
    ensures
        is_film_pass(r, movies@),
{
    let n: usize = movies.len();
    let mut plan: Vec<Dispatch> = Vec::new();
    let mut i: usize = 0;
    while i < n
        invariant
            n == movies.len(),
            i <= n,
            dispatches(plan@, movies@, searched_rows(movies@.take(i as int))),
        decreases n - i,
    {
        assert(movies@.take(i + 1).drop_last() == movies@.take(i as int));
        assert(movies@.take(i + 1).last() == movies@[i as int]);
        let m = &movies[i];
        if is_pollable(m) {
            if let Some(keys) = build_keys(m) {
                plan.push(Dispatch { row: i, keys, pause: i + 1 < n });
            }
        }
        i += 1;
    }
    assert(movies@.take(n as int) == movies@);
    let searched: usize = plan.len();
    (plan, PollSummary { considered: n, searched, pushed: 0, search_errors: 0 })
}

/// How a dispatched search ended.
#[derive(Debug, Clone, Copy, PartialEq, Eq, Structural)]
pub enum SearchEnd {
    /// The search failed.
    Failed,
    /// Nothing was worth pushing.
    Nothing,
    /// A release was pushed, with this status.
    Pushed(PushStatus),
    /// The push could not be recorded.
    Unrecorded,
}

/// What an ended search adds to the summary.
pub open spec fn is_recorded(before: PollSummary, after: PollSummary, end: SearchEnd) -> bool {
    &&& after.considered == before.considered
    &&& after.searched == before.searched
    &&& after.pushed == before.pushed + if end == SearchEnd::Pushed(
        PushStatus::Accepted,
    ) {
        1int
    } else {
        0
    }
    &&& after.search_errors == before.search_errors + if end == SearchEnd::Failed {
        1int
    } else {
        0
    }
}

impl PollSummary {
    /// Count how a dispatched search ended: only an accepted push counts as
    /// one.
    pub fn record(&mut self, end: SearchEnd)
        requires
            old(self).pushed < usize::MAX,
            old(self).search_errors < usize::MAX,
        ensures
            is_recorded(*old(self), *final(self), end),
    {
        match end {
            SearchEnd::Failed => {
                self.search_errors = self.search_errors + 1;
            },
            SearchEnd::Pushed(status) => {
                if status == PushStatus::Accepted {
                    self.pushed = self.pushed + 1;
                }
            },
            _ => {},
        }
    }
}

/// The wanted episodes of one season of one series.
#[derive(Debug, Clone)]
pub struct SeasonGroup {
    pub series_id: u64,
    pub season: u16,
    /// Their places in the wanted list.
    pub episodes: Vec<usize>,
}

/// The season an episode is grouped under, when it is searched for at all.
pub open spec fn season_key(e: WantedEpisode) -> Option<(u64, u16)> {
    if e.monitored && !e.has_file && series_tvdb(e) is Some {
        Some((e.series->0.id, e.season_number))
    } else {
        None
    }
}

pub open spec fn key_before(a: (u64, u16), b: (u64, u16)) -> bool {
    a.0 < b.0 || (a.0 == b.0 && a.1 < b.1)
}

pub open spec fn group_key(g: SeasonGroup) -> (u64, u16) {
    (g.series_id, g.season)
}

/// The places of the episodes of one season.
pub open spec fn members(episodes: Seq<WantedEpisode>, key: (u64, u16)) -> Seq<int>
    decreases episodes.len(),
{
    if episodes.len() == 0 {
        Seq::empty()
    } else if season_key(episodes.last()) == Some(key) {
        members(episodes.drop_last(), key).push(episodes.len() - 1)
    } else {
        members(episodes.drop_last(), key)
    }
}

pub open spec fn as_places(v: Seq<usize>) -> Seq<int> {
    v.map_values(|i: usize| i as int)
}

/// Whether the groups are the seasons of these episodes: in order of series
/// and season, each with exactly its episodes, none left out.
pub open spec fn are_groups(groups: Seq<SeasonGroup>, episodes: Seq<WantedEpisode>) -> bool {
    &&& forall|i: int, j: int|
        0 <= i < j < groups.len() ==> key_before(
            group_key(#[trigger] groups[i]),
            group_key(#[trigger] groups[j]),
        )
    &&& forall|i: int|
        0 <= i < groups.len() ==> as_places((#[trigger] groups[i]).episodes@) == members(
            episodes,
            group_key(groups[i]),
        ) && groups[i].episodes@.len() > 0
    &&& forall|e: int|
        0 <= e < episodes.len() && season_key(#[trigger] episodes[e]) is Some ==> has_group(
            groups,
            season_key(episodes[e])->0,
        )
}

pub open spec fn has_group(groups: Seq<SeasonGroup>, key: (u64, u16)) -> bool {
    exists|i: int| 0 <= i < groups.len() && group_key(#[trigger] groups[i]) == key
}

pub proof fn lemma_members(episodes: Seq<WantedEpisode>, key: (u64, u16))
    ensures
        forall|i: int|
            0 <= i < members(episodes, key).len() ==> 0 <= #[trigger] members(episodes, key)[i]
                < episodes.len() && season_key(episodes[members(episodes, key)[i]]) == Some(key),
    decreases episodes.len(),
{
    if episodes.len() > 0 {
        let before = episodes.drop_last();
        lemma_members(before, key);
        let kept = members(before, key);
        assert forall|i: int| 0 <= i < members(episodes, key).len() implies 0 <= #[trigger] members(
            episodes,
            key,
        )[i] < episodes.len() && season_key(episodes[members(episodes, key)[i]]) == Some(key) by {
            if i < kept.len() {
                assert(members(episodes, key)[i] == kept[i]);
                assert(episodes[kept[i]] == before[kept[i]]);
            }
        }
    }
}

/// Where a season's group is, or where it belongs.
fn find_group(groups: &[SeasonGroup], series_id: u64, season: u16) -> (r: (bool, usize))
    requires
        forall|i: int, j: int|
            0 <= i < j < groups@.len() ==> key_before(
                group_key(#[trigger] groups@[i]),
                group_key(#[trigger] groups@[j]),
            ),
    ensures
        r.1 <= groups.len(),
        r.0 ==> r.1 < groups.len() && group_key(groups@[r.1 as int]) == (series_id, season),
        !r.0 ==> forall|i: int|
            0 <= i < groups@.len() ==> if i < r.1 {
                key_before(group_key(#[trigger] groups@[i]), (series_id, season))
            } else {
                key_before((series_id, season), group_key(groups@[i]))
            },
{
    let mut at: usize = 0;
    while at < groups.len() && (groups[at].series_id < series_id || (groups[at].series_id
        == series_id && groups[at].season < season))
        invariant
            at <= groups.len(),
            forall|i: int|
                0 <= i < at ==> key_before(group_key(#[trigger] groups@[i]), (series_id, season)),
        decreases groups.len() - at,
    {
        at += 1;
    }
    if at < groups.len() && groups[at].series_id == series_id && groups[at].season == season {
        return (true, at);
    }
    proof {
        assert forall|i: int| 0 <= i < groups@.len() implies if i < at {
            key_before(group_key(#[trigger] groups@[i]), (series_id, season))
        } else {
            key_before((series_id, season), group_key(groups@[i]))
        } by {
            if i > at {
                assert(key_before(group_key(groups@[at as int]), group_key(groups@[i])));
            }
        }
    }
    (false, at)
}

/// Group wanted episodes by series and season, in that order.
pub fn group_by_season(episodes: &[WantedEpisode]) -> (r: Vec<SeasonGroup>)
    ensures
        are_groups(r@, episodes@),
{
    let mut groups: Vec<SeasonGroup> = Vec::new();
    let mut i: usize = 0;
    while i < episodes.len()
        invariant
            i <= episodes.len(),
            are_groups(groups@, episodes@.take(i as int)),
        decreases episodes.len() - i,
    {
        let ghost seen = episodes@.take(i as int);
        let ghost next = episodes@.take(i + 1);
        assert(next.drop_last() == seen);
        assert(next.last() == episodes@[i as int]);
        let ghost before = groups@;
        let e = &episodes[i];
        if is_pollable_episode(e) {
            if let Some(series) = &e.series {
                if series.tvdb_id != 0 {
                    let ghost key = (series.id, e.season_number);
                    assert(season_key(*e) == Some(key));
                    let (found, at) = find_group(&groups, series.id, e.season_number);
                    if found {
                        let mut g = groups.remove(at);
                        let ghost places = as_places(g.episodes@);
                        g.episodes.push(i);
                        assert(as_places(g.episodes@) =~= places.push(i as int));
                        groups.insert(at, g);
                        proof {
                            assert(groups@ =~= before.update(at as int, g));
                            lemma_grown(before, groups@, seen, next, at as int, key);
                        }
                    } else {
                        let mut places: Vec<usize> = Vec::new();
                        places.push(i);
                        let g = SeasonGroup {
                            series_id: series.id,
                            season: e.season_number,
                            episodes: places,
                        };
                        groups.insert(at, g);
                        proof {
                            assert(as_places(g.episodes@) =~= seq![i as int]);
                            lemma_inserted(before, groups@, seen, next, at as int, g);
                        }
                    }
                    i += 1;
                    continue;
                }
            }
        }
        proof {
            assert(season_key(*e) is None);
            assert forall|x: int| 0 <= x < next.len() && season_key(#[trigger] next[x]) is Some implies has_group(
                groups@,
                season_key(next[x])->0,
            ) by {
                assert(next[x] == seen[x]);
            }
        }
        i += 1;
    }
    assert(episodes@.take(episodes.len() as int) == episodes@);
    groups
}

proof fn lemma_grown(
    before: Seq<SeasonGroup>,
    after: Seq<SeasonGroup>,
    seen: Seq<WantedEpisode>,
    next: Seq<WantedEpisode>,
    at: int,
    key: (u64, u16),
)
    requires
        are_groups(before, seen),
        next.len() > 0,
        next.drop_last() == seen,
        season_key(next.last()) == Some(key),
        0 <= at < before.len(),
        group_key(before[at]) == key,
        after.len() == before.len(),
        forall|i: int| 0 <= i < before.len() && i != at ==> after[i] == #[trigger] before[i],
        group_key(after[at]) == key,
        as_places(after[at].episodes@) == as_places(before[at].episodes@).push(next.len() - 1),
    ensures
        are_groups(after, next),
{
    assert forall|i: int, j: int| 0 <= i < j < after.len() implies key_before(
        group_key(#[trigger] after[i]),
        group_key(#[trigger] after[j]),
    ) by {
        assert(key_before(group_key(before[i]), group_key(before[j])));
    }
    assert forall|i: int| 0 <= i < after.len() implies as_places((#[trigger] after[i]).episodes@)
        == members(next, group_key(after[i])) && after[i].episodes@.len() > 0 by {
        assert(group_key(before[i]) == group_key(after[i]));
        if i == at {
            assert(as_places(after[at].episodes@).len() == after[at].episodes@.len());
        } else {
            assert(group_key(before[i]) != key) by {
                if i < at {
                    assert(key_before(group_key(before[i]), group_key(before[at])));
                } else {
                    assert(key_before(group_key(before[at]), group_key(before[i])));
                }
            }
        }
    }
    assert forall|e: int| 0 <= e < next.len() && season_key(#[trigger] next[e]) is Some implies has_group(
        after,
        season_key(next[e])->0,
    ) by {
        if e < seen.len() {
            assert(next[e] == seen[e]);
            let k = season_key(seen[e])->0;
            assert(has_group(before, k));
            let i = choose|i: int| 0 <= i < before.len() && group_key(#[trigger] before[i]) == k;
            assert(group_key(after[i]) == k);
        } else {
            assert(group_key(after[at]) == key);
        }
    }
}

proof fn lemma_inserted(
    before: Seq<SeasonGroup>,
    after: Seq<SeasonGroup>,
    seen: Seq<WantedEpisode>,
    next: Seq<WantedEpisode>,
    at: int,
    g: SeasonGroup,
)
    requires
        are_groups(before, seen),
        next.len() > 0,
        next.drop_last() == seen,
        season_key(next.last()) == Some(group_key(g)),
        0 <= at <= before.len(),
        forall|i: int|
            0 <= i < before.len() ==> if i < at {
                key_before(group_key(#[trigger] before[i]), group_key(g))
            } else {
                key_before(group_key(g), group_key(before[i]))
            },
        after == before.insert(at, g),
        as_places(g.episodes@) == seq![next.len() - 1],
    ensures
        are_groups(after, next),
{
    let key = group_key(g);
    assert forall|i: int, j: int| 0 <= i < j < after.len() implies key_before(
        group_key(#[trigger] after[i]),
        group_key(#[trigger] after[j]),
    ) by {
        let pi = if i < at { i } else { i - 1 };
        let pj = if j < at { j } else { j - 1 };
        if i != at {
            assert(after[i] == before[pi]);
        }
        if j != at {
            assert(after[j] == before[pj]);
        }
    }
    lemma_members(seen, key);
    assert(members(seen, key).len() == 0) by {
        if members(seen, key).len() > 0 {
            let e = members(seen, key)[0];
            assert(season_key(seen[e]) == Some(key));
            assert(has_group(before, key));
            let i = choose|i: int| 0 <= i < before.len() && group_key(#[trigger] before[i]) == key;
            assert(key_before(group_key(before[i]), key) || key_before(key, group_key(before[i])));
        }
    }
    assert(members(next, key) =~= seq![next.len() - 1]);
    assert forall|i: int| 0 <= i < after.len() implies as_places((#[trigger] after[i]).episodes@)
        == members(next, group_key(after[i])) && after[i].episodes@.len() > 0 by {
        let pi = if i < at { i } else { i - 1 };
        if i != at {
            assert(after[i] == before[pi]);
            assert(group_key(before[pi]) != key);
        } else {
            assert(as_places(g.episodes@).len() == g.episodes@.len());
        }
    }
    assert forall|e: int| 0 <= e < next.len() && season_key(#[trigger] next[e]) is Some implies has_group(
        after,
        season_key(next[e])->0,
    ) by {
        if e < seen.len() {
            assert(next[e] == seen[e]);
            let k = season_key(seen[e])->0;
            assert(has_group(before, k));
            let i = choose|i: int| 0 <= i < before.len() && group_key(#[trigger] before[i]) == k;
            let ni = if i < at { i } else { i + 1 };
            assert(after[ni] == before[i]);
        } else {
            assert(after[at] == g);
        }
    }
}

/// What the pass over a season's pack came to.
#[derive(Debug, Clone, Copy, PartialEq, Eq, Structural)]
pub enum PackEnd {
    /// A pack was pushed and accepted.
    Pushed,
    /// No pack was worth pushing, or the push was not accepted.
    Nothing,
    /// The search or the push failed.
    Failed,
}

/// Whether `r` says that a season is searched for as a whole.
pub open spec fn is_worth_a_pack(r: bool, wanted: usize) -> bool {
    r == (wanted >= 2)
}

/// Whether a season is first tried as a pack: one missing episode is not.
pub fn tries_pack(wanted: usize) -> (r: bool)
    ensures
        is_worth_a_pack(r, wanted),
{
    wanted >= 2
}

/// What a season is searched by.
pub open spec fn is_pack_search(
    r: Result<SearchKeys, AppError>,
    episodes: Seq<WantedEpisode>,
    group: SeasonGroup,
) -> bool {
    match r {
        Ok(keys) => {
            &&& group.episodes@.len() > 0
            &&& series_tvdb(episodes[group.episodes@[0] as int]) is Some
            &&& keys == (SearchKeys {
                tmdb: None,
                imdb: None,
                tvdb: series_tvdb(episodes[group.episodes@[0] as int]),
                season: Some(group.season),
                episode: None,
            })
        },
        Err(e) => {
            &&& e is InvalidInput
            &&& group.episodes@.len() == 0 || series_tvdb(
                episodes[group.episodes@[0] as int],
            ) is None
        },
    }
}

/// The search for a season's pack: the series' TVDB id and the season, no
/// episode.
pub fn pack_keys(episodes: &[WantedEpisode], group: &SeasonGroup) -> (r: Result<
    SearchKeys,
    AppError,
>)
    requires
        forall|i: int|
            0 <= i < group.episodes@.len() ==> #[trigger] group.episodes@[i] < episodes@.len(),
    ensures
        is_pack_search(r, episodes@, *group),
{
    if group.episodes.len() == 0 {
        return Err(AppError::InvalidInput("empty season group".to_owned()));
    }
    match &episodes[group.episodes[0]].series {
        Some(series) => if series.tvdb_id == 0 {
            Err(AppError::InvalidInput("invalid tvdb id".to_owned()))
        } else {
            Ok(
                SearchKeys {
                    tmdb: None,
                    imdb: None,
                    tvdb: Some(series.tvdb_id),
                    season: Some(group.season),
                    episode: None,
                },
            )
        },
        None => Err(AppError::InvalidInput("empty season group".to_owned())),
    }
}

/// The release that is pushed as a whole season.
pub open spec fn is_pack_pick(
    r: Option<usize>,
    decisions: Seq<DecisionRow>,
    arr: ArrRule,
    tried: Seq<bool>,
    season: u16,
) -> bool {
    match r {
        Some(k) => {
            &&& k < decisions.len()
            &&& is_season_pack(decisions[k as int].release_name@, season)
            &&& is_pushable(decisions[k as int], arr)
            &&& !tried[k as int]
            &&& forall|j: int|
                0 <= j < k ==> !is_season_pack((#[trigger] decisions[j]).release_name@, season)
                    || !is_pushable(decisions[j], arr) || tried[j]
        },
        None => forall|j: int|
            0 <= j < decisions.len() ==> !is_season_pack(
                (#[trigger] decisions[j]).release_name@,
                season,
            ) || !is_pushable(decisions[j], arr) || tried[j],
    }
}

/// The releases that are no pack of the season count as tried, so that an
/// episode never competes with the pack it belongs to.
pub fn run_season_pack_pass(
    decisions: &[DecisionRow],
    arr: ArrRule,
    tried: &[bool],
    season: u16,
) -> (r: Option<usize>)
    requires
        tried.len() == decisions.len(),
    ensures
        is_pack_pick(r, decisions@, arr, tried@, season),
{
    let mut skip: Vec<bool> = Vec::new();
    let mut i: usize = 0;
    while i < decisions.len()
        invariant
            i <= decisions.len(),
            tried.len() == decisions.len(),
            skip@.len() == i,
            forall|j: int|
                0 <= j < i ==> #[trigger] skip@[j] == (tried@[j] || !is_season_pack(
                    decisions@[j].release_name@,
                    season,
                )),
        decreases decisions.len() - i,
    {
        let out = tried[i] || !title_looks_like_season_pack(
            decisions[i].release_name.as_str(),
            season,
        );
        skip.push(out);
        i += 1;
    }
    let r = pick_pushable(decisions, arr, &skip);
    proof {
        match r {
            Some(k) => {
                assert(skip@[k as int] == (tried@[k as int] || !is_season_pack(
                    decisions@[k as int].release_name@,
                    season,
                )));
                assert forall|j: int| 0 <= j < k implies !is_season_pack(
                    (#[trigger] decisions@[j]).release_name@,
                    season,
                ) || !is_pushable(decisions@[j], arr) || tried@[j] by {
                    assert(skip@[j] == (tried@[j] || !is_season_pack(
                        decisions@[j].release_name@,
                        season,
                    )));
                }
            },
            None => {
                assert forall|j: int| 0 <= j < decisions@.len() implies !is_season_pack(
                    (#[trigger] decisions@[j]).release_name@,
                    season,
                ) || !is_pushable(decisions@[j], arr) || tried@[j] by {
                    assert(skip@[j] == (tried@[j] || !is_season_pack(
                        decisions@[j].release_name@,
                        season,
                    )));
                }
            },
        }
    }
    r
}

/// What a Sonarr cycle does next.
#[derive(Debug, Clone, Copy, PartialEq, Eq, Structural)]
pub enum CycleStep {
    /// Search for the pack of the season at hand.
    SearchPack,
    /// Search for the episode at this place of the season at hand.
    SearchEpisode(usize),
    /// Every season is done.
    Finished,
}

/// A Sonarr cycle under way: the seasons, the one at hand, what to do next
/// for it, and the counts so far.
#[derive(Debug, Clone)]
pub struct SonarrCycle {
    pub groups: Vec<SeasonGroup>,
    pub at: usize,
    pub step: CycleStep,
    pub summary: PollSummary,
}

/// Where a season with this many wanted episodes starts.
pub open spec fn season_start(groups: Seq<SeasonGroup>, at: int) -> CycleStep {
    if at >= groups.len() {
        CycleStep::Finished
    } else if groups[at].episodes@.len() >= 2 {
        CycleStep::SearchPack
    } else {
        CycleStep::SearchEpisode(0)
    }
}

/// How a cycle goes on behind the search for a whole season.
pub open spec fn follows_pack(
    before: SonarrCycle,
    after: SonarrCycle,
    end: PackEnd,
    pause: bool,
) -> bool {
    &&& after.well_formed()
    &&& after.groups == before.groups
    &&& if end == PackEnd::Pushed {
        &&& after.at == before.at + 1
        &&& after.step == season_start(after.groups@, after.at as int)
        &&& pause == (after.step != CycleStep::Finished)
    } else {
        &&& after.at == before.at
        &&& after.step == CycleStep::SearchEpisode(0)
        &&& !pause
    }
    &&& after.summary == (PollSummary {
        pushed: (before.summary.pushed + if end == PackEnd::Pushed {
            1int
        } else {
            0
        }) as usize,
        search_errors: (before.summary.search_errors + if end == PackEnd::Failed {
            1int
        } else {
            0
        }) as usize,
        ..before.summary
    })
}

/// How a cycle goes on behind the search for an episode.
pub open spec fn follows_episode(
    before: SonarrCycle,
    after: SonarrCycle,
    end: SearchEnd,
    pause: bool,
) -> bool {
    &&& after.well_formed()
    &&& after.groups == before.groups
    &&& ({
        let i = before.step->SearchEpisode_0;
        if i + 1 < before.groups@[before.at as int].episodes@.len() {
            &&& after.at == before.at
            &&& after.step == CycleStep::SearchEpisode((i + 1) as usize)
        } else {
            &&& after.at == before.at + 1
            &&& after.step == season_start(
                after.groups@,
                after.at as int,
            )
        }
    })
    &&& pause == (after.step != CycleStep::Finished)
    &&& after.summary.considered == before.summary.considered
    &&& after.summary.searched == before.summary.searched + 1
    &&& after.summary.pushed == before.summary.pushed + if end == SearchEnd::Pushed(
        PushStatus::Accepted,
    ) {
        1int
    } else {
        0
    }
    &&& after.summary.search_errors == before.summary.search_errors + if end
        == SearchEnd::Failed {
        1int
    } else {
        0
    }
}

/// How a cycle over the episodes starts.
pub open spec fn is_series_start(r: SonarrCycle, episodes: Seq<WantedEpisode>) -> bool {
    &&& r.well_formed()
    &&& are_groups(r.groups@, episodes)
    &&& r.at == 0
    &&& r.step == season_start(r.groups@, 0)
    &&& r.summary.considered == episodes.len()
    &&& r.summary.searched == 0
    &&& r.summary.pushed == 0
    &&& r.summary.search_errors == 0
}

impl SonarrCycle {
    /// The step at hand is one the season at hand has.
    pub open spec fn well_formed(&self) -> bool {
        &&& self.at <= self.groups@.len()
        &&& forall|i: int| 0 <= i < self.groups@.len() ==> (#[trigger] self.groups@[i]).episodes@.len() > 0
        &&& match self.step {
            CycleStep::SearchPack => self.at < self.groups@.len()
                && self.groups@[self.at as int].episodes@.len() >= 2,
            CycleStep::SearchEpisode(i) => self.at < self.groups@.len() && i
                < self.groups@[self.at as int].episodes@.len(),
            CycleStep::Finished => self.at == self.groups@.len(),
        }
    }

    /// Start a cycle over the wanted episodes: all are considered, and the
    /// ones to search for are grouped by season.
    pub fn run_once_sonarr(episodes: &[WantedEpisode]) -> (r: SonarrCycle)
        ensures
            is_series_start(r, episodes@),
    {
        let groups = group_by_season(episodes);
        let step = SonarrCycle::start_of(&groups, 0);
        SonarrCycle {
            groups,
            at: 0,
            step,
            summary: PollSummary {
                considered: episodes.len(),
                searched: 0,
                pushed: 0,
                search_errors: 0,
            },
        }
    }

    fn start_of(groups: &[SeasonGroup], at: usize) -> (r: CycleStep)
        ensures
            r == season_start(groups@, at as int),
    {
        if at >= groups.len() {
            CycleStep::Finished
        } else if tries_pack(groups[at].episodes.len()) {
            CycleStep::SearchPack
        } else {
            CycleStep::SearchEpisode(0)
        }
    }

    /// Take how the pack pass ended: an accepted pack covers the season and
    /// the cycle moves on, anything else falls back to its episodes. Says
    /// whether to pause before the next search.
    pub fn after_pack(&mut self, end: PackEnd) -> (pause: bool)
        requires
            old(self).well_formed(),
            old(self).step == CycleStep::SearchPack,
            old(self).summary.pushed < usize::MAX,
            old(self).summary.search_errors < usize::MAX,
        ensures
            follows_pack(*old(self), *final(self), end, pause),
    {
        match end {
            PackEnd::Pushed => {
                let n: usize = self.groups.len();
                self.summary.pushed = self.summary.pushed + 1;
                self.at = self.at + 1;
                self.step = SonarrCycle::start_of(&self.groups, self.at);
                self.at < n
            },
            PackEnd::Nothing => {
                self.step = CycleStep::SearchEpisode(0);
                false
            },
            PackEnd::Failed => {
                self.summary.search_errors = self.summary.search_errors + 1;
                self.step = CycleStep::SearchEpisode(0);
                false
            },
        }
    }

    /// Take how an episode's search ended: the next episode of the season
    /// follows, and after the last one the next season. Says whether to
    /// pause before the next search.
    pub fn after_episode(&mut self, end: SearchEnd) -> (pause: bool)
        requires
            old(self).well_formed(),
            old(self).step is SearchEpisode,
            old(self).summary.searched < usize::MAX,
            old(self).summary.pushed < usize::MAX,
            old(self).summary.search_errors < usize::MAX,
        ensures
            follows_episode(*old(self), *final(self), end, pause),
    {
        self.summary.searched = self.summary.searched + 1;
        self.summary.record(end);
        if let CycleStep::SearchEpisode(i) = self.step {
            let m: usize = self.groups[self.at].episodes.len();
            if i + 1 < m {
                self.step = CycleStep::SearchEpisode(i + 1);
                return true;
            }
        }
        let n: usize = self.groups.len();
        self.at = self.at + 1;
        self.step = SonarrCycle::start_of(&self.groups, self.at);
        self.at < n
    }
}

/// How much of a cycle is left: what every step makes smaller.
pub open spec fn left(groups: Seq<SeasonGroup>, at: int) -> nat
    decreases groups.len() - at,
{
    if 0 <= at < groups.len() {
        groups[at].episodes@.len() + 1 + left(groups, at + 1)
    } else {
        0
    }
}

/// How many searches a cycle has ahead of it at most.
pub open spec fn ahead(c: SonarrCycle) -> int {
    match c.step {
        CycleStep::SearchPack => left(c.groups@, c.at as int) as int,
        CycleStep::SearchEpisode(i) => left(c.groups@, c.at as int) - 1 - i,
        CycleStep::Finished => 0,
    }
}

/// Every step brings a cycle nearer its end, so each wanted episode is
/// searched for at most once.
pub proof fn a_cycle_ends(before: SonarrCycle, after: SonarrCycle)
    requires
        before.well_formed(),
        after.well_formed(),
        before.groups == after.groups,
        match before.step {
            CycleStep::SearchPack => {
                ||| after.at == before.at && after.step == CycleStep::SearchEpisode(0)
                ||| after.at == before.at + 1 && after.step == season_start(
                    after.groups@,
                    after.at as int,
                )
            },
            CycleStep::SearchEpisode(i) => {
                ||| after.at == before.at && after.step == CycleStep::SearchEpisode((i + 1) as usize)
                    && i + 1 < after.groups@[after.at as int].episodes@.len()
                ||| after.at == before.at + 1 && after.step == season_start(
                    after.groups@,
                    after.at as int,
                )
            },
            CycleStep::Finished => false,
        },
    ensures
        0 <= ahead(after) < ahead(before),
{
    reveal_with_fuel(left, 3);
    let here = before.groups@[before.at as int].episodes;
    assert(here.len() == here@.len());
    assert(left(before.groups@, before.at as int) == before.groups@[before.at as int].episodes@.len()
        + 1 + left(before.groups@, before.at + 1));
}

/// What a push makes of the search for a whole season.
pub open spec fn is_pack_end(r: PackEnd, status: PushStatus) -> bool {
    r == if status == PushStatus::Accepted {
        PackEnd::Pushed
    } else {
        PackEnd::Nothing
    }
}

/// What a pushed pack counts as: accepted, or nothing.
pub fn pack_end(status: PushStatus) -> (r: PackEnd)
    ensures
        is_pack_end(r, status),
{
    if status == PushStatus::Accepted {
        PackEnd::Pushed
    } else {
        PackEnd::Nothing
    }
}

} // verus!
