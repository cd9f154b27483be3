//! How files and folders are named.

use vstd::prelude::*;

use crate::host_path;
use crate::import;
use crate::laws::spelling;
use crate::text;

verus! {

/// Whether a character can stand in a file's name everywhere.
pub open spec fn is_allowed(c: char) -> bool {
    &&& 32 <= c as int
    &&& !(127 <= c as int <= 159)
    &&& c != '<' && c != '>' && c != ':' && c != '"' && c != '/'
    &&& c != '\\' && c != '|' && c != '?' && c != '*'
}

/// Whether a text needs no change to be a name: only allowed characters, no
/// two spaces in a row, no white space around it and no dot at its end.
pub open spec fn is_clean(t: Seq<char>) -> bool {
    &&& t.len() > 0
    &&& forall|i: int| 0 <= i < t.len() ==> is_allowed(#[trigger] t[i])
    &&& forall|i: int| 0 <= i < t.len() - 1 ==> !(#[trigger] t[i] == ' ' && t[i + 1] == ' ')
    &&& !spelling::is_space(t[0])
    &&& !spelling::is_space(t.last())
    &&& t.last() != '.'
}

/// Whether a text starts with a letter that no device of Windows' does.
pub open spec fn starts_as_no_device(t: Seq<char>) -> bool {
    t.len() > 0 && !seq!['c', 'C', 'p', 'P', 'a', 'A', 'n', 'N', 'l', 'L'].contains(t[0])
}

/// Whether a text is no device's name: it starts as none does, or it is
/// longer than any and has no dot.
pub open spec fn is_no_device(t: Seq<char>) -> bool {
    starts_as_no_device(t) || (t.len() > 4 && !t.contains('.'))
}

proof fn lemma_stem(t: Seq<char>)
    ensures
        !t.contains('.') ==> import::stem(t) == t,
        t.len() > 0 && import::stem(t).len() > 0 ==> import::stem(t)[0] == t[0],
    decreases t.len(),
{
    if t.len() > 0 {
        assert(t.contains(t[0]));
        if t[0] != '.' {
            let rest = t.drop_first();
            lemma_stem(rest);
            if !t.contains('.') {
                assert forall|i: int| 0 <= i < rest.len() implies rest[i] != '.' by {
                    assert(rest[i] == t[i + 1]);
                }
                assert(seq![t[0]] + rest =~= t);
            }
        }
    } else {
        assert(import::stem(t) =~= t);
    }
}

proof fn lemma_no_device(t: Seq<char>)
    requires
        is_no_device(t),
    ensures
        !import::is_reserved(t),
{
    lemma_stem(t);
    let s = import::stem(t);
    let low = text::lowered(s);
    if starts_as_no_device(t) && s.len() > 0 {
        let letters = seq!['c', 'C', 'p', 'P', 'a', 'A', 'n', 'N', 'l', 'L'];
        assert(letters[0] == 'c' && letters[1] == 'C' && letters[2] == 'p' && letters[3] == 'P'
            && letters[4] == 'a' && letters[5] == 'A' && letters[6] == 'n' && letters[7] == 'N'
            && letters[8] == 'l' && letters[9] == 'L');
        assert(low[0] == text::lower(t[0]));
        if import::is_device(low) {
            assert(low[0] == 'c' || low[0] == 'p' || low[0] == 'a' || low[0] == 'n' || low[0]
                == 'l');
            assert(false);
        }
    } else {
        assert(low.len() == s.len());
    }
}

proof fn lemma_clean(t: Seq<char>)
    requires
        is_clean(t),
    ensures
        import::is_tidy(t),
        import::collapsed(t) == t,
        text::trim(t) == t,
        text::trim_start(t) == t,
        import::without_tail(t) == t,
{
    assert forall|i: int| 0 <= i < t.len() implies import::is_safe(#[trigger] t[i]) by {
        assert(is_allowed(t[i]));
    }
    assert forall|i: int| !#[trigger] import::doubled_at(t, i) by {
        if import::doubled_at(t, i) {
            assert(!(t[i] == ' ' && t[i + 1] == ' '));
        }
    }
    import::lemma_collapsing_the_tidy(t);
    let none = Seq::<char>::empty();
    spelling::trimming_takes_the_space_around(none, t, none);
    assert(none + t + none =~= t);
    assert(none + t =~= t);
    assert(t + none =~= t);
    lemma_space_is_space();
    assert(t.last() != ' ');
}

proof fn lemma_space_is_space()
    ensures
        spelling::is_space(' '),
{
    let none = Seq::<char>::empty();
    if !spelling::is_space(' ') {
        spelling::trimming_takes_the_space_around(none, seq![' '], none);
        assert(none + seq![' '] + none =~= seq![' ']);
        assert(text::is_white(seq![' '][0]));
        assert(seq![' '].drop_first() =~= none);
        assert(text::trim_start(seq![' ']) =~= none);
        assert(false);
    }
}

/// A clean title is a name as it stands.
pub proof fn a_clean_title_stays_as_it_is(t: Seq<char>)
    requires
        is_clean(t),
        is_no_device(t),
        t.len() <= 200,
    ensures
        import::sanitized(t) == t,
{
    lemma_clean(t);
    lemma_no_device(t);
}

/// A clean title that is too long keeps its first two hundred characters.
pub proof fn a_long_title_is_cut(t: Seq<char>)
    requires
        is_clean(t),
        is_no_device(t),
        t.len() > 200,
        !spelling::is_space(t[199]),
        t[199] != '.',
        is_no_device(t.take(200)),
    ensures
        import::sanitized(t) == t.take(200),
{
    lemma_clean(t);
    lemma_no_device(t);
    let head = t.take(200);
    assert(head.last() == t[199]);
    assert(head[0] == t[0]);
    assert forall|i: int| 0 <= i < head.len() implies is_allowed(#[trigger] head[i]) by {
        assert(head[i] == t[i]);
    }
    assert forall|i: int| 0 <= i < head.len() - 1 implies !(#[trigger] head[i] == ' ' && head[i + 1]
        == ' ') by {
        assert(head[i] == t[i]);
        assert(head[i + 1] == t[i + 1]);
    }
    lemma_clean(head);
    lemma_no_device(head);
    let none = Seq::<char>::empty();
    spelling::trimming_takes_the_space_around(none, head, none);
    assert(none + head + none =~= head);
    assert(none + head =~= head);
}

/// Whether a text spells one of Windows' devices, in any letter case.
pub open spec fn spells_device(d: Seq<char>) -> bool {
    ||| spelling::reads_as(d, seq!['c', 'o', 'n'])
    ||| spelling::reads_as(d, seq!['p', 'r', 'n'])
    ||| spelling::reads_as(d, seq!['a', 'u', 'x'])
    ||| spelling::reads_as(d, seq!['n', 'u', 'l'])
    ||| d.len() == 4 && 49 <= d[3] as int <= 57 && (spelling::reads_as(
        d.take(3),
        seq!['c', 'o', 'm'],
    ) || spelling::reads_as(d.take(3), seq!['l', 'p', 't']))
}

proof fn lemma_device(d: Seq<char>)
    requires
        spells_device(d),
    ensures
        import::is_device(text::lowered(d)),
        3 <= d.len() <= 4,
        forall|i: int|
            0 <= i < d.len() ==> 48 <= #[trigger] d[i] as int <= 57 || 65 <= d[i] as int <= 90
                || 97 <= d[i] as int <= 122,
{
    let low = text::lowered(d);
    spelling::lemma_reads(d, seq!['c', 'o', 'n']);
    spelling::lemma_reads(d, seq!['p', 'r', 'n']);
    spelling::lemma_reads(d, seq!['a', 'u', 'x']);
    spelling::lemma_reads(d, seq!['n', 'u', 'l']);
    if d.len() == 4 {
        let head = d.take(3);
        spelling::lemma_reads(head, seq!['c', 'o', 'm']);
        spelling::lemma_reads(head, seq!['l', 'p', 't']);
        assert(text::lowered(head)[0] == low[0]);
        assert(text::lowered(head)[1] == low[1]);
        assert(text::lowered(head)[2] == low[2]);
        assert(low[3] == d[3]);
        assert(head[0] == d[0] && head[1] == d[1] && head[2] == d[2]);
    }
}

/// The name of a device is marked, so that it names none.
pub proof fn a_device_name_is_marked(d: Seq<char>)
    requires
        spells_device(d),
    ensures
        import::sanitized(d) == seq!['_'] + d,
{
    lemma_device(d);
    assert forall|i: int| 0 <= i < d.len() implies is_allowed(#[trigger] d[i]) && d[i] != ' ' && d[i]
        != '.' && !text::is_white(d[i]) by {
        assert(48 <= d[i] as int <= 57 || 65 <= d[i] as int <= 90 || 97 <= d[i] as int <= 122);
    }
    assert(!text::is_white(d[0]) && !text::is_white(d[d.len() - 1]));
    text::lemma_trim_tight(d);
    assert forall|i: int| 0 <= i < d.len() implies import::is_safe(#[trigger] d[i]) by {
        assert(is_allowed(d[i]));
    }
    assert forall|i: int| !#[trigger] import::doubled_at(d, i) by {}
    import::lemma_collapsing_the_tidy(d);
    assert(d[d.len() - 1] != '.' && d[d.len() - 1] != ' ');
    lemma_stem(d);
}

proof fn lemma_same_cleaned(s: Seq<char>, t: Seq<char>)
    requires
        s.len() == t.len(),
        forall|i: int| 0 <= i < s.len() ==> import::cleaned(#[trigger] s[i]) == import::cleaned(t[i]),
    ensures
        import::collapsed(s) == import::collapsed(t),
    decreases s.len(),
{
    if s.len() > 0 {
        let a = s.drop_last();
        let b = t.drop_last();
        assert forall|i: int| 0 <= i < a.len() implies import::cleaned(#[trigger] a[i])
            == import::cleaned(b[i]) by {
            assert(a[i] == s[i]);
        }
        lemma_same_cleaned(a, b);
        assert(import::cleaned(s[s.len() - 1]) == import::cleaned(t[t.len() - 1]));
        if s.len() >= 2 {
            assert(import::cleaned(s[s.len() - 2]) == import::cleaned(t[t.len() - 2]));
        }
    }
}

proof fn lemma_double_space(a: Seq<char>, b: Seq<char>)
    ensures
        import::collapsed(a + seq![' ', ' '] + b) == import::collapsed(a + seq![' '] + b),
    decreases b.len(),
{
    let two = a + seq![' ', ' '] + b;
    let one = a + seq![' '] + b;
    if b.len() == 0 {
        assert(two.drop_last() =~= one);
        assert(two.last() == ' ');
        assert(two[two.len() - 2] == ' ');
    } else {
        assert(two.drop_last() =~= a + seq![' ', ' '] + b.drop_last());
        assert(one.drop_last() =~= a + seq![' '] + b.drop_last());
        lemma_double_space(a, b.drop_last());
        assert(two.last() == b.last() && one.last() == b.last());
        if b.len() >= 2 {
            assert(two[two.len() - 2] == b[b.len() - 2]);
            assert(one[one.len() - 2] == b[b.len() - 2]);
        } else {
            assert(two[two.len() - 2] == ' ');
            assert(one[one.len() - 2] == ' ');
        }
    }
}

/// A character that cannot stand in a name counts as a space, and two spaces
/// in a row as one.
pub proof fn what_cannot_stand_counts_as_a_space(a: Seq<char>, c: char, b: Seq<char>)
    requires
        !is_allowed(c),
    ensures
        import::sanitized(a + seq![c] + b) == import::sanitized(a + seq![' '] + b),
        import::sanitized(a + seq![' ', ' '] + b) == import::sanitized(a + seq![' '] + b),
{
    let s = a + seq![c] + b;
    let t = a + seq![' '] + b;
    assert forall|i: int| 0 <= i < s.len() implies import::cleaned(#[trigger] s[i])
        == import::cleaned(t[i]) by {
        if i != a.len() {
            assert(s[i] == t[i]);
        }
    }
    lemma_same_cleaned(s, t);
    lemma_double_space(a, b);
}

proof fn lemma_nothing_but_spaces(s: Seq<char>)
    requires
        forall|i: int| 0 <= i < s.len() ==> import::cleaned(#[trigger] s[i]) == ' ',
    ensures
        s.len() == 0 ==> import::collapsed(s) == Seq::<char>::empty(),
        s.len() > 0 ==> import::collapsed(s) == seq![' '],
    decreases s.len(),
{
    if s.len() > 0 {
        let short = s.drop_last();
        assert forall|i: int| 0 <= i < short.len() implies import::cleaned(#[trigger] short[i])
            == ' ' by {
            assert(short[i] == s[i]);
        }
        lemma_nothing_but_spaces(short);
        assert(import::cleaned(s[s.len() - 1]) == ' ');
        if s.len() >= 2 {
            assert(import::cleaned(s[s.len() - 2]) == ' ');
        } else {
            assert(import::collapsed(s) =~= seq![' ']);
        }
    }
}

/// A title that leaves nothing to name a file by is named `sem-titulo`.
pub proof fn nothing_is_named_without_a_title(s: Seq<char>)
    requires
        forall|i: int| 0 <= i < s.len() ==> #[trigger] s[i] == ' ' || !is_allowed(s[i]),
    ensures
        import::sanitized(s) == seq!['s', 'e', 'm', '-', 't', 'i', 't', 'u', 'l', 'o'],
{
    assert forall|i: int| 0 <= i < s.len() implies import::cleaned(#[trigger] s[i]) == ' ' by {}
    lemma_nothing_but_spaces(s);
    let none = Seq::<char>::empty();
    lemma_space_is_space();
    assert(spelling::is_spaces(seq![' ']));
    spelling::trimming_takes_the_space_around(seq![' '], none, none);
    spelling::trimming_takes_the_space_around(none, none, none);
    assert(seq![' '] + none + none =~= seq![' ']);
    assert(none + none + none =~= none);
    assert(import::without_tail(none) =~= none);
    assert(import::stem(none) =~= none);
    assert(text::lowered(none) =~= none);
    reveal_strlit("sem-titulo");
    assert("sem-titulo"@ =~= seq!['s', 'e', 'm', '-', 't', 'i', 't', 'u', 'l', 'o']);
}

// ---------------------------------------------------------------------
// Spelled out
// ---------------------------------------------------------------------

/// The four figures of a year.
pub open spec fn figures_of(year: int) -> Seq<char> {
    seq![
        (48 + year / 1000) as char,
        (48 + year / 100 % 10) as char,
        (48 + year / 10 % 10) as char,
        (48 + year % 10) as char,
    ]
}

/// The two figures of a season or an episode.
pub open spec fn two_figures(n: int) -> Seq<char> {
    seq![(48 + n / 10) as char, (48 + n % 10) as char]
}

/// A title, and behind it its year in brackets where it has one.
pub open spec fn with_year(title: Seq<char>, year: Option<i32>) -> Seq<char> {
    match year {
        Some(y) => title + seq![' ', '('] + figures_of(y as int) + seq![')'],
        None => title,
    }
}

/// Whether a year has four figures, where there is one.
pub open spec fn is_usual_year(year: Option<i32>) -> bool {
    year matches Some(y) ==> 1000 <= y <= 9999
}

/// Whether a text can be a file's extension: letters and figures alone.
pub open spec fn is_usual_extension(e: Seq<char>) -> bool {
    e.len() > 0 && forall|i: int|
        0 <= i < e.len() ==> 48 <= #[trigger] e[i] as int <= 57 || 97 <= e[i] as int <= 122
}

proof fn lemma_year(y: int)
    requires
        1000 <= y <= 9999,
    ensures
        text::signed(y) == figures_of(y),
        forall|i: int|
            0 <= i < figures_of(y).len() ==> 48 <= #[trigger] figures_of(y)[i] as int <= 57,
{
    reveal_with_fuel(text::decimal, 5);
    let n = y as nat;
    let a = (n / 10) as nat;
    let b = (a / 10) as nat;
    assert(b == n / 100);
    assert(b / 10 == n / 1000);
    assert(text::decimal(b / 10) =~= seq![(48 + y / 1000) as char]);
    assert(text::decimal(b) =~= seq![(48 + y / 1000) as char, (48 + y / 100 % 10) as char]);
    assert(text::decimal(a) =~= seq![
        (48 + y / 1000) as char,
        (48 + y / 100 % 10) as char,
        (48 + y / 10 % 10) as char,
    ]);
    assert(text::decimal(n) =~= figures_of(y));
}

proof fn lemma_year_suffix(title: Seq<char>, year: Option<i32>)
    requires
        is_usual_year(year),
    ensures
        title + import::year_suffix(year) == with_year(title, year),
        import::year_suffix(year).len() <= 7,
        year is Some ==> import::year_suffix(year).len() == 7,
        year is None ==> import::year_suffix(year).len() == 0,
{
    reveal_strlit(" (");
    reveal_strlit(")");
    match year {
        Some(y) => {
            lemma_year(y as int);
            assert(title + import::year_suffix(year) =~= with_year(title, year));
        },
        None => {
            assert(title + import::year_suffix(year) =~= title);
        },
    }
}

proof fn lemma_appended(title: Seq<char>, suffix: Seq<char>)
    requires
        is_clean(title),
        suffix.len() > 0,
        forall|i: int| 0 <= i < suffix.len() ==> is_allowed(#[trigger] suffix[i]),
        forall|i: int|
            0 <= i < suffix.len() - 1 ==> !(#[trigger] suffix[i] == ' ' && suffix[i + 1] == ' '),
        !spelling::is_space(suffix.last()),
        suffix.last() != '.',
    ensures
        is_clean(title + suffix),
{
    let whole = title + suffix;
    lemma_space_is_space();
    assert forall|i: int| 0 <= i < whole.len() implies is_allowed(#[trigger] whole[i]) by {
        if i < title.len() {
            assert(whole[i] == title[i]);
        } else {
            assert(whole[i] == suffix[i - title.len()]);
        }
    }
    assert forall|i: int| 0 <= i < whole.len() - 1 implies !(#[trigger] whole[i] == ' ' && whole[i
        + 1] == ' ') by {
        if i + 1 < title.len() {
            assert(whole[i] == title[i] && whole[i + 1] == title[i + 1]);
        } else if i < title.len() {
            assert(whole[i] == title.last());
        } else {
            assert(whole[i] == suffix[i - title.len()] && whole[i + 1] == suffix[i - title.len()
                + 1]);
        }
    }
    assert(whole[0] == title[0]);
    assert(whole.last() == suffix.last());
}

proof fn lemma_plain_is_no_space(c: char)
    requires
        33 <= c as int <= 126,
    ensures
        !spelling::is_space(c),
{
    let none = Seq::<char>::empty();
    if spelling::is_space(c) {
        assert(spelling::is_spaces(seq![c]));
        spelling::trimming_takes_the_space_around(seq![c], none, none);
        assert(seq![c] + none + none =~= seq![c]);
        text::lemma_trim_tight(seq![c]);
        assert(seq![c].len() == 1);
        assert(false);
    }
}

proof fn lemma_with_year(title: Seq<char>, year: Option<i32>)
    requires
        is_clean(title),
        is_usual_year(year),
    ensures
        is_clean(with_year(title, year)),
        with_year(title, year)[0] == title[0],
        with_year(title, year).len() >= title.len(),
        !title.contains('.') ==> !with_year(title, year).contains('.'),
        year is Some ==> with_year(title, year).len() == title.len() + 7,
{
    if let Some(y) = year {
        let tail = seq![' ', '('] + figures_of(y as int) + seq![')'];
        lemma_year(y as int);
        assert forall|i: int| 0 <= i < tail.len() implies is_allowed(#[trigger] tail[i]) && tail[i]
            != '.' && (i > 0 ==> tail[i] != ' ') by {
            if 2 <= i < 6 {
                assert(tail[i] == figures_of(y as int)[i - 2]);
            }
        }
        assert(tail.last() == ')');
        lemma_plain_is_no_space(')');
        lemma_appended(title, tail);
        assert(title + tail =~= with_year(title, year));
        let whole = with_year(title, year);
        if !title.contains('.') {
            assert forall|i: int| 0 <= i < whole.len() implies whole[i] != '.' by {
                if i < title.len() {
                    assert(whole[i] == title[i]);
                } else {
                    assert(whole[i] == tail[i - title.len()]);
                }
            }
        }
    }
}

proof fn lemma_shortened(title: Seq<char>, room: int)
    requires
        is_clean(title),
        title.len() <= room,
    ensures
        import::shortened(title, room) == title,
{
    lemma_clean(title);
}

/// Whether a title can be filed under as it stands: clean, short, and nothing
/// like a device's name.
pub open spec fn is_filed_as_it_stands(title: Seq<char>) -> bool {
    is_clean(title) && title.len() <= 150 && (starts_as_no_device(title) || (title.len() > 4
        && !title.contains('.')))
}

/// A title's folder is its name, with its year in brackets behind it.
pub proof fn a_folder_is_the_title_and_its_year(title: Seq<char>, year: Option<i32>)
    requires
        is_filed_as_it_stands(title),
        is_usual_year(year),
    ensures
        import::title_folder_name(title, year) == with_year(title, year),
{
    lemma_year_suffix(title, year);
    lemma_with_year(title, year);
    lemma_shortened(title, 200 - import::year_suffix(year).len());
    a_clean_title_stays_as_it_is(with_year(title, year));
}

/// A season's folder is `Season` and the season in two figures.
pub proof fn a_season_folder_is_numbered(season: u16)
    requires
        season < 100,
    ensures
        import::season_folder_name(season) == seq!['S', 'e', 'a', 's', 'o', 'n', ' '] + two_figures(
            season as int,
        ),
{
    reveal_strlit("Season ");
    assert("Season "@ =~= seq!['S', 'e', 'a', 's', 'o', 'n', ' ']);
    spelling::two_places_are_filled(season as nat);
}

/// What stands behind the title in the name of an episode's file.
pub open spec fn episode_tail(season: int, episode: int, extension: Seq<char>) -> Seq<char> {
    seq![' ', '-', ' ', 'S'] + two_figures(season) + seq!['E'] + two_figures(episode) + seq!['.']
        + extension
}

/// An episode's file is the title, its place in the series and its extension:
/// `Title - S01E02.mkv`.
pub proof fn an_episode_is_named_by_its_place(
    title: Seq<char>,
    season: u16,
    episode: u16,
    extension: Seq<char>,
)
    requires
        is_filed_as_it_stands(title),
        season < 100,
        episode < 100,
        is_usual_extension(extension),
        extension.len() <= 20,
    ensures
        import::fitted(title, import::episode_suffix(season, episode, extension), 200) == title
            + episode_tail(season as int, episode as int, extension),
{
    reveal_strlit(" - ");
    reveal_strlit("S");
    reveal_strlit("E");
    reveal_strlit(".");
    spelling::two_places_are_filled(season as nat);
    spelling::two_places_are_filled(episode as nat);
    let tail = episode_tail(season as int, episode as int, extension);
    assert(import::episode_suffix(season, episode, extension) =~= tail);
    assert(tail.len() == 10 + extension.len());
    assert forall|i: int| 0 <= i < tail.len() implies is_allowed(#[trigger] tail[i]) && (i > 2
        ==> tail[i] != ' ') && tail[1] == '-' by {
        if i >= 10 {
            assert(tail[i] == extension[i - 10]);
        }
    }
    assert(tail.last() == extension[extension.len() - 1]);
    lemma_plain_is_no_space(extension[extension.len() - 1]);
    lemma_appended(title, tail);
    lemma_shortened(title, 200 - tail.len());
    let whole = title + tail;
    lemma_clean(whole);
    if starts_as_no_device(title) {
        assert(whole[0] == title[0]);
        lemma_no_device(whole);
    } else {
        lemma_dotted_stem(title + tail.take(9), extension);
        assert(whole =~= title + tail.take(9) + seq!['.'] + extension);
    }
}

proof fn lemma_dotted_stem(head: Seq<char>, extension: Seq<char>)
    requires
        head.len() > 4,
        forall|i: int| 4 >= i >= 0 ==> #[trigger] head[i] != '.',
    ensures
        !import::is_reserved(head + seq!['.'] + extension),
{
    let whole = head + seq!['.'] + extension;
    reveal_with_fuel(import::stem, 6);
    let s = import::stem(whole);
    assert(whole[0] == head[0] && whole[1] == head[1] && whole[2] == head[2] && whole[3] == head[3]
        && whole[4] == head[4]);
    let w1 = whole.drop_first();
    let w2 = w1.drop_first();
    let w3 = w2.drop_first();
    let w4 = w3.drop_first();
    assert(w1[0] == head[1] && w2[0] == head[2] && w3[0] == head[3] && w4[0] == head[4]);
    assert(import::stem(w4).len() >= 1);
    assert(import::stem(w3).len() >= 2);
    assert(import::stem(w2).len() >= 3);
    assert(import::stem(w1).len() >= 4);
    assert(s.len() >= 5);
    assert(text::lowered(s).len() == s.len());
}

/// A film's file is the title, its year and its extension.
pub proof fn a_film_is_named_by_its_year(
    title: Seq<char>,
    year: Option<i32>,
    extension: Seq<char>,
)
    requires
        is_filed_as_it_stands(title),
        is_usual_year(year),
        is_usual_extension(extension),
        extension.len() <= 20,
    ensures
        import::film_name(title, year, extension) == with_year(title, year) + seq!['.']
            + extension,
{
    reveal_strlit(".");
    let suffix = "."@ + extension;
    assert(suffix =~= seq!['.'] + extension);
    lemma_year_suffix(title, year);
    lemma_with_year(title, year);
    let base = with_year(title, year);
    lemma_shortened(title, 200 - suffix.len() - import::year_suffix(year).len());
    a_clean_title_stays_as_it_is(base);
    lemma_shortened(base, 200 - suffix.len());
    assert forall|i: int| 0 <= i < suffix.len() implies is_allowed(#[trigger] suffix[i]) && suffix[i]
        != ' ' by {
        if i >= 1 {
            assert(suffix[i] == extension[i - 1]);
        }
    }
    assert(suffix.last() == extension[extension.len() - 1]);
    lemma_plain_is_no_space(extension[extension.len() - 1]);
    lemma_appended(base, suffix);
    let whole = base + suffix;
    assert(whole =~= base + seq!['.'] + extension);
    lemma_clean(whole);
    if starts_as_no_device(title) {
        assert(whole[0] == title[0]);
        lemma_no_device(whole);
    } else {
        assert forall|i: int| 4 >= i >= 0 implies #[trigger] base[i] != '.' by {
            assert(base.contains(base[i]));
        }
        lemma_dotted_stem(base, extension);
    }
}

/// A name behind a folder, with a separator between.
pub open spec fn inside(folder: Seq<char>, name: Seq<char>, separator: char) -> Seq<char> {
    folder.push(separator) + name
}

/// A film goes to `Title (Year)/Title (Year).ext` under its root, and an
/// episode to `Title (Year)/Season 01/Title - S01E02.ext`.
pub proof fn a_title_goes_where_it_is_looked_for(
    root: Seq<char>,
    title: Seq<char>,
    year: Option<i32>,
    season: u16,
    episode: u16,
    extension: Seq<char>,
)
    requires
        root.len() > 0,
        root.last() != '/',
        is_filed_as_it_stands(title),
        title.last() != '/',
        is_usual_year(year),
        season < 100,
        episode < 100,
        is_usual_extension(extension),
        extension.len() <= 20,
    ensures
        import::destination_path(root, title, year, None, extension, '/') == inside(
            inside(root, with_year(title, year), '/'),
            with_year(title, year) + seq!['.'] + extension,
            '/',
        ),
        import::destination_path(root, title, year, Some((season, episode)), extension, '/')
            == inside(
            inside(
                inside(root, with_year(title, year), '/'),
                seq!['S', 'e', 'a', 's', 'o', 'n', ' '] + two_figures(season as int),
                '/',
            ),
            title + episode_tail(season as int, episode as int, extension),
            '/',
        ),
{
    a_folder_is_the_title_and_its_year(title, year);
    a_season_folder_is_numbered(season);
    an_episode_is_named_by_its_place(title, season, episode, extension);
    a_film_is_named_by_its_year(title, year, extension);
    lemma_with_year(title, year);
    let folder = with_year(title, year);
    assert(is_allowed(folder[folder.len() - 1]));
    let base = inside(root, folder, '/');
    assert(base.last() == folder.last());
    let dir = seq!['S', 'e', 'a', 's', 'o', 'n', ' '] + two_figures(season as int);
    let deep = inside(base, dir, '/');
    assert(deep.last() == two_figures(season as int)[1]);
}

// ---------------------------------------------------------------------
// Read back
// ---------------------------------------------------------------------

/// A file keeps the extension its video has, in small letters; one without an
/// extension becomes an `mkv`.
pub proof fn a_video_keeps_its_extension(folder: Seq<char>, stem: Seq<char>, extension: Seq<char>)
    requires
        stem.len() > 0,
        forall|i: int| 0 <= i < stem.len() ==> #[trigger] stem[i] != '/',
        forall|i: int| 0 <= i < extension.len() ==> #[trigger] extension[i] != '/' && extension[i]
            != '.',
        extension.len() > 0,
    ensures
        import::extension_kept(
            host_path::join_path(folder, stem + seq!['.'] + extension, '/'),
            '/',
        ) == text::lowered(extension),
{
    let name = stem + seq!['.'] + extension;
    let seps = host_path::host_seps('/');
    assert forall|i: int| 0 <= i < name.len() implies !seps.contains(#[trigger] name[i]) by {
        if i < stem.len() {
            assert(name[i] == stem[i]);
        } else if i > stem.len() {
            assert(name[i] == extension[i - stem.len() - 1]);
        }
    }
    assert(name.len() >= 3);
    host_path::lemma_joined_name(folder, name, '/');
    assert(!extension.contains('.')) by {
        assert(forall|i: int| 0 <= i < extension.len() ==> extension[i] != '.');
    }
    import::lemma_last_dot(stem, extension);
    assert(name.skip(stem.len() as int + 1) =~= extension);
}

/// Without a name a path has no extension, and an `mkv` is assumed.
pub proof fn without_an_extension_it_is_an_mkv(path: Seq<char>, separator: char)
    requires
        host_path::path_extension(path, separator) is None,
    ensures
        import::extension_kept(path, separator) == seq!['m', 'k', 'v'],
{
    reveal_strlit("mkv");
    assert("mkv"@ =~= seq!['m', 'k', 'v']);
}

proof fn lemma_year_cut(title: Seq<char>, figures: Seq<char>)
    requires
        title.len() > 0,
        !spelling::is_space(title.last()),
        figures.len() == 4,
        forall|i: int| 0 <= i < 4 ==> 48 <= #[trigger] figures[i] as int <= 57,
    ensures
        import::without_year(title + seq![' ', '('] + figures + seq![')']) == title,
{
    let whole = title + seq![' ', '('] + figures + seq![')'];
    lemma_plain_is_no_space(')');
    lemma_trim_end_tight(whole);
    let body = whole.drop_last();
    assert(body =~= title + seq![' ', '('] + figures);
    lemma_last_bracket(title.push(' '), figures);
    assert(title.push(' ') + seq!['('] + figures =~= body);
    let open: int = title.len() as int + 1;
    assert(whole.len() - open == 6);
    assert(whole.subrange(open + 1, whole.len() - 1) =~= figures);
    assert(text::all_digits(figures));
    assert(whole.take(open) =~= title + seq![' ']);
    lemma_trim_one_space(title);
}

proof fn lemma_bracket_stands(s: Seq<char>)
    ensures
        host_path::last_index(s, '(') matches Some(i) ==> 0 <= i < s.len() && s[i] == '(',
    decreases s.len(),
{
    if s.len() > 0 && s.last() != '(' {
        lemma_bracket_stands(s.drop_last());
    }
}

/// Only four figures in brackets at the very end are a year: a name that
/// ends in anything else is kept whole.
pub proof fn what_is_no_year_is_kept(name: Seq<char>)
    requires
        name.len() > 0,
        !spelling::is_space(name.last()),
        import::without_year(name) != name,
    ensures
        name.len() >= 6,
        name.last() == ')',
        name[name.len() - 6] == '(',
        forall|i: int|
            name.len() - 6 < i < name.len() - 1 ==> 48 <= #[trigger] name[i] as int <= 57,
{
    lemma_trim_end_tight(name);
    lemma_bracket_stands(name.drop_last());
    let inside = name.subrange(name.len() - 5, name.len() - 1);
    assert forall|i: int| name.len() - 6 < i < name.len() - 1 implies 48
        <= #[trigger] name[i] as int <= 57 by {
        assert(inside[i - (name.len() - 5)] == name[i]);
    }
}

proof fn lemma_trim_one_space(title: Seq<char>)
    requires
        title.len() > 0,
        !spelling::is_space(title.last()),
    ensures
        text::trim_end(title + seq![' ']) == title,
{
    let whole = title + seq![' '];
    assert(whole.last() == ' ');
    assert(whole.drop_last() =~= title);
    lemma_trim_end_tight(title);
}

proof fn lemma_trim_end_tight(s: Seq<char>)
    requires
        s.len() > 0,
        !spelling::is_space(s.last()),
    ensures
        text::trim_end(s) == s,
{
    let one = seq![s.last()];
    let none = Seq::<char>::empty();
    spelling::trimming_takes_the_space_around(none, one, none);
    assert(none + one + none =~= one);
    if text::is_white(s.last()) {
        assert(one.drop_last() =~= none);
        assert(text::trim_end(none) == none);
        assert(text::trim_end(one) == none);
        assert(none + one =~= one);
        assert(false);
    }
}

proof fn lemma_last_bracket(head: Seq<char>, figures: Seq<char>)
    requires
        forall|i: int| 0 <= i < figures.len() ==> #[trigger] figures[i] != '(',
    ensures
        host_path::last_index(head + seq!['('] + figures, '(') == Some(head.len() as int),
    decreases figures.len(),
{
    let whole = head + seq!['('] + figures;
    if figures.len() == 0 {
        assert(whole.last() == '(');
    } else {
        assert(whole.last() == figures[figures.len() - 1]);
        assert(whole.drop_last() =~= head + seq!['('] + figures.drop_last());
        assert(forall|i: int| 0 <= i < figures.drop_last().len() ==> #[trigger] figures.drop_last()[i]
            == figures[i]);
        lemma_last_bracket(head, figures.drop_last());
    }
}

/// A folder with the year behind the title and one without stand for one
/// title, whichever of them is there.
pub proof fn the_year_in_brackets_is_no_part_of_the_title(
    title: Seq<char>,
    figures: Seq<char>,
)
    requires
        title.len() > 0,
        !spelling::is_space(title.last()),
        figures.len() == 4,
        forall|i: int| 0 <= i < 4 ==> 48 <= #[trigger] figures[i] as int <= 57,
    ensures
        import::one_title(title + seq![' ', '('] + figures + seq![')'], title),
        import::one_title(title, title + seq![' ', '('] + figures + seq![')']),
{
    lemma_year_cut(title, figures);
}

/// Where no year stands behind either, two folders are of one title exactly
/// where their names differ in letter case at most.
pub proof fn another_name_is_another_title(wanted: Seq<char>, candidate: Seq<char>)
    requires
        wanted.len() > 0 && candidate.len() > 0,
        wanted.last() != ')' && candidate.last() != ')',
        !spelling::is_space(wanted.last()) && !spelling::is_space(candidate.last()),
    ensures
        import::one_title(wanted, candidate) <==> text::eq_fold(wanted, candidate),
{
    lemma_trim_end_tight(wanted);
    lemma_trim_end_tight(candidate);
    if text::eq_fold(candidate, wanted) {
        assert forall|i: int| 0 <= i < wanted.len() implies text::lower(#[trigger] wanted[i])
            == text::lower(candidate[i]) by {
            assert(text::lower(candidate[i]) == text::lower(wanted[i]));
        }
    }
    if text::eq_fold(wanted, candidate) {
        assert forall|i: int| 0 <= i < candidate.len() implies text::lower(#[trigger] candidate[i])
            == text::lower(wanted[i]) by {
            assert(text::lower(wanted[i]) == text::lower(candidate[i]));
        }
    }
}

/// A folder named `Season` or `Temporada` and a number, in any letter case,
/// is that season's.
pub proof fn a_season_folder_names_its_season(word: Seq<char>, figures: Seq<char>)
    requires
        spelling::reads_as(word, seq!['s', 'e', 'a', 's', 'o', 'n']) || spelling::reads_as(
            word,
            seq!['t', 'e', 'm', 'p', 'o', 'r', 'a', 'd', 'a'],
        ),
        figures.len() > 0,
        forall|i: int| 0 <= i < figures.len() ==> 48 <= #[trigger] figures[i] as int <= 57,
        text::number(figures) <= u16::MAX,
    ensures
        import::season_of(word + seq![' '] + figures) == Some(text::number(figures) as u16),
        import::season_of(word + figures) == Some(text::number(figures) as u16),
{
    lemma_season_name(word, seq![' '], figures);
    lemma_season_name(word, Seq::empty(), figures);
    assert(word + Seq::<char>::empty() + figures =~= word + figures);
}

proof fn lemma_season_name(word: Seq<char>, gap: Seq<char>, figures: Seq<char>)
    requires
        spelling::reads_as(word, seq!['s', 'e', 'a', 's', 'o', 'n']) || spelling::reads_as(
            word,
            seq!['t', 'e', 'm', 'p', 'o', 'r', 'a', 'd', 'a'],
        ),
        gap == Seq::<char>::empty() || gap == seq![' '],
        figures.len() > 0,
        forall|i: int| 0 <= i < figures.len() ==> 48 <= #[trigger] figures[i] as int <= 57,
        text::number(figures) <= u16::MAX,
    ensures
        import::season_of(word + gap + figures) == Some(text::number(figures) as u16),
{
    reveal_strlit("season");
    reveal_strlit("temporada");
    let season = seq!['s', 'e', 'a', 's', 'o', 'n'];
    let temporada = seq!['t', 'e', 'm', 'p', 'o', 'r', 'a', 'd', 'a'];
    assert("season"@ =~= season);
    assert("temporada"@ =~= temporada);
    spelling::lemma_reads(word, season);
    spelling::lemma_reads(word, temporada);
    let name = word + gap + figures;
    let none = Seq::<char>::empty();
    assert(word[0] as int == 115 || word[0] as int == 83 || word[0] as int == 116 || word[0] as int
        == 84);
    assert(name[0] == word[0]);
    assert(name.last() == figures[figures.len() - 1]);
    text::lemma_trim_tight(name);
    let low = text::lowered(name);
    let head = text::lowered(word);
    let rest = gap + figures;
    assert(low =~= head + rest) by {
        assert forall|i: int| 0 <= i < low.len() implies low[i] == (head + rest)[i] by {
            if i < word.len() {
                assert(name[i] == word[i]);
            } else {
                assert(name[i] == rest[i - word.len()]);
                if i - word.len() >= gap.len() {
                    assert(rest[i - word.len()] == figures[i - word.len() - gap.len()]);
                }
            }
        }
    }
    assert(low.subrange(0, head.len() as int) =~= head);
    assert(low.skip(head.len() as int) =~= rest);
    if head == temporada {
        assert(low[0] == 't');
        if text::has_prefix(low, season) {
            assert(low.subrange(0, 6)[0] == low[0]);
        }
    }
    lemma_space_is_space();
    lemma_plain_is_no_space(figures[0]);
    lemma_plain_is_no_space(figures[figures.len() - 1]);
    assert(spelling::is_spaces(gap));
    spelling::trimming_takes_the_space_around(gap, figures, none);
    assert(gap + figures + none =~= rest);
    assert(text::all_digits(figures));
}

/// A folder whose name starts with neither letter is no season's.
pub proof fn another_folder_is_no_season(name: Seq<char>)
    requires
        name.len() > 0,
        !spelling::is_space(name[0]),
        !spelling::is_space(name.last()),
        name[0] != 's' && name[0] != 'S' && name[0] != 't' && name[0] != 'T',
    ensures
        import::season_of(name) is None,
{
    reveal_strlit("season");
    reveal_strlit("temporada");
    let none = Seq::<char>::empty();
    spelling::trimming_takes_the_space_around(none, name, none);
    assert(none + name + none =~= name);
    let low = text::lowered(name);
    assert(low[0] == text::lower(name[0]));
    if text::has_prefix(low, "season"@) {
        assert(low.subrange(0, 6)[0] == low[0]);
    }
    if text::has_prefix(low, "temporada"@) {
        assert(low.subrange(0, 9)[0] == low[0]);
    }
}

} // verus!
