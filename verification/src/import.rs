//! Moving a finished download into the library.
//!
//! What is decided here: which file of a download is the release, where it
//! lands and under what name, which existing folder is reused, in what order
//! the filesystem is touched, and what each failure means for the grab. A path
//! that cannot be opened is a reason to wait; content that cannot be imported
//! is permanent.

use vstd::prelude::*;

use crate::catalogue::{Episode, LibraryItem, MediaType};
use crate::db::root_folders;
use crate::db::root_folders::RootFolder;
use crate::host_path;
use crate::host_path::{
    below, components, extension_at, file_name_of, join_onto, last_index_of, names_entry,
    parent_text, places_of,
};
use crate::marker;
use crate::marker::title_matches_episode;
use crate::order;
use crate::order::Ranked;
use crate::remote_path;
use crate::remote_path::{is_usable_on, translate_on, AppliedRule, PathMapping};
use crate::text;
use crate::text::{
    chars_of, control, copied, decimal_of, extend, extend_str, lower_all, padded_of, parse_digits,
    same_fold, signed_of, slice, spells, split_on, starts, string_of, trimmed, trimmed_end,
    trimmed_start, trimmed_str,
};

verus! {

/// How often the importer looks for finished downloads, in seconds.
pub const IMPORT_INTERVAL: u64 = 60;

/// Imports attempted per pass.
pub const MAX_IMPORTS_PER_PASS: usize = 3;

/// How a file gets from the download folder into the library.
#[derive(Debug, Clone, Copy, PartialEq, Eq, Structural)]
pub enum ImportMode {
    /// Two names for one set of bytes; falls back to a copy across devices.
    Hardlink,
    /// A second, independent copy.
    Copy,
    /// Moves the bytes and stops the seed.
    Move,
}

impl Default for ImportMode {
    fn default() -> (r: ImportMode)
        ensures
            r == ImportMode::Hardlink,
    {
        ImportMode::Hardlink
    }
}

pub open spec fn mode_label(mode: ImportMode) -> Seq<char> {
    match mode {
        ImportMode::Hardlink => "hardlink"@,
        ImportMode::Copy => "copy"@,
        ImportMode::Move => "move"@,
    }
}

pub open spec fn labelled_mode(s: Seq<char>) -> ImportMode {
    if text::trim(s) == "copy"@ {
        ImportMode::Copy
    } else if text::trim(s) == "move"@ {
        ImportMode::Move
    } else {
        ImportMode::Hardlink
    }
}

impl ImportMode {
    /// Persisted label.
    pub fn label(self) -> (r: &'static str)
        ensures
            r@ == mode_label(self),
    {
        match self {
            ImportMode::Hardlink => "hardlink",
            ImportMode::Copy => "copy",
            ImportMode::Move => "move",
        }
    }

    /// Parse from the persisted label, falling back to the default for
    /// anything unrecognised.
    pub fn from_label(s: &str) -> (r: ImportMode)
        ensures
            r == labelled_mode(s@),
    {
        let t = trimmed_str(s);
        if spells(&t, "copy") {
            ImportMode::Copy
        } else if spells(&t, "move") {
            proof {
                reveal_strlit("copy");
                reveal_strlit("move");
                assert("copy"@[0] != "move"@[0]);
            }
            ImportMode::Move
        } else {
            ImportMode::Hardlink
        }
    }
}

/// The way of filing that is configured.
pub open spec fn is_mode(r: ImportMode, stored: Option<&str>) -> bool {
    r == match stored {
        Some(s) => labelled_mode(s@),
        None => ImportMode::Hardlink,
    }
}

/// The mode an unset or unreadable setting stands for is the default.
pub fn configured_mode(stored: Option<&str>) -> (r: ImportMode)
    ensures
        is_mode(r, stored),
{
    match stored {
        Some(s) => ImportMode::from_label(s),
        None => ImportMode::Hardlink,
    }
}

/// A mode's label reads back as that mode.
pub proof fn the_mode_label_round_trips(mode: ImportMode)
    ensures
        labelled_mode(mode_label(mode)) == mode,
{
    reveal_strlit("hardlink");
    reveal_strlit("copy");
    reveal_strlit("move");
    text::lemma_trim_tight(mode_label(mode));
    assert("copy"@.len() == 4 && "move"@.len() == 4 && "hardlink"@.len() == 8);
    assert("copy"@[0] == 'c' && "move"@[0] == 'm');
}

// ---------------------------------------------------------------------
// Names
// ---------------------------------------------------------------------

/// What follows the word that opens a season folder's name.
pub open spec fn season_rest(lowered: Seq<char>) -> Option<Seq<char>> {
    if text::has_prefix(lowered, "season"@) {
        Some(lowered.skip("season"@.len() as int))
    } else if text::has_prefix(lowered, "temporada"@) {
        Some(lowered.skip("temporada"@.len() as int))
    } else {
        None
    }
}

/// The season a folder name names.
pub open spec fn season_of(name: Seq<char>) -> Option<u16> {
    match season_rest(text::lowered(text::trim(name))) {
        Some(rest) => match text::spelled(text::trim(rest), u16::MAX as nat) {
            Some(n) => Some(n as u16),
            None => None,
        },
        None => None,
    }
}

/// The season a folder name names, in either language; `None` for anything
/// that is not a season folder.
pub fn season_number(name: &str) -> (r: Option<u16>)
    ensures
        r == season_of(name@),
{
    let t = trimmed_str(name);
    let low = lower_all(&t);
    let season = chars_of("season");
    let temporada = chars_of("temporada");
    let rest = if starts(&low, &season) {
        slice(&low, season.len(), low.len())
    } else if starts(&low, &temporada) {
        slice(&low, temporada.len(), low.len())
    } else {
        return None;
    };
    assert(season_rest(low@) == Some(rest@)) by {
        assert(text::has_prefix(low@, "season"@) ==> rest@ =~= low@.skip("season"@.len() as int));
        assert(!text::has_prefix(low@, "season"@) ==> rest@ =~= low@.skip(
            "temporada"@.len() as int,
        ));
    }
    let digits = trimmed(&rest);
    match parse_digits(&digits, u16::MAX as u64) {
        Some(n) => Some(n as u16),
        None => None,
    }
}

/// Where a trailing `(2022)` opens in a name without white space at its
/// end.
pub open spec fn year_opens(t: Seq<char>) -> Option<int> {
    if t.len() == 0 || t.last() != ')' {
        None
    } else {
        match host_path::last_index(t.drop_last(), '(') {
            Some(open) => if t.len() - open == 6 && text::all_digits(
                t.subrange(open + 1, t.len() - 1),
            ) {
                Some(open)
            } else {
                None
            },
            None => None,
        }
    }
}

/// A folder name without its trailing year: four digits in parentheses at
/// the very end.
pub open spec fn without_year(name: Seq<char>) -> Seq<char> {
    let t = text::trim_end(name);
    match year_opens(t) {
        Some(open) => text::trim_end(t.take(open)),
        None => t,
    }
}

proof fn lemma_last_index(s: Seq<char>, c: char)
    ensures
        match host_path::last_index(s, c) {
            Some(i) => 0 <= i < s.len() && s[i] == c,
            None => true,
        },
    decreases s.len(),
{
    if s.len() > 0 && s.last() != c {
        lemma_last_index(s.drop_last(), c);
    }
}

/// A folder name without its trailing ` (2022)`, if it has one.
pub fn strip_year_suffix(name: &[char]) -> (r: Vec<char>)
    ensures
        r@ == without_year(name@),
{
    let t = trimmed_end(name);
    let n: usize = t.len();
    if n == 0 || t[n - 1] != ')' {
        return t;
    }
    let inside = slice(&t, 0, n - 1);
    assert(inside@ =~= t@.drop_last());
    match last_index_of(&inside, '(') {
        Some(open) => {
            if n - open != 6 {
                return t;
            }
            let year = slice(&t, open + 1, n - 1);
            match parse_digits(&year, 9999) {
                Some(_) => {
                    let title = slice(&t, 0, open);
                    assert(title@ =~= t@.take(open as int));
                    trimmed_end(&title)
                },
                None => {
                    proof {
                        if text::all_digits(year@) {
                            lemma_four_digits(year@);
                        }
                    }
                    t
                },
            }
        },
        None => t,
    }
}

proof fn lemma_four_digits(s: Seq<char>)
    requires
        s.len() == 4,
        text::all_digits(s),
    ensures
        text::number(s) <= 9999,
{
    reveal_with_fuel(text::number, 5);
    let s3 = s.drop_last();
    let s2 = s3.drop_last();
    let s1 = s2.drop_last();
    assert(text::is_digit(s[0]) && text::is_digit(s[1]) && text::is_digit(s[2]) && text::is_digit(
        s[3],
    ));
    assert(s1.last() == s[0] && s2.last() == s[1] && s3.last() == s[2] && s.last() == s[3]);
}

/// Whether two folder names differ only by the presence of a year.
pub open spec fn one_title(wanted: Seq<char>, candidate: Seq<char>) -> bool {
    text::eq_fold(candidate, without_year(wanted)) || text::eq_fold(without_year(candidate), wanted)
}

/// Whether two folder names differ only by the presence of a year: one side
/// keeps its suffix and the other must have none.
pub fn names_one_title(wanted: &[char], candidate: &[char]) -> (r: bool)
    ensures
        r == one_title(wanted@, candidate@),
{
    same_fold(candidate, &strip_year_suffix(wanted)) || same_fold(
        &strip_year_suffix(candidate),
        wanted,
    )
}

/// Characters some filesystem refuses in a name.
pub open spec fn is_illegal(c: char) -> bool {
    c == '<' || c == '>' || c == ':' || c == '"' || c == '/' || c == '\\' || c == '|' || c == '?' || c
        == '*'
}

/// A character as a name may carry it.
pub open spec fn cleaned(c: char) -> char {
    if is_illegal(c) || text::is_control(c) {
        ' '
    } else {
        c
    }
}

/// The text cleaned, each run of spaces collapsed to one.
pub open spec fn collapsed(s: Seq<char>) -> Seq<char>
    decreases s.len(),
{
    if s.len() == 0 {
        Seq::empty()
    } else if cleaned(s.last()) == ' ' && s.len() >= 2 && cleaned(s[s.len() - 2]) == ' ' {
        collapsed(s.drop_last())
    } else {
        collapsed(s.drop_last()).push(cleaned(s.last()))
    }
}

/// The text without the dots and spaces at its end.
pub open spec fn without_tail(s: Seq<char>) -> Seq<char>
    decreases s.len(),
{
    if s.len() > 0 && (s.last() == '.' || s.last() == ' ') {
        without_tail(s.drop_last())
    } else {
        s
    }
}

/// The part of a name before its first dot.
pub open spec fn stem(s: Seq<char>) -> Seq<char>
    decreases s.len(),
{
    if s.len() == 0 || s[0] == '.' {
        Seq::empty()
    } else {
        seq![s[0]] + stem(s.drop_first())
    }
}

/// The device names no file may take, lower-cased.
pub open spec fn is_device(s: Seq<char>) -> bool {
    ||| s == seq!['c', 'o', 'n']
    ||| s == seq!['p', 'r', 'n']
    ||| s == seq!['a', 'u', 'x']
    ||| s == seq!['n', 'u', 'l']
    ||| s.len() == 4 && s[0] == 'c' && s[1] == 'o' && s[2] == 'm' && '1' <= s[3] <= '9'
    ||| s.len() == 4 && s[0] == 'l' && s[1] == 'p' && s[2] == 't' && '1' <= s[3] <= '9'
}

pub open spec fn is_reserved(s: Seq<char>) -> bool {
    is_device(text::lowered(stem(s)))
}

/// At most `max` characters, without white space at the cut.
pub open spec fn cut(s: Seq<char>, max: int) -> Seq<char> {
    if s.len() <= max {
        s
    } else {
        text::trim_end(s.take(max))
    }
}

/// A name whose device stem is marked, and a stand-in for no name.
pub open spec fn named(s: Seq<char>) -> Seq<char> {
    if is_reserved(s) {
        seq!['_'] + s
    } else if s.len() == 0 {
        "sem-titulo"@
    } else {
        s
    }
}

/// The longest component a title is given.
pub const MAX_COMPONENT_CHARS: usize = 200;

/// One path component made of a text, safe on every filesystem.
pub open spec fn sanitized(raw: Seq<char>) -> Seq<char> {
    let t = without_tail(text::trim(collapsed(raw)));
    if is_reserved(t) || t.len() == 0 {
        named(t)
    } else {
        named(without_tail(cut(t, MAX_COMPONENT_CHARS as int)))
    }
}

fn illegal(c: char) -> (r: bool)
    ensures
        r == is_illegal(c),
{
    c == '<' || c == '>' || c == ':' || c == '"' || c == '/' || c == '\\' || c == '|' || c == '?' || c
        == '*'
}

fn clean(c: char) -> (r: char)
    ensures
        r == cleaned(c),
{
    if illegal(c) || control(c) {
        ' '
    } else {
        c
    }
}

fn collapse(s: &[char]) -> (r: Vec<char>)
    ensures
        r@ == collapsed(s@),
{
    let mut out: Vec<char> = Vec::new();
    let mut last_was_space: bool = false;
    let mut i: usize = 0;
    while i < s.len()
        invariant
            i <= s.len(),
            out@ == collapsed(s@.take(i as int)),
            last_was_space == (i > 0 && cleaned(s@[i - 1]) == ' '),
        decreases s.len() - i,
    {
        assert(s@.take(i + 1).drop_last() == s@.take(i as int));
        assert(s@.take(i + 1).last() == s@[i as int]);
        assert(i > 0 ==> s@.take(i + 1)[i - 1] == s@[i - 1]);
        let c: char = clean(s[i]);
        if c == ' ' {
            if !last_was_space {
                out.push(c);
            }
            last_was_space = true;
        } else {
            out.push(c);
            last_was_space = false;
        }
        i += 1;
    }
    assert(s@.take(s.len() as int) == s@);
    out
}

fn drop_tail(s: &[char]) -> (r: Vec<char>)
    ensures
        r@ == without_tail(s@),
{
    let mut to: usize = s.len();
    assert(s@.take(to as int) == s@);
    while to > 0 && (s[to - 1] == '.' || s[to - 1] == ' ')
        invariant
            to <= s.len(),
            without_tail(s@) == without_tail(s@.take(to as int)),
        decreases to,
    {
        assert(s@.take(to as int).drop_last() == s@.take(to - 1));
        to -= 1;
    }
    let out = slice(s, 0, to);
    assert(out@ =~= s@.take(to as int));
    out
}

fn stem_of(s: &[char]) -> (r: Vec<char>)
    ensures
        r@ == stem(s@),
{
    let mut out: Vec<char> = Vec::new();
    let mut i: usize = 0;
    assert(s@.skip(0) == s@);
    assert(out@ + stem(s@) =~= stem(s@));
    while i < s.len() && s[i] != '.'
        invariant
            i <= s.len(),
            out@ + stem(s@.skip(i as int)) == stem(s@),
        decreases s.len() - i,
    {
        assert(s@.skip(i as int).drop_first() == s@.skip(i + 1));
        let ghost before = out@;
        out.push(s[i]);
        assert(before + (seq![s@[i as int]] + stem(s@.skip(i + 1))) =~= out@ + stem(
            s@.skip(i + 1),
        ));
        i += 1;
    }
    assert(stem(s@.skip(i as int)) =~= Seq::empty());
    assert(out@ + Seq::<char>::empty() =~= out@);
    out
}

fn device(s: &[char]) -> (r: bool)
    ensures
        r == is_device(s@),
{
    let n: usize = s.len();
    let three = n == 3 && ((s[0] == 'c' && s[1] == 'o' && s[2] == 'n') || (s[0] == 'p' && s[1]
        == 'r' && s[2] == 'n') || (s[0] == 'a' && s[1] == 'u' && s[2] == 'x') || (s[0] == 'n'
        && s[1] == 'u' && s[2] == 'l'));
    let four = n == 4 && ((s[0] == 'c' && s[1] == 'o' && s[2] == 'm') || (s[0] == 'l' && s[1] == 'p'
        && s[2] == 't')) && '1' <= s[3] && s[3] <= '9';
    proof {
        if three {
            if s@[0] == 'c' {
                assert(s@ =~= seq!['c', 'o', 'n']);
            } else if s@[0] == 'p' {
                assert(s@ =~= seq!['p', 'r', 'n']);
            } else if s@[0] == 'a' {
                assert(s@ =~= seq!['a', 'u', 'x']);
            } else {
                assert(s@ =~= seq!['n', 'u', 'l']);
            }
        }
    }
    three || four
}

fn reserved(s: &[char]) -> (r: bool)
    ensures
        r == is_reserved(s@),
{
    device(&lower_all(&stem_of(s)))
}

fn name_of(s: &[char]) -> (r: Vec<char>)
    ensures
        r@ == named(s@),
{
    if reserved(s) {
        let mut out: Vec<char> = Vec::new();
        out.push('_');
        extend(&mut out, s);
        assert(out@ =~= seq!['_'] + s@);
        out
    } else if s.len() == 0 {
        chars_of("sem-titulo")
    } else {
        copied(s)
    }
}

/// At most `max` characters, cut on a character boundary.
pub fn truncate_chars(s: &[char], max: usize) -> (r: Vec<char>)
    ensures
        r@ == cut(s@, max as int),
{
    if s.len() <= max {
        return copied(s);
    }
    let head = slice(s, 0, max);
    assert(head@ =~= s@.take(max as int));
    trimmed_end(&head)
}

fn sanitize_chars(raw: &[char]) -> (r: Vec<char>)
    ensures
        r@ == sanitized(raw@),
{
    let t = drop_tail(&trimmed(&collapse(raw)));
    if reserved(&t) || t.len() == 0 {
        return name_of(&t);
    }
    name_of(&drop_tail(&truncate_chars(&t, MAX_COMPONENT_CHARS)))
}

/// Make one path component safe on every filesystem: no `\/:*?"<>|`, no
/// control characters, no trailing dot or space, and no reserved device name
/// as a whole name.
pub fn sanitize(raw: &str) -> (r: String)
    ensures
        r@ == sanitized(raw@),
{
    string_of(&sanitize_chars(&chars_of(raw)))
}

// ---------------------------------------------------------------------
// Destinations
// ---------------------------------------------------------------------

/// `S01E02`.
pub open spec fn coordinate(season: u16, episode: u16) -> Seq<char> {
    "S"@ + text::padded(season as nat) + "E"@ + text::padded(episode as nat)
}

/// ` (1999)`.
pub open spec fn year_suffix(year: Option<i32>) -> Seq<char> {
    match year {
        Some(y) => " ("@ + text::signed(y as int) + ")"@,
        None => Seq::empty(),
    }
}

/// `room` less `taken`, but not below nothing.
pub open spec fn room_beside(room: int, taken: nat) -> int {
    if taken <= room {
        room - taken
    } else {
        0
    }
}

/// A title that takes no more than `room` characters of a name.
pub open spec fn shortened(title: Seq<char>, room: int) -> Seq<char> {
    let c = text::trim_start(collapsed(title));
    if c.len() <= room {
        title
    } else {
        text::trim_end(c.take(room))
    }
}

/// A title and what has to stand behind it, as one name of at most `max`
/// characters: it is the title that gives way.
pub open spec fn fitted(title: Seq<char>, suffix: Seq<char>, max: int) -> Seq<char> {
    sanitized(shortened(title, room_beside(max, suffix.len())) + suffix)
}

/// The folder a title gets.
pub open spec fn title_folder_name(title: Seq<char>, year: Option<i32>) -> Seq<char> {
    fitted(title, year_suffix(year), MAX_COMPONENT_CHARS as int)
}

/// ` - S01E02.ext`.
pub open spec fn episode_suffix(season: u16, episode: u16, extension: Seq<char>) -> Seq<char> {
    " - "@ + (coordinate(season, episode) + ("."@ + extension))
}

/// The file of a film: named like its folder.
pub open spec fn film_name(
    title: Seq<char>,
    year: Option<i32>,
    extension: Seq<char>,
) -> Seq<char> {
    let suffix = "."@ + extension;
    fitted(
        fitted(title, year_suffix(year), room_beside(MAX_COMPONENT_CHARS as int, suffix.len())),
        suffix,
        MAX_COMPONENT_CHARS as int,
    )
}

/// Where a file lands: `{root}/Title (Year)/Title (Year).ext` for a film,
/// `{root}/Title (Year)/Season 01/Title - S01E02.ext` for an episode. A title
/// that is too long for a name is cut; the year, the coordinate and the
/// extension are not.
pub open spec fn destination_path(
    root: Seq<char>,
    title: Seq<char>,
    year: Option<i32>,
    episode: Option<(u16, u16)>,
    extension: Seq<char>,
    separator: char,
) -> Seq<char> {
    let base = host_path::join_path(root, title_folder_name(title, year), separator);
    match episode {
        Some((season, number)) => host_path::join_path(
            host_path::join_path(base, season_folder_name(season), separator),
            fitted(
                title,
                episode_suffix(season, number, extension),
                MAX_COMPONENT_CHARS as int,
            ),
            separator,
        ),
        None => host_path::join_path(base, film_name(title, year, extension), separator),
    }
}

/// `Season 01`.
pub open spec fn season_folder_name(season: u16) -> Seq<char> {
    "Season "@ + text::padded(season as nat)
}

fn shorten(title: &[char], room: usize) -> (r: Vec<char>)
    ensures
        r@ == shortened(title@, room as int),
{
    let c = trimmed_start(&collapse(title));
    if c.len() <= room {
        return copied(title);
    }
    let head = slice(&c, 0, room);
    assert(head@ =~= c@.take(room as int));
    trimmed_end(&head)
}

fn fit(title: &[char], suffix: &[char], max: usize) -> (r: Vec<char>)
    ensures
        r@ == fitted(title@, suffix@, max as int),
{
    let room: usize = if suffix.len() <= max {
        max - suffix.len()
    } else {
        0
    };
    let mut out = shorten(title, room);
    extend(&mut out, suffix);
    sanitize_chars(&out)
}

fn coordinate_of(season: u16, episode: u16) -> (r: Vec<char>)
    ensures
        r@ == coordinate(season, episode),
{
    let mut out = chars_of("S");
    extend(&mut out, &padded_of(season as u64));
    extend_str(&mut out, "E");
    extend(&mut out, &padded_of(episode as u64));
    out
}

/// Build the destination path on a machine with this separator.
pub fn destination(
    root: &str,
    title: &str,
    year: Option<i32>,
    episode: Option<(u16, u16)>,
    extension: &[char],
    separator: char,
) -> (r: Vec<char>)
    ensures
        r@ == destination_path(root@, title@, year, episode, extension@, separator),
{
    let name = chars_of(title);
    let mut behind: Vec<char> = Vec::new();
    if let Some(y) = year {
        extend_str(&mut behind, " (");
        extend(&mut behind, &signed_of(y));
        extend_str(&mut behind, ")");
    }
    assert(behind@ =~= year_suffix(year));
    let folder = fit(&name, &behind, MAX_COMPONENT_CHARS);
    let base = join_onto(&chars_of(root), &folder, separator);
    let mut dotted = chars_of(".");
    extend(&mut dotted, extension);
    match episode {
        Some((season, number)) => {
            let mut dir = chars_of("Season ");
            extend(&mut dir, &padded_of(season as u64));
            let inside = join_onto(&base, &dir, separator);
            let mut suffix = chars_of(" - ");
            let mut word = coordinate_of(season, number);
            extend(&mut word, &dotted);
            extend(&mut suffix, &word);
            join_onto(&inside, &fit(&name, &suffix, MAX_COMPONENT_CHARS), separator)
        },
        None => {
            let room: usize = if dotted.len() <= MAX_COMPONENT_CHARS {
                MAX_COMPONENT_CHARS - dotted.len()
            } else {
                0
            };
            let near = fit(&name, &behind, room);
            join_onto(&base, &fit(&near, &dotted, MAX_COMPONENT_CHARS), separator)
        },
    }
}

// ---------------------------------------------------------------------
// Picking the video
// ---------------------------------------------------------------------

/// Extensions that are the release itself.
pub open spec fn is_video_extension(e: Seq<char>) -> bool {
    ||| e == "mkv"@
    ||| e == "mp4"@
    ||| e == "avi"@
    ||| e == "m4v"@
    ||| e == "mpg"@
    ||| e == "mpeg"@
    ||| e == "mov"@
    ||| e == "wmv"@
    ||| e == "ts"@
    ||| e == "m2ts"@
    ||| e == "webm"@
}

/// Whether a path's extension, in any case, is a video's.
pub open spec fn video(path: Seq<char>, separator: char) -> bool {
    match host_path::path_extension(path, separator) {
        Some(e) => is_video_extension(text::lowered(e)),
        None => false,
    }
}

/// Whether a path names a video file.
pub fn is_video(path: &str, separator: char) -> (r: bool)
    ensures
        r == video(path@, separator),
{
    match extension_at(path, separator) {
        Some(e) => {
            let low = lower_all(&e);
            spells(&low, "mkv") || spells(&low, "mp4") || spells(&low, "avi") || spells(&low, "m4v")
                || spells(&low, "mpg") || spells(&low, "mpeg") || spells(&low, "mov") || spells(
                &low,
                "wmv",
            ) || spells(&low, "ts") || spells(&low, "m2ts") || spells(&low, "webm")
        },
        None => false,
    }
}

/// What separates the words of a file or folder name.
pub open spec fn token_breaks() -> Set<char> {
    set!['.', '-', '_', ' ', '(', ')', '[', ']']
}

/// Whether one of a name's words is `sample`.
pub open spec fn says_sample(name: Seq<char>) -> bool {
    text::split(text::lowered(name), token_breaks()).contains("sample"@)
}

/// The components of a path below a folder; all of them when it is not
/// there.
pub open spec fn parts_below(path: Seq<char>, base: Seq<char>, separator: char) -> Seq<Seq<char>> {
    if host_path::under(path, base, separator) {
        host_path::parts(path, separator).skip(host_path::parts(base, separator).len() as int)
    } else {
        host_path::parts(path, separator)
    }
}

/// Whether a component below the download folder says `sample`.
pub open spec fn sampled(path: Seq<char>, base: Seq<char>, separator: char) -> bool {
    exists|i: int|
        0 <= i < parts_below(path, base, separator).len() && says_sample(
            #[trigger] parts_below(path, base, separator)[i],
        )
}

fn breaks() -> (r: Vec<char>)
    ensures
        r@.to_set() == token_breaks(),
{
    let mut out: Vec<char> = Vec::new();
    out.push('.');
    out.push('-');
    out.push('_');
    out.push(' ');
    out.push('(');
    out.push(')');
    out.push('[');
    out.push(']');
    assert(out@.to_set() =~= token_breaks()) by {
        assert(out@[0] == '.' && out@[1] == '-' && out@[2] == '_' && out@[3] == ' ' && out@[4]
            == '(' && out@[5] == ')' && out@[6] == '[' && out@[7] == ']');
    }
    out
}

fn name_says_sample(name: &[char]) -> (r: bool)
    ensures
        r == says_sample(name@),
{
    let tokens = split_on(&lower_all(name), &breaks());
    let ghost all = text::chars_views(tokens@);
    let mut i: usize = 0;
    while i < tokens.len()
        invariant
            i <= tokens.len(),
            all == text::chars_views(tokens@),
            all == text::split(text::lowered(name@), token_breaks()),
            forall|j: int| 0 <= j < i ==> all[j] != "sample"@,
        decreases tokens.len() - i,
    {
        assert(all[i as int] == tokens@[i as int]@);
        if spells(&tokens[i], "sample") {
            assert(all[i as int] == "sample"@);
            return true;
        }
        i += 1;
    }
    false
}

/// `sample` as a whole word anywhere below the download folder. An ancestor
/// of that folder does not count, and neither does a longer word.
pub fn looks_like_sample(path: &str, base: &str, separator: char) -> (r: bool)
    ensures
        r == sampled(path@, base@, separator),
{
    let parts = match below(path, base, separator) {
        Some(rest) => rest,
        None => components(&chars_of(path), separator),
    };
    let ghost all = text::chars_views(parts@);
    assert(all == parts_below(path@, base@, separator));
    let mut i: usize = 0;
    while i < parts.len()
        invariant
            i <= parts.len(),
            all == text::chars_views(parts@),
            all == parts_below(path@, base@, separator),
            forall|j: int| 0 <= j < i ==> !says_sample(#[trigger] all[j]),
        decreases parts.len() - i,
    {
        assert(all[i as int] == parts@[i as int]@);
        if name_says_sample(&parts[i]) {
            return true;
        }
        i += 1;
    }
    false
}

/// Whether `r` says that a folder this deep is looked into.
pub open spec fn is_descended(r: bool, depth: u8) -> bool {
    r == (depth < 3)
}

/// Release folders nest a level or two; nothing deeper is walked.
pub fn descends(depth: u8) -> (r: bool)
    ensures
        is_descended(r, depth),
{
    depth < 3
}

/// A file of a download.
#[derive(Debug, Clone)]
pub struct FoundFile {
    pub path: String,
    pub size: u64,
}

/// What looking at a download's path found.
#[derive(Debug, Clone)]
pub enum Seen {
    /// It could not be opened or listed; the text is why.
    NotVisible(String),
    /// It is a file.
    File,
    /// It is neither a file nor a directory.
    Neither,
    /// It is a directory holding these files.
    Folder(Vec<FoundFile>),
}

/// Why no file could be chosen.
#[derive(Debug, Clone)]
pub enum PickError {
    /// The path could not be opened: a reason to wait.
    NotVisible(String),
    /// What is inside cannot be imported: permanent.
    BadContent(String),
}

/// Whether a file is a video that is no sample.
pub open spec fn importable(f: FoundFile, source: Seq<char>, separator: char) -> bool {
    video(f.path@, separator) && !sampled(f.path@, source, separator)
}

/// Whether a file's own name carries the episode.
pub open spec fn names_it(f: FoundFile, episode: (u16, u16), separator: char) -> bool {
    match host_path::file_name(f.path@, separator) {
        Some(name) => marker::names_episode(name, episode.0, episode.1),
        None => false,
    }
}

/// The places of the importable files.
pub open spec fn importables(files: Seq<FoundFile>, source: Seq<char>, separator: char) -> Seq<int>
    decreases files.len(),
{
    if files.len() == 0 {
        Seq::empty()
    } else if importable(files.last(), source, separator) {
        importables(files.drop_last(), source, separator).push(files.len() - 1)
    } else {
        importables(files.drop_last(), source, separator)
    }
}

/// Those of the places whose file names the episode.
pub open spec fn naming(
    files: Seq<FoundFile>,
    places: Seq<int>,
    episode: (u16, u16),
    separator: char,
) -> Seq<int>
    decreases places.len(),
{
    if places.len() == 0 {
        Seq::empty()
    } else if names_it(files[places.last()], episode, separator) {
        naming(files, places.drop_last(), episode, separator).push(places.last())
    } else {
        naming(files, places.drop_last(), episode, separator)
    }
}

/// Whether file `a` is chosen over file `b`: it is larger, or as large and
/// its path comes first.
pub open spec fn chosen_over(a: FoundFile, b: FoundFile, separator: char) -> bool {
    a.size > b.size || (a.size == b.size && host_path::path_less(a.path@, b.path@, separator))
}

/// Whether the place `k` holds the largest file.
pub open spec fn is_largest(
    files: Seq<FoundFile>,
    places: Seq<int>,
    separator: char,
    k: int,
) -> bool {
    &&& 0 <= k < places.len()
    &&& forall|j: int|
        0 <= j < places.len() && j != k ==> {
            let a = files[places[k]];
            let b = files[#[trigger] places[j]];
            !chosen_over(b, a, separator) && (!chosen_over(a, b, separator) ==> k < j)
        }
}

/// What a file is ranked by: its size, then its path.
pub struct Ranking {
    pub size: u64,
    pub parts: Vec<Vec<char>>,
}

impl Ranked for Ranking {
    open spec fn precedes(&self, other: &Self) -> bool {
        self.size > other.size || (self.size == other.size && host_path::parts_less(
            text::chars_views(self.parts@),
            text::chars_views(other.parts@),
        ))
    }

    proof fn ranking_is_consistent(a: &Self, b: &Self, c: &Self) {
        let (x, y, z) = (
            text::chars_views(a.parts@),
            text::chars_views(b.parts@),
            text::chars_views(c.parts@),
        );
        host_path::lemma_parts_less(x, y, x);
        host_path::lemma_parts_less(x, y, z);
        host_path::lemma_parts_less(y, z, x);
        host_path::lemma_parts_less(x, z, y);
        host_path::lemma_parts_less(y, x, z);
    }

    fn comes_before(&self, other: &Self) -> (r: bool) {
        self.size > other.size || (self.size == other.size && host_path::parts_before(
            &self.parts,
            &other.parts,
        ))
    }
}

pub open spec fn found_nothing(source: Seq<char>) -> Seq<char> {
    "nenhum arquivo de vídeo encontrado em "@ + source
}

pub open spec fn found_no_episode(n: nat, source: Seq<char>, episode: (u16, u16)) -> Seq<char> {
    text::decimal(n) + " vídeos em "@ + source + " e nenhum identifica "@ + coordinate(
        episode.0,
        episode.1,
    )
}

/// Whether `r` is the right choice among a folder's files.
pub open spec fn is_choice(
    r: Result<String, PickError>,
    source: Seq<char>,
    files: Seq<FoundFile>,
    episode: Option<(u16, u16)>,
    separator: char,
) -> bool {
    let places = importables(files, source, separator);
    if places.len() == 0 {
        r matches Err(PickError::BadContent(m)) && m@ == found_nothing(source)
    } else if episode is Some && naming(files, places, episode->0, separator).len() == 1 {
        r matches Ok(p) && p@ == files[naming(files, places, episode->0, separator)[0]].path@
    } else if episode is Some && naming(files, places, episode->0, separator).len() == 0
        && places.len() > 1 {
        r matches Err(PickError::BadContent(m)) && m@ == found_no_episode(
            places.len(),
            source,
            episode->0,
        )
    } else {
        exists|k: int|
            #[trigger] is_largest(files, places, separator, k) && (r matches Ok(p) && p@
                == files[places[k]].path@)
    }
}

/// Whether `r` is what is picked from a download that looks so.
pub open spec fn is_pick(
    r: Result<String, PickError>,
    source: Seq<char>,
    seen: Seen,
    episode: Option<(u16, u16)>,
    separator: char,
) -> bool {
    match seen {
        Seen::NotVisible(why) => r matches Err(PickError::NotVisible(m)) && m == why,
        Seen::File => if video(source, separator) {
            r matches Ok(p) && p@ == source
        } else {
            r matches Err(PickError::BadContent(m)) && m@ == source + " não é um arquivo de vídeo"@
        },
        Seen::Neither => r matches Err(PickError::BadContent(m)) && m@ == source
            + " não é nem arquivo nem diretório"@,
        Seen::Folder(files) => is_choice(r, source, files@, episode, separator),
    }
}

pub proof fn lemma_importables(files: Seq<FoundFile>, source: Seq<char>, separator: char)
    ensures
        forall|i: int|
            0 <= i < importables(files, source, separator).len() ==> 0 <= #[trigger] importables(
                files,
                source,
                separator,
            )[i] < files.len(),
    decreases files.len(),
{
    if files.len() > 0 {
        lemma_importables(files.drop_last(), source, separator);
        let kept = importables(files.drop_last(), source, separator);
        assert forall|i: int| 0 <= i < importables(files, source, separator).len() implies 0
            <= #[trigger] importables(files, source, separator)[i] < files.len() by {
            if i < kept.len() {
                assert(importables(files, source, separator)[i] == kept[i]);
            }
        }
    }
}

pub open spec fn as_places(v: Seq<usize>) -> Seq<int> {
    v.map_values(|i: usize| i as int)
}

fn importable_places(source: &str, files: &[FoundFile], separator: char) -> (r: Vec<usize>)
    ensures
        as_places(r@) == importables(files@, source@, separator),
{
    let mut out: Vec<usize> = Vec::new();
    let mut i: usize = 0;
    while i < files.len()
        invariant
            i <= files.len(),
            as_places(out@) == importables(files@.take(i as int), source@, separator),
        decreases files.len() - i,
    {
        let ghost before = as_places(out@);
        assert(files@.take(i + 1).drop_last() == files@.take(i as int));
        assert(files@.take(i + 1).last() == files@[i as int]);
        let path = files[i].path.as_str();
        if is_video(path, separator) && !looks_like_sample(path, source, separator) {
            out.push(i);
            assert(as_places(out@) =~= before.push(i as int));
        }
        i += 1;
    }
    assert(files@.take(files.len() as int) == files@);
    out
}

fn file_names_it(f: &FoundFile, season: u16, number: u16, separator: char) -> (r: bool)
    ensures
        r == names_it(*f, (season, number), separator),
{
    match file_name_of(f.path.as_str(), separator) {
        Some(name) => title_matches_episode(string_of(&name).as_str(), season, number),
        None => false,
    }
}

fn naming_places(
    files: &[FoundFile],
    places: &[usize],
    season: u16,
    number: u16,
    separator: char,
) -> (r: Vec<usize>)
    requires
        forall|i: int| 0 <= i < places@.len() ==> #[trigger] places@[i] < files@.len(),
    ensures
        as_places(r@) == naming(files@, as_places(places@), (season, number), separator),
        forall|i: int| 0 <= i < r@.len() ==> #[trigger] r@[i] < files@.len(),
{
    let ghost all = as_places(places@);
    let mut out: Vec<usize> = Vec::new();
    let mut i: usize = 0;
    while i < places.len()
        invariant
            i <= places.len(),
            all == as_places(places@),
            forall|j: int| 0 <= j < places@.len() ==> #[trigger] places@[j] < files@.len(),
            forall|j: int| 0 <= j < out@.len() ==> #[trigger] out@[j] < files@.len(),
            as_places(out@) == naming(files@, all.take(i as int), (season, number), separator),
        decreases places.len() - i,
    {
        let ghost before = as_places(out@);
        assert(all.take(i + 1).drop_last() == all.take(i as int));
        assert(all.take(i + 1).last() == all[i as int]);
        let at: usize = places[i];
        if file_names_it(&files[at], season, number, separator) {
            out.push(at);
            assert(as_places(out@) =~= before.push(at as int));
        }
        i += 1;
    }
    assert(all.take(places.len() as int) == all);
    out
}

fn largest_place(files: &[FoundFile], places: &[usize], separator: char) -> (r: usize)
    requires
        places.len() > 0,
        forall|i: int| 0 <= i < places@.len() ==> #[trigger] places@[i] < files@.len(),
    ensures
        is_largest(files@, as_places(places@), separator, r as int),
{
    let ghost all = as_places(places@);
    let mut ranks: Vec<Ranking> = Vec::new();
    let mut i: usize = 0;
    while i < places.len()
        invariant
            i <= places.len(),
            all == as_places(places@),
            forall|j: int| 0 <= j < places@.len() ==> #[trigger] places@[j] < files@.len(),
            ranks@.len() == i,
            forall|j: int|
                0 <= j < i ==> (#[trigger] ranks@[j]).size == files@[all[j]].size
                    && text::chars_views(ranks@[j].parts@) == host_path::places(
                    files@[all[j]].path@,
                    separator,
                ),
        decreases places.len() - i,
    {
        let f = &files[places[i]];
        assert(all[i as int] == places@[i as int]);
        ranks.push(
            Ranking {
                size: f.size,
                parts: places_of(&chars_of(f.path.as_str()), separator),
            },
        );
        i += 1;
    }
    let k: usize = order::first(&ranks);
    proof {
        assert forall|j: int| 0 <= j < all.len() && j != k implies {
            let a = files@[all[k as int]];
            let b = files@[#[trigger] all[j]];
            !chosen_over(b, a, separator) && (!chosen_over(a, b, separator) ==> k < j)
        } by {
            assert(order::in_order(ranks@, k as int, j));
        }
    }
    k
}

/// The release's video file inside a finished download: the file itself, or
/// the largest video of a folder that is not a sample. For an episode, one
/// file that names it wins, and several videos of which none does are
/// refused rather than guessed at.
pub fn pick_video(
    source: &str,
    seen: Seen,
    episode: Option<(u16, u16)>,
    separator: char,
) -> (r: Result<String, PickError>)
    ensures
        is_pick(r, source@, seen, episode, separator),
{
    let files = match seen {
        Seen::NotVisible(why) => {
            return Err(PickError::NotVisible(why));
        },
        Seen::File => {
            if is_video(source, separator) {
                return Ok(source.to_owned());
            }
            let mut out = chars_of(source);
            extend_str(&mut out, " não é um arquivo de vídeo");
            return Err(PickError::BadContent(string_of(&out)));
        },
        Seen::Neither => {
            let mut out = chars_of(source);
            extend_str(&mut out, " não é nem arquivo nem diretório");
            return Err(PickError::BadContent(string_of(&out)));
        },
        Seen::Folder(files) => files,
    };
    let places = importable_places(source, &files, separator);
    let ghost all = as_places(places@);
    proof {
        lemma_importables(files@, source@, separator);
        assert forall|i: int| 0 <= i < places@.len() implies #[trigger] places@[i] < files@.len() by {
            assert(all[i] == places@[i]);
        }
        assert(all.len() == places@.len());
    }
    if places.len() == 0 {
        let mut out = chars_of("nenhum arquivo de vídeo encontrado em ");
        extend_str(&mut out, source);
        return Err(PickError::BadContent(string_of(&out)));
    }
    if let Some((season, number)) = episode {
        let named = naming_places(&files, &places, season, number, separator);
        assert(as_places(named@).len() == named@.len());
        if named.len() == 1 {
            assert(as_places(named@)[0] == named@[0]);
            return Ok(files[named[0]].path.clone());
        }
        if named.len() == 0 && places.len() > 1 {
            let mut out = decimal_of(places.len() as u64);
            extend_str(&mut out, " vídeos em ");
            extend_str(&mut out, source);
            extend_str(&mut out, " e nenhum identifica ");
            extend(&mut out, &coordinate_of(season, number));
            return Err(PickError::BadContent(string_of(&out)));
        }
    }
    let k: usize = largest_place(&files, &places, separator);
    assert(all[k as int] == places@[k as int]);
    assert(is_largest(files@, all, separator, k as int));
    Ok(files[places[k]].path.clone())
}

// ---------------------------------------------------------------------
// Reusing what is there
// ---------------------------------------------------------------------

/// The names that are this title up to the presence of a year.
pub open spec fn title_matches(wanted: Seq<char>, dirs: Seq<String>) -> Seq<Seq<char>>
    decreases dirs.len(),
{
    if dirs.len() == 0 {
        Seq::empty()
    } else if one_title(wanted, dirs.last()@) {
        title_matches(wanted, dirs.drop_last()).push(dirs.last()@)
    } else {
        title_matches(wanted, dirs.drop_last())
    }
}

/// A destination with the title's folder swapped for the one folder on disk
/// that differs by a year alone; the destination itself when its own folder
/// exists, when nothing matches, and when more than one does.
pub open spec fn item_folder_swapped(
    root: Seq<char>,
    path: Seq<char>,
    wanted_exists: bool,
    dirs: Seq<String>,
    separator: char,
) -> Seq<char> {
    let rest = host_path::parts(path, separator).skip(
        host_path::parts(root, separator).len() as int,
    );
    if !host_path::under(path, root, separator) || rest.len() == 0 || !host_path::is_name(rest[0])
        || wanted_exists || title_matches(rest[0], dirs).len() != 1 {
        path
    } else {
        host_path::join_path(
            host_path::join_path(root, title_matches(rest[0], dirs)[0], separator),
            text::join(rest.skip(1), seq![separator]),
            separator,
        )
    }
}

/// Swap in the title's folder that is already there. `wanted_exists` says
/// whether the destination's own folder is on disk, `dirs` are the folders
/// of the root.
pub fn reuse_existing_item_folder(
    root: &str,
    path: &str,
    wanted_exists: bool,
    dirs: &[String],
    separator: char,
) -> (r: String)
    ensures
        r@ == item_folder_swapped(root@, path@, wanted_exists, dirs@, separator),
{
    let rest = match below(path, root, separator) {
        Some(rest) => rest,
        None => {
            return path.to_owned();
        },
    };
    let ghost parts = text::chars_views(rest@);
    assert(parts.len() == rest.len());
    if rest.len() == 0 {
        return path.to_owned();
    }
    assert(parts[0] == rest@[0]@);
    if !names_entry(&rest[0]) || wanted_exists {
        return path.to_owned();
    }
    let mut found: Vec<Vec<char>> = Vec::new();
    let mut i: usize = 0;
    while i < dirs.len()
        invariant
            i <= dirs.len(),
            rest.len() > 0,
            text::chars_views(found@) == title_matches(rest@[0]@, dirs@.take(i as int)),
        decreases dirs.len() - i,
    {
        let ghost before = text::chars_views(found@);
        assert(dirs@.take(i + 1).drop_last() == dirs@.take(i as int));
        assert(dirs@.take(i + 1).last() == dirs@[i as int]);
        let name = chars_of(dirs[i].as_str());
        if names_one_title(&rest[0], &name) {
            found.push(name);
            assert(text::chars_views(found@) =~= before.push(dirs@[i as int]@));
        }
        i += 1;
    }
    assert(dirs@.take(dirs.len() as int) == dirs@);
    let ghost names = text::chars_views(found@);
    assert(names.len() == found.len());
    if found.len() != 1 {
        return path.to_owned();
    }
    assert(names[0] == found@[0]@);
    let mut tail: Vec<Vec<char>> = Vec::new();
    let mut j: usize = 1;
    while j < rest.len()
        invariant
            1 <= j <= rest.len(),
            parts == text::chars_views(rest@),
            text::chars_views(tail@) == parts.subrange(1, j as int),
        decreases rest.len() - j,
    {
        let ghost before = text::chars_views(tail@);
        tail.push(copied(&rest[j]));
        assert(text::chars_views(tail@) =~= before.push(parts[j as int]));
        assert(parts.subrange(1, j + 1) =~= before.push(parts[j as int]));
        j += 1;
    }
    assert(parts.subrange(1, rest.len() as int) =~= parts.skip(1));
    let mut sep: Vec<char> = Vec::new();
    sep.push(separator);
    assert(sep@ =~= seq![separator]);
    let folder = join_onto(&chars_of(root), &found[0], separator);
    let whole = join_onto(&folder, &text::joined(&tail, &sep), separator);
    string_of(&whole)
}

/// Whether the folder at `i` is the first that names the season in another
/// spelling.
pub open spec fn first_season(dirs: Seq<String>, own: Seq<char>, season: u16, i: int) -> bool {
    &&& 0 <= i < dirs.len()
    &&& dirs[i]@ != own
    &&& season_of(dirs[i]@) == Some(season)
    &&& forall|j: int|
        0 <= j < i ==> (#[trigger] dirs[j])@ == own || season_of(dirs[j]@) != Some(season)
}

pub open spec fn no_season(dirs: Seq<String>, own: Seq<char>, season: u16) -> bool {
    forall|j: int|
        0 <= j < dirs.len() ==> (#[trigger] dirs[j])@ == own || season_of(dirs[j]@) != Some(season)
}

/// Whether a path's last but one component names a season.
pub open spec fn has_season(path: Seq<char>, separator: char) -> bool {
    let p = host_path::parts(path, separator);
    p.len() >= 2 && host_path::is_name(p.last()) && host_path::is_name(p[p.len() - 2]) && season_of(
        p[p.len() - 2],
    ) is Some
}

/// Whether `item` is the folder two levels above a path, as the path spells
/// it.
pub open spec fn holds_seasons(item: Seq<char>, path: Seq<char>, separator: char) -> bool {
    exists|season: Seq<char>|
        #[trigger] host_path::is_parent(season, path, separator) && host_path::is_parent(
            item,
            season,
            separator,
        )
}

/// Whether `r` is the path with another season folder in place of its own.
pub open spec fn is_season_swapped(
    r: Seq<char>,
    path: Seq<char>,
    dir: Seq<char>,
    separator: char,
) -> bool {
    exists|item: Seq<char>|
        #[trigger] holds_seasons(item, path, separator) && r == host_path::join_path(
            host_path::join_path(item, dir, separator),
            host_path::parts(path, separator).last(),
            separator,
        )
}

/// Whether `r` is the path with the season folder that is there already:
/// the first that names the same season in another spelling, and the path
/// itself when there is none or it has no season.
pub open spec fn is_season_reused(
    r: Seq<char>,
    path: Seq<char>,
    dirs: Seq<String>,
    separator: char,
) -> bool {
    let p = host_path::parts(path, separator);
    let own = p[p.len() - 2];
    if has_season(path, separator) && !no_season(dirs, own, season_of(own)->0) {
        exists|i: int|
            #[trigger] first_season(dirs, own, season_of(own)->0, i) && is_season_swapped(
                r,
                path,
                dirs[i]@,
                separator,
            )
    } else {
        r == path
    }
}

/// Swap in the season folder that is already there, when its name only
/// differs in spelling. `dirs` are the folders of the title's folder. It only
/// ever puts a folder that exists and names the same number in place of the
/// destination's own.
pub fn reuse_existing_season_folder(path: &str, dirs: &[String], separator: char) -> (r: String)
    ensures
        is_season_reused(r@, path@, dirs@, separator),
{
    let parts = components(&chars_of(path), separator);
    let ghost p = text::chars_views(parts@);
    let n: usize = parts.len();
    assert(p.len() == n);
    if n < 2 {
        return path.to_owned();
    }
    assert(p.last() == parts@[n - 1]@ && p[n - 2] == parts@[n - 2]@);
    if !names_entry(&parts[n - 1]) || !names_entry(&parts[n - 2]) {
        return path.to_owned();
    }
    let own = string_of(&parts[n - 2]);
    let season: u16 = match season_number(own.as_str()) {
        Some(s) => s,
        None => {
            return path.to_owned();
        },
    };
    let mut i: usize = 0;
    while i < dirs.len()
        invariant
            i <= dirs.len(),
            n >= 2,
            n == parts.len(),
            p == text::chars_views(parts@),
            p == host_path::parts(path@, separator),
            own@ == p[n - 2],
            has_season(path@, separator),
            season_of(own@) == Some(season),
            forall|j: int|
                0 <= j < i ==> (#[trigger] dirs@[j])@ == own@ || season_of(dirs@[j]@) != Some(
                    season,
                ),
        decreases dirs.len() - i,
    {
        if dirs[i] != own {
            let here = season_number(dirs[i].as_str());
            if here == Some(season) {
                assert(first_season(dirs@, own@, season, i as int));
                let inside = parent_text(&chars_of(path), separator);
                let item = parent_text(&inside, separator);
                assert(holds_seasons(item@, path@, separator)) by {
                    assert(host_path::is_parent(inside@, path@, separator));
                }
                let folder = join_onto(&item, &chars_of(dirs[i].as_str()), separator);
                assert(p.last() == parts@[n - 1]@);
                let whole = join_onto(&folder, &parts[n - 1], separator);
                assert(is_season_swapped(whole@, path@, dirs@[i as int]@, separator));
                return string_of(&whole);
            }
        }
        i += 1;
    }
    path.to_owned()
}

// ---------------------------------------------------------------------
// Placing
// ---------------------------------------------------------------------

/// One thing done to the filesystem while placing a file.
#[derive(Debug, Clone, Copy, PartialEq, Eq, Structural)]
pub enum PlaceStep {
    /// Create the destination's folder.
    MakeFolder,
    /// Look whether something is at the destination.
    Look,
    /// Hardlink the source to the destination.
    Link,
    /// Copy the source into a new file, undone if it fails part-way.
    Copy,
    /// Rename the source to the destination.
    Rename,
    /// Remove the source.
    RemoveSource,
}

/// What came of a step.
#[derive(Debug, Clone)]
pub enum StepResult {
    /// It was done; looking found nothing.
    Done,
    /// Looking found a file.
    Occupied,
    /// It failed; the text is why.
    Failed(String),
}

/// What follows a step.
#[derive(Debug, Clone)]
pub enum PlaceNext {
    /// Do this next.
    Step(PlaceStep),
    /// The file is placed, in the way that worked.
    Placed(ImportMode),
    /// It could not be placed.
    Refused(String),
}

/// Whether a step writes to the destination.
pub open spec fn writes(step: PlaceStep) -> bool {
    step == PlaceStep::Link || step == PlaceStep::Copy || step == PlaceStep::Rename
}

/// The first way of placing a file under a mode.
pub open spec fn first_way(mode: ImportMode) -> PlaceStep {
    match mode {
        ImportMode::Hardlink => PlaceStep::Link,
        ImportMode::Copy => PlaceStep::Copy,
        ImportMode::Move => PlaceStep::Rename,
    }
}

/// Whether `next` refuses with exactly this text.
pub open spec fn refuses(next: PlaceNext, why: Seq<char>) -> bool {
    next matches PlaceNext::Refused(m) && m@ == why
}

/// What has to follow a step: the folder, then a look, then the mode's own
/// way. A link or a rename that fails is a copy instead, and a moved file's
/// source goes last.
pub open spec fn follows(
    mode: ImportMode,
    step: PlaceStep,
    result: StepResult,
    destination: Seq<char>,
    parent: Seq<char>,
    next: PlaceNext,
) -> bool {
    match step {
        PlaceStep::MakeFolder => match result {
            StepResult::Failed(why) => refuses(
                next,
                "não consegui criar "@ + parent + ": "@ + why@,
            ),
            _ => next == PlaceNext::Step(PlaceStep::Look),
        },
        PlaceStep::Look => match result {
            StepResult::Done => next == PlaceNext::Step(first_way(mode)),
            _ => refuses(
                next,
                destination + " já existe — o brarr não sobrescreve arquivo nenhum"@,
            ),
        },
        PlaceStep::Link => match result {
            StepResult::Done => next == PlaceNext::Placed(ImportMode::Hardlink),
            _ => next == PlaceNext::Step(PlaceStep::Copy),
        },
        PlaceStep::Rename => match result {
            StepResult::Done => next == PlaceNext::Placed(ImportMode::Move),
            _ => next == PlaceNext::Step(PlaceStep::Copy),
        },
        PlaceStep::Copy => match result {
            StepResult::Failed(why) => refuses(next, why@),
            _ => if mode == ImportMode::Move {
                next == PlaceNext::Step(PlaceStep::RemoveSource)
            } else {
                next == PlaceNext::Placed(ImportMode::Copy)
            },
        },
        PlaceStep::RemoveSource => match result {
            StepResult::Failed(why) => refuses(
                next,
                "copiei para "@ + destination + " mas não consegui remover o original: "@ + why@,
            ),
            _ => next == PlaceNext::Placed(ImportMode::Move),
        },
    }
}

/// The step placing starts with.
pub open spec fn is_place_start(r: PlaceStep, has_parent: bool) -> bool {
    r == if has_parent {
        PlaceStep::MakeFolder
    } else {
        PlaceStep::Look
    }
}

/// The step a placement starts with.
pub fn place_start(has_parent: bool) -> (r: PlaceStep)
    ensures
        is_place_start(r, has_parent),
{
    if has_parent {
        PlaceStep::MakeFolder
    } else {
        PlaceStep::Look
    }
}

/// Where a copy into a new file failed.
#[derive(Debug, Clone, Copy, PartialEq, Eq, Structural)]
pub enum CopyStage {
    /// The source could not be opened.
    Open,
    /// The destination could not be created.
    Create,
    /// The bytes did not all arrive, and what did was removed again.
    Write,
}

/// The sentence of a failed copy.
pub open spec fn copy_text(
    stage: CopyStage,
    source: Seq<char>,
    destination: Seq<char>,
    why: Seq<char>,
) -> Seq<char> {
    match stage {
        CopyStage::Open => "não consegui abrir "@ + source + ": "@ + why,
        CopyStage::Create => "não consegui criar "@ + destination + ": "@ + why,
        CopyStage::Write => "cópia para "@ + destination + " falhou e foi desfeita: "@ + why,
    }
}

/// The sentence of a failed copy.
pub fn copy_failed(stage: CopyStage, source: &str, destination: &str, why: &str) -> (r: String)
    ensures
        r@ == copy_text(stage, source@, destination@, why@),
{
    let mut out = match stage {
        CopyStage::Open => chars_of("não consegui abrir "),
        CopyStage::Create => chars_of("não consegui criar "),
        CopyStage::Write => chars_of("cópia para "),
    };
    match stage {
        CopyStage::Open => {
            extend_str(&mut out, source);
            extend_str(&mut out, ": ");
        },
        CopyStage::Create => {
            extend_str(&mut out, destination);
            extend_str(&mut out, ": ");
        },
        CopyStage::Write => {
            extend_str(&mut out, destination);
            extend_str(&mut out, " falhou e foi desfeita: ");
        },
    }
    extend_str(&mut out, why);
    string_of(&out)
}

/// What follows a step of putting a file at its destination. Nothing is
/// ever overwritten.
pub fn place(
    mode: ImportMode,
    step: PlaceStep,
    result: StepResult,
    destination: &str,
    parent: &str,
) -> (r: PlaceNext)
    ensures
        follows(mode, step, result, destination@, parent@, r),
{
    match step {
        PlaceStep::MakeFolder => match result {
            StepResult::Failed(why) => {
                let mut out = chars_of("não consegui criar ");
                extend_str(&mut out, parent);
                extend_str(&mut out, ": ");
                extend_str(&mut out, why.as_str());
                PlaceNext::Refused(string_of(&out))
            },
            _ => PlaceNext::Step(PlaceStep::Look),
        },
        PlaceStep::Look => match result {
            StepResult::Done => PlaceNext::Step(
                match mode {
                    ImportMode::Hardlink => PlaceStep::Link,
                    ImportMode::Copy => PlaceStep::Copy,
                    ImportMode::Move => PlaceStep::Rename,
                },
            ),
            _ => {
                let mut out = chars_of(destination);
                extend_str(&mut out, " já existe — o brarr não sobrescreve arquivo nenhum");
                PlaceNext::Refused(string_of(&out))
            },
        },
        PlaceStep::Link => match result {
            StepResult::Done => PlaceNext::Placed(ImportMode::Hardlink),
            _ => PlaceNext::Step(PlaceStep::Copy),
        },
        PlaceStep::Rename => match result {
            StepResult::Done => PlaceNext::Placed(ImportMode::Move),
            _ => PlaceNext::Step(PlaceStep::Copy),
        },
        PlaceStep::Copy => match result {
            StepResult::Failed(why) => PlaceNext::Refused(why),
            _ => if mode == ImportMode::Move {
                PlaceNext::Step(PlaceStep::RemoveSource)
            } else {
                PlaceNext::Placed(ImportMode::Copy)
            },
        },
        PlaceStep::RemoveSource => match result {
            StepResult::Failed(why) => {
                let mut out = chars_of("copiei para ");
                extend_str(&mut out, destination);
                extend_str(&mut out, " mas não consegui remover o original: ");
                extend_str(&mut out, why.as_str());
                PlaceNext::Refused(string_of(&out))
            },
            _ => PlaceNext::Placed(ImportMode::Move),
        },
    }
}

/// A file is never overwritten: the first write comes only after a look
/// found nothing there, and a later one only after a write that failed.
pub proof fn nothing_is_overwritten(
    mode: ImportMode,
    step: PlaceStep,
    result: StepResult,
    destination: Seq<char>,
    parent: Seq<char>,
    write: PlaceStep,
)
    requires
        follows(mode, step, result, destination, parent, PlaceNext::Step(write)),
        writes(write),
    ensures
        step == PlaceStep::Look && result is Done || writes(step) && !(result is Done),
{
}

/// The source is only removed once its bytes are at the destination, and
/// only under the mode that moves.
pub proof fn the_source_outlives_its_copy(
    mode: ImportMode,
    step: PlaceStep,
    result: StepResult,
    destination: Seq<char>,
    parent: Seq<char>,
)
    requires
        follows(
            mode,
            step,
            result,
            destination,
            parent,
            PlaceNext::Step(PlaceStep::RemoveSource),
        ),
    ensures
        mode == ImportMode::Move,
        step == PlaceStep::Copy,
        !(result is Failed),
{
}

// ---------------------------------------------------------------------
// Outcomes
// ---------------------------------------------------------------------

/// What one import attempt did.
#[derive(Debug, Clone)]
pub enum ImportOutcome {
    /// The file is in the library.
    Imported {
        /// Where it landed.
        path: String,
        /// How it got there.
        mode: ImportMode,
    },
    /// A file was already at the destination, so the coordinate is covered.
    AlreadyPresent {
        /// The file that was already there.
        path: String,
    },
    /// Could not import yet; the next pass retries.
    Waiting(String),
    /// Will never work.
    Permanent(String),
}

/// How the file system answered for a planned destination.
#[derive(Debug)]
pub enum Placing {
    /// No file could be chosen.
    NoVideo(PickError),
    /// Something is already at the destination.
    Occupied(String),
    /// The steps ran, and ended so.
    Ran(String, Result<ImportMode, String>),
}

/// What placing a download comes to.
pub open spec fn is_placed(r: ImportOutcome, source: &str, placing: Placing) -> bool {
    match placing {
        Placing::NoVideo(PickError::NotVisible(why)) => r matches ImportOutcome::Waiting(m)
            && m@ == "não consegui abrir "@ + source@ + ": "@ + why@,
        Placing::NoVideo(PickError::BadContent(why)) => r matches ImportOutcome::Permanent(m)
            && m == why,
        Placing::Occupied(path) => r == (ImportOutcome::AlreadyPresent { path }),
        Placing::Ran(path, Ok(mode)) => r == (ImportOutcome::Imported { path, mode }),
        Placing::Ran(_, Err(why)) => r matches ImportOutcome::Permanent(m) && m == why,
    }
}

/// What a placement comes to: a path that cannot be opened waits, content
/// that cannot be imported and a refused placement are permanent, and a
/// destination that is taken is adopted.
pub fn place_download(source: &str, placing: Placing) -> (r: ImportOutcome)
    ensures
        is_placed(r, source, placing),
{
    match placing {
        Placing::NoVideo(e) => match e {
            PickError::NotVisible(why) => {
                let mut out = chars_of("não consegui abrir ");
                extend_str(&mut out, source);
                extend_str(&mut out, ": ");
                extend_str(&mut out, why.as_str());
                ImportOutcome::Waiting(string_of(&out))
            },
            PickError::BadContent(why) => ImportOutcome::Permanent(why),
        },
        Placing::Occupied(path) => ImportOutcome::AlreadyPresent { path },
        Placing::Ran(path, ended) => match ended {
            Ok(mode) => ImportOutcome::Imported { path, mode },
            Err(why) => ImportOutcome::Permanent(why),
        },
    }
}

/// The extension a file keeps: its own in lower case, `mkv` without one.
pub open spec fn extension_kept(video: Seq<char>, separator: char) -> Seq<char> {
    match host_path::path_extension(video, separator) {
        Some(e) => text::lowered(e),
        None => "mkv"@,
    }
}

/// The extension a file keeps.
pub fn kept_extension(video: &str, separator: char) -> (r: Vec<char>)
    ensures
        r@ == extension_kept(video@, separator),
{
    match extension_at(video, separator) {
        Some(e) => lower_all(&e),
        None => chars_of("mkv"),
    }
}

/// Where a plan puts a file, before what is on disk is looked at.
pub open spec fn planned_path(plan: Placement, video: Seq<char>, separator: char) -> Seq<char> {
    destination_path(
        plan.root@,
        plan.title@,
        plan.year,
        plan.episode,
        extension_kept(video, separator),
        separator,
    )
}

/// Where a plan puts a file, before what is on disk is looked at.
pub fn wanted_path(plan: &Placement, video: &str, separator: char) -> (r: String)
    ensures
        r@ == planned_path(*plan, video@, separator),
{
    let extension = kept_extension(video, separator);
    let path = destination(
        plan.root.as_str(),
        plan.title.as_str(),
        plan.year,
        plan.episode,
        &extension,
        separator,
    );
    string_of(&path)
}

/// The planned path with the title's folder that is there already.
pub open spec fn title_reused(
    plan: Placement,
    video: Seq<char>,
    wanted_exists: bool,
    in_root: Seq<String>,
    separator: char,
) -> Seq<char> {
    item_folder_swapped(
        plan.root@,
        planned_path(plan, video, separator),
        wanted_exists,
        in_root,
        separator,
    )
}

/// Where a plan puts a file: the planned path, first with the title's folder
/// that is there already, then with the season's folder that is there
/// already. `wanted_exists` says whether the title's planned folder is on
/// disk, `in_root` are the folders of the root, `in_title` those of the
/// title's folder in use.
pub fn landing_path(
    plan: &Placement,
    video: &str,
    wanted_exists: bool,
    in_root: &[String],
    in_title: &[String],
    separator: char,
) -> (r: String)
    ensures
        is_season_reused(
            r@,
            title_reused(*plan, video@, wanted_exists, in_root@, separator),
            in_title@,
            separator,
        ),
{
    let wanted = wanted_path(plan, video, separator);
    let titled = reuse_existing_item_folder(
        plan.root.as_str(),
        wanted.as_str(),
        wanted_exists,
        in_root,
        separator,
    );
    reuse_existing_season_folder(titled.as_str(), in_title, separator)
}

/// What an attempt writes on the grab's row.
#[derive(Debug, Clone)]
pub enum GrabUpdate {
    /// The grab is recorded against this file.
    MarkImported(String),
    /// The grab stays as it is, with the reason it waits.
    SetWaitReason(String),
    /// The grab has failed.
    MarkFailed(String),
}

/// What is written of a grab, given how its import ended.
pub open spec fn is_update(r: GrabUpdate, outcome: ImportOutcome) -> bool {
    match outcome {
        ImportOutcome::Imported { path, .. } => r matches GrabUpdate::MarkImported(p) && p@
            == path@,
        ImportOutcome::AlreadyPresent { path } => r matches GrabUpdate::MarkImported(p) && p@
            == path@,
        ImportOutcome::Waiting(why) => r matches GrabUpdate::SetWaitReason(m) && m@ == why@,
        ImportOutcome::Permanent(why) => r matches GrabUpdate::MarkFailed(m) && m@ == why@,
    }
}

/// What an outcome writes on the grab's row: a placed and an adopted file
/// are recorded alike, waiting keeps the grab with its reason, and only a
/// permanent outcome fails it.
pub fn import_grab(outcome: &ImportOutcome) -> (r: GrabUpdate)
    ensures
        is_update(r, *outcome),
{
    match outcome {
        ImportOutcome::Imported { path, .. } => GrabUpdate::MarkImported(path.clone()),
        ImportOutcome::AlreadyPresent { path } => GrabUpdate::MarkImported(path.clone()),
        ImportOutcome::Waiting(why) => GrabUpdate::SetWaitReason(why.clone()),
        ImportOutcome::Permanent(why) => GrabUpdate::MarkFailed(why.clone()),
    }
}

/// Counts from one pass.
#[derive(Debug, Clone, Copy, PartialEq, Eq, Structural)]
pub struct ImportSummary {
    /// Grabs considered.
    pub considered: usize,
    /// Files placed in the library.
    pub imported: usize,
    /// Grabs whose destination already held a file.
    pub adopted: usize,
    /// Grabs left for the next pass.
    pub waiting: usize,
    /// Grabs marked failed.
    pub failed: usize,
}

impl Default for ImportSummary {
    fn default() -> (r: ImportSummary)
        ensures
            r == (ImportSummary { considered: 0, imported: 0, adopted: 0, waiting: 0, failed: 0 }),
    {
        ImportSummary { considered: 0, imported: 0, adopted: 0, waiting: 0, failed: 0 }
    }
}

/// How many of the outcomes are of one kind.
pub open spec fn tally(outcomes: Seq<ImportOutcome>, kind: int) -> nat
    decreases outcomes.len(),
{
    if outcomes.len() == 0 {
        0
    } else {
        tally(outcomes.drop_last(), kind) + if outcome_kind(outcomes.last()) == kind {
            1nat
        } else {
            0
        }
    }
}

pub open spec fn outcome_kind(o: ImportOutcome) -> int {
    match o {
        ImportOutcome::Imported { .. } => 0,
        ImportOutcome::AlreadyPresent { .. } => 1,
        ImportOutcome::Waiting(_) => 2,
        ImportOutcome::Permanent(_) => 3,
    }
}

/// Whether the counts are those of the outcomes.
pub open spec fn counts(s: ImportSummary, outcomes: Seq<ImportOutcome>) -> bool {
    &&& s.considered == outcomes.len()
    &&& s.imported == tally(outcomes, 0)
    &&& s.adopted == tally(outcomes, 1)
    &&& s.waiting == tally(outcomes, 2)
    &&& s.failed == tally(outcomes, 3)
}

/// How many downloads a pass takes.
pub open spec fn is_pass_size(r: usize, paused: bool, pending: usize) -> bool {
    r == if paused {
        0
    } else if pending <= MAX_IMPORTS_PER_PASS {
        pending
    } else {
        MAX_IMPORTS_PER_PASS
    }
}

/// How many finished downloads a pass takes: none while paused, and never
/// more than the cap.
pub fn pass_size(paused: bool, pending: usize) -> (r: usize)
    ensures
        is_pass_size(r, paused, pending),
{
    if paused {
        0
    } else if pending <= MAX_IMPORTS_PER_PASS {
        pending
    } else {
        MAX_IMPORTS_PER_PASS
    }
}

/// The counts of a pass over its outcomes.
pub fn import_pending(outcomes: &[ImportOutcome]) -> (r: ImportSummary)
    ensures
        counts(r, outcomes@),
        r.imported + r.adopted + r.waiting + r.failed == r.considered,
{
    let mut s = ImportSummary { considered: 0, imported: 0, adopted: 0, waiting: 0, failed: 0 };
    let mut i: usize = 0;
    while i < outcomes.len()
        invariant
            i <= outcomes.len(),
            counts(s, outcomes@.take(i as int)),
            s.imported + s.adopted + s.waiting + s.failed == i,
        decreases outcomes.len() - i,
    {
        assert(outcomes@.take(i + 1).drop_last() == outcomes@.take(i as int));
        assert(outcomes@.take(i + 1).last() == outcomes@[i as int]);
        s.considered = s.considered + 1;
        match &outcomes[i] {
            ImportOutcome::Imported { .. } => {
                s.imported = s.imported + 1;
            },
            ImportOutcome::AlreadyPresent { .. } => {
                s.adopted = s.adopted + 1;
            },
            ImportOutcome::Waiting(_) => {
                s.waiting = s.waiting + 1;
            },
            ImportOutcome::Permanent(_) => {
                s.failed = s.failed + 1;
            },
        }
        i += 1;
    }
    assert(outcomes@.take(outcomes.len() as int) == outcomes@);
    s
}

// ---------------------------------------------------------------------
// Planning
// ---------------------------------------------------------------------

/// Where a download is on this machine, plus what it took to get there.
#[derive(Debug, Clone)]
pub struct Located {
    /// The path to open, already translated.
    pub path: String,
    /// What the client said, verbatim.
    pub reported: String,
    /// Client display name.
    pub client_name: String,
    /// The mapping that fired, if any.
    pub applied: Option<AppliedRule>,
    /// `false` when this machine cannot open the path at all.
    pub usable: bool,
}

/// What asking for a download's place came to.
#[derive(Debug, Clone)]
pub enum ClientReply {
    /// The grab named no client, or no identifier.
    Unnamed,
    /// The client is no longer registered.
    Removed,
    /// The client could not be built or did not answer; the text is why.
    Failed(String),
    /// The client does not know the download.
    Unknown,
    /// The client answered, with the path it saved to if it said so.
    Saved(Option<String>),
}

/// The reason to wait a reply gives; `None` when it names a path.
pub open spec fn wait_reason(reply: ClientReply, client: Seq<char>) -> Option<Seq<char>> {
    match reply {
        ClientReply::Unnamed => Some("o grab não registrou cliente ou identificador"@),
        ClientReply::Removed => Some("o cliente de download foi removido"@),
        ClientReply::Failed(why) => Some(client + ": "@ + why@),
        ClientReply::Unknown => Some(client + " não conhece mais este download"@),
        ClientReply::Saved(path) => match path {
            Some(p) => if p@.len() > 0 {
                None
            } else {
                Some(client + " não informou onde salvou o download"@)
            },
            None => Some(client + " não informou onde salvou o download"@),
        },
    }
}

/// Whether `l` is where a reported path lies on a machine with this
/// separator.
pub open spec fn is_located(
    l: Located,
    rows: Seq<PathMapping>,
    reported: Seq<char>,
    client: Seq<char>,
    separator: char,
) -> bool {
    &&& l.reported@ == reported
    &&& l.client_name@ == client
    &&& exists|t: remote_path::Translation|
        {
            &&& #[trigger] remote_path::translates(rows, reported, separator, t)
            &&& l.path == t.local
            &&& l.applied == t.applied
            &&& l.usable == (t.rooted && (t.applied is Some || remote_path::native(
                t.flavor,
                separator,
            )))
        }
}

/// Where a download lies, or why that is not known.
pub open spec fn is_found(
    r: Result<Located, String>,
    reply: ClientReply,
    client_name: &str,
    mappings: Seq<PathMapping>,
    separator: char,
) -> bool {
    match wait_reason(reply, client_name@) {
        Some(why) => r matches Err(m) && m@ == why,
        None => {
            &&& r is Ok
            &&& reply matches ClientReply::Saved(Some(reported)) && is_located(
                r->Ok_0,
                mappings,
                reported@,
                client_name@,
                separator,
            )
        },
    }
}

/// Translate a client's reply into a place on a machine with this
/// separator, or into the reason to wait. This is the only place a
/// client-supplied path enters the library.
pub fn locate_download(
    reply: ClientReply,
    client_name: &str,
    mappings: &[PathMapping],
    separator: char,
) -> (r: Result<Located, String>)
    ensures
        is_found(r, reply, client_name, mappings@, separator),
{
    let reported = match reply {
        ClientReply::Unnamed => {
            return Err("o grab não registrou cliente ou identificador".to_owned());
        },
        ClientReply::Removed => {
            return Err("o cliente de download foi removido".to_owned());
        },
        ClientReply::Failed(why) => {
            let mut out = chars_of(client_name);
            extend_str(&mut out, ": ");
            extend_str(&mut out, why.as_str());
            return Err(string_of(&out));
        },
        ClientReply::Unknown => {
            let mut out = chars_of(client_name);
            extend_str(&mut out, " não conhece mais este download");
            return Err(string_of(&out));
        },
        ClientReply::Saved(path) => match path {
            Some(p) => {
                if p.as_str().is_empty() {
                    let mut out = chars_of(client_name);
                    extend_str(&mut out, " não informou onde salvou o download");
                    return Err(string_of(&out));
                }
                p
            },
            None => {
                let mut out = chars_of(client_name);
                extend_str(&mut out, " não informou onde salvou o download");
                return Err(string_of(&out));
            },
        },
    };
    let t = translate_on(mappings, reported.as_str(), separator);
    let usable = is_usable_on(&t, separator);
    assert(remote_path::translates(mappings@, reported@, separator, t));
    Ok(
        Located {
            path: t.local,
            reported,
            client_name: client_name.to_owned(),
            applied: t.applied,
            usable,
        },
    )
}

/// Whether a mapping rewrote the path.
#[derive(Debug, Clone, Copy, PartialEq, Eq, Structural)]
pub enum LocateState {
    /// A mapping fired.
    Translated,
    /// The client's path came through untouched.
    Verbatim,
}

/// Whether a path was translated.
pub open spec fn is_locate_state(r: LocateState, located: Located) -> bool {
    r == if located.applied is Some {
        LocateState::Translated
    } else {
        LocateState::Verbatim
    }
}

/// Whether a mapping rewrote the path, for message selection.
pub fn locate_state(located: &Located) -> (r: LocateState)
    ensures
        is_locate_state(r, *located),
{
    if located.applied.is_some() {
        LocateState::Translated
    } else {
        LocateState::Verbatim
    }
}

/// The sentence for a finished download that cannot be seen.
pub open spec fn unreachable_text(l: Located) -> Seq<char> {
    match l.applied {
        Some(rule) => "o mapeamento "@ + rule.remote_prefix@ + " → "@ + rule.local_prefix@
            + " traduziu o caminho de "@ + l.client_name@ + " para "@ + l.path@
            + ", e o brarr não conseguiu abrir. O download está lá — confira se o lado local do mapeamento é o caminho certo dentro do contêiner do brarr."@,
        None => l.client_name@ + " salvou em "@ + l.reported@
            + ", e esse caminho não existe para o brarr. Os dois montam o mesmo disco em lugares diferentes: cadastre um mapeamento de caminho em /download-clients dizendo o que "@
            + l.reported@ + " é para o brarr."@,
    }
}

/// The sentence an operator can act on when a finished download cannot be
/// seen: what the client said, what was looked for, and the mapping that
/// reconciles the two.
pub fn unreachable_path_message(located: &Located) -> (r: String)
    ensures
        r@ == unreachable_text(*located),
{
    match &located.applied {
        Some(rule) => {
            let mut out = chars_of("o mapeamento ");
            extend_str(&mut out, rule.remote_prefix.as_str());
            extend_str(&mut out, " → ");
            extend_str(&mut out, rule.local_prefix.as_str());
            extend_str(&mut out, " traduziu o caminho de ");
            extend_str(&mut out, located.client_name.as_str());
            extend_str(&mut out, " para ");
            extend_str(&mut out, located.path.as_str());
            extend_str(
                &mut out,
                ", e o brarr não conseguiu abrir. O download está lá — confira se o lado local do mapeamento é o caminho certo dentro do contêiner do brarr.",
            );
            string_of(&out)
        },
        None => {
            let mut out = chars_of(located.client_name.as_str());
            extend_str(&mut out, " salvou em ");
            extend_str(&mut out, located.reported.as_str());
            extend_str(
                &mut out,
                ", e esse caminho não existe para o brarr. Os dois montam o mesmo disco em lugares diferentes: cadastre um mapeamento de caminho em /download-clients dizendo o que ",
            );
            extend_str(&mut out, located.reported.as_str());
            extend_str(&mut out, " é para o brarr.");
            string_of(&out)
        },
    }
}

/// The folder the operator pinned an item to, when it names one.
pub open spec fn pinned(item: LibraryItem) -> Option<Seq<char>> {
    match item.root_folder {
        Some(p) => if text::trim(p@).len() > 0 {
            Some(text::trim(p@))
        } else {
            None
        },
        None => None,
    }
}

/// Whether `r` is where an item lands: its own pin while that is still a
/// registered folder, and otherwise the rule for its kind.
pub open spec fn is_root(
    r: Option<&RootFolder>,
    item: LibraryItem,
    folders: Seq<RootFolder>,
    separator: char,
) -> bool {
    if pinned(item) is Some && !root_folders::none_at(folders, pinned(item)->0, separator) {
        exists|i: int|
            #[trigger] root_folders::first_at(folders, pinned(item)->0, separator, i) && (r matches Some(
                f,
            ) && *f == folders[i])
    } else if root_folders::none_serving(folders, Some(item.media_type))
        && root_folders::none_serving(folders, None) {
        r is None
    } else {
        exists|i: int|
            #[trigger] root_folders::is_destination(folders, item.media_type, i) && (r matches Some(
                f,
            ) && *f == folders[i])
    }
}

/// Root folder for an item: its own override first, then the rule.
pub fn resolve_root<'a>(
    item: &LibraryItem,
    folders: &'a [RootFolder],
    separator: char,
) -> (r: Option<&'a RootFolder>)
    ensures
        is_root(r, *item, folders@, separator),
{
    if let Some(raw) = &item.root_folder {
        let wanted = trimmed_str(raw.as_str());
        if wanted.len() > 0 {
            if let Some(found) = root_folders::registered(folders, &wanted, separator) {
                return Some(found);
            }
        }
    }
    root_folders::pick(folders, item.media_type)
}

/// Everything placing a download needs.
#[derive(Debug, Clone)]
pub struct Placement {
    /// Destination root.
    pub root: String,
    /// Catalogue title.
    pub title: String,
    /// Release year, for the folder name.
    pub year: Option<i32>,
    /// Season and episode, for a series.
    pub episode: Option<(u16, u16)>,
    /// Hardlink, copy or move.
    pub mode: ImportMode,
}

/// The coordinate a file is named by: the catalogue's, when a name can
/// carry it.
pub open spec fn naming_coordinate(episode: Option<Episode>) -> Option<(u16, u16)> {
    match episode {
        Some(e) => if 0 <= e.season_number <= u16::MAX && 0 <= e.episode_number <= u16::MAX {
            Some((e.season_number as u16, e.episode_number as u16))
        } else {
            None
        },
        None => None,
    }
}

/// What is known before the disk is touched.
pub struct Gathered<'a> {
    /// The item, unless it left the library.
    pub item: Option<&'a LibraryItem>,
    /// The root folder, if one is configured for it.
    pub root: Option<&'a RootFolder>,
    /// Where the download is, or the reason to wait.
    pub located: Result<Located, String>,
    /// The episode the grab is for.
    pub episode: Option<Episode>,
    /// How files are placed.
    pub mode: ImportMode,
}

/// What is filed and where it lies, or why it cannot be filed.
pub open spec fn is_plan(r: Result<(Placement, Located), ImportOutcome>, g: Gathered) -> bool {
    match g.item {
        None => r matches Err(ImportOutcome::Permanent(m)) && m@
            == "o item saiu da biblioteca antes do import"@,
        Some(item) => match g.root {
            None => r matches Err(ImportOutcome::Waiting(m)) && m@
                == "nenhuma pasta raiz configurada para "@ + match item.media_type {
                MediaType::Movie => "movie"@,
                MediaType::Tv => "tv"@,
            },
            Some(root) => match g.located {
                Err(why) => r matches Err(ImportOutcome::Waiting(m)) && m == why,
                Ok(l) => if !l.usable {
                    r matches Err(ImportOutcome::Waiting(m)) && m@ == unreachable_text(l)
                } else {
                    r matches Ok((p, at)) && at == l && p.root@ == root.path@ && p.title@
                        == item.title@ && p.year == item.year && p.episode == naming_coordinate(
                        g.episode,
                    ) && p.mode == g.mode
                },
            },
        },
    }
}

/// Plan an import, or say why there is nothing to place: an item that left
/// the library is permanent; no root folder, no place and an unusable path
/// are reasons to wait, asked in that order.
pub fn plan(g: Gathered) -> (r: Result<(Placement, Located), ImportOutcome>)
    ensures
        is_plan(r, g),
{
    let item = match g.item {
        Some(item) => item,
        None => {
            return Err(
                ImportOutcome::Permanent("o item saiu da biblioteca antes do import".to_owned()),
            );
        },
    };
    let root = match g.root {
        Some(root) => root,
        None => {
            let mut out = chars_of("nenhuma pasta raiz configurada para ");
            extend_str(&mut out, item.media_type.label());
            return Err(ImportOutcome::Waiting(string_of(&out)));
        },
    };
    let located = match g.located {
        Ok(l) => l,
        Err(why) => {
            return Err(ImportOutcome::Waiting(why));
        },
    };
    if !located.usable {
        return Err(ImportOutcome::Waiting(unreachable_path_message(&located)));
    }
    let episode: Option<(u16, u16)> = match g.episode {
        Some(e) => if 0 <= e.season_number && e.season_number <= 65535 && 0 <= e.episode_number
            && e.episode_number <= 65535 {
            Some((e.season_number as u16, e.episode_number as u16))
        } else {
            None
        },
        None => None,
    };
    Ok(
        (
            Placement {
                root: root.path.clone(),
                title: item.title.clone(),
                year: item.year,
                episode,
                mode: g.mode,
            },
            located,
        ),
    )
}

/// What an import comes to, told with the path that could not be opened.
pub open spec fn is_final(r: ImportOutcome, outcome: ImportOutcome, located: Located) -> bool {
    if outcome is Waiting && located.applied is None {
        r matches ImportOutcome::Waiting(m) && m@ == unreachable_text(located)
    } else {
        r == outcome
    }
}

/// The outcome as the operator reads it: a download that waits and that no
/// mapping rewrote is told as the path being unreachable.
pub fn plan_and_place(outcome: ImportOutcome, located: &Located) -> (r: ImportOutcome)
    ensures
        is_final(r, outcome, *located),
{
    match outcome {
        ImportOutcome::Waiting(why) => match locate_state(located) {
            LocateState::Translated => ImportOutcome::Waiting(why),
            LocateState::Verbatim => ImportOutcome::Waiting(unreachable_path_message(located)),
        },
        other => other,
    }
}

// ---------------------------------------------------------------------
// Laws of names
// ---------------------------------------------------------------------

/// A character a component may hold.
pub open spec fn is_safe(c: char) -> bool {
    !is_illegal(c) && !text::is_control(c)
}

pub open spec fn all_safe(s: Seq<char>) -> bool {
    forall|i: int| 0 <= i < s.len() ==> is_safe(#[trigger] s[i])
}

proof fn lemma_collapsed_safe(s: Seq<char>)
    ensures
        all_safe(collapsed(s)),
    decreases s.len(),
{
    if s.len() > 0 {
        lemma_collapsed_safe(s.drop_last());
        let before = collapsed(s.drop_last());
        assert(is_safe(cleaned(s.last())));
        assert forall|i: int| 0 <= i < collapsed(s).len() implies is_safe(
            #[trigger] collapsed(s)[i],
        ) by {
            if i < before.len() {
                assert(collapsed(s)[i] == before[i]);
            }
        }
    }
}

proof fn lemma_trim_start_is_a_tail(s: Seq<char>)
    ensures
        text::trim_start(s).len() <= s.len(),
        text::trim_start(s) == s.skip(s.len() - text::trim_start(s).len()),
    decreases s.len(),
{
    if s.len() > 0 && text::is_white(s[0]) {
        lemma_trim_start_is_a_tail(s.drop_first());
        let n = text::trim_start(s).len();
        assert(s.drop_first().skip(s.len() - 1 - n) =~= s.skip(s.len() - n));
    } else {
        assert(s.skip(0) =~= s);
    }
}

proof fn lemma_trim_end_is_a_head(s: Seq<char>)
    ensures
        text::trim_end(s).len() <= s.len(),
        text::trim_end(s) == s.take(text::trim_end(s).len() as int),
    decreases s.len(),
{
    if s.len() > 0 && text::is_white(s.last()) {
        lemma_trim_end_is_a_head(s.drop_last());
        let n = text::trim_end(s).len();
        assert(s.drop_last().take(n as int) =~= s.take(n as int));
    } else {
        assert(s.take(s.len() as int) =~= s);
    }
}

proof fn lemma_without_tail_is_a_head(s: Seq<char>)
    ensures
        without_tail(s).len() <= s.len(),
        without_tail(s) == s.take(without_tail(s).len() as int),
    decreases s.len(),
{
    if s.len() > 0 && (s.last() == '.' || s.last() == ' ') {
        lemma_without_tail_is_a_head(s.drop_last());
        let n = without_tail(s).len();
        assert(s.drop_last().take(n as int) =~= s.take(n as int));
    } else {
        assert(s.take(s.len() as int) =~= s);
    }
}

/// Whether two spaces stand next to each other at `i`.
pub open spec fn doubled_at(s: Seq<char>, i: int) -> bool {
    0 <= i && i + 1 < s.len() && s[i] == ' ' && s[i + 1] == ' '
}

/// Safe characters, with no two spaces in a row.
pub open spec fn is_tidy(s: Seq<char>) -> bool {
    all_safe(s) && forall|i: int| !#[trigger] doubled_at(s, i)
}

/// Whether the only white space is the space.
pub open spec fn only_spaces(s: Seq<char>) -> bool {
    forall|i: int| 0 <= i < s.len() ==> (text::is_white(#[trigger] s[i]) ==> s[i] == ' ')
}

proof fn lemma_collapsed_tidy(s: Seq<char>)
    ensures
        is_tidy(collapsed(s)),
        s.len() > 0 ==> collapsed(s).len() > 0 && collapsed(s).last() == cleaned(s.last()),
    decreases s.len(),
{
    lemma_collapsed_safe(s);
    if s.len() > 0 {
        let before = s.drop_last();
        lemma_collapsed_tidy(before);
        assert forall|i: int| !#[trigger] doubled_at(collapsed(s), i) by {
            assert(!doubled_at(collapsed(before), i));
        }
    }
}

proof fn lemma_collapsed_spaces(s: Seq<char>)
    requires
        forall|i: int| 0 <= i < s.len() ==> (text::is_white(#[trigger] s[i]) ==> cleaned(s[i]) == ' '),
    ensures
        only_spaces(collapsed(s)),
    decreases s.len(),
{
    if s.len() > 0 {
        let before = s.drop_last();
        assert forall|i: int| 0 <= i < before.len() && text::is_white(
            #[trigger] before[i],
        ) implies cleaned(before[i]) == ' ' by {
            assert(before[i] == s[i]);
        }
        lemma_collapsed_spaces(before);
        let last = s[s.len() - 1];
        assert(text::is_white(last) ==> cleaned(last) == ' ');
        assert forall|i: int| 0 <= i < collapsed(s).len() && text::is_white(
            #[trigger] collapsed(s)[i],
        ) implies collapsed(s)[i] == ' ' by {
            if i < collapsed(before).len() {
                assert(collapsed(s)[i] == collapsed(before)[i]);
            }
        }
    }
}

pub proof fn lemma_part_is_tidy(s: Seq<char>, from: int, to: int)
    requires
        0 <= from <= to <= s.len(),
    ensures
        is_tidy(s) ==> is_tidy(s.subrange(from, to)),
        only_spaces(s) ==> only_spaces(s.subrange(from, to)),
{
    let t = s.subrange(from, to);
    if is_tidy(s) {
        assert forall|i: int| 0 <= i < t.len() implies is_safe(#[trigger] t[i]) by {
            assert(t[i] == s[i + from]);
        }
        assert forall|i: int| !#[trigger] doubled_at(t, i) by {
            assert(!doubled_at(s, i + from));
        }
    }
    if only_spaces(s) {
        assert forall|i: int| 0 <= i < t.len() && text::is_white(#[trigger] t[i]) implies t[i]
            == ' ' by {
            assert(t[i] == s[i + from]);
        }
    }
}

pub proof fn lemma_collapsing_the_tidy(s: Seq<char>)
    requires
        is_tidy(s),
    ensures
        collapsed(s) == s,
    decreases s.len(),
{
    if s.len() > 0 {
        let before = s.drop_last();
        lemma_part_is_tidy(s, 0, s.len() - 1);
        assert(s.subrange(0, s.len() - 1) =~= before);
        lemma_collapsing_the_tidy(before);
        assert(is_safe(s[s.len() - 1]));
        assert(s.len() >= 2 ==> is_safe(s[s.len() - 2]));
        assert(!doubled_at(s, s.len() - 2));
        assert(before.push(s.last()) =~= s);
    } else {
        assert(s =~= Seq::empty());
    }
}

/// What is left of a text before it is named: tidy, not starting in white
/// space, not ending in a dot or a space.
proof fn lemma_before_naming(raw: Seq<char>)
    ensures
        ({
            let t = without_tail(text::trim(collapsed(raw)));
            let u = without_tail(cut(t, MAX_COMPONENT_CHARS as int));
            &&& is_tidy(t)
            &&& is_tidy(u)
            &&& t.len() > 0 ==> !text::is_white(t[0]) && t.last() != '.' && t.last() != ' '
            &&& u.len() > 0 ==> !text::is_white(u[0]) && u.last() != '.' && u.last() != ' '
            &&& u.len() <= MAX_COMPONENT_CHARS
            &&& only_spaces(collapsed(raw)) ==> only_spaces(t) && only_spaces(u)
        }),
{
    let c = collapsed(raw);
    lemma_collapsed_tidy(raw);
    let a = text::trim_start(c);
    lemma_trim_start_is_a_tail(c);
    assert(a =~= c.subrange(c.len() - a.len(), c.len() as int));
    lemma_part_is_tidy(c, c.len() - a.len(), c.len() as int);
    let b = text::trim_end(a);
    lemma_trim_end_is_a_head(a);
    assert(b =~= a.subrange(0, b.len() as int));
    lemma_part_is_tidy(a, 0, b.len() as int);
    text::lemma_trim_is_tight(c);
    let t = without_tail(b);
    lemma_without_tail_is_a_head(b);
    assert(t =~= b.subrange(0, t.len() as int));
    lemma_part_is_tidy(b, 0, t.len() as int);
    lemma_tail_gone(b);
    let short = cut(t, MAX_COMPONENT_CHARS as int);
    if t.len() > MAX_COMPONENT_CHARS {
        let head = t.take(MAX_COMPONENT_CHARS as int);
        lemma_trim_end_is_a_head(head);
        assert(short =~= t.subrange(0, short.len() as int));
    } else {
        assert(short =~= t.subrange(0, t.len() as int));
    }
    lemma_part_is_tidy(t, 0, short.len() as int);
    let u = without_tail(short);
    lemma_without_tail_is_a_head(short);
    assert(u =~= short.subrange(0, u.len() as int));
    lemma_part_is_tidy(short, 0, u.len() as int);
    lemma_tail_gone(short);
    if t.len() > 0 {
        assert(t[0] == b[0]);
    }
    if u.len() > 0 {
        assert(u[0] == short[0] && short[0] == t[0]);
    }
}

proof fn lemma_tail_gone(s: Seq<char>)
    ensures
        without_tail(s).len() > 0 ==> without_tail(s).last() != '.' && without_tail(s).last()
            != ' ',
    decreases s.len(),
{
    if s.len() > 0 && (s.last() == '.' || s.last() == ' ') {
        lemma_tail_gone(s.drop_last());
    }
}

proof fn lemma_named(s: Seq<char>)
    requires
        is_tidy(s),
        s.len() > 0 ==> !text::is_white(s[0]) && s.last() != '.' && s.last() != ' ',
    ensures
        is_component(named(s)),
        only_spaces(s) ==> only_spaces(named(s)),
{
    reveal_strlit("sem-titulo");
    let empty = Seq::<char>::empty();
    let n = named(s);
    if is_reserved(s) {
        if s.len() == 0 {
            assert(stem(s) =~= empty);
            assert(text::lowered(stem(s)) =~= empty);
        }
        assert(n[0] == '_');
        assert(n.drop_first() =~= s);
        assert(stem(n) == seq!['_'] + stem(s));
        assert(text::lowered(stem(n))[0] == '_');
        assert forall|i: int| 0 <= i < n.len() implies is_safe(#[trigger] n[i]) by {
            if i > 0 {
                assert(n[i] == s[i - 1]);
            }
        }
        assert forall|i: int| !#[trigger] doubled_at(n, i) by {
            assert(!doubled_at(s, i - 1));
        }
        assert(n.last() == s.last());
        if only_spaces(s) {
            assert forall|i: int| 0 <= i < n.len() && text::is_white(#[trigger] n[i]) implies n[i]
                == ' ' by {
                if i > 0 {
                    assert(n[i] == s[i - 1]);
                }
            }
        }
    } else if s.len() == 0 {
        assert(n[0] == 's');
        assert(stem(n) == seq!['s'] + stem(n.drop_first()));
        assert(text::lowered(stem(n))[0] == 's');
    }
}

/// What every filesystem accepts as a component: not empty, no refused or
/// control character, no space doubled or in front, no trailing dot or space,
/// and no device name.
pub open spec fn is_component(s: Seq<char>) -> bool {
    &&& s.len() > 0
    &&& is_tidy(s)
    &&& !text::is_white(s[0])
    &&& s.last() != '.'
    &&& s.last() != ' '
    &&& !is_reserved(s)
}

/// Whatever the title, a sanitised name is one every filesystem accepts.
pub proof fn sanitising_makes_a_component(raw: Seq<char>)
    ensures
        is_component(sanitized(raw)),
{
    lemma_before_naming(raw);
    let t = without_tail(text::trim(collapsed(raw)));
    if is_reserved(t) || t.len() == 0 {
        lemma_named(t);
    } else {
        lemma_named(without_tail(cut(t, MAX_COMPONENT_CHARS as int)));
    }
}

/// Sanitising a sanitised name changes nothing. Left out are a name that is
/// too long, which only a marked device name can be, and a text with white
/// space other than what a name keeps as a space: where that comes to stand
/// at the end, the second pass trims it.
pub proof fn sanitising_twice_is_sanitising_once(raw: Seq<char>)
    requires
        sanitized(raw).len() <= MAX_COMPONENT_CHARS,
        forall|i: int|
            0 <= i < raw.len() ==> (text::is_white(#[trigger] raw[i]) ==> cleaned(raw[i]) == ' '),
    ensures
        sanitized(sanitized(raw)) == sanitized(raw),
{
    let r = sanitized(raw);
    sanitising_makes_a_component(raw);
    lemma_before_naming(raw);
    lemma_collapsed_spaces(raw);
    let t = without_tail(text::trim(collapsed(raw)));
    if is_reserved(t) || t.len() == 0 {
        lemma_named(t);
    } else {
        lemma_named(without_tail(cut(t, MAX_COMPONENT_CHARS as int)));
    }
    assert(only_spaces(r));
    lemma_collapsing_the_tidy(r);
    assert(!text::is_white(r[r.len() - 1]));
    text::lemma_trim_tight(r);
}

/// A short ASCII text is sanitised once and for all.
pub proof fn sanitising_ascii_twice_is_sanitising_once(raw: Seq<char>)
    requires
        raw.len() < MAX_COMPONENT_CHARS,
        forall|i: int| 0 <= i < raw.len() ==> (#[trigger] raw[i]) < '\u{80}',
    ensures
        sanitized(sanitized(raw)) == sanitized(raw),
{
    reveal_strlit("sem-titulo");
    lemma_collapsed_length(raw);
    let c = collapsed(raw);
    lemma_trim_start_is_a_tail(c);
    lemma_trim_end_is_a_head(text::trim_start(c));
    lemma_without_tail_is_a_head(text::trim(c));
    lemma_before_naming(raw);
    assert forall|i: int| 0 <= i < raw.len() && text::is_white(
        #[trigger] raw[i],
    ) implies cleaned(raw[i]) == ' ' by {
        assert(raw[i] < '\u{80}');
    }
    sanitising_twice_is_sanitising_once(raw);
}

proof fn lemma_collapsed_length(s: Seq<char>)
    ensures
        collapsed(s).len() <= s.len(),
    decreases s.len(),
{
    if s.len() > 0 {
        lemma_collapsed_length(s.drop_last());
    }
}

// ---------------------------------------------------------------------
// Laws of destinations
// ---------------------------------------------------------------------

/// Text that a name keeps as it is, wherever it stands in it.
pub open spec fn is_word(s: Seq<char>) -> bool {
    forall|i: int| 0 <= i < s.len() ==> is_safe(#[trigger] s[i]) && !text::is_white(s[i])
}

proof fn lemma_collapsed_grows(a: Seq<char>, b: Seq<char>)
    ensures
        collapsed(a + b).len() <= collapsed(a).len() + b.len(),
        collapsed(a).len() <= collapsed(a + b).len(),
        collapsed(a + b).take(collapsed(a).len() as int) == collapsed(a),
        is_word(b) ==> collapsed(a + b) == collapsed(a) + b,
    decreases b.len(),
{
    if b.len() == 0 {
        assert(a + b =~= a);
        assert(collapsed(a).take(collapsed(a).len() as int) =~= collapsed(a));
        assert(collapsed(a) + b =~= collapsed(a));
    } else {
        let short = b.drop_last();
        lemma_collapsed_grows(a, short);
        assert((a + b).drop_last() =~= a + short);
        assert((a + b).last() == b.last());
        let before = collapsed(a + short);
        assert(before.push(cleaned(b.last())).take(collapsed(a).len() as int) =~= before.take(
            collapsed(a).len() as int,
        ));
        if is_word(b) {
            assert forall|i: int| 0 <= i < short.len() implies is_safe(#[trigger] short[i])
                && !text::is_white(short[i]) by {
                assert(short[i] == b[i]);
            }
            let last = b[b.len() - 1];
            assert(is_safe(last) && !text::is_white(last));
            assert((collapsed(a) + short).push(last) =~= collapsed(a) + b);
        }
    }
}

proof fn lemma_trim_start_grows(a: Seq<char>, b: Seq<char>)
    ensures
        text::trim_start(a + b).len() <= text::trim_start(a).len() + b.len(),
        b.len() > 0 && !text::is_white(b[0]) ==> text::trim_start(a + b) == text::trim_start(a) + b,
    decreases a.len(),
{
    if a.len() == 0 {
        assert(a + b =~= b);
        lemma_trim_start_is_a_tail(b);
        assert(text::trim_start(a) + b =~= b);
    } else if text::is_white(a[0]) {
        assert((a + b).drop_first() =~= a.drop_first() + b);
        lemma_trim_start_grows(a.drop_first(), b);
    }
}

/// A name that fits keeps what stands behind its title.
proof fn lemma_fitted_keeps_the_suffix(
    title: Seq<char>,
    gap: Seq<char>,
    word: Seq<char>,
    max: int,
)
    requires
        is_word(word),
        word.len() > 0,
        word.last() != '.',
        gap.len() + word.len() <= max <= MAX_COMPONENT_CHARS,
    ensures
        ({
            let n = fitted(title, gap + word, max);
            let t = text::trim_start(
                collapsed(shortened(title, max - gap.len() - word.len()) + gap),
            );
            &&& n == t + word || n == seq!['_'] + t + word
            &&& t.len() + word.len() <= max
        }),
{
    let suffix = gap + word;
    let room = max - suffix.len();
    let short = shortened(title, room);
    let c = text::trim_start(collapsed(title));
    let a = collapsed(short + gap);
    let t = text::trim_start(a);
    assert(short + suffix =~= (short + gap) + word);
    lemma_collapsed_grows(short + gap, word);
    assert(!text::is_white(word[0]));
    lemma_trim_start_grows(a, word);
    let whole = t + word;
    assert(whole.last() == word.last());
    assert(!text::is_white(word[word.len() - 1]) && is_safe(word[word.len() - 1]));
    assert(text::trim_end(whole) == whole);
    assert(without_tail(whole) == whole);
    if c.len() <= room {
        lemma_collapsed_grows(title, gap);
        let head = collapsed(title);
        assert(a =~= head + a.skip(head.len() as int));
        lemma_trim_start_grows(head, a.skip(head.len() as int));
    } else {
        lemma_trim_end_is_a_head(c.take(room));
        lemma_collapsed_length(short + gap);
        lemma_trim_start_is_a_tail(a);
    }
    assert(seq!['_'] + whole =~= seq!['_'] + t + word);
}

/// An extension that a name can end in.
pub open spec fn is_extension(e: Seq<char>) -> bool {
    e.len() > 0 && is_word(e) && !e.contains('.')
}

/// Whether a text ends in another.
pub open spec fn ends_in(s: Seq<char>, tail: Seq<char>) -> bool {
    s.len() >= tail.len() && s.skip(s.len() - tail.len()) == tail
}

pub proof fn lemma_last_dot(head: Seq<char>, e: Seq<char>)
    requires
        !e.contains('.'),
    ensures
        host_path::last_index(head + seq!['.'] + e, '.') == Some(head.len() as int),
    decreases e.len(),
{
    let whole = head + seq!['.'] + e;
    if e.len() == 0 {
        assert(whole =~= head.push('.'));
    } else {
        let short = e.drop_last();
        assert(!short.contains('.')) by {
            if short.contains('.') {
                let i = choose|i: int| 0 <= i < short.len() && short[i] == '.';
                assert(e[i] == '.');
            }
        }
        lemma_last_dot(head, short);
        assert(whole.drop_last() =~= head + seq!['.'] + short);
        assert(e[e.len() - 1] != '.');
    }
}

proof fn lemma_component_is_plain(s: Seq<char>)
    requires
        is_component(s),
    ensures
        host_path::is_plain(s),
{
    let refused = set!['/', '\\', ':'];
    assert forall|i: int| 0 <= i < s.len() implies !refused.contains(#[trigger] s[i]) by {
        assert(is_safe(s[i]));
    }
    assert(seq!['.'].last() == '.');
    assert(seq!['.', '.'].last() == '.');
}

proof fn lemma_digits_are_a_word(n: nat)
    ensures
        is_word(text::decimal(n)),
        is_word(text::padded(n)),
        text::decimal(n).len() > 0,
        text::decimal(n).last() != '.',
    decreases n,
{
    if n >= 10 {
        lemma_digits_are_a_word(n / 10);
        let before = text::decimal(n / 10);
        let last = ('0' as int + n % 10) as char;
        assert('0' <= last <= '9');
        assert forall|i: int| 0 <= i < text::decimal(n).len() implies is_safe(
            #[trigger] text::decimal(n)[i],
        ) && !text::is_white(text::decimal(n)[i]) by {
            if i < before.len() {
                assert(text::decimal(n)[i] == before[i]);
            }
        }
    } else {
        let last = ('0' as int + n) as char;
        assert('0' <= last <= '9');
        assert(text::padded(n) =~= seq!['0', last]);
    }
}

/// A coordinate, a dot and an extension are a word.
proof fn lemma_episode_word(season: u16, episode: u16, e: Seq<char>)
    requires
        is_extension(e),
    ensures
        is_word(coordinate(season, episode) + ("."@ + e)),
        is_word("."@ + e),
        coordinate(season, episode).len() > 0,
{
    reveal_strlit("S");
    reveal_strlit("E");
    reveal_strlit(".");
    lemma_digits_are_a_word(season as nat);
    lemma_digits_are_a_word(episode as nat);
    let dotted = "."@ + e;
    assert forall|i: int| 0 <= i < dotted.len() implies is_safe(#[trigger] dotted[i])
        && !text::is_white(dotted[i]) by {
        if i > 0 {
            assert(dotted[i] == e[i - 1]);
        }
    }
    let a = "S"@ + text::padded(season as nat);
    let b = a + "E"@;
    let c = coordinate(season, episode);
    assert(c =~= b + text::padded(episode as nat));
    assert forall|i: int| 0 <= i < a.len() implies is_safe(#[trigger] a[i]) && !text::is_white(
        a[i],
    ) by {
        if i > 0 {
            assert(a[i] == text::padded(season as nat)[i - 1]);
        }
    }
    assert forall|i: int| 0 <= i < b.len() implies is_safe(#[trigger] b[i]) && !text::is_white(
        b[i],
    ) by {
        if i < a.len() {
            assert(b[i] == a[i]);
        }
    }
    assert forall|i: int| 0 <= i < c.len() implies is_safe(#[trigger] c[i]) && !text::is_white(
        c[i],
    ) by {
        if i < b.len() {
            assert(c[i] == b[i]);
        } else {
            assert(c[i] == text::padded(episode as nat)[i - b.len()]);
        }
    }
    let w = c + dotted;
    assert forall|i: int| 0 <= i < w.len() implies is_safe(#[trigger] w[i]) && !text::is_white(
        w[i],
    ) by {
        if i < c.len() {
            assert(w[i] == c[i]);
        } else {
            assert(w[i] == dotted[i - c.len()]);
        }
    }
}

/// The name of an episode's file: its coordinate and its extension stand at
/// its end, however long the title.
pub proof fn an_episode_keeps_its_coordinate(
    title: Seq<char>,
    season: u16,
    episode: u16,
    extension: Seq<char>,
)
    requires
        is_extension(extension),
        episode_suffix(season, episode, extension).len() <= MAX_COMPONENT_CHARS,
    ensures
        ({
            let n = fitted(
                title,
                episode_suffix(season, episode, extension),
                MAX_COMPONENT_CHARS as int,
            );
            &&& ends_in(n, coordinate(season, episode) + ("."@ + extension))
            &&& host_path::extension_of(n) == Some(extension)
        }),
{
    reveal_strlit(".");
    let c = coordinate(season, episode);
    let word = c + ("."@ + extension);
    let n = fitted(title, episode_suffix(season, episode, extension), MAX_COMPONENT_CHARS as int);
    lemma_episode_word(season, episode, extension);
    assert(extension[extension.len() - 1] != '.');
    assert(word.last() == extension.last());
    lemma_fitted_keeps_the_suffix(title, " - "@, word, MAX_COMPONENT_CHARS as int);
    let head = n.take(n.len() - word.len());
    assert(n.skip(n.len() - word.len()) =~= word);
    assert(n =~= (head + c) + seq!['.'] + extension);
    lemma_last_dot(head + c, extension);
    assert(n.skip((head + c).len() as int + 1) =~= extension);
}

proof fn lemma_collapsed_starts(s: Seq<char>)
    requires
        s.len() > 0,
        is_safe(s[0]),
        !text::is_white(s[0]),
    ensures
        collapsed(s).len() > 0,
        collapsed(s)[0] == s[0],
    decreases s.len(),
{
    if s.len() > 1 {
        lemma_collapsed_starts(s.drop_last());
    } else {
        assert(s.drop_last() =~= Seq::empty());
        assert(collapsed(s.drop_last()) =~= Seq::empty());
    }
}

/// The name of a film's file ends in its extension, however long the title.
pub proof fn a_film_keeps_its_extension(
    title: Seq<char>,
    year: Option<i32>,
    extension: Seq<char>,
)
    requires
        is_extension(extension),
        extension.len() + 2 <= MAX_COMPONENT_CHARS,
    ensures
        host_path::extension_of(film_name(title, year, extension)) == Some(extension),
{
    reveal_strlit(".");
    let word = "."@ + extension;
    let max = MAX_COMPONENT_CHARS as int;
    let base = fitted(title, year_suffix(year), room_beside(max, word.len()));
    let n = film_name(title, year, extension);
    let none = Seq::<char>::empty();
    lemma_episode_word(0, 0, extension);
    assert(extension[extension.len() - 1] != '.');
    assert(none + word =~= word);
    lemma_fitted_keeps_the_suffix(base, none, word, max);
    sanitising_makes_a_component(
        shortened(
            title,
            room_beside(room_beside(max, word.len()), year_suffix(year).len()),
        ) + year_suffix(year),
    );
    let room = max - word.len();
    let short = shortened(base, room);
    assert(is_safe(base[0]));
    lemma_collapsed_starts(base);
    let c = text::trim_start(collapsed(base));
    assert(c == collapsed(base));
    if c.len() > room {
        let head = c.take(room);
        lemma_trim_end_is_a_head(head);
        lemma_trim_end_keeps_the_first(head);
        assert(short[0] == base[0]);
    }
    assert(short.len() > 0 && short[0] == base[0]);
    lemma_collapsed_starts(short);
    assert(short + none =~= short);
    let t = text::trim_start(collapsed(short + none));
    assert(t.len() > 0);
    let head = n.take(n.len() - word.len());
    assert(n =~= head + seq!['.'] + extension);
    lemma_last_dot(head, extension);
    assert(n.skip(head.len() as int + 1) =~= extension);
}

proof fn lemma_trim_end_keeps_the_first(s: Seq<char>)
    requires
        s.len() > 0,
        !text::is_white(s[0]),
    ensures
        text::trim_end(s).len() > 0,
        text::trim_end(s)[0] == s[0],
    decreases s.len(),
{
    if text::is_white(s.last()) {
        lemma_trim_end_keeps_the_first(s.drop_last());
    }
}

/// The year stands at the end of a title's folder, however long the title.
pub proof fn a_folder_keeps_its_year(title: Seq<char>, year: i32)
    ensures
        ends_in(title_folder_name(title, Some(year)), "("@ + text::signed(year as int) + ")"@),
{
    reveal_strlit(" (");
    reveal_strlit("(");
    reveal_strlit(")");
    let digits = text::signed(year as int);
    let word = "("@ + digits + ")"@;
    let size: nat = if year < 0 {
        (-year) as nat
    } else {
        year as nat
    };
    lemma_digits_are_a_word(size);
    assert(vstd::arithmetic::power::pow(10, 10) == 10_000_000_000) by {
        reveal_with_fuel(vstd::arithmetic::power::pow, 11);
    }
    lemma_digits_are_few(size, 10);
    assert forall|i: int| 0 <= i < word.len() implies is_safe(#[trigger] word[i])
        && !text::is_white(word[i]) by {
        if 0 < i < word.len() - 1 {
            assert(word[i] == digits[i - 1]);
            if year < 0 {
                assert(digits =~= seq!['-'] + text::decimal(size));
                if i > 1 {
                    assert(digits[i - 1] == text::decimal(size)[i - 2]);
                }
            }
        }
    }
    let gap = seq![' '];
    assert(gap + word =~= year_suffix(Some(year)));
    lemma_fitted_keeps_the_suffix(title, gap, word, MAX_COMPONENT_CHARS as int);
    let n = title_folder_name(title, Some(year));
    assert(n.skip(n.len() - word.len()) =~= word);
}

/// How many digits a number below a power of ten has.
proof fn lemma_digits_are_few(n: nat, digits: nat)
    requires
        1 <= digits,
        n < vstd::arithmetic::power::pow(10, digits),
    ensures
        text::decimal(n).len() <= digits,
    decreases digits,
{
    if n >= 10 {
        vstd::arithmetic::power::lemma_pow1(10);
        assert(digits > 1);
        let rest = vstd::arithmetic::power::pow(10, (digits - 1) as nat);
        assert(vstd::arithmetic::power::pow(10, digits) == 10 * rest) by {
            reveal(vstd::arithmetic::power::pow);
        }
        assert(n / 10 < rest) by (nonlinear_arith)
            requires
                n < 10 * rest,
        ;
        lemma_digits_are_few(n / 10, (digits - 1) as nat);
    }
}

/// A destination stays under its root, whatever the title: below it stand
/// the title's folder and the file, with the season's folder between them for
/// an episode, each a plain name, and the folder is the title's and the
/// year's alone.
pub proof fn a_destination_stays_under_its_root(
    root: Seq<char>,
    title: Seq<char>,
    year: Option<i32>,
    episode: Option<(u16, u16)>,
    extension: Seq<char>,
    separator: char,
)
    requires
        separator == '/' || separator == '\\',
    ensures
        ({
            let d = destination_path(root, title, year, episode, extension, separator);
            let p = host_path::parts(d, separator);
            let rest = p.skip(host_path::parts(root, separator).len() as int);
            &&& host_path::under(d, root, separator)
            &&& p.take(host_path::parts(root, separator).len() as int) == host_path::parts(
                root,
                separator,
            )
            &&& rest.len() == if episode is Some {
                3nat
            } else {
                2nat
            }
            &&& forall|i: int| 0 <= i < rest.len() ==> host_path::is_plain(#[trigger] rest[i])
            &&& rest[0] == title_folder_name(title, year)
        }),
{
    let above = host_path::parts(root, separator);
    let max = MAX_COMPONENT_CHARS as int;
    let folder = title_folder_name(title, year);
    lemma_fitted_is_plain(title, year_suffix(year), max);
    let base = host_path::join_path(root, folder, separator);
    lemma_joined_below(root, root, folder, separator);
    match episode {
        Some((season, number)) => {
            let dir = season_folder_name(season);
            let name = fitted(title, episode_suffix(season, number, extension), max);
            lemma_season_folder_is_plain(season);
            lemma_fitted_is_plain(title, episode_suffix(season, number, extension), max);
            lemma_joined_below(root, base, dir, separator);
            let inside = host_path::join_path(base, dir, separator);
            lemma_joined_below(root, inside, name, separator);
            assert(above.push(folder).push(dir).push(name).skip(above.len() as int) =~= seq![
                folder,
                dir,
                name,
            ]);
            assert(above.push(folder).push(dir).push(name).take(above.len() as int) =~= above);
        },
        None => {
            let suffix = "."@ + extension;
            let near = fitted(title, year_suffix(year), room_beside(max, suffix.len()));
            let name = film_name(title, year, extension);
            lemma_fitted_is_plain(near, suffix, max);
            lemma_joined_below(root, base, name, separator);
            assert(above.push(folder).push(name).skip(above.len() as int) =~= seq![folder, name]);
            assert(above.push(folder).push(name).take(above.len() as int) =~= above);
        },
    }
}

proof fn lemma_fitted_is_plain(title: Seq<char>, suffix: Seq<char>, max: int)
    ensures
        host_path::is_plain(fitted(title, suffix, max)),
{
    sanitising_makes_a_component(shortened(title, room_beside(max, suffix.len())) + suffix);
    lemma_component_is_plain(fitted(title, suffix, max));
}

proof fn lemma_season_folder_is_plain(season: u16)
    ensures
        host_path::is_plain(season_folder_name(season)),
{
    let dir = season_folder_name(season);
    let digits = text::padded(season as nat);
    reveal_strlit("Season ");
    lemma_digits_are_a_word(season as nat);
    let refused = set!['/', '\\', ':'];
    assert forall|i: int| 0 <= i < dir.len() implies !refused.contains(#[trigger] dir[i]) by {
        if i >= 7 {
            assert(dir[i] == digits[i - 7]);
            assert(is_safe(digits[i - 7]));
        }
    }
    assert(dir.len() >= 7);
}

proof fn lemma_joined_below(root: Seq<char>, base: Seq<char>, name: Seq<char>, separator: char)
    requires
        separator == '/' || separator == '\\',
        host_path::is_plain(name),
        base == root || host_path::under(base, root, separator),
    ensures
        host_path::parts(host_path::join_path(base, name, separator), separator)
            == host_path::parts(base, separator).push(name),
        host_path::under(host_path::join_path(base, name, separator), root, separator),
{
    host_path::a_path_is_under_itself(root, separator);
    host_path::a_joined_name_is_the_last_component(base, name, separator);
    assert(host_path::under(base, root, separator));
}

/// A destination has the extension it was given, and an episode's file name
/// ends in its coordinate and extension, however long the title. An extension
/// is left out that a name could not end in, or that leaves a name no room.
pub proof fn a_destination_keeps_its_extension(
    root: Seq<char>,
    title: Seq<char>,
    year: Option<i32>,
    episode: Option<(u16, u16)>,
    extension: Seq<char>,
    separator: char,
)
    requires
        separator == '/' || separator == '\\',
        is_extension(extension),
        match episode {
            Some((season, number)) => episode_suffix(season, number, extension).len()
                <= MAX_COMPONENT_CHARS,
            None => extension.len() + 2 <= MAX_COMPONENT_CHARS,
        },
    ensures
        ({
            let d = destination_path(root, title, year, episode, extension, separator);
            &&& host_path::path_extension(d, separator) == Some(extension)
            &&& episode matches Some((season, number)) ==> (host_path::file_name(
                d,
                separator,
            ) matches Some(name) && ends_in(
                name,
                coordinate(season, number) + ("."@ + extension),
            ))
        }),
{
    let max = MAX_COMPONENT_CHARS as int;
    let base = host_path::join_path(root, title_folder_name(title, year), separator);
    match episode {
        Some((season, number)) => {
            let suffix = episode_suffix(season, number, extension);
            lemma_fitted_is_plain(title, suffix, max);
            host_path::a_joined_name_is_the_last_component(
                host_path::join_path(base, season_folder_name(season), separator),
                fitted(title, suffix, max),
                separator,
            );
            an_episode_keeps_its_coordinate(title, season, number, extension);
        },
        None => {
            let suffix = "."@ + extension;
            let near = fitted(title, year_suffix(year), room_beside(max, suffix.len()));
            lemma_fitted_is_plain(near, suffix, max);
            host_path::a_joined_name_is_the_last_component(
                base,
                film_name(title, year, extension),
                separator,
            );
            a_film_keeps_its_extension(title, year, extension);
        },
    }
}

/// Whether a name ends in a year.
pub open spec fn has_year(name: Seq<char>) -> bool {
    year_opens(text::trim_end(name)) is Some
}

proof fn lemma_fold_chars(a: char, b: char)
    requires
        text::lower(a) == text::lower(b),
    ensures
        text::is_white(a) == text::is_white(b),
        text::is_digit(a) == text::is_digit(b),
        (a == '(') == (b == '('),
        (a == ')') == (b == ')'),
{
}

proof fn lemma_fold_trim_end(a: Seq<char>, b: Seq<char>)
    requires
        text::eq_fold(a, b),
    ensures
        text::eq_fold(text::trim_end(a), text::trim_end(b)),
    decreases a.len(),
{
    if a.len() > 0 {
        assert(text::lower(a[a.len() - 1]) == text::lower(b[a.len() - 1]));
        lemma_fold_chars(a.last(), b.last());
        assert forall|i: int| 0 <= i < a.drop_last().len() implies text::lower(
            #[trigger] a.drop_last()[i],
        ) == text::lower(b.drop_last()[i]) by {
            assert(text::lower(a[i]) == text::lower(b[i]));
        }
        if text::is_white(a.last()) {
            lemma_fold_trim_end(a.drop_last(), b.drop_last());
        }
    }
}

proof fn lemma_fold_last_index(a: Seq<char>, b: Seq<char>)
    requires
        text::eq_fold(a, b),
    ensures
        host_path::last_index(a, '(') == host_path::last_index(b, '('),
    decreases a.len(),
{
    if a.len() > 0 {
        assert(text::lower(a[a.len() - 1]) == text::lower(b[a.len() - 1]));
        lemma_fold_chars(a.last(), b.last());
        assert forall|i: int| 0 <= i < a.drop_last().len() implies text::lower(
            #[trigger] a.drop_last()[i],
        ) == text::lower(b.drop_last()[i]) by {
            assert(text::lower(a[i]) == text::lower(b[i]));
        }
        if a.last() != '(' {
            lemma_fold_last_index(a.drop_last(), b.drop_last());
        }
    }
}

/// Whether a name ends in a year does not depend on the case of letters.
proof fn lemma_fold_has_year(a: Seq<char>, b: Seq<char>)
    requires
        text::eq_fold(a, b),
    ensures
        has_year(a) == has_year(b),
{
    lemma_fold_trim_end(a, b);
    let ta = text::trim_end(a);
    let tb = text::trim_end(b);
    if ta.len() > 0 {
        assert(text::lower(ta[ta.len() - 1]) == text::lower(tb[ta.len() - 1]));
        lemma_fold_chars(ta.last(), tb.last());
        assert forall|i: int| 0 <= i < ta.drop_last().len() implies text::lower(
            #[trigger] ta.drop_last()[i],
        ) == text::lower(tb.drop_last()[i]) by {
            assert(text::lower(ta[i]) == text::lower(tb[i]));
        }
        lemma_fold_last_index(ta.drop_last(), tb.drop_last());
        if ta.last() == ')' {
            if let Some(open) = host_path::last_index(ta.drop_last(), '(') {
                lemma_last_index(ta.drop_last(), '(');
                let ya = ta.subrange(open + 1, ta.len() - 1);
                let yb = tb.subrange(open + 1, tb.len() - 1);
                assert forall|i: int| 0 <= i < ya.len() implies text::is_digit(#[trigger] ya[i])
                    == text::is_digit(yb[i]) by {
                    assert(text::lower(ta[open + 1 + i]) == text::lower(tb[open + 1 + i]));
                    lemma_fold_chars(ta[open + 1 + i], tb[open + 1 + i]);
                }
                assert(text::all_digits(ya) ==> text::all_digits(yb)) by {
                    if text::all_digits(ya) {
                        assert forall|i: int| 0 <= i < yb.len() implies text::is_digit(
                            #[trigger] yb[i],
                        ) by {
                            assert(text::is_digit(ya[i]));
                        }
                    }
                }
                assert(text::all_digits(yb) ==> text::all_digits(ya)) by {
                    if text::all_digits(yb) {
                        assert forall|i: int| 0 <= i < ya.len() implies text::is_digit(
                            #[trigger] ya[i],
                        ) by {
                            assert(text::is_digit(yb[i]));
                        }
                    }
                }
            }
        }
    }
}

/// The same title under another year is another title: two names that each
/// end in one year are never taken for one another.
pub proof fn the_same_title_under_another_year_is_another_title(
    wanted: Seq<char>,
    candidate: Seq<char>,
)
    requires
        has_year(wanted),
        has_year(candidate),
        !has_year(without_year(wanted)),
        !has_year(without_year(candidate)),
    ensures
        !one_title(wanted, candidate),
{
    if text::eq_fold(candidate, without_year(wanted)) {
        lemma_fold_has_year(candidate, without_year(wanted));
    }
    if text::eq_fold(without_year(candidate), wanted) {
        lemma_fold_has_year(without_year(candidate), wanted);
    }
}

} // verus!
