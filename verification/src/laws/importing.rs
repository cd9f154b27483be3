//! Finding a finished download's video and filing it.

use vstd::prelude::*;

use crate::catalogue::LibraryItem;
use crate::db::root_folders;
use crate::db::root_folders::RootFolder;
use crate::fuzzy;
use crate::host_path;
use crate::import;
use crate::import::{
    ClientReply, FoundFile, Gathered, GrabUpdate, ImportMode, ImportOutcome, ImportSummary, Located,
    LocateState, PickError, PlaceNext, PlaceStep, Placement, Placing, Seen, StepResult,
};
use crate::laws::spelling;
use crate::remote_path;
use crate::remote_path::{PathMapping, Translation};
use crate::text;

verus! {

/// The containers a video comes in, in any letter case.
pub open spec fn is_container(extension: Seq<char>) -> bool {
    ||| spelling::reads_as(extension, seq!['m', 'k', 'v'])
    ||| spelling::reads_as(extension, seq!['m', 'p', '4'])
    ||| spelling::reads_as(extension, seq!['a', 'v', 'i'])
    ||| spelling::reads_as(extension, seq!['m', '4', 'v'])
    ||| spelling::reads_as(extension, seq!['m', 'p', 'g'])
    ||| spelling::reads_as(extension, seq!['m', 'p', 'e', 'g'])
    ||| spelling::reads_as(extension, seq!['m', 'o', 'v'])
    ||| spelling::reads_as(extension, seq!['w', 'm', 'v'])
    ||| spelling::reads_as(extension, seq!['t', 's'])
    ||| spelling::reads_as(extension, seq!['m', '2', 't', 's'])
    ||| spelling::reads_as(extension, seq!['w', 'e', 'b', 'm'])
}

/// Whether a text names a folder to append a name to: nothing, or a text that
/// ends in a slash.
pub open spec fn is_opening(dir: Seq<char>) -> bool {
    dir.len() == 0 || dir.last() == '/'
}

proof fn lemma_container(extension: Seq<char>)
    ensures
        import::is_video_extension(text::lowered(extension)) <==> is_container(extension),
{
    reveal_strlit("mkv");
    reveal_strlit("mp4");
    reveal_strlit("avi");
    reveal_strlit("m4v");
    reveal_strlit("mpg");
    reveal_strlit("mpeg");
    reveal_strlit("mov");
    reveal_strlit("wmv");
    reveal_strlit("ts");
    reveal_strlit("m2ts");
    reveal_strlit("webm");
    assert("mkv"@ =~= seq!['m', 'k', 'v']);
    assert("mp4"@ =~= seq!['m', 'p', '4']);
    assert("avi"@ =~= seq!['a', 'v', 'i']);
    assert("m4v"@ =~= seq!['m', '4', 'v']);
    assert("mpg"@ =~= seq!['m', 'p', 'g']);
    assert("mpeg"@ =~= seq!['m', 'p', 'e', 'g']);
    assert("mov"@ =~= seq!['m', 'o', 'v']);
    assert("wmv"@ =~= seq!['w', 'm', 'v']);
    assert("ts"@ =~= seq!['t', 's']);
    assert("m2ts"@ =~= seq!['m', '2', 't', 's']);
    assert("webm"@ =~= seq!['w', 'e', 'b', 'm']);
    spelling::lemma_reads(extension, "mkv"@);
    spelling::lemma_reads(extension, "mp4"@);
    spelling::lemma_reads(extension, "avi"@);
    spelling::lemma_reads(extension, "m4v"@);
    spelling::lemma_reads(extension, "mpg"@);
    spelling::lemma_reads(extension, "mpeg"@);
    spelling::lemma_reads(extension, "mov"@);
    spelling::lemma_reads(extension, "wmv"@);
    spelling::lemma_reads(extension, "ts"@);
    spelling::lemma_reads(extension, "m2ts"@);
    spelling::lemma_reads(extension, "webm"@);
}

/// A path whose file name is a stem, a dot and an extension is a video
/// exactly where the extension is a video container's.
pub proof fn a_video_is_known_by_its_container(
    dir: Seq<char>,
    stem: Seq<char>,
    extension: Seq<char>,
    separator: char,
)
    requires
        is_opening(dir),
        stem.len() > 0,
        extension.len() > 0,
        !extension.contains('.'),
        text::free_of(stem, set!['/', separator]),
        text::free_of(extension, set!['/', separator]),
        separator != '.',
    ensures
        import::video(dir + stem + seq!['.'] + extension, separator) <==> is_container(extension),
{
    let name = stem + seq!['.'] + extension;
    let path = dir + stem + seq!['.'] + extension;
    assert(path =~= host_path::join_path(dir, name, separator)) by {
        assert(dir.len() > 0 ==> host_path::host_seps(separator).contains('/'));
    }
    assert forall|i: int| 0 <= i < name.len() implies !host_path::host_seps(separator).contains(
        #[trigger] name[i],
    ) by {
        if i < stem.len() {
            assert(!set!['/', separator].contains(stem[i]));
        } else if i > stem.len() {
            assert(!set!['/', separator].contains(extension[i - stem.len() - 1]));
        }
    }
    host_path::lemma_joined_name(dir, name, separator);
    import::lemma_last_dot(stem, extension);
    assert(name.skip(stem.len() as int + 1) =~= extension);
    lemma_container(extension);
}

/// A name without a dot, or with its only dot in front, is no video.
pub proof fn a_bare_name_is_no_video(dir: Seq<char>, name: Seq<char>, separator: char)
    requires
        is_opening(dir),
        name.len() > 0,
        text::free_of(name, set!['/', separator]),
        forall|i: int| 0 < i < name.len() ==> #[trigger] name[i] != '.',
        name != seq!['.'],
    ensures
        !import::video(dir + name, separator),
{
    assert(dir + name =~= host_path::join_path(dir, name, separator)) by {
        assert(dir.len() > 0 ==> host_path::host_seps(separator).contains('/'));
    }
    assert(name != seq!['.', '.']) by {
        if name.len() == 2 {
            assert(name[1] != '.');
        }
    }
    host_path::lemma_joined_name(dir, name, separator);
    lemma_dot_in_front(name);
}

proof fn lemma_dot_in_front(name: Seq<char>)
    requires
        forall|i: int| 0 < i < name.len() ==> #[trigger] name[i] != '.',
    ensures
        match host_path::last_index(name, '.') {
            Some(i) => i == 0,
            None => true,
        },
    decreases name.len(),
{
    if name.len() > 1 {
        assert(name[name.len() - 1] != '.');
        lemma_dot_in_front(name.drop_last());
    } else if name.len() == 1 {
        assert(name.drop_last().len() == 0);
        assert(host_path::last_index(name.drop_last(), '.') is None);
    }
}

/// A download that is one file is picked as it is where it is a video, and
/// refused for good where it is not, whatever it was grabbed for.
pub proof fn a_single_file_is_picked_where_it_is_a_video(
    r: Result<String, PickError>,
    dir: Seq<char>,
    stem: Seq<char>,
    extension: Seq<char>,
    episode: Option<(u16, u16)>,
    separator: char,
)
    requires
        is_opening(dir),
        stem.len() > 0,
        extension.len() > 0,
        !extension.contains('.'),
        text::free_of(stem, set!['/', separator]),
        text::free_of(extension, set!['/', separator]),
        separator != '.',
        import::is_pick(
            r,
            dir + stem + seq!['.'] + extension,
            Seen::File,
            episode,
            separator,
        ),
    ensures
        is_container(extension) ==> (r matches Ok(p) && p@ == dir + stem + seq!['.'] + extension),
        !is_container(extension) ==> r matches Err(PickError::BadContent(_)),
{
    a_video_is_known_by_its_container(dir, stem, extension, separator);
}

/// A download that cannot be looked at waits: it is never refused for good.
pub proof fn an_unseen_download_waits(
    r: Result<String, PickError>,
    source: Seq<char>,
    why: String,
    episode: Option<(u16, u16)>,
    separator: char,
)
    requires
        import::is_pick(r, source, Seen::NotVisible(why), episode, separator),
    ensures
        r == Err::<String, PickError>(PickError::NotVisible(why)),
{
}

// ---------------------------------------------------------------------
// Samples
// ---------------------------------------------------------------------

/// Whether a character stands between the words of a release's name.
pub open spec fn is_break(c: char) -> bool {
    c == '.' || c == '-' || c == '_' || c == ' ' || c == '(' || c == ')' || c == '[' || c == ']'
}

/// Whether the word `sample` stands at a place, in any letter case, between
/// breaks or at the ends.
pub open spec fn sample_at(name: Seq<char>, at: int) -> bool {
    &&& 0 <= at && at + 6 <= name.len()
    &&& spelling::reads_as(name.subrange(at, at + 6), seq!['s', 'a', 'm', 'p', 'l', 'e'])
    &&& at == 0 || is_break(name[at - 1])
    &&& at + 6 == name.len() || is_break(name[at + 6])
}

/// A name that holds the word `sample` is a sample's.
pub proof fn the_word_sample_makes_a_sample(name: Seq<char>, at: int)
    requires
        sample_at(name, at),
    ensures
        import::says_sample(name),
{
    reveal_strlit("sample");
    let word = seq!['s', 'a', 'm', 'p', 'l', 'e'];
    assert("sample"@ =~= word);
    let low = text::lowered(name);
    let seps = import::token_breaks();
    let here = name.subrange(at, at + 6);
    spelling::lemma_reads(here, word);
    assert(low.subrange(at, at + 6) =~= text::lowered(here));
    assert forall|i: int| 0 <= i < 6 implies !seps.contains(#[trigger] low.subrange(at, at + 6)[i]) by {
        assert(low.subrange(at, at + 6)[i] == word[i]);
    }
    if at > 0 {
        assert(low[at - 1] == name[at - 1]);
    }
    if at + 6 < name.len() {
        assert(low[at + 6] == name[at + 6]);
    }
    let k = text::lemma_split_holds(low, seps, at, at + 6);
    assert(text::split(low, seps)[k] == word);
}

/// A name in which `sample` stands nowhere, in any letter case, is no
/// sample's.
pub proof fn another_word_makes_no_sample(name: Seq<char>)
    requires
        forall|at: int|
            0 <= at && at + 6 <= name.len() ==> !spelling::reads_as(
                #[trigger] name.subrange(at, at + 6),
                seq!['s', 'a', 'm', 'p', 'l', 'e'],
            ),
    ensures
        !import::says_sample(name),
{
    reveal_strlit("sample");
    let word = seq!['s', 'a', 'm', 'p', 'l', 'e'];
    assert("sample"@ =~= word);
    let low = text::lowered(name);
    let seps = import::token_breaks();
    if import::says_sample(name) {
        let f = text::split(low, seps);
        let k = choose|k: int| 0 <= k < f.len() && f[k] == word;
        fuzzy::lemma_fragment_stands(low, seps, k);
        let at = choose|at: int| text::occurs_at(low, word, at);
        let here = name.subrange(at, at + 6);
        assert(low.subrange(at, at + 6) =~= text::lowered(here));
        spelling::lemma_reads(here, word);
    }
}

/// A file is a sample where a name on its way down from the download says so.
pub proof fn a_folder_can_make_a_sample(
    path: Seq<char>,
    base: Seq<char>,
    below: Seq<Seq<char>>,
    separator: char,
)
    requires
        host_path::under(path, base, separator),
        host_path::parts(path, separator) == host_path::parts(base, separator) + below,
    ensures
        import::sampled(path, base, separator) <==> exists|i: int|
            0 <= i < below.len() && import::says_sample(#[trigger] below[i]),
{
    let n = host_path::parts(base, separator).len() as int;
    assert(host_path::parts(path, separator).skip(n) =~= below);
    assert(import::parts_below(path, base, separator) == below);
    if exists|i: int| 0 <= i < below.len() && import::says_sample(#[trigger] below[i]) {
        let i = choose|i: int| 0 <= i < below.len() && import::says_sample(#[trigger] below[i]);
        assert(import::says_sample(import::parts_below(path, base, separator)[i]));
    }
}

// ---------------------------------------------------------------------
// Picking from a folder
// ---------------------------------------------------------------------

/// Whether a file is a candidate: a video, and no sample.
pub open spec fn is_candidate(f: FoundFile, source: Seq<char>, separator: char) -> bool {
    import::video(f.path@, separator) && !import::sampled(f.path@, source, separator)
}

proof fn lemma_places(files: Seq<FoundFile>, source: Seq<char>, separator: char)
    ensures
        forall|i: int|
            0 <= i < import::importables(files, source, separator).len() ==> 0
                <= #[trigger] import::importables(files, source, separator)[i] < files.len()
                && is_candidate(
                files[import::importables(files, source, separator)[i]],
                source,
                separator,
            ),
        forall|f: int|
            0 <= f < files.len() && is_candidate(#[trigger] files[f], source, separator)
                ==> import::importables(files, source, separator).contains(f),
        forall|i: int, j: int|
            0 <= i < j < import::importables(files, source, separator).len()
                ==> #[trigger] import::importables(files, source, separator)[i]
                < #[trigger] import::importables(files, source, separator)[j],
    decreases files.len(),
{
    if files.len() > 0 {
        let short = files.drop_last();
        lemma_places(short, source, separator);
        let before = import::importables(short, source, separator);
        let all = import::importables(files, source, separator);
        assert forall|i: int| 0 <= i < all.len() implies 0 <= #[trigger] all[i] < files.len()
            && is_candidate(files[all[i]], source, separator) by {
            if i < before.len() {
                assert(all[i] == before[i]);
                assert(short[before[i]] == files[before[i]]);
            }
        }
        assert forall|f: int| 0 <= f < files.len() && is_candidate(
            #[trigger] files[f],
            source,
            separator,
        ) implies all.contains(f) by {
            if f < short.len() {
                assert(short[f] == files[f]);
                let i = choose|i: int| 0 <= i < before.len() && before[i] == f;
                assert(all[i] == f);
            } else {
                assert(all[before.len() as int] == f);
            }
        }
        assert forall|i: int, j: int| 0 <= i < j < all.len() implies #[trigger] all[i]
            < #[trigger] all[j] by {
            assert(all[i] == before[i]);
            if j < before.len() {
                assert(all[j] == before[j]);
            }
        }
    }
}

proof fn lemma_naming(
    files: Seq<FoundFile>,
    places: Seq<int>,
    episode: (u16, u16),
    separator: char,
)
    ensures
        forall|i: int|
            0 <= i < import::naming(files, places, episode, separator).len() ==> places.contains(
                #[trigger] import::naming(files, places, episode, separator)[i],
            ) && import::names_it(
                files[import::naming(files, places, episode, separator)[i]],
                episode,
                separator,
            ),
        forall|i: int|
            0 <= i < places.len() && import::names_it(
                files[#[trigger] places[i]],
                episode,
                separator,
            ) ==> import::naming(files, places, episode, separator).contains(places[i]),
    decreases places.len(),
{
    if places.len() > 0 {
        let short = places.drop_last();
        lemma_naming(files, short, episode, separator);
        let before = import::naming(files, short, episode, separator);
        let all = import::naming(files, places, episode, separator);
        assert forall|i: int| 0 <= i < all.len() implies places.contains(#[trigger] all[i])
            && import::names_it(files[all[i]], episode, separator) by {
            if i < before.len() {
                assert(all[i] == before[i]);
                let k = choose|k: int| 0 <= k < short.len() && short[k] == before[i];
                assert(places[k] == before[i]);
            } else {
                assert(places[places.len() - 1] == all[i]);
            }
        }
        assert forall|i: int| 0 <= i < places.len() && import::names_it(
            files[#[trigger] places[i]],
            episode,
            separator,
        ) implies all.contains(places[i]) by {
            if i < short.len() {
                assert(short[i] == places[i]);
                let k = choose|k: int| 0 <= k < before.len() && before[k] == places[i];
                assert(all[k] == places[i]);
            } else {
                assert(all[before.len() as int] == places[i]);
            }
        }
    }
}

/// What is picked from a folder is one of its files, a video and no sample.
/// Where there is no such file nothing is picked, for good.
pub proof fn what_is_picked_is_a_video_and_no_sample(
    r: Result<String, PickError>,
    source: Seq<char>,
    files: Vec<FoundFile>,
    episode: Option<(u16, u16)>,
    separator: char,
)
    requires
        import::is_pick(r, source, Seen::Folder(files), episode, separator),
    ensures
        r matches Ok(p) ==> exists|f: int|
            0 <= f < files@.len() && (#[trigger] files@[f]).path@ == p@ && is_candidate(
                files@[f],
                source,
                separator,
            ),
        r matches Err(e) ==> e is BadContent,
        (forall|f: int|
            0 <= f < files@.len() ==> !is_candidate(#[trigger] files@[f], source, separator))
            ==> r is Err,
        episode is None && (exists|f: int|
            0 <= f < files@.len() && is_candidate(#[trigger] files@[f], source, separator))
            ==> r is Ok,
{
    let all = files@;
    let places = import::importables(all, source, separator);
    lemma_places(all, source, separator);
    if let Some(e) = episode {
        lemma_naming(all, places, e, separator);
    }
    if let Ok(p) = r {
        if episode is Some && import::naming(all, places, episode->0, separator).len() == 1 {
            let at = import::naming(all, places, episode->0, separator)[0];
            let k = choose|k: int| 0 <= k < places.len() && places[k] == at;
            assert(all[at].path@ == p@);
            assert(is_candidate(all[places[k]], source, separator));
        } else {
            let k = choose|k: int|
                #[trigger] import::is_largest(all, places, separator, k) && p@
                    == all[places[k]].path@;
            assert(is_candidate(all[places[k]], source, separator));
        }
    }
    if exists|f: int| 0 <= f < all.len() && is_candidate(#[trigger] all[f], source, separator) {
        let f = choose|f: int|
            0 <= f < all.len() && is_candidate(#[trigger] all[f], source, separator);
        assert(places.contains(f));
    }
}

/// Where no episode is looked for, no candidate is larger than the one that
/// is picked, and among those as large none comes before it by its path.
pub proof fn a_film_is_the_largest_video(
    r: Result<String, PickError>,
    source: Seq<char>,
    files: Vec<FoundFile>,
    separator: char,
    f: int,
)
    requires
        import::is_pick(r, source, Seen::Folder(files), None, separator),
        0 <= f < files@.len(),
        is_candidate(files@[f], source, separator),
    ensures
        exists|g: int|
            0 <= g < files@.len() && r == Ok::<String, PickError>(r->Ok_0) && (#[trigger] files@[g]).path@
                == r->Ok_0@ && (files@[g].size > files@[f].size || (files@[g].size == files@[f].size
                && !host_path::path_less(files@[f].path@, files@[g].path@, separator))),
{
    let all = files@;
    let places = import::importables(all, source, separator);
    lemma_places(all, source, separator);
    assert(places.contains(f));
    let j = choose|j: int| 0 <= j < places.len() && places[j] == f;
    let k = choose|k: int|
        #[trigger] import::is_largest(all, places, separator, k) && (r matches Ok(p) && p@
            == all[places[k]].path@);
    assert(all[places[k]].path@ == r->Ok_0@);
    if k != j {
        assert(!import::chosen_over(all[places[j]], all[places[k]], separator));
    } else {
        let p = host_path::places(all[f].path@, separator);
        host_path::lemma_parts_less(p, p, p);
    }
}

/// Where one candidate alone names the episode, it is picked, however large
/// the others are. Where several candidates are there and none names it,
/// nothing is picked.
pub proof fn an_episode_is_the_video_that_names_it(
    r: Result<String, PickError>,
    source: Seq<char>,
    files: Vec<FoundFile>,
    episode: (u16, u16),
    separator: char,
    f: int,
    g: int,
)
    requires
        import::is_pick(r, source, Seen::Folder(files), Some(episode), separator),
        0 <= f < files@.len(),
        0 <= g < files@.len(),
        is_candidate(files@[f], source, separator),
        is_candidate(files@[g], source, separator),
    ensures
        import::names_it(files@[f], episode, separator) && (forall|h: int|
            0 <= h < files@.len() && h != f && is_candidate(#[trigger] files@[h], source, separator)
                ==> !import::names_it(files@[h], episode, separator)) ==> (r matches Ok(p) && p@
            == files@[f].path@),
        f != g && (forall|h: int|
            0 <= h < files@.len() && is_candidate(#[trigger] files@[h], source, separator)
                ==> !import::names_it(files@[h], episode, separator)) ==> r is Err,
{
    let all = files@;
    let places = import::importables(all, source, separator);
    let found = import::naming(all, places, episode, separator);
    lemma_places(all, source, separator);
    lemma_naming(all, places, episode, separator);
    assert(places.contains(f) && places.contains(g));
    let i = choose|i: int| 0 <= i < places.len() && places[i] == f;
    let j = choose|j: int| 0 <= j < places.len() && places[j] == g;
    if import::names_it(all[f], episode, separator) && (forall|h: int|
        0 <= h < all.len() && h != f && is_candidate(#[trigger] all[h], source, separator)
            ==> !import::names_it(all[h], episode, separator)) {
        assert(import::names_it(all[places[i]], episode, separator));
        assert(found.contains(places[i]));
        lemma_naming_once(all, places, episode, separator, i);
        assert(found.len() == 1 && found[0] == f);
    }
    if f != g && (forall|h: int|
        0 <= h < all.len() && is_candidate(#[trigger] all[h], source, separator)
            ==> !import::names_it(all[h], episode, separator)) {
        assert(i != j);
        assert(places.len() > 1);
        if found.len() > 0 {
            assert(places.contains(found[0]));
            let k = choose|k: int| 0 <= k < places.len() && places[k] == found[0];
            assert(is_candidate(all[places[k]], source, separator));
        }
    }
}

proof fn lemma_naming_once(
    files: Seq<FoundFile>,
    places: Seq<int>,
    episode: (u16, u16),
    separator: char,
    i: int,
)
    requires
        0 <= i < places.len(),
        import::names_it(files[places[i]], episode, separator),
        forall|j: int|
            0 <= j < places.len() && j != i ==> !import::names_it(
                files[#[trigger] places[j]],
                episode,
                separator,
            ),
    ensures
        import::naming(files, places, episode, separator) == seq![places[i]],
    decreases places.len(),
{
    let short = places.drop_last();
    if i < short.len() {
        assert(places[places.len() - 1] == places.last());
        assert forall|j: int| 0 <= j < short.len() && j != i implies !import::names_it(
            files[#[trigger] short[j]],
            episode,
            separator,
        ) by {
            assert(short[j] == places[j]);
        }
        assert(short[i] == places[i]);
        lemma_naming_once(files, short, episode, separator, i);
    } else {
        lemma_naming_none(files, short, episode, separator);
        assert(import::naming(files, places, episode, separator) =~= seq![places[i]]);
    }
}

proof fn lemma_naming_none(
    files: Seq<FoundFile>,
    places: Seq<int>,
    episode: (u16, u16),
    separator: char,
)
    requires
        forall|j: int|
            0 <= j < places.len() && j < places.len() ==> !import::names_it(
                files[#[trigger] places[j]],
                episode,
                separator,
            ),
    ensures
        import::naming(files, places, episode, separator) == Seq::<int>::empty(),
    decreases places.len(),
{
    if places.len() > 0 {
        let short = places.drop_last();
        assert(forall|j: int| 0 <= j < short.len() ==> #[trigger] short[j] == places[j]);
        assert(places[places.len() - 1] == places.last());
        lemma_naming_none(files, short, episode, separator);
    }
}

// ---------------------------------------------------------------------
// Placing
// ---------------------------------------------------------------------

/// A file is linked, copied or renamed as configured, and only where nothing
/// is in the way.
pub proof fn a_file_is_placed_as_configured(
    mode: ImportMode,
    result: StepResult,
    destination: Seq<char>,
    parent: Seq<char>,
    next: PlaceNext,
)
    requires
        import::follows(mode, PlaceStep::Look, result, destination, parent, next),
    ensures
        !(result is Done) <==> next is Refused,
        result is Done && mode == ImportMode::Hardlink ==> next == PlaceNext::Step(PlaceStep::Link),
        result is Done && mode == ImportMode::Copy ==> next == PlaceNext::Step(PlaceStep::Copy),
        result is Done && mode == ImportMode::Move ==> next == PlaceNext::Step(PlaceStep::Rename),
{
}

/// What cannot be linked or renamed is copied, and what is told is what was
/// done: a link, a copy or a move. A moved file's source goes last.
pub proof fn what_is_told_is_what_was_done(
    mode: ImportMode,
    step: PlaceStep,
    result: StepResult,
    destination: Seq<char>,
    parent: Seq<char>,
    next: PlaceNext,
)
    requires
        import::follows(mode, step, result, destination, parent, next),
    ensures
        step == PlaceStep::Link ==> (result is Done <==> next == PlaceNext::Placed(
            ImportMode::Hardlink,
        )),
        step == PlaceStep::Link ==> (!(result is Done) <==> next == PlaceNext::Step(
            PlaceStep::Copy,
        )),
        step == PlaceStep::Rename ==> (result is Done <==> next == PlaceNext::Placed(
            ImportMode::Move,
        )),
        step == PlaceStep::Rename ==> (!(result is Done) <==> next == PlaceNext::Step(
            PlaceStep::Copy,
        )),
        step == PlaceStep::Copy ==> (result is Failed <==> next is Refused),
        step == PlaceStep::Copy && !(result is Failed) ==> next == if mode == ImportMode::Move {
            PlaceNext::Step(PlaceStep::RemoveSource)
        } else {
            PlaceNext::Placed(ImportMode::Copy)
        },
        step == PlaceStep::RemoveSource ==> (result is Failed <==> next is Refused),
        step == PlaceStep::RemoveSource && !(result is Failed) ==> next == PlaceNext::Placed(
            ImportMode::Move,
        ),
        step == PlaceStep::MakeFolder ==> (result is Failed <==> next is Refused),
        step == PlaceStep::MakeFolder && !(result is Failed) ==> next == PlaceNext::Step(
            PlaceStep::Look,
        ),
{
}

/// Placing starts by making the folder, where there is one to make.
pub proof fn the_folder_is_made_first(r: PlaceStep, has_parent: bool)
    requires
        import::is_place_start(r, has_parent),
    ensures
        has_parent <==> r == PlaceStep::MakeFolder,
        !has_parent <==> r == PlaceStep::Look,
{
}

/// Files are linked unless `copy` or `move` is configured.
pub proof fn files_are_linked_unless_said_otherwise(r: ImportMode, stored: Option<&str>)
    requires
        import::is_mode(r, stored),
    ensures
        stored is None ==> r == ImportMode::Hardlink,
        stored matches Some(s) ==> (s@ == seq!['c', 'o', 'p', 'y'] ==> r == ImportMode::Copy),
        stored matches Some(s) ==> (s@ == seq!['m', 'o', 'v', 'e'] ==> r == ImportMode::Move),
        stored matches Some(s) ==> (text::trim(s@) != seq!['c', 'o', 'p', 'y'] && text::trim(s@)
            != seq!['m', 'o', 'v', 'e'] ==> r == ImportMode::Hardlink),
{
    reveal_strlit("copy");
    reveal_strlit("move");
    assert("copy"@ =~= seq!['c', 'o', 'p', 'y']);
    assert("move"@ =~= seq!['m', 'o', 'v', 'e']);
    text::lemma_trim_tight(seq!['c', 'o', 'p', 'y']);
    text::lemma_trim_tight(seq!['m', 'o', 'v', 'e']);
    assert(seq!['c', 'o', 'p', 'y'][0] != seq!['m', 'o', 'v', 'e'][0]);
}

/// Folders are looked into three deep.
pub proof fn three_folders_deep(r: bool, depth: u8)
    requires
        import::is_descended(r, depth),
    ensures
        r <==> depth == 0 || depth == 1 || depth == 2,
{
}

// ---------------------------------------------------------------------
// How an import ends
// ---------------------------------------------------------------------

/// A download that cannot be seen yet waits; one with nothing to import, or
/// whose placing failed, has failed for good; one whose file is already there
/// is imported with it.
pub proof fn only_what_cannot_be_seen_waits(
    r: ImportOutcome,
    source: &str,
    placing: Placing,
    update: GrabUpdate,
)
    requires
        import::is_placed(r, source, placing),
        import::is_update(update, r),
    ensures
        r is Waiting <==> (placing matches Placing::NoVideo(e) && e is NotVisible),
        r is Permanent <==> (placing matches Placing::NoVideo(e) && e is BadContent) || (
        placing matches Placing::Ran(_, ran) && ran is Err),
        placing matches Placing::Ran(path, Ok(mode)) ==> r == (ImportOutcome::Imported {
            path,
            mode,
        }),
        placing matches Placing::Occupied(path) ==> r == (ImportOutcome::AlreadyPresent { path }),
        update is SetWaitReason <==> r is Waiting,
        update is MarkFailed <==> r is Permanent,
        update is MarkImported <==> r is Imported || r is AlreadyPresent,
        placing matches Placing::Ran(path, Ok(mode)) ==> (update matches GrabUpdate::MarkImported(p)
            && p@ == path@),
        placing matches Placing::Occupied(path) ==> (update matches GrabUpdate::MarkImported(p)
            && p@ == path@),
        placing matches Placing::Ran(_, Err(why)) ==> (update matches GrabUpdate::MarkFailed(m)
            && m@ == why@),
        placing matches Placing::NoVideo(PickError::BadContent(why)) ==> (
        update matches GrabUpdate::MarkFailed(m) && m@ == why@),
        placing matches Placing::NoVideo(PickError::NotVisible(why)) ==> (
        update matches GrabUpdate::SetWaitReason(m) && m@ == "não consegui abrir "@ + source@ + ": "@
            + why@),
{
}

/// Each import adds one to what was considered, and one to what came of it.
pub proof fn an_import_pass_adds_up(
    before: ImportSummary,
    after: ImportSummary,
    outcomes: Seq<ImportOutcome>,
    o: ImportOutcome,
)
    requires
        import::counts(before, outcomes),
        import::counts(after, outcomes.push(o)),
    ensures
        after.considered == before.considered + 1,
        after.imported - before.imported == if o is Imported { 1int } else { 0int },
        after.adopted - before.adopted == if o is AlreadyPresent { 1int } else { 0int },
        after.waiting - before.waiting == if o is Waiting { 1int } else { 0int },
        after.failed - before.failed == if o is Permanent { 1int } else { 0int },
{
    assert(outcomes.push(o).drop_last() =~= outcomes);
}

/// A pass takes three downloads at most, and none while paused.
pub proof fn a_pass_takes_three(r: usize, paused: bool, pending: usize)
    requires
        import::is_pass_size(r, paused, pending),
    ensures
        paused ==> r == 0,
        !paused && pending < 3 ==> r == pending,
        !paused && pending >= 3 ==> r == 3,
{
}

/// A download is found where its client says it was saved, and nowhere else.
pub proof fn a_download_lies_where_its_client_says(
    r: Result<Located, String>,
    reply: ClientReply,
    client: &str,
    mappings: Seq<PathMapping>,
    separator: char,
    state: LocateState,
)
    requires
        import::is_found(r, reply, client, mappings, separator),
        r is Ok ==> import::is_locate_state(state, r->Ok_0),
    ensures
        r is Ok <==> (reply matches ClientReply::Saved(Some(p)) && p@.len() > 0),
        r matches Ok(l) ==> l.reported@ == (reply->Saved_0)->0@ && l.client_name@ == client@,
        r matches Ok(l) ==> exists|t: Translation| #[trigger]
            remote_path::translates(mappings, l.reported@, separator, t) && l.path == t.local
                && l.applied == t.applied,
        r matches Ok(l) ==> (l.applied is Some <==> state == LocateState::Translated),
{
}

/// A title is filed under its root once it is in the library, has a root and
/// lies where it can be opened; a title that left the library never is, and
/// the others wait.
pub proof fn a_title_is_filed_once_everything_is_known(
    r: Result<(Placement, Located), ImportOutcome>,
    g: Gathered,
)
    requires
        import::is_plan(r, g),
    ensures
        r is Ok <==> g.item is Some && g.root is Some && (g.located matches Ok(l) && l.usable),
        r matches Err(o) ==> (o is Permanent <==> g.item is None),
        r matches Err(o) ==> (o is Waiting <==> g.item is Some),
        r matches Ok((p, at)) ==> {
            &&& p.root@ == g.root->0.path@
            &&& p.title@ == g.item->0.title@
            &&& p.year == g.item->0.year
            &&& p.mode == g.mode
            &&& g.located == Ok::<Located, String>(at)
            &&& g.episode is None ==> p.episode is None
            &&& g.episode matches Some(e) ==> (0 <= e.season_number <= 65_535 && 0
                <= e.episode_number <= 65_535 ==> p.episode == Some(
                (e.season_number as u16, e.episode_number as u16),
            ))
        },
{
}

/// What an import came to is told as it is, but where it waits for a path
/// that no rule translated: then the missing rule is told of.
pub proof fn a_missing_rule_is_told_of(r: ImportOutcome, outcome: ImportOutcome, located: Located)
    requires
        import::is_final(r, outcome, located),
    ensures
        !(outcome is Waiting) ==> r == outcome,
        located.applied is Some ==> r == outcome,
        outcome is Waiting <==> r is Waiting,
        outcome is Waiting && located.applied is None ==> (r matches ImportOutcome::Waiting(m) && m@
            == import::unreachable_text(located)),
{
}

/// A title pinned to a root folder goes there while the folder is registered;
/// otherwise it goes to a folder for its kind, else to one for any kind.
pub proof fn a_pinned_title_goes_where_it_was_pinned(
    r: Option<&RootFolder>,
    item: LibraryItem,
    folders: Seq<RootFolder>,
    separator: char,
    k: int,
)
    requires
        import::is_root(r, item, folders, separator),
        0 <= k < folders.len(),
    ensures
        item.root_folder is None ==> (folders[k].media_type == Some(item.media_type) ==> (
        r matches Some(f) && f.media_type == Some(item.media_type))),
        item.root_folder is None ==> (folders[k].media_type is None ==> r is Some),
        item.root_folder matches Some(p) ==> (text::trim(p@).len() > 0 && root_folders::first_at(
            folders,
            text::trim(p@),
            separator,
            k,
        ) ==> (r matches Some(f) && *f == folders[k])),
{
    if item.root_folder is None {
        if folders[k].media_type == Some(item.media_type) {
            assert(!root_folders::none_serving(folders, Some(item.media_type)));
        }
        if folders[k].media_type is None {
            assert(!root_folders::none_serving(folders, None));
        }
    }
    if let Some(p) = item.root_folder {
        let pin = text::trim(p@);
        if pin.len() > 0 && root_folders::first_at(folders, pin, separator, k) {
            assert(!root_folders::none_at(folders, pin, separator));
            let i = choose|i: int|
                #[trigger] root_folders::first_at(folders, pin, separator, i) && (r matches Some(f)
                    && *f == folders[i]);
            if i < k {
                assert(root_folders::same_place(folders[i].path@, pin, separator));
            } else if k < i {
                assert(root_folders::same_place(folders[k].path@, pin, separator));
            }
        }
    }
}

// ---------------------------------------------------------------------
// Reusing folders
// ---------------------------------------------------------------------

/// A title's folder is reused exactly where its own is not there and one
/// other folder stands for the title.
pub proof fn one_folder_of_the_title_is_reused(
    root: Seq<char>,
    path: Seq<char>,
    exists_already: bool,
    dirs: Seq<String>,
    rest: Seq<Seq<char>>,
    separator: char,
)
    requires
        host_path::under(path, root, separator),
        host_path::parts(path, separator) == host_path::parts(root, separator) + rest,
        rest.len() > 0,
        rest[0].len() > 2,
    ensures
        exists_already ==> import::item_folder_swapped(root, path, exists_already, dirs, separator)
            == path,
        import::title_matches(rest[0], dirs).len() != 1 ==> import::item_folder_swapped(
            root,
            path,
            exists_already,
            dirs,
            separator,
        ) == path,
        !exists_already && import::title_matches(rest[0], dirs).len() == 1
            ==> import::item_folder_swapped(root, path, exists_already, dirs, separator)
            == host_path::join_path(
            host_path::join_path(root, import::title_matches(rest[0], dirs)[0], separator),
            text::join(rest.skip(1), seq![separator]),
            separator,
        ),
{
    let n = host_path::parts(root, separator).len() as int;
    assert(host_path::parts(path, separator).skip(n) =~= rest);
}

/// A folder counts for a title exactly where it stands for it.
pub proof fn a_folder_counts_where_it_stands_for_the_title(
    wanted: Seq<char>,
    dirs: Seq<String>,
    dir: String,
)
    ensures
        import::one_title(wanted, dir@) ==> import::title_matches(wanted, dirs.push(dir))
            == import::title_matches(wanted, dirs).push(dir@),
        !import::one_title(wanted, dir@) ==> import::title_matches(wanted, dirs.push(dir))
            == import::title_matches(wanted, dirs),
        import::title_matches(wanted, Seq::empty()) == Seq::<Seq<char>>::empty(),
{
    assert(dirs.push(dir).drop_last() =~= dirs);
}

/// A season's folder is reused where another folder of the same season is
/// there; where none is, the file goes where it was going.
pub proof fn a_folder_of_the_season_is_reused(
    r: Seq<char>,
    path: Seq<char>,
    dirs: Seq<String>,
    own: Seq<char>,
    separator: char,
)
    requires
        import::is_season_reused(r, path, dirs, separator),
        host_path::parts(path, separator).len() >= 2,
        own == host_path::parts(path, separator)[host_path::parts(path, separator).len() - 2],
    ensures
        import::season_of(own) is None ==> r == path,
        (forall|j: int|
            0 <= j < dirs.len() ==> (#[trigger] dirs[j])@ == own || import::season_of(dirs[j]@)
                != import::season_of(own)) ==> r == path,
        r != path ==> exists|i: int|
            0 <= i < dirs.len() && (#[trigger] dirs[i])@ != own && import::season_of(dirs[i]@)
                == import::season_of(own) && import::is_season_swapped(r, path, dirs[i]@, separator),
        forall|i: int|
            0 <= i < dirs.len() && (#[trigger] dirs[i])@ != own && import::season_of(dirs[i]@)
                == import::season_of(own) && import::season_of(own) is Some && own.len() > 2
                && host_path::file_name(path, separator) is Some && (forall|j: int|
                0 <= j < i ==> (#[trigger] dirs[j])@ == own || import::season_of(dirs[j]@)
                    != import::season_of(own)) ==> import::is_season_swapped(
                r,
                path,
                dirs[i]@,
                separator,
            ),
{
    assert forall|i: int|
        0 <= i < dirs.len() && (#[trigger] dirs[i])@ != own && import::season_of(dirs[i]@)
            == import::season_of(own) && import::season_of(own) is Some && own.len() > 2
            && host_path::file_name(path, separator) is Some && (forall|j: int|
            0 <= j < i ==> (#[trigger] dirs[j])@ == own || import::season_of(dirs[j]@)
                != import::season_of(own)) implies import::is_season_swapped(
        r,
        path,
        dirs[i]@,
        separator,
    ) by {
        let season = import::season_of(own)->0;
        assert(import::first_season(dirs, own, season, i));
        assert(!import::no_season(dirs, own, season));
        let k = choose|k: int|
            #[trigger] import::first_season(dirs, own, season, k) && import::is_season_swapped(
                r,
                path,
                dirs[k]@,
                separator,
            );
        if k < i {
            assert(dirs[k]@ != own);
        } else if i < k {
            assert(dirs[i]@ != own);
        }
    }
    if r != path {
        let i = choose|i: int|
            #[trigger] import::first_season(dirs, own, import::season_of(own)->0, i)
                && import::is_season_swapped(r, path, dirs[i]@, separator);
        assert(dirs[i]@ != own);
    }
}

} // verus!
