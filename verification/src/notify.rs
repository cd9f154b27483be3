//! Telling media servers which titles gained a file.
//!
//! A server is told the title's own folder, never the file: the first
//! component under the most specific root folder. Nothing here can fail an
//! import.

use vstd::prelude::*;

use crate::host_path;
use crate::host_path::{
    below, components, is_under_on, join_onto, parent_text, parts_before, places_of, same_parts,
};
use crate::text;
use crate::text::{chars_of, string_of, trimmed_str};

verus! {

/// How long a pending Plex sign-in is remembered, in seconds.
pub const PLEX_LOGIN_TTL: u64 = 2100;

/// How often the sign-in fragment asks whether the token has landed, in
/// seconds.
pub const PLEX_LOGIN_POLL: u64 = 3;

/// A Plex sign-in waiting on the operator.
#[derive(Debug, Clone)]
pub struct PendingPlexLogin {
    /// plex.tv's id for the PIN.
    pub pin_id: i64,
    /// The code.
    pub code: String,
    /// When to stop asking, on a clock that only goes forward.
    pub deadline: i128,
}

/// Whether `r` says that a login is over.
pub open spec fn is_over(r: bool, p: PendingPlexLogin, now: i128) -> bool {
    r == (now >= p.deadline)
}

impl PendingPlexLogin {
    /// `true` once plex.tv would have forgotten the PIN anyway.
    pub fn is_expired(&self, now: i128) -> (r: bool)
        ensures
            is_over(r, *self, now),
    {
        now >= self.deadline
    }
}

/// A stored identity, when it holds anything.
pub open spec fn stored_identity(value: Option<&str>) -> Option<Seq<char>> {
    match value {
        Some(v) => if text::trim(v@).len() > 0 {
            Some(text::trim(v@))
        } else {
            None
        },
        None => None,
    }
}

/// The identity a stored setting holds, blank being none.
pub fn usable_identity(value: Option<&str>) -> (r: Option<String>)
    ensures
        text::opt_view(r) == stored_identity(value),
{
    match value {
        Some(v) => {
            let t = trimmed_str(v);
            if t.len() > 0 {
                Some(string_of(&t))
            } else {
                None
            }
        },
        None => None,
    }
}

/// The identity that is used: the one read back, else the one generated.
pub open spec fn is_identity(r: String, read_back: Option<&str>, generated: &str) -> bool {
    r@ == match stored_identity(read_back) {
        Some(v) => v,
        None => text::trim(generated@),
    }
}

/// The identity in force after one was generated and written: what is read
/// back decides, so that two first callers end up with the same one.
pub fn plex_identity(read_back: Option<&str>, generated: &str) -> (r: String)
    ensures
        is_identity(r, read_back, generated),
{
    match usable_identity(read_back) {
        Some(v) => v,
        None => string_of(&trimmed_str(generated)),
    }
}

// ---------------------------------------------------------------------
// Folders
// ---------------------------------------------------------------------

/// Whether root `k` is the most specific one holding the file: the longest
/// text in bytes, the last of equals.
pub open spec fn is_deepest(roots: Seq<String>, file: Seq<char>, separator: char, k: int) -> bool {
    &&& 0 <= k < roots.len()
    &&& host_path::under(file, roots[k]@, separator)
    &&& forall|j: int|
        0 <= j < roots.len() && host_path::under(file, (#[trigger] roots[j])@, separator) ==> {
            &&& byte_length(roots[j]@) <= byte_length(roots[k]@)
            &&& j > k ==> byte_length(roots[j]@) < byte_length(roots[k]@)
        }
}

/// How many bytes a text takes in UTF-8, as a machine counts them.
pub open spec fn byte_length(s: Seq<char>) -> usize {
    vstd::utf8::encode_utf8(s).len() as usize
}

pub open spec fn under_no_root(roots: Seq<String>, file: Seq<char>, separator: char) -> bool {
    forall|j: int|
        0 <= j < roots.len() ==> !host_path::under(file, (#[trigger] roots[j])@, separator)
}

/// The folder a file's title has under a root: the first component below
/// the root, and the root itself for a file that lies in it directly.
pub open spec fn folder_under(root: Seq<char>, file: Seq<char>, separator: char) -> Seq<char> {
    let rest = host_path::parts(file, separator).skip(
        host_path::parts(root, separator).len() as int,
    );
    if rest.len() > 1 {
        host_path::join_path(root, rest[0], separator)
    } else {
        root
    }
}

/// Whether `folder` is the title's folder of a file.
#[verifier::opaque]
pub open spec fn is_title_folder(
    folder: Seq<char>,
    roots: Seq<String>,
    file: Seq<char>,
    separator: char,
) -> bool {
    if under_no_root(roots, file, separator) {
        host_path::is_parent(folder, file, separator)
    } else {
        exists|k: int|
            #[trigger] is_deepest(roots, file, separator, k) && folder == folder_under(
                roots[k]@,
                file,
                separator,
            )
    }
}

/// The title's own folder, never the file: the first component under the
/// most specific root that holds the file (the root itself for a file that
/// lies in it directly), and the file's parent when no root does.
pub fn title_folder(roots: &[String], file: &str, separator: char) -> (r: String)
    ensures
        is_title_folder(r@, roots@, file@, separator),
{
    let mut best: Option<usize> = None;
    let mut i: usize = 0;
    while i < roots.len()
        invariant
            i <= roots.len(),
            match best {
                Some(k) => {
                    &&& k < i
                    &&& is_deepest(roots@.take(i as int), file@, separator, k as int)
                },
                None => forall|j: int|
                    0 <= j < i ==> !host_path::under(file@, (#[trigger] roots@[j])@, separator),
            },
        decreases roots.len() - i,
    {
        let ghost seen = roots@.take(i as int);
        let ghost next = roots@.take(i + 1);
        assert forall|j: int| 0 <= j < i implies #[trigger] next[j] == seen[j] by {}
        assert(next[i as int] == roots@[i as int]);
        if is_under_on(file, roots[i].as_str(), separator) {
            let here: usize = roots[i].as_str().len();
            let wins = match best {
                Some(k) => roots[k].as_str().len() <= here,
                None => true,
            };
            if wins {
                best = Some(i);
                assert(is_deepest(next, file@, separator, i as int)) by {
                    assert forall|j: int|
                        0 <= j < next.len() && host_path::under(
                            file@,
                            (#[trigger] next[j])@,
                            separator,
                        ) implies {
                        &&& byte_length(next[j]@) <= byte_length(next[i as int]@)
                        &&& j > i ==> byte_length(next[j]@) < byte_length(next[i as int]@)
                    } by {
                        if j < i {
                            assert(next[j] == seen[j]);
                        }
                    }
                }
            } else {
                proof {
                    let k = best->0 as int;
                    assert(next[k] == seen[k]);
                    assert(is_deepest(next, file@, separator, k)) by {
                        assert forall|j: int|
                            0 <= j < next.len() && host_path::under(
                                file@,
                                (#[trigger] next[j])@,
                                separator,
                            ) implies {
                            &&& byte_length(next[j]@) <= byte_length(next[k]@)
                            &&& j > k ==> byte_length(next[j]@) < byte_length(next[k]@)
                        } by {
                            if j < i {
                                assert(next[j] == seen[j]);
                            }
                        }
                    }
                }
            }
        } else {
            proof {
                if let Some(k) = best {
                    assert(next[k as int] == seen[k as int]);
                    assert(is_deepest(next, file@, separator, k as int)) by {
                        assert forall|j: int|
                            0 <= j < next.len() && host_path::under(
                                file@,
                                (#[trigger] next[j])@,
                                separator,
                            ) implies {
                            &&& byte_length(next[j]@) <= byte_length(next[k as int]@)
                            &&& j > k ==> byte_length(next[j]@) < byte_length(next[k as int]@)
                        } by {
                            if j < i {
                                assert(next[j] == seen[j]);
                            }
                        }
                    }
                }
            }
        }
        i += 1;
    }
    assert(roots@.take(roots.len() as int) == roots@);
    proof {
        reveal(is_title_folder);
    }
    match best {
        Some(k) => {
            assert(is_deepest(roots@, file@, separator, k as int));
            assert(!under_no_root(roots@, file@, separator)) by {
                assert(host_path::under(file@, roots@[k as int]@, separator));
            }
            match below(file, roots[k].as_str(), separator) {
                Some(rest) => {
                    let ghost p = text::chars_views(rest@);
                    assert(p.len() == rest.len());
                    if rest.len() > 1 {
                        assert(p[0] == rest@[0]@);
                        string_of(
                            &join_onto(&chars_of(roots[k].as_str()), &rest[0], separator),
                        )
                    } else {
                        roots[k].clone()
                    }
                },
                None => roots[k].clone(),
            }
        },
        None => string_of(&parent_text(&chars_of(file), separator)),
    }
}

/// What a media server is told is never the file itself: the title's folder
/// has fewer components, unless the file lies in no folder or is a root.
pub proof fn a_title_folder_is_never_the_file(
    folder: Seq<char>,
    roots: Seq<String>,
    file: Seq<char>,
    separator: char,
)
    requires
        is_title_folder(folder, roots, file, separator),
        host_path::has_parent(file, separator),
        forall|k: int|
            0 <= k < roots.len() ==> host_path::places((#[trigger] roots[k])@, separator)
                != host_path::places(file, separator),
    ensures
        host_path::parts(folder, separator).len() < host_path::parts(file, separator).len(),
        folder != file,
{
    reveal(is_title_folder);
    let p = host_path::parts(file, separator);
    if !under_no_root(roots, file, separator) {
        let k = choose|k: int|
            #[trigger] is_deepest(roots, file, separator, k) && folder == folder_under(
                roots[k]@,
                file,
                separator,
            );
        let root = roots[k]@;
        let n = host_path::parts(root, separator).len() as int;
        assert(host_path::under(file, root, separator));
        assert(host_path::places(root, separator).len() == n);
        assert(host_path::places(file, separator).len() == p.len());
        if n == p.len() {
            assert(host_path::places(file, separator).take(n) =~= host_path::places(
                file,
                separator,
            ));
        }
        if p.len() > n + 1 {
            host_path::lemma_parts_are_free(file, separator);
            assert(p.skip(n)[0] == p[n]);
            host_path::lemma_joined_length(root, p[n], separator);
        }
    }
}

/// What a folder's components are compared by.
pub open spec fn place(folder: String, separator: char) -> Seq<Seq<char>> {
    host_path::places(folder@, separator)
}

pub open spec fn lists_place(
    folders: Seq<String>,
    p: Seq<Seq<char>>,
    separator: char,
) -> bool {
    exists|i: int| 0 <= i < folders.len() && place(#[trigger] folders[i], separator) == p
}

/// Whether the folders are in component order, each place once.
pub open spec fn is_ordered(folders: Seq<String>, separator: char) -> bool {
    forall|i: int, j: int|
        0 <= i < j < folders.len() ==> host_path::parts_less(
            place(#[trigger] folders[i], separator),
            place(#[trigger] folders[j], separator),
        )
}

/// Whether `folders` are the title folders of the files: in order, each
/// once, none missing and none besides.
pub open spec fn are_folders(
    folders: Seq<String>,
    roots: Seq<String>,
    files: Seq<String>,
    separator: char,
) -> bool {
    &&& is_ordered(folders, separator)
    &&& forall|f: int|
        0 <= f < files.len() ==> lists_folder_of(
            folders,
            roots,
            (#[trigger] files[f])@,
            separator,
        )
    &&& forall|i: int|
        0 <= i < folders.len() ==> is_folder_of_some(
            (#[trigger] folders[i])@,
            roots,
            files,
            separator,
        )
}

/// Whether a file's title folder is on the list.
pub open spec fn lists_folder_of(
    folders: Seq<String>,
    roots: Seq<String>,
    file: Seq<char>,
    separator: char,
) -> bool {
    exists|t: Seq<char>|
        {
            &&& #[trigger] is_title_folder(t, roots, file, separator)
            &&& lists_place(folders, host_path::places(t, separator), separator)
        }
}

/// Whether a folder is the title folder of one of the files.
pub open spec fn is_folder_of_some(
    folder: Seq<char>,
    roots: Seq<String>,
    files: Seq<String>,
    separator: char,
) -> bool {
    exists|f: int|
        0 <= f < files.len() && is_title_folder(
            folder,
            roots,
            (#[trigger] files[f])@,
            separator,
        )
}

/// Where a folder is in an ordered list, or where it belongs.
fn find_place(folders: &[String], wanted: &[Vec<char>], separator: char) -> (r: (bool, usize))
    requires
        is_ordered(folders@, separator),
    ensures
        r.1 <= folders.len(),
        r.0 ==> r.1 < folders.len() && place(folders@[r.1 as int], separator) == text::chars_views(
            wanted@,
        ),
        !r.0 ==> forall|i: int|
            0 <= i < folders@.len() ==> if i < r.1 {
                host_path::parts_less(
                    place(#[trigger] folders@[i], separator),
                    text::chars_views(wanted@),
                )
            } else {
                host_path::parts_less(
                    text::chars_views(wanted@),
                    place(folders@[i], separator),
                )
            },
{
    let ghost w = text::chars_views(wanted@);
    let mut at: usize = 0;
    while at < folders.len()
        invariant
            at <= folders.len(),
            w == text::chars_views(wanted@),
            is_ordered(folders@, separator),
            forall|i: int|
                0 <= i < at ==> host_path::parts_less(place(#[trigger] folders@[i], separator), w),
        decreases folders.len() - at,
    {
        let here = places_of(&chars_of(folders[at].as_str()), separator);
        if same_parts(&here, wanted) {
            return (true, at);
        }
        if !parts_before(&here, wanted) {
            proof {
                let h = place(folders@[at as int], separator);
                host_path::lemma_parts_less(w, h, w);
                assert forall|i: int| 0 <= i < folders@.len() implies if i < at {
                    host_path::parts_less(place(#[trigger] folders@[i], separator), w)
                } else {
                    host_path::parts_less(w, place(folders@[i], separator))
                } by {
                    if i > at {
                        assert(host_path::parts_less(
                            place(folders@[at as int], separator),
                            place(folders@[i], separator),
                        ));
                        host_path::lemma_parts_less(w, h, place(folders@[i], separator));
                    }
                }
            }
            return (false, at);
        }
        at += 1;
    }
    (false, at)
}

/// The title folders of the files a pass wrote, in order and each once.
#[verifier::rlimit(50)]
pub fn imported(roots: &[String], files: &[String], separator: char) -> (r: Vec<String>)
    ensures
        are_folders(r@, roots@, files@, separator),
{
    let mut out: Vec<String> = Vec::new();
    let mut i: usize = 0;
    while i < files.len()
        invariant
            i <= files.len(),
            are_folders(out@, roots@, files@.take(i as int), separator),
        decreases files.len() - i,
    {
        let ghost before = out@;
        let ghost seen = files@.take(i as int);
        let ghost next = files@.take(i + 1);
        let folder = title_folder(roots, files[i].as_str(), separator);
        let parts = places_of(&chars_of(folder.as_str()), separator);
        let ghost p = text::chars_views(parts@);
        let (found, at) = find_place(&out, &parts, separator);
        let ghost t = folder@;
        if !found {
            let ghost new = folder;
            out.insert(at, folder);
            proof {
                lemma_inserted(before, out@, new, at as int, separator);
            }
        }
        proof {
            assert(next[i as int] == files@[i as int]);
            assert(lists_place(out@, p, separator)) by {
                assert(place(out@[at as int], separator) == p);
            }
            assert forall|f: int| 0 <= f < next.len() implies lists_folder_of(
                out@,
                roots@,
                (#[trigger] next[f])@,
                separator,
            ) by {
                if f < i {
                    assert(next[f] == seen[f]);
                    assert(lists_folder_of(before, roots@, seen[f]@, separator));
                    let x = choose|x: Seq<char>|
                        {
                            &&& #[trigger] is_title_folder(x, roots@, seen[f]@, separator)
                            &&& lists_place(before, host_path::places(x, separator), separator)
                        };
                    lemma_still_listed(before, out@, host_path::places(x, separator), separator);
                    assert(is_title_folder(x, roots@, next[f]@, separator));
                } else {
                    assert(is_title_folder(t, roots@, next[f]@, separator));
                }
            }
            assert forall|k: int| 0 <= k < out@.len() implies is_folder_of_some(
                (#[trigger] out@[k])@,
                roots@,
                next,
                separator,
            ) by {
                if !found && k == at {
                    assert(is_title_folder(out@[k]@, roots@, next[i as int]@, separator));
                } else {
                    let b = if found || k < at { k } else { k - 1 };
                    assert(out@[k] == before[b]);
                    assert(is_folder_of_some(before[b]@, roots@, seen, separator));
                    let f = choose|f: int|
                        0 <= f < seen.len() && is_title_folder(
                            before[b]@,
                            roots@,
                            (#[trigger] seen[f])@,
                            separator,
                        );
                    assert(next[f] == seen[f]);
                }
            }
        }
        i += 1;
    }
    assert(files@.take(files.len() as int) == files@);
    out
}

proof fn lemma_inserted(
    before: Seq<String>,
    after: Seq<String>,
    new: String,
    at: int,
    separator: char,
)
    requires
        is_ordered(before, separator),
        0 <= at <= before.len(),
        after == before.insert(at, new),
        forall|i: int|
            0 <= i < before.len() ==> if i < at {
                host_path::parts_less(place(#[trigger] before[i], separator), place(new, separator))
            } else {
                host_path::parts_less(place(new, separator), place(before[i], separator))
            },
    ensures
        is_ordered(after, separator),
{
    assert forall|i: int, j: int| 0 <= i < j < after.len() implies host_path::parts_less(
        place(#[trigger] after[i], separator),
        place(#[trigger] after[j], separator),
    ) by {
        let pi = if i < at { i } else { i - 1 };
        let pj = if j < at { j } else { j - 1 };
        if i != at {
            assert(after[i] == before[pi]);
        }
        if j != at {
            assert(after[j] == before[pj]);
        }
    }
}

proof fn lemma_still_listed(
    before: Seq<String>,
    after: Seq<String>,
    p: Seq<Seq<char>>,
    separator: char,
)
    requires
        lists_place(before, p, separator),
        before == after || exists|at: int, new: String|
            0 <= at <= before.len() && after == #[trigger] before.insert(at, new),
    ensures
        lists_place(after, p, separator),
{
    let i = choose|i: int| 0 <= i < before.len() && place(#[trigger] before[i], separator) == p;
    if before == after {
        assert(place(after[i], separator) == p);
    } else {
        let (at, new) = choose|at: int, new: String|
            0 <= at <= before.len() && after == #[trigger] before.insert(at, new);
        let k = if i < at { i } else { i + 1 };
        assert(after[k] == before[i]);
    }
}

/// How telling one server went.
#[derive(Debug, Clone)]
pub enum ServerEnd {
    /// Its mappings could not be read.
    Unmapped,
    /// It could not be built or told; the text is why.
    Failed(String),
    /// It was told.
    Told,
}

/// What telling a server writes on its row.
#[derive(Debug, Clone)]
pub enum ServerWrite {
    Nothing,
    MarkNotified,
    MarkError(String),
}

/// What is written of a server that was told.
pub open spec fn is_server_write(r: ServerWrite, end: ServerEnd) -> bool {
    match end {
        ServerEnd::Unmapped => r is Nothing,
        ServerEnd::Failed(why) => r matches ServerWrite::MarkError(m) && m == why,
        ServerEnd::Told => r is MarkNotified,
    }
}

/// What telling a server writes on its row. No way it can end stops the
/// pass.
pub fn server_write(end: ServerEnd) -> (r: ServerWrite)
    ensures
        is_server_write(r, end),
{
    match end {
        ServerEnd::Unmapped => ServerWrite::Nothing,
        ServerEnd::Failed(why) => ServerWrite::MarkError(why),
        ServerEnd::Told => ServerWrite::MarkNotified,
    }
}

} // verus!
