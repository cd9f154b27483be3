//! Where the library lives on disk: the destinations, and the rule that
//! picks one for a given item.

use vstd::prelude::*;

use crate::catalogue::MediaType;
use crate::db::columns::invalid;
use crate::error::AppError;
use crate::host_path;
use crate::outside;
use crate::outside::{check_timestamp, format_uuid, parse_uuid};
use crate::text;
use crate::text::{chars_of, extend_str, same_text, slice, string_of, trimmed_str};

verus! {

/// One configured destination.
#[derive(Debug, Clone)]
pub struct RootFolder {
    /// Row id.
    pub id: u128,
    /// Absolute path on the machine running the orchestrator.
    pub path: String,
    /// Which kind of media lands here; `None` serves both.
    pub media_type: Option<MediaType>,
    /// Row creation, in Unix seconds.
    pub created_at: i64,
}

/// How much room is left where a root folder points.
#[derive(Debug, Clone, Copy, PartialEq, Eq, Structural)]
pub struct DiskUsage {
    /// Bytes available to this process.
    pub available: u64,
    /// Size of the filesystem.
    pub total: u64,
}

/// The whole percentage of `total` that is not `available`.
pub open spec fn percent_used(available: int, total: int) -> int {
    if total == 0 || available >= total {
        0
    } else {
        (total - available) * 100 / total
    }
}

impl DiskUsage {
    /// Percentage of the filesystem in use. `0` when the total is unknown,
    /// so a missing reading renders as an empty bar rather than a full one.
    pub fn used_percent(self) -> (r: u8)
        ensures
            r == percent_used(self.available as int, self.total as int),
            r <= 100,
    {
        if self.total == 0 || self.available >= self.total {
            return 0;
        }
        let used: u128 = (self.total - self.available) as u128;
        let total: u128 = self.total as u128;
        assert(used as int * 100 / (total as int) <= 100) by (nonlinear_arith)
            requires
                used <= total,
                total > 0,
        ;
        let percent: u128 = used * 100 / total;
        percent as u8
    }
}

/// An operator-typed path without the white space around it and without one
/// trailing separator, unless that is all there is.
pub open spec fn normal_path(raw: Seq<char>) -> Seq<char> {
    let t = text::trim(raw);
    if t.len() > 1 && (t.last() == '/' || t.last() == '\\') {
        t.drop_last()
    } else {
        t
    }
}

/// Normalise an operator-typed path, so that `/data/media` and
/// `/data/media/` are the same row.
pub fn normalise(raw: &str) -> (r: String)
    ensures
        r@ == normal_path(raw@),
{
    let t = trimmed_str(raw);
    let n: usize = t.len();
    if n > 1 && (t[n - 1] == '/' || t[n - 1] == '\\') {
        let cut = slice(&t, 0, n - 1);
        assert(cut@ =~= t@.drop_last());
        string_of(&cut)
    } else {
        string_of(&t)
    }
}

/// What the filesystem says about a path.
#[derive(Debug, Clone)]
pub enum PathFacts {
    /// It could not be read; the text is why.
    Unreadable(String),
    /// It was read.
    Found {
        /// Whether it is a directory.
        is_dir: bool,
        /// Whether it refuses writing.
        readonly: bool,
    },
}

/// Why a path cannot receive an import.
pub open spec fn refusal(path: Seq<char>, facts: PathFacts) -> Option<Seq<char>> {
    if path.len() == 0 {
        Some("o caminho da pasta raiz não pode ser vazio"@)
    } else {
        match facts {
            PathFacts::Unreadable(why) => Some("não consegui acessar "@ + path + ": "@ + why@),
            PathFacts::Found { is_dir, readonly } => if !is_dir {
                Some(path + " existe mas não é um diretório"@)
            } else if readonly {
                Some(path + " está somente-leitura para o usuário que roda o brarr"@)
            } else {
                None
            },
        }
    }
}

/// Whether a folder can be a root folder.
pub open spec fn is_validated(r: Result<(), AppError>, path: &str, facts: PathFacts) -> bool {
    match r {
        Ok(()) => refusal(path@, facts) is None,
        Err(e) => e matches AppError::InvalidInput(m) && refusal(path@, facts) == Some(m@),
    }
}

/// Confirm a path can receive an import: not blank, there, a directory, and
/// writable. The checks are made in that order.
pub fn validate(path: &str, facts: PathFacts) -> (r: Result<(), AppError>)
    ensures
        is_validated(r, path, facts),
{
    if path.is_empty() {
        return Err(
            AppError::InvalidInput("o caminho da pasta raiz não pode ser vazio".to_owned()),
        );
    }
    match facts {
        PathFacts::Unreadable(why) => {
            let mut out = chars_of("não consegui acessar ");
            extend_str(&mut out, path);
            extend_str(&mut out, ": ");
            extend_str(&mut out, why.as_str());
            Err(AppError::InvalidInput(string_of(&out)))
        },
        PathFacts::Found { is_dir, readonly } => {
            if !is_dir {
                let mut out = chars_of(path);
                extend_str(&mut out, " existe mas não é um diretório");
                return Err(AppError::InvalidInput(string_of(&out)));
            }
            if readonly {
                let mut out = chars_of(path);
                extend_str(&mut out, " está somente-leitura para o usuário que roda o brarr");
                return Err(AppError::InvalidInput(string_of(&out)));
            }
            Ok(())
        },
    }
}

/// The first folder serving exactly this.
pub open spec fn first_serving(folders: Seq<RootFolder>, kind: Option<MediaType>, i: int) -> bool {
    &&& 0 <= i < folders.len()
    &&& folders[i].media_type == kind
    &&& forall|j: int| 0 <= j < i ==> (#[trigger] folders[j]).media_type != kind
}

pub open spec fn none_serving(folders: Seq<RootFolder>, kind: Option<MediaType>) -> bool {
    forall|j: int| 0 <= j < folders.len() ==> (#[trigger] folders[j]).media_type != kind
}

/// Whether `i` is where an item of this kind lands: the first folder of its
/// kind, and without one the first that serves both.
pub open spec fn is_destination(folders: Seq<RootFolder>, media: MediaType, i: int) -> bool {
    ||| first_serving(folders, Some(media), i)
    ||| none_serving(folders, Some(media)) && first_serving(folders, None, i)
}

fn first_of_kind(folders: &[RootFolder], kind: Option<MediaType>) -> (r: Option<usize>)
    ensures
        match r {
            Some(i) => first_serving(folders@, kind, i as int),
            None => none_serving(folders@, kind),
        },
{
    let mut i: usize = 0;
    while i < folders.len()
        invariant
            i <= folders.len(),
            forall|j: int| 0 <= j < i ==> (#[trigger] folders@[j]).media_type != kind,
        decreases folders.len() - i,
    {
        if folders[i].media_type == kind {
            return Some(i);
        }
        i += 1;
    }
    None
}

/// The root folder a kind of title goes to.
pub open spec fn is_picked(
    r: Option<&RootFolder>,
    folders: Seq<RootFolder>,
    media_type: MediaType,
) -> bool {
    match r {
        Some(f) => exists|i: int|
            #[trigger] is_destination(folders, media_type, i) && *f == folders[i],
        None => none_serving(folders, Some(media_type)) && none_serving(folders, None),
    }
}

/// Pick the folder an item of this kind lands in. An exact kind wins over a
/// folder that serves both, and among equals the first listed; `None` when
/// nothing is configured, which is reported rather than guessed.
pub fn pick(folders: &[RootFolder], media_type: MediaType) -> (r: Option<&RootFolder>)
    ensures
        is_picked(r, folders@, media_type),
{
    match first_of_kind(folders, Some(media_type)) {
        Some(i) => {
            assert(is_destination(folders@, media_type, i as int));
            Some(&folders[i])
        },
        None => match first_of_kind(folders, None) {
            Some(i) => {
                assert(is_destination(folders@, media_type, i as int));
                Some(&folders[i])
            },
            None => None,
        },
    }
}

/// The same item always resolves to the same place.
pub proof fn a_destination_is_unique(folders: Seq<RootFolder>, media: MediaType, i: int, j: int)
    requires
        is_destination(folders, media, i),
        is_destination(folders, media, j),
    ensures
        i == j,
{
}

/// Whether two paths name the same place, component by component.
pub open spec fn same_place(a: Seq<char>, b: Seq<char>, separator: char) -> bool {
    host_path::places(a, separator) == host_path::places(b, separator)
}

/// The first registered folder at this path.
pub open spec fn first_at(
    folders: Seq<RootFolder>,
    path: Seq<char>,
    separator: char,
    i: int,
) -> bool {
    &&& 0 <= i < folders.len()
    &&& same_place(folders[i].path@, path, separator)
    &&& forall|j: int| 0 <= j < i ==> !same_place((#[trigger] folders[j]).path@, path, separator)
}

pub open spec fn none_at(folders: Seq<RootFolder>, path: Seq<char>, separator: char) -> bool {
    forall|j: int| 0 <= j < folders.len() ==> !same_place(
        (#[trigger] folders[j]).path@,
        path,
        separator,
    )
}

/// The folder registered at this path, if any.
pub fn registered<'a>(folders: &'a [RootFolder], path: &[char], separator: char) -> (r: Option<
    &'a RootFolder,
>)
    ensures
        match r {
            Some(f) => exists|i: int|
                #[trigger] first_at(folders@, path@, separator, i) && *f == folders@[i],
            None => none_at(folders@, path@, separator),
        },
{
    let wanted = host_path::places_of(path, separator);
    let mut i: usize = 0;
    while i < folders.len()
        invariant
            i <= folders.len(),
            text::chars_views(wanted@) == host_path::places(path@, separator),
            forall|j: int|
                0 <= j < i ==> !same_place((#[trigger] folders@[j]).path@, path@, separator),
        decreases folders.len() - i,
    {
        let here = host_path::places_of(&chars_of(folders[i].path.as_str()), separator);
        if host_path::same_parts(&here, &wanted) {
            assert(first_at(folders@, path@, separator, i as int));
            return Some(&folders[i]);
        }
        i += 1;
    }
    None
}

// ---------------------------------------------------------------------
// Rows
// ---------------------------------------------------------------------

/// The columns of a row as the database holds them.
#[derive(Debug, Clone)]
pub struct FolderColumns {
    pub id: String,
    pub path: String,
    pub media_type: Option<String>,
    pub created_at: i64,
}

/// The kind a stored label names.
pub open spec fn labelled_media(s: Seq<char>) -> Option<MediaType> {
    if s == "movie"@ {
        Some(MediaType::Movie)
    } else if s == "tv"@ {
        Some(MediaType::Tv)
    } else {
        None
    }
}

fn parse_media(s: &str) -> (r: Option<MediaType>)
    ensures
        r == labelled_media(s@),
{
    if same_text(s, "movie") {
        Some(MediaType::Movie)
    } else if same_text(s, "tv") {
        Some(MediaType::Tv)
    } else {
        None
    }
}

/// The first column of a row that cannot be read, as the sentence that says
/// so.
pub open spec fn unreadable(c: FolderColumns) -> Option<Seq<char>> {
    if outside::uuid_read(c.id@) is Err {
        Some("invalid uuid in root_folders.id: "@ + outside::uuid_read(c.id@)->Err_0)
    } else if c.media_type is Some && labelled_media(c.media_type->0@) is None {
        Some("unknown media_type: "@ + c.media_type->0@)
    } else if !outside::is_timestamp(c.created_at) {
        Some("invalid root_folders.created_at: "@ + outside::timestamp_fault())
    } else {
        None
    }
}

/// Whether `row` is what the columns say.
pub open spec fn is_row(row: RootFolder, c: FolderColumns) -> bool {
    &&& outside::uuid_of(c.id@) == Some(row.id)
    &&& row.path@ == c.path@
    &&& row.media_type == match c.media_type {
        Some(s) => labelled_media(s@),
        None => None,
    }
    &&& row.created_at == c.created_at
}

/// Read a row back.
pub fn row_to_folder(c: FolderColumns) -> (r: Result<RootFolder, AppError>)
    ensures
        match r {
            Ok(row) => unreadable(c) is None && is_row(row, c),
            Err(e) => e matches AppError::InvalidInput(m) && unreadable(c) == Some(m@),
        },
{
    let id: u128 = match parse_uuid(c.id.as_str()) {
        Ok(id) => id,
        Err(e) => {
            return Err(invalid("invalid uuid in root_folders.id: ", e.as_str()));
        },
    };
    let media_type = match &c.media_type {
        Some(s) => match parse_media(s.as_str()) {
            Some(m) => Some(m),
            None => {
                return Err(invalid("unknown media_type: ", s.as_str()));
            },
        },
        None => None,
    };
    let created_at: i64 = match check_timestamp(c.created_at) {
        Ok(t) => t,
        Err(e) => {
            return Err(invalid("invalid root_folders.created_at: ", e.as_str()));
        },
    };
    Ok(RootFolder { id, path: c.path, media_type, created_at })
}

/// Whether the columns are those of a folder registered at `now`.
pub open spec fn is_written(
    c: FolderColumns,
    id: u128,
    now: i64,
    path: Seq<char>,
    media_type: Option<MediaType>,
) -> bool {
    &&& c.id@ == outside::hyphenated(id)
    &&& outside::uuid_of(c.id@) == Some(id)
    &&& c.path@ == path
    &&& text::opt_view(c.media_type) == match media_type {
        Some(MediaType::Movie) => Some("movie"@),
        Some(MediaType::Tv) => Some("tv"@),
        None => None,
    }
    &&& c.created_at == now
}

/// The columns of a new root folder, or why it is refused.
pub open spec fn is_inserted(
    r: Result<FolderColumns, AppError>,
    id: u128,
    now: i64,
    raw_path: &str,
    facts: PathFacts,
    media_type: Option<MediaType>,
) -> bool {
    match r {
        Ok(c) => refusal(normal_path(raw_path@), facts) is None && is_written(
            c,
            id,
            now,
            normal_path(raw_path@),
            media_type,
        ),
        Err(e) => e matches AppError::InvalidInput(m) && refusal(normal_path(raw_path@), facts)
            == Some(m@),
    }
}

/// Write the columns of a folder: its path normalised, and only when it can
/// receive an import.
pub fn insert(
    id: u128,
    now: i64,
    raw_path: &str,
    facts: PathFacts,
    media_type: Option<MediaType>,
) -> (r: Result<FolderColumns, AppError>)
    ensures
        is_inserted(r, id, now, raw_path, facts, media_type),
{
    let path = normalise(raw_path);
    match validate(path.as_str(), facts) {
        Ok(()) => Ok(
            FolderColumns {
                id: format_uuid(id),
                path,
                media_type: match media_type {
                    Some(m) => Some(m.label().to_owned()),
                    None => None,
                },
                created_at: now,
            },
        ),
        Err(e) => Err(e),
    }
}

/// What is written is what is read back, for every moment a row can hold.
pub proof fn a_written_folder_reads_back(
    id: u128,
    now: i64,
    path: Seq<char>,
    media_type: Option<MediaType>,
    c: FolderColumns,
    row: RootFolder,
)
    requires
        is_written(c, id, now, path, media_type),
    ensures
        outside::is_timestamp(now) ==> unreadable(c) is None,
        is_row(row, c) ==> {
            &&& row.id == id
            &&& row.path@ == path
            &&& row.media_type == media_type
            &&& row.created_at == now
        },
{
    reveal_strlit("movie");
    reveal_strlit("tv");
    assert("movie"@.len() == 5 && "tv"@.len() == 2);
}

/// One trailing separator does not make another folder.
pub proof fn a_trailing_separator_is_the_same_folder(path: Seq<char>)
    requires
        path.len() > 0,
        text::trim(path) == path,
        path.last() != '/',
        path.last() != '\\',
    ensures
        normal_path(path + seq!['/']) == path,
        normal_path(path) == path,
{
    let slashed = path + seq!['/'];
    text::lemma_trim_is_tight(path);
    assert(slashed[0] == path[0]);
    text::lemma_trim_tight(slashed);
    assert(slashed.drop_last() =~= path);
}

} // verus!
