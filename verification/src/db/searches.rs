//! Search rows, and the filters a listing of them takes.

use vstd::prelude::*;

use crate::db::columns;
use crate::db::columns::{as_count, as_u16, as_u32, from_u16, from_u32, invalid};
use crate::error::AppError;
use crate::outside;
use crate::outside::{check_timestamp, format_uuid, parse_uuid};
use crate::text;
use crate::text::{extend_str, string_of};

verus! {

/// The request a search was made from.
#[derive(Debug, Clone)]
pub struct SearchRequestJson {
    pub tmdb_id: Option<u32>,
    pub imdb_id: Option<String>,
    pub tvdb_id: Option<u32>,
    pub season: Option<u16>,
    pub episode: Option<u16>,
}

impl Default for SearchRequestJson {
    fn default() -> (r: SearchRequestJson)
        ensures
            r.tmdb_id is None && r.imdb_id is None && r.tvdb_id is None && r.season is None
                && r.episode is None,
    {
        SearchRequestJson { tmdb_id: None, imdb_id: None, tvdb_id: None, season: None, episode: None }
    }
}

/// Persisted search row.
#[derive(Debug, Clone)]
pub struct SearchRow {
    pub id: u128,
    pub tmdb_id: Option<u32>,
    pub imdb_id: Option<String>,
    pub tvdb_id: Option<u32>,
    /// `None` is the whole series.
    pub season: Option<u16>,
    /// `None` is the whole season, packs included.
    pub episode: Option<u16>,
    /// When it was submitted, in Unix seconds.
    pub submitted_at: i64,
    /// How many decisions were kept.
    pub result_count: u32,
    pub request_json: SearchRequestJson,
}

/// The columns of a row as the database holds them, the request read.
#[derive(Debug)]
pub struct SearchColumns {
    pub id: String,
    pub tmdb_id: Option<i64>,
    pub imdb_id: Option<String>,
    pub tvdb_id: Option<i64>,
    pub season: Option<i64>,
    pub episode: Option<i64>,
    pub submitted_at: i64,
    pub result_count: i64,
    /// The request, or why it could not be read.
    pub request_json: Result<SearchRequestJson, String>,
}

/// Whether a row is what a new request makes it.
pub open spec fn is_new_row(
    row: SearchRow,
    id: u128,
    now: i64,
    request: SearchRequestJson,
) -> bool {
    &&& row.id == id
    &&& row.tmdb_id == request.tmdb_id
    &&& text::opt_view(row.imdb_id) == text::opt_view(request.imdb_id)
    &&& row.tvdb_id == request.tvdb_id
    &&& row.season == request.season
    &&& row.episode == request.episode
    &&& row.submitted_at == now
    &&& row.result_count == 0
    &&& row.request_json == request
}

fn copy_text(s: &Option<String>) -> (r: Option<String>)
    ensures
        text::opt_view(r) == text::opt_view(*s),
{
    match s {
        Some(t) => Some(t.clone()),
        None => None,
    }
}

/// A new search: nothing found yet.
pub fn create(id: u128, now: i64, request: SearchRequestJson) -> (r: SearchRow)
    ensures
        is_new_row(r, id, now, request),
{
    SearchRow {
        id,
        tmdb_id: request.tmdb_id,
        imdb_id: copy_text(&request.imdb_id),
        tvdb_id: request.tvdb_id,
        season: request.season,
        episode: request.episode,
        submitted_at: now,
        result_count: 0,
        request_json: request,
    }
}

/// Whether the columns are those of a row.
pub open spec fn is_written(c: SearchColumns, row: SearchRow) -> bool {
    &&& c.id@ == outside::hyphenated(row.id)
    &&& outside::uuid_of(c.id@) == Some(row.id)
    &&& c.tmdb_id == columns::widened_u32(row.tmdb_id)
    &&& text::opt_view(c.imdb_id) == text::opt_view(row.imdb_id)
    &&& c.tvdb_id == columns::widened_u32(row.tvdb_id)
    &&& c.season == columns::widened_u16(row.season)
    &&& c.episode == columns::widened_u16(row.episode)
    &&& c.submitted_at == row.submitted_at
    &&& c.result_count == row.result_count
    &&& c.request_json == Ok::<SearchRequestJson, String>(row.request_json)
}

/// The columns of a row.
pub fn row_columns(row: SearchRow) -> (r: SearchColumns)
    ensures
        is_written(r, row),
{
    SearchColumns {
        id: format_uuid(row.id),
        tmdb_id: from_u32(row.tmdb_id),
        imdb_id: row.imdb_id,
        tvdb_id: from_u32(row.tvdb_id),
        season: from_u16(row.season),
        episode: from_u16(row.episode),
        submitted_at: row.submitted_at,
        result_count: row.result_count as i64,
        request_json: Ok(row.request_json),
    }
}

/// Whether `e` is the error of the first column that cannot be read.
pub open spec fn is_fault(e: AppError, c: SearchColumns) -> bool {
    if outside::uuid_read(c.id@) is Err {
        e matches AppError::InvalidInput(m) && m@ == "invalid uuid in searches.id: "@
            + outside::uuid_read(c.id@)->Err_0
    } else if !outside::is_timestamp(c.submitted_at) {
        e matches AppError::InvalidInput(m) && m@ == "invalid timestamp: "@
            + outside::timestamp_fault()
    } else {
        e matches AppError::Json(m) && c.request_json == Err::<SearchRequestJson, String>(m)
    }
}

/// Whether every column of a row can be read.
pub open spec fn is_readable(c: SearchColumns) -> bool {
    outside::uuid_read(c.id@) is Ok && outside::is_timestamp(c.submitted_at) && c.request_json is Ok
}

/// Whether `row` is what the columns say. Numbers out of range read as
/// absent, a count as none.
pub open spec fn is_row(row: SearchRow, c: SearchColumns) -> bool {
    &&& outside::uuid_of(c.id@) == Some(row.id)
    &&& row.tmdb_id == columns::narrow_u32(c.tmdb_id)
    &&& text::opt_view(row.imdb_id) == text::opt_view(c.imdb_id)
    &&& row.tvdb_id == columns::narrow_u32(c.tvdb_id)
    &&& row.season == columns::narrow_u16(c.season)
    &&& row.episode == columns::narrow_u16(c.episode)
    &&& row.submitted_at == c.submitted_at
    &&& row.result_count == columns::count_of(c.result_count)
    &&& c.request_json == Ok::<SearchRequestJson, String>(row.request_json)
}

/// Read a row back.
pub fn row_to_search(c: SearchColumns) -> (r: Result<SearchRow, AppError>)
    ensures
        match r {
            Ok(row) => is_readable(c) && is_row(row, c),
            Err(e) => !is_readable(c) && is_fault(e, c),
        },
{
    let id: u128 = match parse_uuid(c.id.as_str()) {
        Ok(id) => id,
        Err(e) => {
            return Err(invalid("invalid uuid in searches.id: ", e.as_str()));
        },
    };
    let submitted_at: i64 = match check_timestamp(c.submitted_at) {
        Ok(t) => t,
        Err(e) => {
            return Err(invalid("invalid timestamp: ", e.as_str()));
        },
    };
    let request_json = match c.request_json {
        Ok(request) => request,
        Err(e) => {
            return Err(AppError::Json(e));
        },
    };
    Ok(
        SearchRow {
            id,
            tmdb_id: as_u32(c.tmdb_id),
            imdb_id: c.imdb_id,
            tvdb_id: as_u32(c.tvdb_id),
            season: as_u16(c.season),
            episode: as_u16(c.episode),
            submitted_at,
            result_count: as_count(c.result_count),
            request_json,
        },
    )
}

/// What is written is what is read back, for every moment a row can hold.
pub proof fn a_written_search_reads_back(row: SearchRow, c: SearchColumns, back: SearchRow)
    requires
        is_written(c, row),
    ensures
        outside::is_timestamp(row.submitted_at) ==> is_readable(c),
        is_row(back, c) ==> {
            &&& back.id == row.id
            &&& back.tmdb_id == row.tmdb_id
            &&& text::opt_view(back.imdb_id) == text::opt_view(row.imdb_id)
            &&& back.tvdb_id == row.tvdb_id
            &&& back.season == row.season
            &&& back.episode == row.episode
            &&& back.submitted_at == row.submitted_at
            &&& back.result_count == row.result_count
            &&& back.request_json == row.request_json
        },
{
}

/// How many searches are listed.
pub open spec fn is_clamped(r: u32, requested: u32) -> bool {
    r == if requested == 0 {
        20
    } else if requested > 200 {
        200
    } else {
        requested
    }
}

/// How many of the latest searches a listing returns: twenty when none is
/// asked for, never more than two hundred.
pub fn clamp_limit(requested: u32) -> (r: u32)
    ensures
        is_clamped(r, requested),
{
    if requested == 0 {
        20
    } else if requested > 200 {
        200
    } else {
        requested
    }
}

/// How many searches a page holds.
pub open spec fn is_page_limit(r: u32, requested: u32) -> bool {
    r == if requested == 0 {
        50
    } else if requested > 200 {
        200
    } else {
        requested
    }
}

/// How many rows a page of filtered searches holds: fifty when none is asked
/// for, never more than two hundred.
pub fn page_limit(requested: u32) -> (r: u32)
    ensures
        is_page_limit(r, requested),
{
    if requested == 0 {
        50
    } else {
        clamp_limit(requested)
    }
}

/// How many searches were counted.
pub open spec fn is_count(r: u64, n: i64) -> bool {
    r == if n < 0 {
        0
    } else {
        n as int
    }
}

/// A total; what cannot be one reads as none.
pub fn count_filtered(n: i64) -> (r: u64)
    ensures
        is_count(r, n),
{
    if n < 0 {
        0
    } else {
        n as u64
    }
}

// ---------------------------------------------------------------------
// Filters
// ---------------------------------------------------------------------

/// What a listing is narrowed by; what is absent does not narrow it.
#[derive(Debug, Clone)]
pub struct FilterParams {
    pub tmdb_id: Option<u32>,
    /// Compared as text.
    pub imdb_id: Option<String>,
    pub tvdb_id: Option<u32>,
    pub season: Option<u16>,
    pub episode: Option<u16>,
    /// Earliest submission, in Unix seconds, inclusive.
    pub from_unix: Option<i64>,
    /// Latest submission, in Unix seconds, inclusive.
    pub to_unix: Option<i64>,
    /// Whether at least one decision was kept.
    pub has_kept_decision: Option<bool>,
    /// Rows on a page.
    pub limit: u32,
    /// Rows skipped.
    pub offset: u32,
}

impl Default for FilterParams {
    fn default() -> (r: FilterParams)
        ensures
            r == (FilterParams {
                tmdb_id: None,
                imdb_id: None,
                tvdb_id: None,
                season: None,
                episode: None,
                from_unix: None,
                to_unix: None,
                has_kept_decision: None,
                limit: 0,
                offset: 0,
            }),
    {
        FilterParams {
            tmdb_id: None,
            imdb_id: None,
            tvdb_id: None,
            season: None,
            episode: None,
            from_unix: None,
            to_unix: None,
            has_kept_decision: None,
            limit: 0,
            offset: 0,
        }
    }
}

/// One condition on a search.
#[derive(Debug, Clone)]
pub enum Clause {
    TmdbId(u32),
    ImdbId(String),
    TvdbId(u32),
    Season(u16),
    Episode(u16),
    From(i64),
    To(i64),
    Kept(bool),
}

/// Whether a search meets a condition.
pub open spec fn meets(row: SearchRow, kept: bool, clause: Clause) -> bool {
    match clause {
        Clause::TmdbId(v) => row.tmdb_id == Some(v),
        Clause::ImdbId(v) => text::opt_view(row.imdb_id) == Some(v@),
        Clause::TvdbId(v) => row.tvdb_id == Some(v),
        Clause::Season(v) => row.season == Some(v),
        Clause::Episode(v) => row.episode == Some(v),
        Clause::From(v) => row.submitted_at >= v,
        Clause::To(v) => row.submitted_at <= v,
        Clause::Kept(v) => kept == v,
    }
}

/// Whether a search meets every condition.
pub open spec fn meets_all(row: SearchRow, kept: bool, clauses: Seq<Clause>) -> bool {
    forall|i: int| 0 <= i < clauses.len() ==> meets(row, kept, #[trigger] clauses[i])
}

/// Whether a search passes a filter: every field that is present holds.
pub open spec fn passes(row: SearchRow, kept: bool, p: FilterParams) -> bool {
    &&& p.tmdb_id is Some ==> row.tmdb_id == p.tmdb_id
    &&& p.imdb_id is Some ==> text::opt_view(row.imdb_id) == text::opt_view(p.imdb_id)
    &&& p.tvdb_id is Some ==> row.tvdb_id == p.tvdb_id
    &&& p.season is Some ==> row.season == p.season
    &&& p.episode is Some ==> row.episode == p.episode
    &&& p.from_unix is Some ==> row.submitted_at >= p.from_unix->0
    &&& p.to_unix is Some ==> row.submitted_at <= p.to_unix->0
    &&& p.has_kept_decision is Some ==> kept == p.has_kept_decision->0
}

/// The comparison a condition makes; `?` is its value.
pub open spec fn clause_text(clause: Clause) -> Seq<char> {
    match clause {
        Clause::TmdbId(_) => "tmdb_id = ?"@,
        Clause::ImdbId(_) => "imdb_id = ?"@,
        Clause::TvdbId(_) => "tvdb_id = ?"@,
        Clause::Season(_) => "season = ?"@,
        Clause::Episode(_) => "episode = ?"@,
        Clause::From(_) => "submitted_at >= ?"@,
        Clause::To(_) => "submitted_at <= ?"@,
        Clause::Kept(v) => if v {
            "EXISTS (SELECT 1 FROM decisions WHERE decisions.search_id = searches.id AND decisions.rejected = 0)"@
        } else {
            "NOT EXISTS (SELECT 1 FROM decisions WHERE decisions.search_id = searches.id AND decisions.rejected = 0)"@
        },
    }
}

fn clause_sql(clause: &Clause) -> (r: &'static str)
    ensures
        r@ == clause_text(*clause),
{
    match clause {
        Clause::TmdbId(_) => "tmdb_id = ?",
        Clause::ImdbId(_) => "imdb_id = ?",
        Clause::TvdbId(_) => "tvdb_id = ?",
        Clause::Season(_) => "season = ?",
        Clause::Episode(_) => "episode = ?",
        Clause::From(_) => "submitted_at >= ?",
        Clause::To(_) => "submitted_at <= ?",
        Clause::Kept(v) => if *v {
            "EXISTS (SELECT 1 FROM decisions WHERE decisions.search_id = searches.id AND decisions.rejected = 0)"
        } else {
            "NOT EXISTS (SELECT 1 FROM decisions WHERE decisions.search_id = searches.id AND decisions.rejected = 0)"
        },
    }
}

/// The conditions as the tail of a statement.
pub open spec fn where_text(clauses: Seq<Clause>) -> Seq<char>
    decreases clauses.len(),
{
    if clauses.len() == 0 {
        Seq::empty()
    } else if clauses.len() == 1 {
        " WHERE "@ + clause_text(clauses[0])
    } else {
        where_text(clauses.drop_last()) + " AND "@ + clause_text(clauses.last())
    }
}

/// The conditions as the tail of a statement, `WHERE` once and `AND` between.
pub fn where_sql(clauses: &[Clause]) -> (r: String)
    ensures
        r@ == where_text(clauses@),
{
    let mut out: Vec<char> = Vec::new();
    let mut i: usize = 0;
    while i < clauses.len()
        invariant
            i <= clauses.len(),
            out@ == where_text(clauses@.take(i as int)),
        decreases clauses.len() - i,
    {
        let ghost next = clauses@.take(i + 1);
        assert(next.drop_last() == clauses@.take(i as int));
        assert(next.last() == clauses@[i as int]);
        if i == 0 {
            assert(next[0] == clauses@[0]);
            extend_str(&mut out, " WHERE ");
        } else {
            extend_str(&mut out, " AND ");
        }
        extend_str(&mut out, clause_sql(&clauses[i]));
        assert(out@ =~= where_text(next));
        i += 1;
    }
    assert(clauses@.take(clauses.len() as int) == clauses@);
    string_of(&out)
}

/// The place of a condition in a statement.
pub open spec fn place_of(clause: Clause) -> int {
    match clause {
        Clause::TmdbId(_) => 0,
        Clause::ImdbId(_) => 1,
        Clause::TvdbId(_) => 2,
        Clause::Season(_) => 3,
        Clause::Episode(_) => 4,
        Clause::From(_) => 5,
        Clause::To(_) => 6,
        Clause::Kept(_) => 7,
    }
}

/// Whether a condition is one of the filter's.
pub open spec fn is_asked(p: FilterParams, clause: Clause) -> bool {
    match clause {
        Clause::TmdbId(v) => p.tmdb_id == Some(v),
        Clause::ImdbId(v) => text::opt_view(p.imdb_id) == Some(v@),
        Clause::TvdbId(v) => p.tvdb_id == Some(v),
        Clause::Season(v) => p.season == Some(v),
        Clause::Episode(v) => p.episode == Some(v),
        Clause::From(v) => p.from_unix == Some(v),
        Clause::To(v) => p.to_unix == Some(v),
        Clause::Kept(v) => p.has_kept_decision == Some(v),
    }
}

/// Whether a filter names the field at a place.
pub open spec fn names_place(p: FilterParams, place: int) -> bool {
    if place == 0 {
        p.tmdb_id is Some
    } else if place == 1 {
        p.imdb_id is Some
    } else if place == 2 {
        p.tvdb_id is Some
    } else if place == 3 {
        p.season is Some
    } else if place == 4 {
        p.episode is Some
    } else if place == 5 {
        p.from_unix is Some
    } else if place == 6 {
        p.to_unix is Some
    } else {
        place == 7 && p.has_kept_decision is Some
    }
}

/// Whether some condition stands at a place.
pub open spec fn has_place(clauses: Seq<Clause>, place: int) -> bool {
    exists|i: int| 0 <= i < clauses.len() && place_of(#[trigger] clauses[i]) == place
}

/// Whether the conditions are the filter's fields before `upto`, each once
/// and in order.
pub open spec fn are_clauses(clauses: Seq<Clause>, p: FilterParams, upto: int) -> bool {
    &&& forall|i: int|
        0 <= i < clauses.len() ==> is_asked(p, #[trigger] clauses[i]) && place_of(clauses[i])
            < upto
    &&& forall|i: int, j: int|
        0 <= i < j < clauses.len() ==> place_of(#[trigger] clauses[i]) < place_of(
            #[trigger] clauses[j],
        )
    &&& forall|k: int| 0 <= k < upto && names_place(p, k) ==> #[trigger] has_place(clauses, k)
}

proof fn lemma_pushed(before: Seq<Clause>, c: Clause, p: FilterParams, upto: int)
    requires
        are_clauses(before, p, upto),
        is_asked(p, c),
        place_of(c) == upto,
    ensures
        are_clauses(before.push(c), p, upto + 1),
{
    let after = before.push(c);
    assert forall|k: int| 0 <= k < upto + 1 && names_place(p, k) implies #[trigger] has_place(
        after,
        k,
    ) by {
        if k == upto {
            assert(place_of(after[before.len() as int]) == k);
        } else {
            assert(has_place(before, k));
            let i = choose|i: int| 0 <= i < before.len() && place_of(#[trigger] before[i]) == k;
            assert(after[i] == before[i]);
        }
    }
}

proof fn lemma_skipped(before: Seq<Clause>, p: FilterParams, upto: int)
    requires
        are_clauses(before, p, upto),
        !names_place(p, upto),
    ensures
        are_clauses(before, p, upto + 1),
{
    assert forall|k: int| 0 <= k < upto + 1 && names_place(p, k) implies #[trigger] has_place(
        before,
        k,
    ) by {
        assert(k < upto);
    }
}

/// The conditions of a filter, one per present field, in the order of the
/// fields. A listing and its total are narrowed by the same ones.
pub fn push_filters(p: &FilterParams) -> (r: Vec<Clause>)
    ensures
        are_clauses(r@, *p, 8),
{
    let mut out: Vec<Clause> = Vec::new();
    let ghost mut had = out@;
    if let Some(v) = p.tmdb_id {
        out.push(Clause::TmdbId(v));
        proof { lemma_pushed(had, Clause::TmdbId(v), *p, 0); }
    } else {
        proof { lemma_skipped(had, *p, 0); }
    }
    proof { had = out@; }
    if let Some(v) = &p.imdb_id {
        let copy = v.clone();
        let ghost c = Clause::ImdbId(copy);
        out.push(Clause::ImdbId(copy));
        proof { lemma_pushed(had, c, *p, 1); }
    } else {
        proof { lemma_skipped(had, *p, 1); }
    }
    proof { had = out@; }
    if let Some(v) = p.tvdb_id {
        out.push(Clause::TvdbId(v));
        proof { lemma_pushed(had, Clause::TvdbId(v), *p, 2); }
    } else {
        proof { lemma_skipped(had, *p, 2); }
    }
    proof { had = out@; }
    if let Some(v) = p.season {
        out.push(Clause::Season(v));
        proof { lemma_pushed(had, Clause::Season(v), *p, 3); }
    } else {
        proof { lemma_skipped(had, *p, 3); }
    }
    proof { had = out@; }
    if let Some(v) = p.episode {
        out.push(Clause::Episode(v));
        proof { lemma_pushed(had, Clause::Episode(v), *p, 4); }
    } else {
        proof { lemma_skipped(had, *p, 4); }
    }
    proof { had = out@; }
    if let Some(v) = p.from_unix {
        out.push(Clause::From(v));
        proof { lemma_pushed(had, Clause::From(v), *p, 5); }
    } else {
        proof { lemma_skipped(had, *p, 5); }
    }
    proof { had = out@; }
    if let Some(v) = p.to_unix {
        out.push(Clause::To(v));
        proof { lemma_pushed(had, Clause::To(v), *p, 6); }
    } else {
        proof { lemma_skipped(had, *p, 6); }
    }
    proof { had = out@; }
    if let Some(v) = p.has_kept_decision {
        out.push(Clause::Kept(v));
        proof { lemma_pushed(had, Clause::Kept(v), *p, 7); }
    } else {
        proof { lemma_skipped(had, *p, 7); }
    }
    out
}

/// The conditions of a filter let through what the filter says, and nothing
/// else: fields that are absent do not narrow.
pub proof fn the_conditions_are_the_filter(
    row: SearchRow,
    kept: bool,
    p: FilterParams,
    clauses: Seq<Clause>,
)
    requires
        are_clauses(clauses, p, 8),
    ensures
        meets_all(row, kept, clauses) <==> passes(row, kept, p),
{
    if passes(row, kept, p) {
        assert forall|i: int| 0 <= i < clauses.len() implies meets(
            row,
            kept,
            #[trigger] clauses[i],
        ) by {
            assert(is_asked(p, clauses[i]));
        }
    }
    if meets_all(row, kept, clauses) {
        assert(names_place(p, 0) ==> has_place(clauses, 0));
        assert(names_place(p, 1) ==> has_place(clauses, 1));
        assert(names_place(p, 2) ==> has_place(clauses, 2));
        assert(names_place(p, 3) ==> has_place(clauses, 3));
        assert(names_place(p, 4) ==> has_place(clauses, 4));
        assert(names_place(p, 5) ==> has_place(clauses, 5));
        assert(names_place(p, 6) ==> has_place(clauses, 6));
        assert(names_place(p, 7) ==> has_place(clauses, 7));
    }
}

} // verus!
