//! The calls of the gRPC service: what a request asks for, what is answered,
//! and who may ask.

use vstd::prelude::*;

use crate::catalogue;
use crate::catalogue::SearchKeys;
use crate::db::searches;
use crate::db::searches::{FilterParams, SearchRow};
use crate::deliver;
use crate::deliver::quoted;
use crate::error::RpcCode;
use crate::flip;
use crate::flip::{Destination, Outcome, PackChange, Preview, Ready};
use crate::maintenance::MaintenanceOutcome;
use crate::outside;
use crate::outside::{format_uuid, parse_uuid};
use crate::poll;
use crate::poll::after_tt;
use crate::provider_cache::ProviderRow;
use crate::text;
use crate::text::{chars_of, extend_str, parse_unsigned, slice, starts, string_of, trimmed, trimmed_str};

verus! {

/// A call that is refused.
#[derive(Debug, Clone)]
pub struct Status {
    pub code: RpcCode,
    pub message: String,
}

fn invalid_argument(message: String) -> (r: Status)
    ensures
        r.code == RpcCode::InvalidArgument,
        r.message == message,
{
    Status { code: RpcCode::InvalidArgument, message }
}

// ---------------------------------------------------------------------
// Search
// ---------------------------------------------------------------------

/// A request to search: zero and blank are absent.
#[derive(Debug, Clone)]
pub struct SearchRequest {
    pub tmdb_id: u32,
    pub imdb_id: String,
}

/// What an IMDb field reads as: absent, a number, or nothing an id can be.
pub enum ImdbField {
    Absent,
    Number(u32),
    Zero,
    NotANumber,
}

/// What an IMDb field reads as, with or without its `tt`.
pub open spec fn imdb_field(raw: Seq<char>) -> ImdbField {
    let t = text::trim(raw);
    if t.len() == 0 {
        ImdbField::Absent
    } else {
        match text::unsigned(poll::without_tt(t), u32::MAX as nat) {
            None => ImdbField::NotANumber,
            Some(n) => if n == 0 {
                ImdbField::Zero
            } else {
                ImdbField::Number(n as u32)
            },
        }
    }
}

/// Why a request cannot be searched for.
pub open spec fn unusable(req: SearchRequest) -> Option<Seq<char>> {
    match imdb_field(req.imdb_id@) {
        ImdbField::NotANumber => Some(
            "invalid imdb_id "@ + deliver::quoted_text(req.imdb_id@)
                + ": expected numeric tt-id"@,
        ),
        ImdbField::Zero => Some("invalid imdb_id "@ + req.imdb_id@ + ": id cannot be zero"@),
        ImdbField::Absent => if req.tmdb_id == 0 {
            Some("SearchRequest must set tmdb_id or imdb_id"@)
        } else {
            None
        },
        ImdbField::Number(_) => None,
    }
}

/// What a request searches by, or why it is refused.
pub open spec fn is_search(r: Result<SearchKeys, Status>, req: SearchRequest) -> bool {
    match r {
        Ok(keys) => {
            &&& unusable(req) is None
            &&& keys.tmdb == if req.tmdb_id == 0 {
                None
            } else {
                Some(req.tmdb_id)
            }
            &&& keys.imdb == match imdb_field(req.imdb_id@) {
                ImdbField::Number(n) => Some(n),
                _ => None,
            }
            &&& keys.tvdb is None
            &&& keys.season is None
            &&& keys.episode is None
        },
        Err(s) => s.code == RpcCode::InvalidArgument && unusable(req) == Some(s.message@),
    }
}

/// The keys of a request: either id, or both. One that has neither, or whose
/// IMDb id is no number, is refused.
pub fn build_search_keys(req: &SearchRequest) -> (r: Result<SearchKeys, Status>)
    ensures
        is_search(r, *req),
{
    let tmdb: Option<u32> = if req.tmdb_id == 0 {
        None
    } else {
        Some(req.tmdb_id)
    };
    let t = trimmed_str(req.imdb_id.as_str());
    let imdb: Option<u32> = if t.len() == 0 {
        None
    } else {
        let from: usize = after_tt(&t);
        let raw = slice(&t, from, t.len());
        assert(raw@ =~= t@.skip(from as int));
        match parse_unsigned(&raw, u32::MAX as u64) {
            None => {
                let mut out = chars_of("invalid imdb_id ");
                extend_str(&mut out, quoted(req.imdb_id.as_str()).as_str());
                extend_str(&mut out, ": expected numeric tt-id");
                return Err(invalid_argument(string_of(&out)));
            },
            Some(n) => {
                if n == 0 {
                    let mut out = chars_of("invalid imdb_id ");
                    extend_str(&mut out, req.imdb_id.as_str());
                    extend_str(&mut out, ": id cannot be zero");
                    return Err(invalid_argument(string_of(&out)));
                }
                Some(n as u32)
            },
        }
    };
    if tmdb.is_none() && imdb.is_none() {
        return Err(
            invalid_argument("SearchRequest must set tmdb_id or imdb_id".to_owned()),
        );
    }
    Ok(SearchKeys { tmdb, imdb, tvdb: None, season: None, episode: None })
}

// ---------------------------------------------------------------------
// Recent searches
// ---------------------------------------------------------------------

/// A request for recent searches.
#[derive(Debug, Clone)]
pub struct RecentSearchesRequest {
    pub limit: u32,
    pub offset: u32,
    pub tmdb_id: Option<u32>,
    pub imdb_id: Option<String>,
    pub tvdb_id: Option<u32>,
    pub season: Option<u32>,
    pub episode: Option<u32>,
    pub from_unix: Option<i64>,
    pub to_unix: Option<i64>,
    pub has_kept_decision: Option<bool>,
}

/// Whether a request narrows or pages at all.
pub open spec fn narrows(req: RecentSearchesRequest) -> bool {
    ||| req.tmdb_id is Some
    ||| (req.imdb_id is Some && req.imdb_id->0@.len() > 0)
    ||| req.tvdb_id is Some
    ||| req.season is Some
    ||| req.episode is Some
    ||| req.from_unix is Some
    ||| req.to_unix is Some
    ||| req.has_kept_decision is Some
    ||| req.offset > 0
}

/// Any filter field, or an offset, takes the filtered path.
pub fn request_has_filters(req: &RecentSearchesRequest) -> (r: bool)
    ensures
        r == narrows(*req),
{
    let named = match &req.imdb_id {
        Some(s) => chars_of(s.as_str()).len() > 0,
        None => false,
    };
    req.tmdb_id.is_some() || named || req.tvdb_id.is_some() || req.season.is_some()
        || req.episode.is_some() || req.from_unix.is_some() || req.to_unix.is_some()
        || req.has_kept_decision.is_some() || req.offset > 0
}

pub open spec fn short(n: Option<u32>) -> Option<u16> {
    match n {
        Some(v) => if v <= u16::MAX {
            Some(v as u16)
        } else {
            None
        },
        None => None,
    }
}

fn as_short(n: Option<u32>) -> (r: Option<u16>)
    ensures
        r == short(n),
{
    match n {
        Some(v) => if v <= 65_535 {
            Some(v as u16)
        } else {
            None
        },
        None => None,
    }
}

/// Whether a filter is the one a request asks for. A blank IMDb id does not
/// narrow, nor does a season or episode no release can have.
pub open spec fn is_filter_of(p: FilterParams, req: RecentSearchesRequest) -> bool {
    &&& p.tmdb_id == req.tmdb_id
    &&& text::opt_view(p.imdb_id) == match req.imdb_id {
        Some(s) => if s@.len() > 0 {
            Some(s@)
        } else {
            None
        },
        None => None,
    }
    &&& p.tvdb_id == req.tvdb_id
    &&& p.season == short(req.season)
    &&& p.episode == short(req.episode)
    &&& p.from_unix == req.from_unix
    &&& p.to_unix == req.to_unix
    &&& p.has_kept_decision == req.has_kept_decision
    &&& p.limit == req.limit
    &&& p.offset == req.offset
}

/// The filter a request asks for.
pub open spec fn is_recent(r: Option<FilterParams>, req: RecentSearchesRequest) -> bool {
    match r {
        Some(p) => narrows(req) && is_filter_of(p, req),
        None => !narrows(req),
    }
}

/// The filter a request asks for; `None` is the plain listing.
pub fn recent_searches(req: &RecentSearchesRequest) -> (r: Option<FilterParams>)
    ensures
        is_recent(r, *req),
{
    if !request_has_filters(req) {
        return None;
    }
    let imdb_id = match &req.imdb_id {
        Some(s) => if chars_of(s.as_str()).len() > 0 {
            Some(s.clone())
        } else {
            None
        },
        None => None,
    };
    Some(
        FilterParams {
            tmdb_id: req.tmdb_id,
            imdb_id,
            tvdb_id: req.tvdb_id,
            season: as_short(req.season),
            episode: as_short(req.episode),
            from_unix: req.from_unix,
            to_unix: req.to_unix,
            has_kept_decision: req.has_kept_decision,
            limit: req.limit,
            offset: req.offset,
        },
    )
}

/// One search on the wire; zero and blank are absent.
#[derive(Debug, Clone)]
pub struct SearchSummary {
    pub id: String,
    pub tmdb_id: u32,
    pub submitted_at_unix: i64,
    pub result_count: u32,
    pub imdb_id: String,
    pub tvdb_id: u32,
    pub season: u32,
    pub episode: u32,
}

/// How many decisions were kept.
pub open spec fn kept_count(rejected: Seq<bool>) -> nat
    decreases rejected.len(),
{
    if rejected.len() == 0 {
        0
    } else {
        kept_count(rejected.drop_last()) + if rejected.last() {
            0nat
        } else {
            1
        }
    }
}

/// The count a search is shown with: of its decisions as they are now, and
/// the stored one when they cannot be read.
pub open spec fn shown_count(stored: u32, rejected: Option<Seq<bool>>) -> u32 {
    match rejected {
        Some(d) => if kept_count(d) <= u32::MAX {
            kept_count(d) as u32
        } else {
            0
        },
        None => stored,
    }
}

fn count_kept(rejected: &[bool]) -> (r: usize)
    ensures
        r == kept_count(rejected@),
{
    let mut n: usize = 0;
    let mut i: usize = 0;
    while i < rejected.len()
        invariant
            i <= rejected.len(),
            n <= i,
            n == kept_count(rejected@.take(i as int)),
        decreases rejected.len() - i,
    {
        assert(rejected@.take(i + 1).drop_last() == rejected@.take(i as int));
        assert(rejected@.take(i + 1).last() == rejected@[i as int]);
        if !rejected[i] {
            n += 1;
        }
        i += 1;
    }
    assert(rejected@.take(rejected.len() as int) == rejected@);
    n
}

/// What is told of a search.
pub open spec fn is_summary(r: SearchSummary, row: SearchRow, rejected: Option<&[bool]>) -> bool {
    &&& r.id@ == outside::hyphenated(row.id)
    &&& r.tmdb_id == match row.tmdb_id {
        Some(v) => v,
        None => 0,
    }
    &&& r.submitted_at_unix == row.submitted_at
    &&& r.result_count == shown_count(
        row.result_count,
        match rejected {
            Some(d) => Some(d@),
            None => None,
        },
    )
    &&& r.imdb_id@ == match row.imdb_id {
        Some(s) => s@,
        None => Seq::empty(),
    }
    &&& r.tvdb_id == match row.tvdb_id {
        Some(v) => v,
        None => 0,
    }
    &&& r.season == match row.season {
        Some(v) => v as u32,
        None => 0,
    }
    &&& r.episode == match row.episode {
        Some(v) => v as u32,
        None => 0,
    }
}

/// One search on the wire. `rejected` says of each of its decisions whether
/// it was rejected; `None` when they could not be read.
pub fn search_summary(row: &SearchRow, rejected: Option<&[bool]>) -> (r: SearchSummary)
    ensures
        is_summary(r, *row, rejected),
{
    let result_count: u32 = match rejected {
        Some(d) => {
            let n: usize = count_kept(d);
            if n as u64 <= u32::MAX as u64 {
                n as u32
            } else {
                0
            }
        },
        None => row.result_count,
    };
    SearchSummary {
        id: format_uuid(row.id),
        tmdb_id: match row.tmdb_id {
            Some(v) => v,
            None => 0,
        },
        submitted_at_unix: row.submitted_at,
        result_count,
        imdb_id: match &row.imdb_id {
            Some(s) => s.clone(),
            None => String::new(),
        },
        tvdb_id: match row.tvdb_id {
            Some(v) => v,
            None => 0,
        },
        season: match row.season {
            Some(v) => v as u32,
            None => 0,
        },
        episode: match row.episode {
            Some(v) => v as u32,
            None => 0,
        },
    }
}

// ---------------------------------------------------------------------
// Providers
// ---------------------------------------------------------------------

/// One provider on the wire. Its token is not told.
#[derive(Debug, Clone)]
pub struct ProviderSummary {
    pub id: String,
    pub name: String,
    pub base_url: String,
    pub kind: String,
    pub created_at_unix: i64,
}

/// What is told of a provider.
pub open spec fn is_provider_summary(r: ProviderSummary, row: ProviderRow) -> bool {
    &&& r.id@ == outside::hyphenated(row.id)
    &&& r.name@ == row.name@
    &&& r.base_url@ == row.base_url@
    &&& r.kind@ == row.kind@
    &&& r.created_at_unix == row.created_at
}

/// One provider on the wire.
pub fn provider_summary(row: &ProviderRow) -> (r: ProviderSummary)
    ensures
        is_provider_summary(r, *row),
{
    ProviderSummary {
        id: format_uuid(row.id),
        name: row.name.clone(),
        base_url: row.base_url.clone(),
        kind: row.kind.clone(),
        created_at_unix: row.created_at,
    }
}

// ---------------------------------------------------------------------
// The structure dry run
// ---------------------------------------------------------------------

/// The title a dry run is about.
pub open spec fn is_scope(r: Result<Option<u128>, Status>, item_id: &str) -> bool {
    match r {
        Ok(None) => text::trim(item_id@).len() == 0,
        Ok(Some(id)) => text::trim(item_id@).len() > 0 && outside::uuid_of(
            text::trim(item_id@),
        ) == Some(id),
        Err(s) => text::trim(item_id@).len() > 0 && outside::uuid_of(text::trim(item_id@)) is None
            && s.code == RpcCode::InvalidArgument && s.message@ == "`"@ + item_id@
            + "` is not a uuid"@,
    }
}

/// Which titles a dry run is about: one, or all of them when the id is
/// blank. What is no id is the caller's mistake.
pub fn dry_run_scope(item_id: &str) -> (r: Result<Option<u128>, Status>)
    ensures
        is_scope(r, item_id),
{
    let t = trimmed_str(item_id);
    if t.len() == 0 {
        return Ok(None);
    }
    match parse_uuid(string_of(&t).as_str()) {
        Ok(id) => Ok(Some(id)),
        Err(_) => {
            let mut out = chars_of("`");
            extend_str(&mut out, item_id);
            extend_str(&mut out, "` is not a uuid");
            Err(invalid_argument(string_of(&out)))
        },
    }
}

/// A pack on the wire.
#[derive(Debug, Clone, Copy, PartialEq, Eq, Structural)]
pub struct StructurePack {
    pub season: i32,
    pub was: u32,
    pub now: u32,
    pub grabs: u32,
}

/// One title on the wire: flat values, zero and blank where they do not
/// apply. The outcome is read first.
#[derive(Debug, Clone)]
pub struct StructureTitle {
    pub item_id: String,
    pub title: String,
    pub outcome: String,
    pub reason: String,
    pub destination_source: String,
    pub destination_family: String,
    pub destination_handle: String,
    pub pinned: bool,
    pub paired: u32,
    pub orphans: u32,
    pub added: u32,
    pub grabs_at_risk: u32,
    pub would_commit: bool,
    pub packs: Vec<StructurePack>,
}

/// A count that saturates.
pub open spec fn capped(n: usize) -> u32 {
    if n <= u32::MAX {
        n as u32
    } else {
        u32::MAX
    }
}

fn cap(n: usize) -> (r: u32)
    ensures
        r == capped(n),
{
    if n as u64 <= u32::MAX as u64 {
        n as u32
    } else {
        u32::MAX
    }
}

pub open spec fn packs_of(packs: Seq<PackChange>) -> Seq<StructurePack> {
    Seq::new(
        packs.len(),
        |i: int|
            StructurePack {
                season: packs[i].season,
                was: capped(packs[i].was),
                now: capped(packs[i].now),
                grabs: packs[i].grabs,
            },
    )
}

/// Where an outcome was going, when that much is known.
pub open spec fn known(outcome: Outcome) -> Option<Destination> {
    match outcome {
        Outcome::Untouched => None,
        Outcome::Blocked { destination, .. } => match destination {
            Some(d) => Some(*d),
            None => None,
        },
        Outcome::Ready(ready) => Some(ready.destination),
    }
}

/// Whether a title on the wire says where it was going.
pub open spec fn says_destination(t: StructureTitle, d: Option<Destination>) -> bool {
    match d {
        Some(d) => {
            &&& t.destination_source@ == catalogue::source_label(d.source)
            &&& t.destination_family@ == flip::family_label(flip::family_of(d.ordering))
            &&& t.destination_handle@ == match flip::handle_of(d.ordering) {
                Some(h) => h,
                None => Seq::empty(),
            }
            &&& t.pinned == d.pinned
        },
        None => {
            &&& t.destination_source@.len() == 0
            &&& t.destination_family@.len() == 0
            &&& t.destination_handle@.len() == 0
            &&& !t.pinned
        },
    }
}

/// Whether a title on the wire says what a plan would do.
pub open spec fn says_plan(t: StructureTitle, outcome: Outcome) -> bool {
    match outcome {
        Outcome::Ready(ready) => {
            &&& t.paired == capped(ready.plan.pairs)
            &&& t.orphans == capped(ready.plan.orphans)
            &&& t.added == capped(ready.plan.added)
            &&& t.grabs_at_risk == ready.plan.grabs_at_risk
            &&& t.would_commit == flip::would_be_accepted(ready.plan)
            &&& t.packs@ == packs_of(ready.plan.packs_affected@)
        },
        _ => {
            &&& t.paired == 0
            &&& t.orphans == 0
            &&& t.added == 0
            &&& t.grabs_at_risk == 0
            &&& !t.would_commit
            &&& t.packs.len() == 0
        },
    }
}

/// Whether a title on the wire is a preview's.
pub open spec fn is_title_of(t: StructureTitle, p: Preview) -> bool {
    &&& t.item_id@ == outside::hyphenated(p.item_id)
    &&& t.title@ == p.title@
    &&& t.outcome@ == match p.outcome {
        Outcome::Untouched => "untouched"@,
        Outcome::Blocked { .. } => "blocked"@,
        Outcome::Ready(_) => "ready"@,
    }
    &&& t.reason@ == match p.outcome {
        Outcome::Blocked { reason, .. } => reason@,
        _ => Seq::empty(),
    }
    &&& says_destination(t, known(p.outcome))
    &&& says_plan(t, p.outcome)
}

fn wire_packs(packs: &[PackChange]) -> (r: Vec<StructurePack>)
    ensures
        r@ == packs_of(packs@),
{
    let mut out: Vec<StructurePack> = Vec::new();
    let mut i: usize = 0;
    while i < packs.len()
        invariant
            i <= packs.len(),
            out@ == packs_of(packs@).take(i as int),
        decreases packs.len() - i,
    {
        let p = packs[i];
        out.push(
            StructurePack { season: p.season, was: cap(p.was), now: cap(p.now), grabs: p.grabs },
        );
        i += 1;
        assert(out@ =~= packs_of(packs@).take(i as int));
    }
    assert(packs_of(packs@).take(packs.len() as int) =~= packs_of(packs@));
    out
}

/// One preview on the wire.
pub fn structure_title(preview: &Preview) -> (r: StructureTitle)
    ensures
        is_title_of(r, *preview),
{
    let outcome = match &preview.outcome {
        Outcome::Untouched => "untouched",
        Outcome::Blocked { .. } => "blocked",
        Outcome::Ready(_) => "ready",
    };
    let reason = match &preview.outcome {
        Outcome::Blocked { reason, .. } => reason.clone(),
        _ => String::new(),
    };
    let going: Option<&Destination> = match &preview.outcome {
        Outcome::Untouched => None,
        Outcome::Blocked { destination, .. } => match destination {
            Some(d) => Some(&**d),
            None => None,
        },
        Outcome::Ready(ready) => Some(&ready.destination),
    };
    let mut title = StructureTitle {
        item_id: format_uuid(preview.item_id),
        title: preview.title.clone(),
        outcome: outcome.to_owned(),
        reason,
        destination_source: String::new(),
        destination_family: String::new(),
        destination_handle: String::new(),
        pinned: false,
        paired: 0,
        orphans: 0,
        added: 0,
        grabs_at_risk: 0,
        would_commit: false,
        packs: Vec::new(),
    };
    if let Some(d) = going {
        title.destination_source = d.source.label().to_owned();
        title.destination_family = d.ordering.family().label().to_owned();
        title.destination_handle = match d.ordering.handle() {
            Some(h) => h.to_owned(),
            None => String::new(),
        };
        title.pinned = d.pinned;
    }
    if let Outcome::Ready(ready) = &preview.outcome {
        title.paired = cap(ready.plan.pairs);
        title.orphans = cap(ready.plan.orphans);
        title.added = cap(ready.plan.added);
        title.grabs_at_risk = ready.plan.grabs_at_risk;
        title.would_commit = ready.would_commit();
        title.packs = wire_packs(&ready.plan.packs_affected);
    }
    title
}

/// Every preview on the wire, in order.
pub fn structure_dry_run(previews: &[Preview]) -> (r: Vec<StructureTitle>)
    ensures
        r.len() == previews.len(),
        forall|i: int| 0 <= i < r.len() ==> is_title_of(#[trigger] r@[i], previews@[i]),
{
    let mut out: Vec<StructureTitle> = Vec::new();
    let mut i: usize = 0;
    while i < previews.len()
        invariant
            i <= previews.len(),
            out.len() == i,
            forall|k: int| 0 <= k < i ==> is_title_of(#[trigger] out@[k], previews@[k]),
        decreases previews.len() - i,
    {
        out.push(structure_title(&previews[i]));
        i += 1;
    }
    out
}

// ---------------------------------------------------------------------
// The service
// ---------------------------------------------------------------------

/// What the service reads of the running configuration.
#[derive(Debug, Clone, Copy, PartialEq, Eq, Structural)]
pub struct ServiceState {
    /// Whether a token is asked for.
    pub auth_enabled: bool,
    /// Days of history; zero keeps everything.
    pub retention_days: u32,
}

/// The service.
#[derive(Debug, Clone, Copy, PartialEq, Eq, Structural)]
pub struct BrarrService {
    pub state: ServiceState,
}

/// What a maintenance run came to.
#[derive(Debug, Clone, Copy, PartialEq, Eq, Structural)]
pub struct MaintenanceReply {
    pub decisions_deleted: u64,
    pub searches_deleted: u64,
    pub retention_days: u32,
}

/// The token a header carries.
pub open spec fn bearer(header: Option<Seq<char>>) -> Option<Seq<char>> {
    match header {
        Some(raw) => if text::has_prefix(raw, "Bearer "@) || text::has_prefix(raw, "bearer "@) {
            Some(text::trim(raw.skip(7)))
        } else {
            None
        },
        None => None,
    }
}

/// The token a header carries, under either spelling of its scheme.
pub fn bearer_token(header: Option<&str>) -> (r: Option<String>)
    ensures
        text::opt_view(r) == bearer(
            match header {
                Some(h) => Some(h@),
                None => None,
            },
        ),
{
    match header {
        Some(h) => {
            let raw = chars_of(h);
            if starts(&raw, &chars_of("Bearer ")) || starts(&raw, &chars_of("bearer ")) {
                proof {
                    reveal_strlit("Bearer ");
                    reveal_strlit("bearer ");
                }
                let rest = slice(&raw, 7, raw.len());
                assert(rest@ =~= raw@.skip(7));
                Some(string_of(&trimmed(&rest)))
            } else {
                None
            }
        },
        None => None,
    }
}

/// Whether a request is let in.
pub open spec fn is_let_in(
    r: Result<(), Status>,
    service: BrarrService,
    token_matches: Option<bool>,
) -> bool {
    match r {
        Ok(()) => !service.state.auth_enabled || token_matches == Some(true),
        Err(s) => service.state.auth_enabled && token_matches != Some(true) && s.code
            == RpcCode::Unauthenticated && s.message@
            == "missing or invalid bearer token"@,
    }
}

/// What is told of a maintenance run.
pub open spec fn is_maintained(
    r: MaintenanceReply,
    service: BrarrService,
    outcome: MaintenanceOutcome,
) -> bool {
    r == (MaintenanceReply {
        decisions_deleted: outcome.decisions_deleted,
        searches_deleted: outcome.searches_deleted,
        retention_days: service.state.retention_days,
    })
}

impl BrarrService {
    /// A service over a running configuration.
    pub fn new(state: ServiceState) -> (r: BrarrService)
        ensures
            r.state == state,
    {
        BrarrService { state }
    }

    /// Whether a call may pass. `token_matches` says whether the token it
    /// carries is the right one; `None` when it carries none.
    pub fn auth_interceptor(&self, token_matches: Option<bool>) -> (r: Result<(), Status>)
        ensures
            is_let_in(r, *self, token_matches),
    {
        if !self.state.auth_enabled {
            return Ok(());
        }
        match token_matches {
            Some(true) => Ok(()),
            _ => Err(
                Status {
                    code: RpcCode::Unauthenticated,
                    message: "missing or invalid bearer token".to_owned(),
                },
            ),
        }
    }

    /// What a maintenance run is answered with.
    pub fn run_maintenance(&self, outcome: MaintenanceOutcome) -> (r: MaintenanceReply)
        ensures
            is_maintained(r, *self, outcome),
    {
        MaintenanceReply {
            decisions_deleted: outcome.decisions_deleted,
            searches_deleted: outcome.searches_deleted,
            retention_days: self.state.retention_days,
        }
    }
}

} // verus!
