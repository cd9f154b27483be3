//! The audit log of every push attempt made to an \*arr instance.

use vstd::prelude::*;

use crate::db::columns::invalid;
use crate::error::AppError;
use crate::outside;
use crate::outside::{check_timestamp, json_of_strings, json_strings, parse_uuid};
use crate::poll;
use crate::poll::ArrKind;
use crate::text;
use crate::text::same_text;

verus! {

/// How a push ended.
#[derive(Debug, Clone, Copy, PartialEq, Eq, Structural)]
pub enum PushStatus {
    /// The instance accepted the push.
    Accepted,
    /// The instance answered with an error status.
    HttpError,
    /// The instance could not be reached.
    TransportError,
}

pub open spec fn status_label(status: PushStatus) -> Seq<char> {
    match status {
        PushStatus::Accepted => "ok"@,
        PushStatus::HttpError => "http_error"@,
        PushStatus::TransportError => "transport_error"@,
    }
}

/// The status a stored label stands for; an unknown one is an HTTP error,
/// so the row stays useful.
pub open spec fn labelled_status(s: Seq<char>) -> PushStatus {
    if s == "ok"@ {
        PushStatus::Accepted
    } else if s == "transport_error"@ {
        PushStatus::TransportError
    } else {
        PushStatus::HttpError
    }
}

impl PushStatus {
    /// Short tag for the `status` column.
    pub fn label(self) -> (r: &'static str)
        ensures
            r@ == status_label(self),
    {
        match self {
            PushStatus::Accepted => "ok",
            PushStatus::HttpError => "http_error",
            PushStatus::TransportError => "transport_error",
        }
    }

    /// The status a stored label stands for.
    pub fn from_label(s: &str) -> (r: PushStatus)
        ensures
            r == labelled_status(s@),
    {
        if same_text(s, "ok") {
            PushStatus::Accepted
        } else if same_text(s, "transport_error") {
            PushStatus::TransportError
        } else {
            PushStatus::HttpError
        }
    }
}

/// A status's label reads back as that status.
pub proof fn the_status_label_round_trips(status: PushStatus)
    ensures
        labelled_status(status_label(status)) == status,
{
    reveal_strlit("ok");
    reveal_strlit("http_error");
    reveal_strlit("transport_error");
    assert("ok"@.len() == 2 && "http_error"@.len() == 10 && "transport_error"@.len() == 15);
}

/// Bundle of values used to insert one push history row.
#[derive(Debug, Clone)]
pub struct NewPushHistory {
    /// Decision being pushed.
    pub decision_id: u128,
    /// Target instance.
    pub arr_instance_id: u128,
    /// Its name when the push fired.
    pub arr_instance_name: String,
    /// Its flavour.
    pub arr_kind: ArrKind,
    /// Outcome.
    pub status: PushStatus,
    /// HTTP status when there was one.
    pub http_status: Option<u16>,
    /// The instance's answer.
    pub response_body: Option<String>,
    /// The rejections read out of the answer; `None` when it could not be
    /// read.
    pub rejections: Option<Vec<String>>,
}

/// One persisted push attempt.
#[derive(Debug, Clone)]
pub struct PushHistoryRow {
    pub id: u128,
    /// The release that was pushed.
    pub decision_id: u128,
    /// `None` once the instance was deleted.
    pub arr_instance_id: Option<u128>,
    pub arr_instance_name: String,
    pub arr_kind: ArrKind,
    /// When the push was attempted, in Unix seconds.
    pub pushed_at: i64,
    pub status: PushStatus,
    pub http_status: Option<u16>,
    pub response_body: Option<String>,
    pub rejections: Option<Vec<String>>,
    /// Title of the release, from its decision.
    pub release_name: String,
    /// Name of the provider, from the decision.
    pub provider_name: String,
}

/// The columns of a row as the database holds them.
#[derive(Debug, Clone)]
pub struct PushColumns {
    pub id: String,
    pub decision_id: String,
    pub arr_instance_id: Option<String>,
    pub arr_instance_name: String,
    pub arr_kind: String,
    pub pushed_at: i64,
    pub status: String,
    pub http_status: Option<i64>,
    pub response_body: Option<String>,
    pub rejections_json: Option<String>,
    pub release_name: Option<String>,
    pub provider_name: Option<String>,
}

/// The kind a stored label names.
pub open spec fn labelled_kind(s: Seq<char>) -> Option<ArrKind> {
    if s == "sonarr"@ {
        Some(ArrKind::Sonarr)
    } else if s == "radarr"@ {
        Some(ArrKind::Radarr)
    } else {
        None
    }
}

/// The kind a stored label names.
pub fn parse_kind(s: &str) -> (r: Option<ArrKind>)
    ensures
        r == labelled_kind(s@),
{
    if same_text(s, "sonarr") {
        Some(ArrKind::Sonarr)
    } else if same_text(s, "radarr") {
        Some(ArrKind::Radarr)
    } else {
        None
    }
}

/// A kind's label reads back as that kind.
pub proof fn the_kind_label_round_trips(kind: ArrKind)
    ensures
        labelled_kind(poll::kind_label(kind)) == Some(kind),
{
    reveal_strlit("sonarr");
    reveal_strlit("radarr");
    assert("sonarr"@[0] != "radarr"@[0]);
}

/// The first column of a row that cannot be read, as the sentence that says
/// so.
pub open spec fn unreadable(c: PushColumns) -> Option<Seq<char>> {
    if outside::uuid_read(c.id@) is Err {
        Some("invalid uuid in push_history.id: "@ + outside::uuid_read(c.id@)->Err_0)
    } else if outside::uuid_read(c.decision_id@) is Err {
        Some("invalid uuid in decision_id: "@ + outside::uuid_read(c.decision_id@)->Err_0)
    } else if c.arr_instance_id is Some && outside::uuid_read(c.arr_instance_id->0@) is Err {
        Some(
            "invalid uuid in arr_instance_id: "@ + outside::uuid_read(
                c.arr_instance_id->0@,
            )->Err_0,
        )
    } else if labelled_kind(c.arr_kind@) is None {
        Some("unknown push_history.arr_kind: "@ + c.arr_kind@)
    } else if !outside::is_timestamp(c.pushed_at) {
        Some("invalid timestamp: "@ + outside::timestamp_fault())
    } else {
        None
    }
}

pub open spec fn text_or_empty(o: Option<String>) -> Seq<char> {
    match o {
        Some(s) => s@,
        None => Seq::empty(),
    }
}

/// The rejections a row holds; a list that cannot be read is no list.
pub open spec fn stored_rejections(json: Option<String>) -> Option<Seq<Seq<char>>> {
    match json {
        Some(s) => outside::strings_in(s@),
        None => None,
    }
}

/// Whether `row` is what the columns say.
pub open spec fn is_row(row: PushHistoryRow, c: PushColumns) -> bool {
    &&& outside::uuid_of(c.id@) == Some(row.id)
    &&& outside::uuid_of(c.decision_id@) == Some(row.decision_id)
    &&& row.arr_instance_id == match c.arr_instance_id {
        Some(s) => outside::uuid_of(s@),
        None => None,
    }
    &&& row.arr_instance_name@ == c.arr_instance_name@
    &&& labelled_kind(c.arr_kind@) == Some(row.arr_kind)
    &&& row.pushed_at == c.pushed_at
    &&& row.status == labelled_status(c.status@)
    &&& row.http_status == match c.http_status {
        Some(s) => if 0 <= s <= u16::MAX {
            Some(s as u16)
        } else {
            None
        },
        None => None,
    }
    &&& text::opt_view(row.response_body) == text::opt_view(c.response_body)
    &&& outside::list_view(row.rejections) == stored_rejections(c.rejections_json)
    &&& row.release_name@ == text_or_empty(c.release_name)
    &&& row.provider_name@ == text_or_empty(c.provider_name)
}

/// Read a row back. An id, a kind or a timestamp that cannot be read is an
/// error; an HTTP status out of range and a list of rejections that is no
/// list read as absent, so that the row stays readable.
pub fn row_to_push(c: PushColumns) -> (r: Result<PushHistoryRow, AppError>)
    ensures
        match r {
            Ok(row) => unreadable(c) is None && is_row(row, c),
            Err(e) => e matches AppError::InvalidInput(m) && unreadable(c) == Some(m@),
        },
{
    let id: u128 = match parse_uuid(c.id.as_str()) {
        Ok(id) => id,
        Err(e) => {
            return Err(invalid("invalid uuid in push_history.id: ", e.as_str()));
        },
    };
    let decision_id: u128 = match parse_uuid(c.decision_id.as_str()) {
        Ok(id) => id,
        Err(e) => {
            return Err(invalid("invalid uuid in decision_id: ", e.as_str()));
        },
    };
    let arr_instance_id: Option<u128> = match &c.arr_instance_id {
        Some(s) => match parse_uuid(s.as_str()) {
            Ok(id) => Some(id),
            Err(e) => {
                return Err(invalid("invalid uuid in arr_instance_id: ", e.as_str()));
            },
        },
        None => None,
    };
    let arr_kind = match parse_kind(c.arr_kind.as_str()) {
        Some(kind) => kind,
        None => {
            return Err(invalid("unknown push_history.arr_kind: ", c.arr_kind.as_str()));
        },
    };
    let pushed_at: i64 = match check_timestamp(c.pushed_at) {
        Ok(t) => t,
        Err(e) => {
            return Err(invalid("invalid timestamp: ", e.as_str()));
        },
    };
    let http_status: Option<u16> = match c.http_status {
        Some(s) => if 0 <= s && s <= 65535 {
            Some(s as u16)
        } else {
            None
        },
        None => None,
    };
    let rejections = match &c.rejections_json {
        Some(s) => json_strings(s.as_str()),
        None => None,
    };
    let status = PushStatus::from_label(c.status.as_str());
    Ok(
        PushHistoryRow {
            id,
            decision_id,
            arr_instance_id,
            arr_instance_name: c.arr_instance_name,
            arr_kind,
            pushed_at,
            status,
            http_status,
            response_body: c.response_body,
            rejections,
            release_name: match c.release_name {
                Some(s) => s,
                None => String::new(),
            },
            provider_name: match c.provider_name {
                Some(s) => s,
                None => String::new(),
            },
        },
    )
}

/// Whether the columns are those of a push made at `now`.
pub open spec fn is_written(c: PushColumns, id: u128, now: i64, new: NewPushHistory) -> bool {
    &&& c.id@ == outside::hyphenated(id)
    &&& outside::uuid_of(c.id@) == Some(id)
    &&& c.decision_id@ == outside::hyphenated(new.decision_id)
    &&& outside::uuid_of(c.decision_id@) == Some(new.decision_id)
    &&& c.arr_instance_id is Some
    &&& c.arr_instance_id->0@ == outside::hyphenated(new.arr_instance_id)
    &&& outside::uuid_of(c.arr_instance_id->0@) == Some(new.arr_instance_id)
    &&& c.arr_instance_name@ == new.arr_instance_name@
    &&& c.arr_kind@ == poll::kind_label(new.arr_kind)
    &&& c.pushed_at == now
    &&& c.status@ == status_label(new.status)
    &&& c.http_status == match new.http_status {
        Some(s) => Some(s as i64),
        None => None,
    }
    &&& text::opt_view(c.response_body) == text::opt_view(new.response_body)
    &&& c.rejections_json is Some == new.rejections is Some
    &&& stored_rejections(c.rejections_json) == outside::list_view(new.rejections)
    &&& c.release_name is None
    &&& c.provider_name is None
}

/// Write a row's columns. `now` is when the push was made.
pub fn insert(id: u128, now: i64, new: NewPushHistory) -> (r: Result<PushColumns, AppError>)
    ensures
        r matches Ok(c) && is_written(c, id, now, new),
{
    let rejections_json = match &new.rejections {
        Some(v) => match json_of_strings(v) {
            Ok(s) => Some(s),
            Err(e) => {
                return Err(AppError::Json(e));
            },
        },
        None => None,
    };
    let arr_kind = new.arr_kind.label().to_owned();
    let status = new.status.label().to_owned();
    Ok(
        PushColumns {
            id: outside::format_uuid(id),
            decision_id: outside::format_uuid(new.decision_id),
            arr_instance_id: Some(outside::format_uuid(new.arr_instance_id)),
            arr_instance_name: new.arr_instance_name,
            arr_kind,
            pushed_at: now,
            status,
            http_status: match new.http_status {
                Some(s) => Some(s as i64),
                None => None,
            },
            response_body: new.response_body,
            rejections_json,
            release_name: None,
            provider_name: None,
        },
    )
}

/// What is written is what is read back: the row of a written push holds
/// the push, and a push made at a time a row can hold is readable.
pub proof fn a_written_push_reads_back(
    id: u128,
    now: i64,
    new: NewPushHistory,
    c: PushColumns,
    row: PushHistoryRow,
)
    requires
        is_written(c, id, now, new),
    ensures
        outside::is_timestamp(now) ==> unreadable(c) is None,
        is_row(row, c) ==> {
            &&& row.id == id
            &&& row.decision_id == new.decision_id
            &&& row.arr_instance_id == Some(new.arr_instance_id)
            &&& row.arr_instance_name@ == new.arr_instance_name@
            &&& row.arr_kind == new.arr_kind
            &&& row.pushed_at == now
            &&& row.status == new.status
            &&& row.http_status == new.http_status
            &&& text::opt_view(row.response_body) == text::opt_view(new.response_body)
            &&& outside::list_view(row.rejections) == outside::list_view(new.rejections)
        },
{
    the_kind_label_round_trips(new.arr_kind);
    the_status_label_round_trips(new.status);
}

/// How many of the latest pushes are shown.
pub open spec fn is_recent_limit(r: u32, limit: u32) -> bool {
    &&& r == if limit == 0 {
        50
    } else if limit > 500 {
        500
    } else {
        limit
    }
    &&& 1 <= r <= 500
}

/// How many rows a listing returns: fifty when none is asked for, never more
/// than five hundred.
pub fn recent_limit(limit: u32) -> (r: u32)
    ensures
        is_recent_limit(r, limit),
{
    if limit == 0 {
        50
    } else if limit > 500 {
        500
    } else {
        limit
    }
}

/// How many pushes there were and how many of them went well.
pub open spec fn is_rate(r: (u64, u64), total: i64, ok: i64) -> bool {
    &&& r.0 == if total < 0 {
        0
    } else {
        total as int
    }
    &&& r.1 == if ok < 0 {
        0
    } else {
        ok as int
    }
}

/// The success counters: what cannot be a count reads as none.
pub fn success_rate(total: i64, ok: i64) -> (r: (u64, u64))
    ensures
        is_rate(r, total, ok),
{
    (
        if total < 0 {
            0
        } else {
            total as u64
        },
        if ok < 0 {
            0
        } else {
            ok as u64
        },
    )
}

/// A 64-bit id as a signed column holds it: the same bits.
pub open spec fn signed_bits(v: u64) -> int {
    if v <= i64::MAX {
        v as int
    } else {
        v - 0x1_0000_0000_0000_0000
    }
}

/// A 64-bit id reinterpreted for a signed column.
pub fn i64_from_u64(v: u64) -> (r: i64)
    ensures
        r == signed_bits(v),
{
    if v <= 0x7fff_ffff_ffff_ffff {
        v as i64
    } else {
        let below: u64 = 0xffff_ffff_ffff_ffff - v;
        -(below as i64) - 1
    }
}

/// Two ids are never stored as one.
pub proof fn stored_ids_stay_apart(a: u64, b: u64)
    requires
        signed_bits(a) == signed_bits(b),
    ensures
        a == b,
{
}

} // verus!
