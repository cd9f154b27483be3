//! The audit log of every inbound \*arr webhook.

use vstd::prelude::*;

use crate::db::columns::invalid;
use crate::db::push_history;
use crate::db::push_history::parse_kind;
use crate::error::AppError;
use crate::outside;
use crate::outside::{check_timestamp, format_uuid, parse_uuid};
use crate::poll;
use crate::poll::ArrKind;

verus! {

/// One persisted event.
#[derive(Debug, Clone)]
pub struct WebhookEventRow {
    pub id: u128,
    pub arr_instance_id: u128,
    pub kind: ArrKind,
    /// The event's own name, verbatim.
    pub event_type: String,
    /// The body, verbatim.
    pub payload_json: String,
    /// When it was first seen, in Unix seconds.
    pub received_at: i64,
    /// The search it led to, once there is one.
    pub triggered_search_id: Option<u128>,
}

/// What an event is written from.
#[derive(Debug, Clone)]
pub struct NewWebhookEvent {
    pub arr_instance_id: u128,
    pub kind: ArrKind,
    pub event_type: String,
    pub payload_json: String,
}

/// The columns of a row as the database holds them.
#[derive(Debug, Clone)]
pub struct EventColumns {
    pub id: String,
    pub arr_instance_id: String,
    pub kind: String,
    pub event_type: String,
    pub payload_json: String,
    pub received_at: i64,
    pub triggered_search_id: Option<String>,
}

/// The first column of a row that cannot be read, as the sentence that says
/// so.
pub open spec fn unreadable(c: EventColumns) -> Option<Seq<char>> {
    if outside::uuid_read(c.id@) is Err {
        Some("invalid uuid in webhook_events.id: "@ + outside::uuid_read(c.id@)->Err_0)
    } else if outside::uuid_read(c.arr_instance_id@) is Err {
        Some("invalid uuid in arr_instance_id: "@ + outside::uuid_read(c.arr_instance_id@)->Err_0)
    } else if push_history::labelled_kind(c.kind@) is None {
        Some("unknown webhook_events.kind: "@ + c.kind@)
    } else if !outside::is_timestamp(c.received_at) {
        Some("invalid timestamp: "@ + outside::timestamp_fault())
    } else if c.triggered_search_id is Some && outside::uuid_read(
        c.triggered_search_id->0@,
    ) is Err {
        Some(
            "invalid uuid in triggered_search_id: "@ + outside::uuid_read(
                c.triggered_search_id->0@,
            )->Err_0,
        )
    } else {
        None
    }
}

/// Whether `row` is what the columns say.
pub open spec fn is_row(row: WebhookEventRow, c: EventColumns) -> bool {
    &&& outside::uuid_of(c.id@) == Some(row.id)
    &&& outside::uuid_of(c.arr_instance_id@) == Some(row.arr_instance_id)
    &&& push_history::labelled_kind(c.kind@) == Some(row.kind)
    &&& row.event_type@ == c.event_type@
    &&& row.payload_json@ == c.payload_json@
    &&& row.received_at == c.received_at
    &&& row.triggered_search_id == match c.triggered_search_id {
        Some(s) => outside::uuid_of(s@),
        None => None,
    }
}

/// Read a row back.
pub fn row_to_event(c: EventColumns) -> (r: Result<WebhookEventRow, AppError>)
    ensures
        match r {
            Ok(row) => unreadable(c) is None && is_row(row, c),
            Err(e) => e matches AppError::InvalidInput(m) && unreadable(c) == Some(m@),
        },
{
    let id: u128 = match parse_uuid(c.id.as_str()) {
        Ok(id) => id,
        Err(e) => {
            return Err(invalid("invalid uuid in webhook_events.id: ", e.as_str()));
        },
    };
    let arr_instance_id: u128 = match parse_uuid(c.arr_instance_id.as_str()) {
        Ok(id) => id,
        Err(e) => {
            return Err(invalid("invalid uuid in arr_instance_id: ", e.as_str()));
        },
    };
    let kind = match parse_kind(c.kind.as_str()) {
        Some(kind) => kind,
        None => {
            return Err(invalid("unknown webhook_events.kind: ", c.kind.as_str()));
        },
    };
    let received_at: i64 = match check_timestamp(c.received_at) {
        Ok(t) => t,
        Err(e) => {
            return Err(invalid("invalid timestamp: ", e.as_str()));
        },
    };
    let triggered_search_id: Option<u128> = match &c.triggered_search_id {
        Some(s) => match parse_uuid(s.as_str()) {
            Ok(id) => Some(id),
            Err(e) => {
                return Err(invalid("invalid uuid in triggered_search_id: ", e.as_str()));
            },
        },
        None => None,
    };
    Ok(
        WebhookEventRow {
            id,
            arr_instance_id,
            kind,
            event_type: c.event_type,
            payload_json: c.payload_json,
            received_at,
            triggered_search_id,
        },
    )
}

/// Whether the columns are those of an event seen at `now`.
pub open spec fn is_written(c: EventColumns, id: u128, now: i64, new: NewWebhookEvent) -> bool {
    &&& c.id@ == outside::hyphenated(id)
    &&& outside::uuid_of(c.id@) == Some(id)
    &&& c.arr_instance_id@ == outside::hyphenated(new.arr_instance_id)
    &&& outside::uuid_of(c.arr_instance_id@) == Some(new.arr_instance_id)
    &&& c.kind@ == poll::kind_label(new.kind)
    &&& c.event_type@ == new.event_type@
    &&& c.payload_json@ == new.payload_json@
    &&& c.received_at == now
    &&& c.triggered_search_id is None
}

/// Write an event's columns.
pub fn insert(id: u128, now: i64, new: NewWebhookEvent) -> (r: EventColumns)
    ensures
        is_written(r, id, now, new),
{
    EventColumns {
        id: format_uuid(id),
        arr_instance_id: format_uuid(new.arr_instance_id),
        kind: new.kind.label().to_owned(),
        event_type: new.event_type,
        payload_json: new.payload_json,
        received_at: now,
        triggered_search_id: None,
    }
}

/// The columns of an event that set a search off.
pub open spec fn is_linked(r: EventColumns, c: EventColumns, search_id: u128) -> bool {
    &&& r == (EventColumns { triggered_search_id: r.triggered_search_id, ..c })
    &&& r.triggered_search_id is Some
    &&& r.triggered_search_id->0@ == outside::hyphenated(search_id)
    &&& outside::uuid_of(r.triggered_search_id->0@) == Some(search_id)
}

/// The columns once the search an event led to is known.
pub fn link_search(c: EventColumns, search_id: u128) -> (r: EventColumns)
    ensures
        is_linked(r, c, search_id),
{
    let mut out = c;
    out.triggered_search_id = Some(format_uuid(search_id));
    out
}

/// What is written is what is read back, for every moment a row can hold.
pub proof fn a_written_event_reads_back(
    id: u128,
    now: i64,
    new: NewWebhookEvent,
    c: EventColumns,
    row: WebhookEventRow,
)
    requires
        is_written(c, id, now, new),
    ensures
        outside::is_timestamp(now) ==> unreadable(c) is None,
        is_row(row, c) ==> {
            &&& row.id == id
            &&& row.arr_instance_id == new.arr_instance_id
            &&& row.kind == new.kind
            &&& row.event_type@ == new.event_type@
            &&& row.payload_json@ == new.payload_json@
            &&& row.received_at == now
            &&& row.triggered_search_id is None
        },
{
    push_history::the_kind_label_round_trips(new.kind);
}

/// How many of the latest events are shown.
pub open spec fn is_recent_limit(r: u32, limit: u32) -> bool {
    r == if limit == 0 {
        50
    } else if limit > 500 {
        500
    } else {
        limit
    }
}

/// How many rows a listing returns: fifty when none is asked for, never more
/// than five hundred.
pub fn recent_limit(limit: u32) -> (r: u32)
    ensures
        is_recent_limit(r, limit),
{
    push_history::recent_limit(limit)
}

} // verus!
