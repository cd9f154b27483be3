//! Configured trackers.

use vstd::prelude::*;

use crate::db::columns::invalid;
use crate::error::AppError;
use crate::outside;
use crate::outside::{check_timestamp, format_uuid, parse_url, parse_uuid};
use crate::text;
use crate::text::trimmed_str;

verus! {

/// A configured tracker.
#[derive(Debug, Clone)]
pub struct TrackerRow {
    pub id: u128,
    /// Unique name.
    pub name: String,
    /// Base address, as it is serialised.
    pub base_url: String,
    pub api_token: String,
    /// Tracker family: `unit3d` or `plugin`.
    pub kind: String,
    /// Where the plugin module is; `None` for the built-in client.
    pub plugin_path: Option<String>,
    /// When the row was made, in Unix seconds.
    pub created_at: i64,
}

impl TrackerRow {
    /// `true` when this row drives a plugin.
    pub fn is_plugin(&self) -> (r: bool)
        ensures
            r == self.plugin_path is Some,
    {
        self.plugin_path.is_some()
    }
}

/// What a tracker is written from.
#[derive(Debug, Clone)]
pub struct NewTracker {
    /// Unique name.
    pub name: String,
    /// Base address, as it is serialised.
    pub base_url: String,
    pub api_token: String,
    pub kind: String,
    pub plugin_path: Option<String>,
}

/// The columns of a row as the database holds them.
#[derive(Debug, Clone)]
pub struct TrackerColumns {
    pub id: String,
    pub name: String,
    pub base_url: String,
    pub api_token: String,
    pub kind: String,
    pub plugin_path: Option<String>,
    pub created_at: i64,
}

/// The first column of a row that cannot be read, as the sentence that says
/// so.
pub open spec fn unreadable(c: TrackerColumns) -> Option<Seq<char>> {
    if outside::uuid_read(c.id@) is Err {
        Some("invalid uuid in trackers.id: "@ + outside::uuid_read(c.id@)->Err_0)
    } else if outside::url_read(c.base_url@) is Err {
        Some("invalid url in trackers.base_url: "@ + outside::url_read(c.base_url@)->Err_0)
    } else if !outside::is_timestamp(c.created_at) {
        Some("invalid timestamp: "@ + outside::timestamp_fault())
    } else {
        None
    }
}

/// Whether `row` is what the columns say.
pub open spec fn is_row(row: TrackerRow, c: TrackerColumns) -> bool {
    &&& outside::uuid_of(c.id@) == Some(row.id)
    &&& row.name@ == c.name@
    &&& outside::url_read(c.base_url@) is Ok
    &&& outside::url_read(c.base_url@)->Ok_0 == row.base_url@
    &&& row.api_token@ == c.api_token@
    &&& row.kind@ == c.kind@
    &&& text::opt_view(row.plugin_path) == text::opt_view(c.plugin_path)
    &&& row.created_at == c.created_at
}

/// Read a row back.
pub fn row_to_tracker(c: TrackerColumns) -> (r: Result<TrackerRow, AppError>)
    ensures
        match r {
            Ok(row) => unreadable(c) is None && is_row(row, c),
            Err(e) => e matches AppError::InvalidInput(m) && unreadable(c) == Some(m@),
        },
{
    let id: u128 = match parse_uuid(c.id.as_str()) {
        Ok(id) => id,
        Err(e) => {
            return Err(invalid("invalid uuid in trackers.id: ", e.as_str()));
        },
    };
    let base_url = match parse_url(c.base_url.as_str()) {
        Ok(u) => u,
        Err(e) => {
            return Err(invalid("invalid url in trackers.base_url: ", e.as_str()));
        },
    };
    let created_at: i64 = match check_timestamp(c.created_at) {
        Ok(t) => t,
        Err(e) => {
            return Err(invalid("invalid timestamp: ", e.as_str()));
        },
    };
    Ok(
        TrackerRow {
            id,
            name: c.name,
            base_url,
            api_token: c.api_token,
            kind: c.kind,
            plugin_path: c.plugin_path,
            created_at,
        },
    )
}

/// Whether the columns are those of a tracker made at `now`.
pub open spec fn is_written(c: TrackerColumns, id: u128, now: i64, new: NewTracker) -> bool {
    &&& c.id@ == outside::hyphenated(id)
    &&& outside::uuid_of(c.id@) == Some(id)
    &&& c.name@ == new.name@
    &&& c.base_url@ == new.base_url@
    &&& c.api_token@ == new.api_token@
    &&& c.kind@ == new.kind@
    &&& text::opt_view(c.plugin_path) == text::opt_view(new.plugin_path)
    &&& c.created_at == now
}

/// The columns of a new tracker, or why it is refused.
pub open spec fn is_inserted(
    r: Result<TrackerColumns, AppError>,
    id: u128,
    now: i64,
    new: NewTracker,
) -> bool {
    match r {
        Ok(c) => text::trim(new.name@).len() > 0 && is_written(c, id, now, new),
        Err(e) => text::trim(new.name@).len() == 0 && (e matches AppError::InvalidInput(m)
            && m@ == "tracker name cannot be empty"@),
    }
}

/// Write a tracker's columns. A blank name is refused; any other is kept as
/// it was given.
pub fn insert(id: u128, now: i64, new: NewTracker) -> (r: Result<TrackerColumns, AppError>)
    ensures
        is_inserted(r, id, now, new),
{
    if trimmed_str(new.name.as_str()).len() == 0 {
        return Err(AppError::InvalidInput("tracker name cannot be empty".to_owned()));
    }
    Ok(
        TrackerColumns {
            id: format_uuid(id),
            name: new.name,
            base_url: new.base_url,
            api_token: new.api_token,
            kind: new.kind,
            plugin_path: new.plugin_path,
            created_at: now,
        },
    )
}

/// What is written is what is read back, plugin path and all, for a base
/// address in its serialised form and every moment a row can hold.
pub proof fn a_written_tracker_reads_back(
    id: u128,
    now: i64,
    new: NewTracker,
    c: TrackerColumns,
    row: TrackerRow,
)
    requires
        is_written(c, id, now, new),
        outside::url_read(new.base_url@) == Ok::<Seq<char>, Seq<char>>(new.base_url@),
    ensures
        outside::is_timestamp(now) ==> unreadable(c) is None,
        is_row(row, c) ==> {
            &&& row.id == id
            &&& row.name@ == new.name@
            &&& row.base_url@ == new.base_url@
            &&& row.api_token@ == new.api_token@
            &&& row.kind@ == new.kind@
            &&& text::opt_view(row.plugin_path) == text::opt_view(new.plugin_path)
            &&& row.created_at == now
        },
{
}

} // verus!
