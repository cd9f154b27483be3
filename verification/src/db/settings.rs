//! Settings an operator may change while the service runs.
//!
//! A blank value is kept as it is and reads as "no override".

use vstd::prelude::*;

use crate::db::columns::invalid;
use crate::error::AppError;
use crate::outside;
use crate::outside::check_timestamp;
use crate::text;
use crate::text::{lower_all, same_text, spells, string_of, trimmed_str};

verus! {

/// Admin token.
pub const KEY_AUTH_TOKEN: &'static str = "auth_token";

/// Trusted-peer allowlist.
pub const KEY_BYPASS_AUTH_FROM: &'static str = "bypass_auth_from";

/// Proxies whose forwarding header is honoured.
pub const KEY_TRUSTED_PROXIES: &'static str = "trusted_proxies";

/// External base address for pushed links.
pub const KEY_PUBLIC_URL: &'static str = "public_url";

/// Poll cadence in seconds.
pub const KEY_POLL_INTERVAL_SECS: &'static str = "poll_interval_secs";

/// Cadence, in seconds, of the passive sweep of the \*arr instances.
pub const KEY_ARR_SYNC_INTERVAL_SECS: &'static str = "arr_sync_interval_secs";

/// How many days of history are kept; zero keeps everything.
pub const KEY_DECISIONS_RETENTION_DAYS: &'static str = "decisions_retention_days";

/// Whether releases every profile rejects are kept too.
pub const KEY_PERSIST_REJECTED: &'static str = "persist_rejected";

/// TMDB read access token.
pub const KEY_TMDB_TOKEN: &'static str = "tmdb_token";

/// Language of TMDB's answers.
pub const KEY_TMDB_LANGUAGE: &'static str = "tmdb_language";

/// Country whose release dates count.
pub const KEY_TMDB_COUNTRY: &'static str = "tmdb_country";

/// How stale an item's metadata may get, in days.
pub const KEY_TMDB_TTL_DAYS: &'static str = "tmdb_ttl_days";

/// TheTVDB project key.
pub const KEY_TVDB_API_KEY: &'static str = "tvdb_api_key";

/// Subscriber PIN, for a user-supported key only.
pub const KEY_TVDB_PIN: &'static str = "tvdb_pin";

/// How often the numbering sweep runs, in seconds.
pub const KEY_TVDB_SYNC_INTERVAL_SECS: &'static str = "tvdb_sync_interval_secs";

/// Log filter.
pub const KEY_LOG_LEVEL: &'static str = "log_level";

/// Backtrace mode.
pub const KEY_BACKTRACE: &'static str = "backtrace";

/// One persisted row.
#[derive(Debug, Clone)]
pub struct SettingRow {
    pub key: String,
    /// May be empty: blanked from the screen.
    pub value: String,
    /// When it was last written, in Unix seconds.
    pub updated_at: i64,
}

/// Read a row back.
pub fn row_to_setting(key: String, value: String, updated_at: i64) -> (r: Result<
    SettingRow,
    AppError,
>)
    ensures
        match r {
            Ok(row) => outside::is_timestamp(updated_at) && row.key == key && row.value == value
                && row.updated_at == updated_at,
            Err(e) => !outside::is_timestamp(updated_at) && (e matches AppError::InvalidInput(m)
                && m@ == "invalid timestamp in settings: "@ + outside::timestamp_fault()),
        },
{
    match check_timestamp(updated_at) {
        Ok(updated_at) => Ok(SettingRow { key, value, updated_at }),
        Err(e) => Err(invalid("invalid timestamp in settings: ", e.as_str())),
    }
}

/// The value stored under a key, as it is; a later row replaces an earlier
/// one.
pub open spec fn stored_value(rows: Seq<SettingRow>, key: Seq<char>) -> Option<Seq<char>>
    decreases rows.len(),
{
    if rows.len() == 0 {
        None
    } else if rows.last().key@ == key {
        Some(rows.last().value@)
    } else {
        stored_value(rows.drop_last(), key)
    }
}

/// The value stored under a key.
pub fn get<'a>(rows: &'a [SettingRow], key: &str) -> (r: Option<&'a str>)
    ensures
        match r {
            Some(v) => stored_value(rows@, key@) == Some(v@),
            None => stored_value(rows@, key@) is None,
        },
{
    let mut n: usize = rows.len();
    assert(rows@.take(n as int) == rows@);
    while n > 0
        invariant
            n <= rows.len(),
            stored_value(rows@, key@) == stored_value(rows@.take(n as int), key@),
        decreases n,
    {
        let ghost seen = rows@.take(n as int);
        assert(seen.last() == rows@[n - 1]);
        assert(seen.drop_last() == rows@.take(n - 1));
        if same_text(rows[n - 1].key.as_str(), key) {
            return Some(rows[n - 1].value.as_str());
        }
        n -= 1;
    }
    None
}

/// A setting in force: trimmed, and none when nothing is left.
pub open spec fn set_value(v: Option<Seq<char>>) -> Option<Seq<char>> {
    match v {
        Some(s) => if text::trim(s).len() > 0 {
            Some(text::trim(s))
        } else {
            None
        },
        None => None,
    }
}

/// The value in force under a key: trimmed, and none when blank.
pub fn value(rows: &[SettingRow], key: &str) -> (r: Option<String>)
    ensures
        text::opt_view(r) == set_value(stored_value(rows@, key@)),
{
    match get(rows, key) {
        Some(v) => {
            let t = trimmed_str(v);
            if t.len() > 0 {
                Some(string_of(&t))
            } else {
                None
            }
        },
        None => None,
    }
}

/// Whether a text says yes.
pub open spec fn is_truthy(value: Seq<char>) -> bool {
    let v = text::lowered(text::trim(value));
    v == "1"@ || v == "true"@ || v == "yes"@ || v == "on"@
}

/// Parse a persisted flag: `1`, `true`, `yes` and `on` in any case, with
/// spaces around them, are yes; everything else is no.
pub fn parse_flag(value: &str) -> (r: bool)
    ensures
        r == is_truthy(value@),
{
    let v = lower_all(&trimmed_str(value));
    spells(&v, "1") || spells(&v, "true") || spells(&v, "yes") || spells(&v, "on")
}

} // verus!
