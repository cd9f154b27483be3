//! What the service is configured with: the stored setting, else the
//! environment, else a default.

use vstd::prelude::*;

use crate::db::settings;
use crate::db::settings::SettingRow;
use crate::poll;
use crate::poll::interval_from;
use crate::text;
use crate::text::{chars_of, parse_unsigned, trimmed_str};

verus! {

/// How many days of history are kept when nobody said.
pub const DEFAULT_RETENTION_DAYS: u32 = 7;

/// What the environment says.
#[derive(Debug, Clone)]
pub struct Environment {
    pub auth_token: Option<String>,
    pub bypass_auth_from: Option<String>,
    pub trusted_proxies: Option<String>,
    pub public_url: Option<String>,
    pub poll_interval_secs: Option<String>,
    pub retention_days: Option<String>,
}

/// What the service runs with.
#[derive(Debug, Clone)]
pub struct RuntimeConfig {
    /// The admin token; `None` leaves the service open.
    pub auth_token: Option<String>,
    pub bypass_spec: String,
    pub proxies_spec: String,
    pub public_url: Option<String>,
    /// Seconds between polls.
    pub poll_interval: u64,
    /// Days of history; zero keeps everything.
    pub retention_days: u32,
    /// The log filter to apply over the environment's.
    pub log_level: Option<String>,
}

/// The stored setting when it is not empty.
pub open spec fn persisted(rows: Seq<SettingRow>, key: Seq<char>) -> Option<Seq<char>> {
    match settings::stored_value(rows, key) {
        Some(v) => if v.len() > 0 {
            Some(v)
        } else {
            None
        },
        None => None,
    }
}

/// The value in force: the stored one when it is not empty, else the
/// environment's.
pub open spec fn in_force(
    rows: Seq<SettingRow>,
    key: Seq<char>,
    env: Option<String>,
) -> Option<Seq<char>> {
    match persisted(rows, key) {
        Some(v) => Some(v),
        None => text::opt_view(env),
    }
}

pub open spec fn or_empty(v: Option<Seq<char>>) -> Seq<char> {
    match v {
        Some(s) => s,
        None => Seq::empty(),
    }
}

fn stored(rows: &[SettingRow], key: &str) -> (r: Option<String>)
    ensures
        text::opt_view(r) == persisted(rows@, key@),
{
    match settings::get(rows, key) {
        Some(v) => if chars_of(v).len() > 0 {
            Some(v.to_owned())
        } else {
            None
        },
        None => None,
    }
}

fn lookup(rows: &[SettingRow], key: &str, env: &Option<String>) -> (r: Option<String>)
    ensures
        text::opt_view(r) == in_force(rows@, key@, *env),
{
    match stored(rows, key) {
        Some(v) => Some(v),
        None => match env {
            Some(e) => Some(e.clone()),
            None => None,
        },
    }
}

/// The days of history a text asks for; the default when it is none.
pub open spec fn days_of(v: Option<Seq<char>>) -> u32 {
    match v {
        Some(s) => match text::unsigned(s, u32::MAX as nat) {
            Some(n) => n as u32,
            None => DEFAULT_RETENTION_DAYS,
        },
        None => DEFAULT_RETENTION_DAYS,
    }
}

/// The seconds between polls a text asks for: at least a minute, and half an
/// hour when it is none.
pub open spec fn seconds_of(v: Option<Seq<char>>) -> u64 {
    match v {
        Some(s) => match text::unsigned(s, u64::MAX as nat) {
            Some(n) => if n < 60 {
                60
            } else {
                n as u64
            },
            None => 1800,
        },
        None => 1800,
    }
}

/// What is in force, given what was saved and the environment.
pub open spec fn is_config(r: RuntimeConfig, rows: Seq<SettingRow>, env: Environment) -> bool {
    &&& text::opt_view(r.auth_token) == match in_force(
        rows,
        settings::KEY_AUTH_TOKEN@,
        env.auth_token,
    ) {
        Some(v) => if text::trim(v).len() > 0 {
            Some(v)
        } else {
            None
        },
        None => None,
    }
    &&& r.bypass_spec@ == or_empty(
        in_force(rows, settings::KEY_BYPASS_AUTH_FROM@, env.bypass_auth_from),
    )
    &&& r.proxies_spec@ == or_empty(
        in_force(rows, settings::KEY_TRUSTED_PROXIES@, env.trusted_proxies),
    )
    &&& text::opt_view(r.public_url) == in_force(rows, settings::KEY_PUBLIC_URL@, env.public_url)
    &&& r.poll_interval == seconds_of(
        in_force(rows, settings::KEY_POLL_INTERVAL_SECS@, env.poll_interval_secs),
    )
    &&& r.retention_days == days_of(
        in_force(rows, settings::KEY_DECISIONS_RETENTION_DAYS@, env.retention_days),
    )
    &&& text::opt_view(r.log_level) == persisted(rows, settings::KEY_LOG_LEVEL@)
}

/// What the service runs with. An admin token of white space is none.
pub fn configure(rows: &[SettingRow], env: &Environment) -> (r: RuntimeConfig)
    ensures
        is_config(r, rows@, *env),
{
    let auth_token = match lookup(rows, settings::KEY_AUTH_TOKEN, &env.auth_token) {
        Some(v) => if trimmed_str(v.as_str()).len() > 0 {
            Some(v)
        } else {
            None
        },
        None => None,
    };
    let bypass_spec = match lookup(rows, settings::KEY_BYPASS_AUTH_FROM, &env.bypass_auth_from) {
        Some(v) => v,
        None => String::new(),
    };
    let proxies_spec = match lookup(rows, settings::KEY_TRUSTED_PROXIES, &env.trusted_proxies) {
        Some(v) => v,
        None => String::new(),
    };
    let interval = lookup(rows, settings::KEY_POLL_INTERVAL_SECS, &env.poll_interval_secs);
    let poll_interval: u64 = match &interval {
        Some(s) => interval_from(Some(s.as_str())),
        None => interval_from(None),
    };
    let days = lookup(rows, settings::KEY_DECISIONS_RETENTION_DAYS, &env.retention_days);
    let retention_days: u32 = match &days {
        Some(s) => match parse_unsigned(&chars_of(s.as_str()), u32::MAX as u64) {
            Some(n) => n as u32,
            None => DEFAULT_RETENTION_DAYS,
        },
        None => DEFAULT_RETENTION_DAYS,
    };
    RuntimeConfig {
        auth_token,
        bypass_spec,
        proxies_spec,
        public_url: lookup(rows, settings::KEY_PUBLIC_URL, &env.public_url),
        poll_interval,
        retention_days,
        log_level: stored(rows, settings::KEY_LOG_LEVEL),
    }
}

/// Whether `r` says that a list of peers names any.
pub open spec fn is_naming(r: bool, spec: &str) -> bool {
    r == (text::trim(spec@).len() > 0)
}

/// Whether a list of trusted peers says anything at all.
pub fn names_peers(spec: &str) -> (r: bool)
    ensures
        is_naming(r, spec),
{
    trimmed_str(spec).len() > 0
}

/// Who may pass without a token, and whose forwarding header counts.
#[derive(Debug)]
pub struct BypassConfig<P> {
    /// `None` trusts nobody.
    pub peers: Option<P>,
    pub proxies: Option<P>,
}

/// A list that could not be read: which one, and why.
#[derive(Debug, Clone)]
pub struct BypassError {
    pub context: String,
    pub cause: String,
}

/// Who passes without a token, or which list could not be read.
pub open spec fn is_bypass<P>(
    r: Result<BypassConfig<P>, BypassError>,
    peers: Option<Result<P, String>>,
    proxies: Option<Result<P, String>>,
) -> bool {
    match r {
        Ok(c) => {
            &&& match peers {
                Some(p) => p is Ok && c.peers == Some(p->Ok_0),
                None => c.peers is None,
            }
            &&& match proxies {
                Some(p) => p is Ok && c.proxies == Some(p->Ok_0),
                None => c.proxies is None,
            }
        },
        Err(e) => if peers matches Some(Err(cause)) {
            e.context@ == "BRARR_BYPASS_AUTH_FROM / settings:bypass_auth_from"@
                && peers == Some(Err::<P, String>(e.cause))
        } else {
            e.context@ == "BRARR_TRUSTED_PROXIES / settings:trusted_proxies"@ && proxies
                == Some(Err::<P, String>(e.cause))
        },
    }
}

/// Put the two lists together, each read where it says anything. The first
/// that could not be read is named.
pub fn build_bypass<P>(
    peers: Option<Result<P, String>>,
    proxies: Option<Result<P, String>>,
) -> (r: Result<BypassConfig<P>, BypassError>)
    ensures
        is_bypass(r, peers, proxies),
{
    let peers = match peers {
        Some(Ok(p)) => Some(p),
        Some(Err(cause)) => {
            let context = "BRARR_BYPASS_AUTH_FROM / settings:bypass_auth_from".to_owned();
            return Err(BypassError { context, cause });
        },
        None => None,
    };
    let proxies = match proxies {
        Some(Ok(p)) => Some(p),
        Some(Err(cause)) => {
            let context = "BRARR_TRUSTED_PROXIES / settings:trusted_proxies".to_owned();
            return Err(BypassError { context, cause });
        },
        None => None,
    };
    Ok(BypassConfig { peers, proxies })
}

/// What is stored wins over the environment; a blank setting does not.
pub proof fn a_saved_setting_wins(rows: Seq<SettingRow>, key: Seq<char>, env: Option<String>)
    ensures
        persisted(rows, key) is Some ==> in_force(rows, key, env) == persisted(rows, key),
        settings::stored_value(rows, key) == Some(Seq::<char>::empty()) ==> in_force(rows, key, env)
            == text::opt_view(env),
{
}

} // verus!
