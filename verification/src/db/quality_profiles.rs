//! Reusable scoring presets an \*arr instance or a title can attach to.

use vstd::prelude::*;

use crate::db::columns;
use crate::db::columns::{as_count, invalid};
use crate::error::AppError;
use crate::outside;
use crate::outside::{check_timestamp, format_uuid, parse_uuid};
use crate::text;
use crate::text::{chars_of, decimal_of, extend, spells, string_of, trimmed_str};

verus! {

/// The rules of a profile as the row holds them.
#[derive(Debug, Clone)]
pub enum StoredRules {
    /// None of its own: the baseline decides.
    Baseline,
    /// A list of rules, as JSON text.
    Listed(String),
}

/// One profile.
#[derive(Debug, Clone)]
pub struct QualityProfileRow {
    pub id: u128,
    /// Unique name.
    pub name: String,
    pub description: Option<String>,
    /// Minimum score to push on.
    pub push_threshold: u32,
    /// Whether the row came with the installation.
    pub is_preset: bool,
    pub rules: StoredRules,
    /// When the row was made, in Unix seconds.
    pub created_at: i64,
}

/// What a profile is written from.
#[derive(Debug, Clone)]
pub struct NewQualityProfile {
    /// Unique name; a blank one is refused.
    pub name: String,
    pub description: Option<String>,
    /// At most a thousand.
    pub push_threshold: u32,
}

/// The columns of a row as the database holds them.
#[derive(Debug, Clone)]
pub struct ProfileColumns {
    pub id: String,
    pub name: String,
    pub description: Option<String>,
    pub push_threshold: i64,
    pub is_preset: i64,
    pub created_at: i64,
    pub rules_json: Option<String>,
}

/// Why a name and threshold are refused.
pub open spec fn refusal(name: Seq<char>, push_threshold: u32) -> Option<Seq<char>> {
    if text::trim(name).len() == 0 {
        Some("quality profile name cannot be empty"@)
    } else if push_threshold > 1000 {
        Some("push_threshold must be 0..=1000, got "@ + text::decimal(push_threshold as nat))
    } else {
        None
    }
}

/// The name a profile is stored under, or why it is refused.
pub open spec fn is_basics(r: Result<String, AppError>, name: &str, push_threshold: u32) -> bool {
    match r {
        Ok(stored) => refusal(name@, push_threshold) is None && stored@ == text::trim(name@),
        Err(e) => e matches AppError::InvalidInput(m) && refusal(name@, push_threshold)
            == Some(m@),
    }
}

/// Check a name and threshold, and give the name as it is stored.
pub fn update_basics(name: &str, push_threshold: u32) -> (r: Result<String, AppError>)
    ensures
        is_basics(r, name, push_threshold),
{
    let trimmed = trimmed_str(name);
    if trimmed.len() == 0 {
        return Err(AppError::InvalidInput("quality profile name cannot be empty".to_owned()));
    }
    if push_threshold > 1000 {
        let mut out = chars_of("push_threshold must be 0..=1000, got ");
        extend(&mut out, &decimal_of(push_threshold as u64));
        return Err(AppError::InvalidInput(string_of(&out)));
    }
    Ok(string_of(&trimmed))
}

/// Whether the columns are those of a profile made at `now`.
pub open spec fn is_written(
    c: ProfileColumns,
    id: u128,
    now: i64,
    new: NewQualityProfile,
) -> bool {
    &&& c.id@ == outside::hyphenated(id)
    &&& outside::uuid_of(c.id@) == Some(id)
    &&& c.name@ == text::trim(new.name@)
    &&& text::opt_view(c.description) == text::opt_view(new.description)
    &&& c.push_threshold == new.push_threshold
    &&& c.is_preset == 0
    &&& c.created_at == now
    &&& text::opt_view(c.rules_json) == Some("[]"@)
}

/// The columns of a new profile, or why it is refused.
pub open spec fn is_inserted(
    r: Result<ProfileColumns, AppError>,
    id: u128,
    now: i64,
    new: NewQualityProfile,
) -> bool {
    match r {
        Ok(c) => refusal(new.name@, new.push_threshold) is None && is_written(c, id, now, new),
        Err(e) => e matches AppError::InvalidInput(m) && refusal(
            new.name@,
            new.push_threshold,
        ) == Some(m@),
    }
}

/// Write a profile's columns: the name trimmed, no rules of its own.
pub fn insert(id: u128, now: i64, new: NewQualityProfile) -> (r: Result<ProfileColumns, AppError>)
    ensures
        is_inserted(r, id, now, new),
{
    let name = match update_basics(new.name.as_str(), new.push_threshold) {
        Ok(name) => name,
        Err(e) => {
            return Err(e);
        },
    };
    Ok(
        ProfileColumns {
            id: format_uuid(id),
            name,
            description: new.description,
            push_threshold: new.push_threshold as i64,
            is_preset: 0,
            created_at: now,
            rules_json: Some("[]".to_owned()),
        },
    )
}

/// The first column of a row that cannot be read, as the sentence that says
/// so.
pub open spec fn unreadable(c: ProfileColumns) -> Option<Seq<char>> {
    if outside::uuid_read(c.id@) is Err {
        Some("invalid uuid in quality_profiles.id: "@ + outside::uuid_read(c.id@)->Err_0)
    } else if !outside::is_timestamp(c.created_at) {
        Some("invalid timestamp: "@ + outside::timestamp_fault())
    } else {
        None
    }
}

/// The rules a row holds: an empty list, or none at all, is the baseline.
pub open spec fn is_rules(rules: StoredRules, json: Option<String>) -> bool {
    match json {
        Some(s) => if text::trim(s@) == "[]"@ {
            rules is Baseline
        } else {
            rules matches StoredRules::Listed(t) && t@ == s@
        },
        None => rules is Baseline,
    }
}

/// Whether `row` is what the columns say.
pub open spec fn is_row(row: QualityProfileRow, c: ProfileColumns) -> bool {
    &&& outside::uuid_of(c.id@) == Some(row.id)
    &&& row.name@ == c.name@
    &&& text::opt_view(row.description) == text::opt_view(c.description)
    &&& row.push_threshold == columns::count_of(c.push_threshold)
    &&& row.is_preset == (c.is_preset != 0)
    &&& is_rules(row.rules, c.rules_json)
    &&& row.created_at == c.created_at
}

/// Whether a row holds rules of its own, which have to be read.
pub open spec fn has_rules(c: ProfileColumns) -> bool {
    c.rules_json matches Some(s) && text::trim(s@) != "[]"@
}

/// Read a row back. A threshold that is no number of a score reads as zero.
/// `parsed` is what reading the rules text came to: it counts only where the
/// row holds rules of its own, and there its error is the row's.
pub fn row_to_profile(c: ProfileColumns, parsed: Result<(), String>) -> (r: Result<
    QualityProfileRow,
    AppError,
>)
    ensures
        match r {
            Ok(row) => {
                &&& unreadable(c) is None
                &&& has_rules(c) ==> parsed is Ok
                &&& is_row(row, c)
            },
            Err(AppError::InvalidInput(m)) => unreadable(c) == Some(m@),
            Err(AppError::Json(m)) => {
                &&& unreadable(c) is None
                &&& has_rules(c)
                &&& parsed == Err::<(), String>(m)
            },
            Err(_) => false,
        },
{
    let id: u128 = match parse_uuid(c.id.as_str()) {
        Ok(id) => id,
        Err(e) => {
            return Err(invalid("invalid uuid in quality_profiles.id: ", e.as_str()));
        },
    };
    let created_at: i64 = match check_timestamp(c.created_at) {
        Ok(t) => t,
        Err(e) => {
            return Err(invalid("invalid timestamp: ", e.as_str()));
        },
    };
    let rules = match c.rules_json {
        Some(s) => if spells(&trimmed_str(s.as_str()), "[]") {
            StoredRules::Baseline
        } else {
            if let Err(why) = parsed {
                return Err(AppError::Json(why));
            }
            StoredRules::Listed(s)
        },
        None => StoredRules::Baseline,
    };
    Ok(
        QualityProfileRow {
            id,
            name: c.name,
            description: c.description,
            push_threshold: as_count(c.push_threshold),
            is_preset: c.is_preset != 0,
            rules,
            created_at,
        },
    )
}

/// What is written is what is read back: the trimmed name, and the baseline
/// for rules.
pub proof fn a_written_profile_reads_back(
    id: u128,
    now: i64,
    new: NewQualityProfile,
    c: ProfileColumns,
    row: QualityProfileRow,
)
    requires
        is_written(c, id, now, new),
    ensures
        outside::is_timestamp(now) ==> unreadable(c) is None,
        !has_rules(c),
        is_row(row, c) ==> {
            &&& row.id == id
            &&& row.name@ == text::trim(new.name@)
            &&& text::opt_view(row.description) == text::opt_view(new.description)
            &&& row.push_threshold == new.push_threshold
            &&& !row.is_preset
            &&& row.rules is Baseline
            &&& row.created_at == now
        },
{
    reveal_strlit("[]");
    let s = "[]"@;
    assert(!text::is_white(s[0]) && !text::is_white(s[1]));
    reveal_with_fuel(text::trim_start, 2);
    reveal_with_fuel(text::trim_end, 2);
    assert(text::trim(s) == s);
}

} // verus!
