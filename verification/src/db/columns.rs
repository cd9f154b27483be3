//! What columns of every table are read by.

use vstd::prelude::*;

use crate::error::AppError;
use crate::outside;
use crate::outside::format_uuid;
use crate::text::{chars_of, extend_str, string_of};

verus! {

/// A number a `u32` can hold; anything else reads as absent.
pub open spec fn narrow_u32(n: Option<i64>) -> Option<u32> {
    match n {
        Some(v) => if 0 <= v <= u32::MAX {
            Some(v as u32)
        } else {
            None
        },
        None => None,
    }
}

/// A number a `u16` can hold; anything else reads as absent.
pub open spec fn narrow_u16(n: Option<i64>) -> Option<u16> {
    match n {
        Some(v) => if 0 <= v <= u16::MAX {
            Some(v as u16)
        } else {
            None
        },
        None => None,
    }
}

/// A count; what cannot be one reads as none.
pub open spec fn count_of(n: i64) -> u32 {
    match narrow_u32(Some(n)) {
        Some(v) => v,
        None => 0,
    }
}

pub fn as_u32(n: Option<i64>) -> (r: Option<u32>)
    ensures
        r == narrow_u32(n),
{
    match n {
        Some(v) => if 0 <= v && v <= 4_294_967_295 {
            Some(v as u32)
        } else {
            None
        },
        None => None,
    }
}

pub fn as_u16(n: Option<i64>) -> (r: Option<u16>)
    ensures
        r == narrow_u16(n),
{
    match n {
        Some(v) => if 0 <= v && v <= 65_535 {
            Some(v as u16)
        } else {
            None
        },
        None => None,
    }
}

pub fn as_count(n: i64) -> (r: u32)
    ensures
        r == count_of(n),
{
    match as_u32(Some(n)) {
        Some(v) => v,
        None => 0,
    }
}

pub open spec fn widened_u32(n: Option<u32>) -> Option<i64> {
    match n {
        Some(v) => Some(v as i64),
        None => None,
    }
}

pub open spec fn widened_u16(n: Option<u16>) -> Option<i64> {
    match n {
        Some(v) => Some(v as i64),
        None => None,
    }
}

pub fn from_u32(n: Option<u32>) -> (r: Option<i64>)
    ensures
        r == widened_u32(n),
{
    match n {
        Some(v) => Some(v as i64),
        None => None,
    }
}

pub fn from_u16(n: Option<u16>) -> (r: Option<i64>)
    ensures
        r == widened_u16(n),
{
    match n {
        Some(v) => Some(v as i64),
        None => None,
    }
}

/// The refusal of a value, and why.
pub fn invalid(prefix: &str, detail: &str) -> (r: AppError)
    ensures
        r matches AppError::InvalidInput(m) && m@ == prefix@ + detail@,
{
    let mut out = chars_of(prefix);
    extend_str(&mut out, detail);
    AppError::InvalidInput(string_of(&out))
}

/// Whether an error says that there is no `what` of this id.
pub open spec fn says_missing(e: AppError, what: Seq<char>, id: u128) -> bool {
    e matches AppError::NotFound(m) && m@ == what + outside::hyphenated(id)
}

/// That there is no `what` of this id; `what` ends in a space.
pub fn missing(what: &str, id: u128) -> (r: AppError)
    ensures
        says_missing(r, what@, id),
{
    let mut out = chars_of(what);
    extend_str(&mut out, format_uuid(id).as_str());
    AppError::NotFound(string_of(&out))
}

/// What a lookup of one row came to: it has to be there.
pub fn get_by_id<T>(row: Option<T>, what: &str, id: u128) -> (r: Result<T, AppError>)
    ensures
        match r {
            Ok(v) => row == Some(v),
            Err(e) => row is None && says_missing(e, what@, id),
        },
{
    match row {
        Some(v) => Ok(v),
        None => Err(missing(what, id)),
    }
}

/// Whether a change found its row.
pub open spec fn is_affected(r: Result<(), AppError>, rows: u64, what: &str, id: u128) -> bool {
    match r {
        Ok(()) => rows > 0,
        Err(e) => rows == 0 && says_missing(e, what@, id),
    }
}

/// What an update that named one row came to: it has to have found it.
pub fn affected(rows: u64, what: &str, id: u128) -> (r: Result<(), AppError>)
    ensures
        is_affected(r, rows, what, id),
{
    if rows == 0 {
        Err(missing(what, id))
    } else {
        Ok(())
    }
}

} // verus!
