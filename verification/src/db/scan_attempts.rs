//! When the sweep last searched for each target.
//!
//! A target is an item, and the episode when it names one.

use vstd::prelude::*;

use crate::db::columns::invalid;
use crate::error::AppError;
use crate::outside;
use crate::outside::{check_timestamp, format_uuid, parse_uuid};

verus! {

/// One attempt.
#[derive(Debug, Clone, Copy, PartialEq, Eq, Structural)]
pub struct Attempt {
    pub item_id: u128,
    pub episode_id: Option<u128>,
    /// When, in Unix seconds.
    pub searched_at: i64,
}

/// The columns of an attempt as the database holds them.
#[derive(Debug, Clone)]
pub struct AttemptColumns {
    pub item_id: String,
    pub episode_id: Option<String>,
    pub searched_at: i64,
}

/// Why a row cannot be read.
pub open spec fn unreadable(c: AttemptColumns) -> Option<Seq<char>> {
    if outside::uuid_read(c.item_id@) is Err {
        Some("invalid scan_attempts.item_id: "@ + outside::uuid_read(c.item_id@)->Err_0)
    } else if c.episode_id is Some && outside::uuid_read(c.episode_id->0@) is Err {
        Some("invalid scan_attempts.episode_id: "@ + outside::uuid_read(c.episode_id->0@)->Err_0)
    } else {
        None
    }
}

/// The attempt a readable row holds.
pub open spec fn attempt_of(c: AttemptColumns) -> Attempt {
    Attempt {
        item_id: outside::uuid_read(c.item_id@)->Ok_0,
        episode_id: match c.episode_id {
            Some(e) => outside::uuid_of(e@),
            None => None,
        },
        searched_at: c.searched_at,
    }
}

/// The attempts of readable rows, in order. One at no moment a clock can
/// show is bad data and reads as never searched.
pub open spec fn attempts_of(rows: Seq<AttemptColumns>) -> Seq<Attempt>
    decreases rows.len(),
{
    if rows.len() == 0 {
        Seq::empty()
    } else if outside::is_timestamp(rows.last().searched_at) {
        attempts_of(rows.drop_last()).push(attempt_of(rows.last()))
    } else {
        attempts_of(rows.drop_last())
    }
}

/// Whether row `i` is the first that cannot be read.
pub open spec fn first_unreadable(rows: Seq<AttemptColumns>, i: int) -> bool {
    &&& 0 <= i < rows.len()
    &&& unreadable(rows[i]) is Some
    &&& forall|j: int| 0 <= j < i ==> unreadable(#[trigger] rows[j]) is None
}

/// What is known of earlier searches.
pub open spec fn is_history(r: Result<Vec<Attempt>, AppError>, rows: Seq<AttemptColumns>) -> bool {
    match r {
        Ok(v) => v@ == attempts_of(rows) && forall|i: int|
            0 <= i < rows.len() ==> unreadable(#[trigger] rows[i]) is None,
        Err(e) => e matches AppError::InvalidInput(m) && exists|i: int|
            #[trigger] first_unreadable(rows, i) && unreadable(rows[i]) == Some(m@),
    }
}

/// Every recorded attempt.
pub fn last_searched(rows: &[AttemptColumns]) -> (r: Result<Vec<Attempt>, AppError>)
    ensures
        is_history(r, rows@),
{
    let mut out: Vec<Attempt> = Vec::new();
    let mut i: usize = 0;
    while i < rows.len()
        invariant
            i <= rows.len(),
            out@ == attempts_of(rows@.take(i as int)),
            forall|j: int| 0 <= j < i ==> unreadable(#[trigger] rows@[j]) is None,
        decreases rows.len() - i,
    {
        let row = &rows[i];
        let item_id: u128 = match parse_uuid(row.item_id.as_str()) {
            Ok(id) => id,
            Err(e) => {
                assert(first_unreadable(rows@, i as int));
                return Err(invalid("invalid scan_attempts.item_id: ", e.as_str()));
            },
        };
        let episode_id: Option<u128> = match &row.episode_id {
            Some(s) => match parse_uuid(s.as_str()) {
                Ok(id) => Some(id),
                Err(e) => {
                    assert(first_unreadable(rows@, i as int));
                    return Err(invalid("invalid scan_attempts.episode_id: ", e.as_str()));
                },
            },
            None => None,
        };
        assert(rows@.take(i + 1).drop_last() == rows@.take(i as int));
        assert(rows@.take(i + 1).last() == rows@[i as int]);
        if let Ok(searched_at) = check_timestamp(row.searched_at) {
            out.push(Attempt { item_id, episode_id, searched_at });
        }
        i += 1;
    }
    assert(rows@.take(rows.len() as int) == rows@);
    Ok(out)
}

/// When a target was last searched; a later row replaces an earlier one.
pub open spec fn when_searched(
    attempts: Seq<Attempt>,
    item_id: u128,
    episode_id: Option<u128>,
) -> Option<i64>
    decreases attempts.len(),
{
    if attempts.len() == 0 {
        None
    } else if attempts.last().item_id == item_id && attempts.last().episode_id == episode_id {
        Some(attempts.last().searched_at)
    } else {
        when_searched(attempts.drop_last(), item_id, episode_id)
    }
}

/// When a target was last searched; `None` is never.
pub fn searched_at(attempts: &[Attempt], item_id: u128, episode_id: Option<u128>) -> (r: Option<
    i64,
>)
    ensures
        r == when_searched(attempts@, item_id, episode_id),
{
    let mut n: usize = attempts.len();
    assert(attempts@.take(n as int) == attempts@);
    while n > 0
        invariant
            n <= attempts.len(),
            when_searched(attempts@, item_id, episode_id) == when_searched(
                attempts@.take(n as int),
                item_id,
                episode_id,
            ),
        decreases n,
    {
        let ghost seen = attempts@.take(n as int);
        assert(seen.last() == attempts@[n - 1]);
        assert(seen.drop_last() == attempts@.take(n - 1));
        let a = attempts[n - 1];
        let same_episode = match (a.episode_id, episode_id) {
            (Some(x), Some(y)) => x == y,
            (None, None) => true,
            _ => false,
        };
        if a.item_id == item_id && same_episode {
            return Some(a.searched_at);
        }
        n -= 1;
    }
    None
}

/// The columns that stamp a target as searched at a moment.
pub fn record(item_id: u128, episode_id: Option<u128>, at: i64) -> (r: AttemptColumns)
    ensures
        unreadable(r) is None,
        attempt_of(r) == (Attempt { item_id, episode_id, searched_at: at }),
        r.item_id@ == outside::hyphenated(item_id),
        match episode_id {
            Some(id) => r.episode_id matches Some(t) && t@ == outside::hyphenated(id),
            None => r.episode_id is None,
        },
{
    AttemptColumns {
        item_id: format_uuid(item_id),
        episode_id: match episode_id {
            Some(id) => Some(format_uuid(id)),
            None => None,
        },
        searched_at: at,
    }
}

/// A stamp is what is read back, for every moment a row can hold.
pub proof fn a_stamp_reads_back(rows: Seq<AttemptColumns>, c: AttemptColumns)
    requires
        unreadable(c) is None,
        outside::is_timestamp(c.searched_at),
    ensures
        when_searched(
            attempts_of(rows.push(c)),
            attempt_of(c).item_id,
            attempt_of(c).episode_id,
        ) == Some(c.searched_at),
{
    assert(rows.push(c).drop_last() == rows);
    let all = attempts_of(rows.push(c));
    assert(all == attempts_of(rows).push(attempt_of(c)));
    assert(all.last() == attempt_of(c));
}

} // verus!
