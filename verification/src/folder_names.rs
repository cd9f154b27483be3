//! The name a title's folder takes, from the same place the \*arr take it:
//! the English name TheTVDB gives a series.

use vstd::prelude::*;

use crate::text;
use crate::text::{same_text, string_of, trimmed_str};

verus! {

/// How often the sweep runs, in seconds.
pub const SWEEP_INTERVAL: u64 = 43200;

/// Delay before the first sweep, in seconds.
pub const STARTUP_DELAY: u64 = 180;

/// The language the \*arr name their folders in.
pub const FOLDER_LANGUAGE: &'static str = "eng";

/// What one sweep did.
#[derive(Debug, Clone, Copy, PartialEq, Eq, Structural)]
pub struct FolderNameSummary {
    /// Series looked at.
    pub considered: usize,
    /// Series whose folder name was written or changed.
    pub written: usize,
    /// Series without an English name.
    pub untranslated: usize,
    /// Lookups that failed.
    pub failed: usize,
}

impl Default for FolderNameSummary {
    fn default() -> (r: FolderNameSummary)
        ensures
            r == (FolderNameSummary { considered: 0, written: 0, untranslated: 0, failed: 0 }),
    {
        FolderNameSummary { considered: 0, written: 0, untranslated: 0, failed: 0 }
    }
}

/// What TheTVDB said of a series.
#[derive(Debug, Clone)]
pub enum NameAnswer {
    /// It has a translation, with a name or without.
    Translated(Option<String>),
    /// It has none.
    Untranslated,
    /// It could not be asked.
    Failed,
}

/// A series, the folder name it has, and what was said of it.
#[derive(Debug, Clone)]
pub struct SeriesName {
    pub id: u128,
    pub current: Option<String>,
    pub answer: NameAnswer,
}

/// The English name an answer gives, if it gives one.
pub open spec fn english(answer: NameAnswer) -> Option<Seq<char>> {
    match answer {
        NameAnswer::Translated(Some(name)) => if text::trim(name@).len() > 0 {
            Some(text::trim(name@))
        } else {
            None
        },
        _ => None,
    }
}

/// Whether a series' folder name changes.
pub open spec fn changes(s: SeriesName) -> bool {
    english(s.answer) is Some && text::opt_view(s.current) != english(s.answer)
}

/// The series whose folder name changes, and the new name, in order.
pub open spec fn writes_of(all: Seq<SeriesName>) -> Seq<(u128, Seq<char>)>
    decreases all.len(),
{
    if all.len() == 0 {
        Seq::empty()
    } else if changes(all.last()) {
        writes_of(all.drop_last()).push((all.last().id, english(all.last().answer)->0))
    } else {
        writes_of(all.drop_last())
    }
}

/// How many series have no English name: none was given, or a blank one.
pub open spec fn untranslated_of(all: Seq<SeriesName>) -> nat
    decreases all.len(),
{
    if all.len() == 0 {
        0
    } else {
        untranslated_of(all.drop_last()) + if !(all.last().answer is Failed) && english(
            all.last().answer,
        ) is None {
            1nat
        } else {
            0
        }
    }
}

pub open spec fn failed_of(all: Seq<SeriesName>) -> nat
    decreases all.len(),
{
    if all.len() == 0 {
        0
    } else {
        failed_of(all.drop_last()) + if all.last().answer is Failed {
            1nat
        } else {
            0
        }
    }
}

pub open spec fn write_views(v: Seq<(u128, String)>) -> Seq<(u128, Seq<char>)> {
    Seq::new(v.len(), |i: int| (v[i].0, v[i].1@))
}

/// What a sweep over the series writes and counts.
pub open spec fn is_sweep(
    r: (Vec<(u128, String)>, FolderNameSummary),
    all: Seq<SeriesName>,
) -> bool {
    &&& write_views(r.0@) == writes_of(all)
    &&& r.1.considered == all.len()
    &&& r.1.written == r.0.len()
    &&& r.1.untranslated == untranslated_of(all)
    &&& r.1.failed == failed_of(all)
}

/// One pass: the folder names to write, in order, and the counts. A lookup
/// that failed is counted and stops nothing.
pub fn run_once(all: &[SeriesName]) -> (r: (Vec<(u128, String)>, FolderNameSummary))
    ensures
        is_sweep(r, all@),
{
    let mut writes: Vec<(u128, String)> = Vec::new();
    let mut summary = FolderNameSummary::default();
    let mut i: usize = 0;
    assert(write_views(writes@) =~= writes_of(all@.take(0)));
    while i < all.len()
        invariant
            i <= all.len(),
            write_views(writes@) == writes_of(all@.take(i as int)),
            summary.considered == i,
            summary.written == writes.len(),
            summary.written <= i,
            summary.untranslated == untranslated_of(all@.take(i as int)),
            summary.untranslated <= i,
            summary.failed == failed_of(all@.take(i as int)),
            summary.failed <= i,
        decreases all.len() - i,
    {
        assert(all@.take(i + 1).drop_last() == all@.take(i as int));
        assert(all@.take(i + 1).last() == all@[i as int]);
        let ghost before = writes@;
        let s = &all[i];
        i += 1;
        summary.considered += 1;
        match &s.answer {
            NameAnswer::Translated(name) => {
                let given = match name {
                    Some(n) => trimmed_str(n.as_str()),
                    None => Vec::new(),
                };
                if given.len() == 0 {
                    summary.untranslated += 1;
                } else {
                    let given = string_of(&given);
                    let kept = match &s.current {
                        Some(c) => same_text(c.as_str(), given.as_str()),
                        None => false,
                    };
                    if !kept {
                        let ghost g = given@;
                        writes.push((s.id, given));
                        summary.written += 1;
                        assert(write_views(writes@) =~= write_views(before).push((s.id, g)));
                    }
                }
            },
            NameAnswer::Untranslated => {
                summary.untranslated += 1;
            },
            NameAnswer::Failed => {
                summary.failed += 1;
            },
        }
    }
    assert(all@.take(all.len() as int) == all@);
    (writes, summary)
}

} // verus!
