//! Undo one acquisition without erasing that it happened.
//!
//! A library file is removed only when its bytes survive without it: another
//! name still refers to them. The only name of a file is refused and said so.

use vstd::prelude::*;

use crate::error::AppError;
use crate::queue;
use crate::queue::GrabStatus;
use crate::text;
use crate::text::{chars_of, decimal_of, extend, extend_str, string_of};

verus! {

/// What forgetting one acquisition did.
#[derive(Debug, Clone)]
pub struct Forgotten {
    /// Rows that stopped covering anything. The history stays.
    pub rows: usize,
    /// Files that were removed.
    pub removed: Vec<String>,
    /// Files that were refused, and why.
    pub refused: Vec<(String, String)>,
}

impl Default for Forgotten {
    fn default() -> (r: Forgotten)
        ensures
            r.rows == 0,
            r.removed.len() == 0,
            r.refused.len() == 0,
    {
        Forgotten { rows: 0, removed: Vec::new(), refused: Vec::new() }
    }
}

/// One sentence on what was done.
pub open spec fn summary_text(rows: nat, removed: nat, refused: nat) -> Seq<char> {
    let said = text::decimal(rows) + " aquisição(ões) esquecida(s), "@ + text::decimal(removed)
        + " arquivo(s) removido(s)"@;
    if refused > 0 {
        said + ", "@ + text::decimal(refused) + " não removido(s) — confira o histórico"@
    } else {
        said
    }
}

impl Forgotten {
    /// One sentence for the badge.
    pub fn summary(&self) -> (r: String)
        ensures
            r@ == summary_text(
                self.rows as nat,
                self.removed.len() as nat,
                self.refused.len() as nat,
            ),
    {
        let mut said = decimal_of(self.rows as u64);
        extend_str(&mut said, " aquisição(ões) esquecida(s), ");
        extend(&mut said, &decimal_of(self.removed.len() as u64));
        extend_str(&mut said, " arquivo(s) removido(s)");
        if self.refused.len() > 0 {
            extend_str(&mut said, ", ");
            extend(&mut said, &decimal_of(self.refused.len() as u64));
            extend_str(&mut said, " não removido(s) — confira o histórico");
        }
        string_of(&said)
    }
}

/// Whether a grab can be forgotten, and what is said when not.
pub open spec fn is_forgettable(r: Result<(), AppError>, status: GrabStatus) -> bool {
    match r {
        Ok(()) => status == GrabStatus::Imported,
        Err(e) => status != GrabStatus::Imported && (e matches AppError::InvalidInput(m) && m@
            == "só dá para esquecer uma aquisição já importada — esta está "@
            + queue::status_label(status)),
    }
}

/// Whether a grab can be forgotten at all: only one already imported.
pub fn forgettable(status: GrabStatus) -> (r: Result<(), AppError>)
    ensures
        is_forgettable(r, status),
{
    if status == GrabStatus::Imported {
        return Ok(());
    }
    let mut out = chars_of("só dá para esquecer uma aquisição já importada — esta está ");
    extend_str(&mut out, status.label());
    Err(AppError::InvalidInput(string_of(&out)))
}

// ---------------------------------------------------------------------
// One file
// ---------------------------------------------------------------------

/// What a look at a file found.
#[derive(Debug, Clone)]
pub enum FileFacts {
    /// It is gone.
    Gone,
    /// It could not be read; the text is why.
    Unreadable(String),
    /// How many names its bytes have.
    Links(u64),
    /// It is there, and the platform does not tell how many names it has.
    Uncounted,
}

/// What to do about a file.
#[derive(Debug, Clone)]
pub enum RemoveStep {
    /// Nothing is there to remove.
    Nothing,
    /// Remove it.
    Remove,
    /// Leave it, and why.
    Refuse(String),
}

/// The sentence a refusal is told by.
pub open spec fn refusal_text(path: Seq<char>, facts: FileFacts) -> Seq<char> {
    match facts {
        FileFacts::Unreadable(why) => "não consegui ler "@ + path + ": "@ + why@,
        FileFacts::Uncounted => "nesta plataforma o brarr não consegue confirmar que "@ + path
            + " sobrevive à remoção;          apague à mão"@,
        _ => path
            + " é a única cópia desses bytes — o brarr não remove um arquivo              que não pode provar que sobrevive. Apague à mão se for o caso."@,
    }
}

/// Whether a step is the one for what was found: a file that is gone needs
/// none, one whose bytes have another name is removed, any other is refused.
pub open spec fn is_step(step: RemoveStep, path: Seq<char>, facts: FileFacts) -> bool {
    match facts {
        FileFacts::Gone => step is Nothing,
        FileFacts::Links(n) => if n >= 2 {
            step is Remove
        } else {
            step matches RemoveStep::Refuse(m) && m@ == refusal_text(path, facts)
        },
        _ => step matches RemoveStep::Refuse(m) && m@ == refusal_text(path, facts),
    }
}

/// Remove a file when another name still refers to the same bytes.
pub fn remove_if_spare(path: &str, facts: &FileFacts) -> (r: RemoveStep)
    ensures
        is_step(r, path@, *facts),
{
    match facts {
        FileFacts::Gone => RemoveStep::Nothing,
        FileFacts::Unreadable(why) => {
            let mut out = chars_of("não consegui ler ");
            extend_str(&mut out, path);
            extend_str(&mut out, ": ");
            extend_str(&mut out, why.as_str());
            RemoveStep::Refuse(string_of(&out))
        },
        FileFacts::Links(n) => {
            if *n >= 2 {
                return RemoveStep::Remove;
            }
            let mut out = chars_of(path);
            extend_str(
                &mut out,
                " é a única cópia desses bytes — o brarr não remove um arquivo              que não pode provar que sobrevive. Apague à mão se for o caso.",
            );
            RemoveStep::Refuse(string_of(&out))
        },
        FileFacts::Uncounted => {
            let mut out = chars_of("nesta plataforma o brarr não consegue confirmar que ");
            extend_str(&mut out, path);
            extend_str(&mut out, " sobrevive à remoção;          apague à mão");
            RemoveStep::Refuse(string_of(&out))
        },
    }
}

/// Whether `r` says that a row has a file of its own.
pub open spec fn is_owned(r: bool, in_place: bool, has_path: bool) -> bool {
    r == (!in_place && has_path)
}

/// Whether a row's file is to be looked at: not when the file is the
/// operator's own, adopted where it lay, nor when the row names none.
pub fn owns_file(in_place: bool, has_path: bool) -> (r: bool)
    ensures
        is_owned(r, in_place, has_path),
{
    !in_place && has_path
}

/// The sentence a failed removal is told by.
pub fn removal_failed(path: &str, why: &str) -> (r: String)
    ensures
        r@ == "não consegui remover "@ + path@ + ": "@ + why@,
{
    let mut out = chars_of("não consegui remover ");
    extend_str(&mut out, path);
    extend_str(&mut out, ": ");
    extend_str(&mut out, why);
    string_of(&out)
}

// ---------------------------------------------------------------------
// The acquisition
// ---------------------------------------------------------------------

/// How one row's file ended.
#[derive(Debug, Clone)]
pub enum FileEnd {
    /// There was nothing to remove.
    Nothing,
    /// The file was removed.
    Removed(String),
    /// It was refused, and why.
    Refused(String, String),
}

/// The files removed, in order.
pub open spec fn removed_of(ends: Seq<FileEnd>) -> Seq<Seq<char>>
    decreases ends.len(),
{
    if ends.len() == 0 {
        Seq::empty()
    } else {
        match ends.last() {
            FileEnd::Removed(p) => removed_of(ends.drop_last()).push(p@),
            _ => removed_of(ends.drop_last()),
        }
    }
}

/// The files refused and why, in order.
pub open spec fn refused_of(ends: Seq<FileEnd>) -> Seq<(Seq<char>, Seq<char>)>
    decreases ends.len(),
{
    if ends.len() == 0 {
        Seq::empty()
    } else {
        match ends.last() {
            FileEnd::Refused(p, why) => refused_of(ends.drop_last()).push((p@, why@)),
            _ => refused_of(ends.drop_last()),
        }
    }
}

pub open spec fn pair_views(v: Seq<(String, String)>) -> Seq<(Seq<char>, Seq<char>)> {
    Seq::new(v.len(), |i: int| (v[i].0@, v[i].1@))
}

/// What forgetting came to: a row per end, and what was removed and refused.
pub open spec fn is_forgotten(r: Forgotten, ends: Seq<FileEnd>) -> bool {
    &&& r.rows == ends.len()
    &&& text::views(r.removed@) == removed_of(ends)
    &&& pair_views(r.refused@) == refused_of(ends)
}

/// What forgetting an acquisition and the rows it wrote came to. Every row
/// stops covering, the refused ones too.
pub fn forget(ends: Vec<FileEnd>) -> (r: Forgotten)
    ensures
        is_forgotten(r, ends@),
{
    let mut out = Forgotten::default();
    let mut i: usize = 0;
    assert(text::views(out.removed@) =~= removed_of(ends@.take(0)));
    assert(pair_views(out.refused@) =~= refused_of(ends@.take(0)));
    while i < ends.len()
        invariant
            i <= ends.len(),
            out.rows == i,
            text::views(out.removed@) == removed_of(ends@.take(i as int)),
            pair_views(out.refused@) == refused_of(ends@.take(i as int)),
        decreases ends.len() - i,
    {
        assert(ends@.take(i + 1).drop_last() == ends@.take(i as int));
        assert(ends@.take(i + 1).last() == ends@[i as int]);
        let ghost removed = out.removed@;
        let ghost refused = out.refused@;
        match &ends[i] {
            FileEnd::Nothing => {},
            FileEnd::Removed(p) => {
                out.removed.push(p.clone());
                assert(text::views(out.removed@) =~= text::views(removed).push(p@));
            },
            FileEnd::Refused(p, why) => {
                out.refused.push((p.clone(), why.clone()));
                assert(pair_views(out.refused@) =~= pair_views(refused).push((p@, why@)));
            },
        }
        out.rows += 1;
        i += 1;
    }
    assert(ends@.take(ends.len() as int) == ends@);
    out
}

/// No file is removed whose bytes would not survive it.
pub proof fn the_only_copy_is_never_removed(facts: FileFacts, step: RemoveStep, path: Seq<char>)
    requires
        step is Remove,
        is_step(step, path, facts),
    ensures
        facts matches FileFacts::Links(n) && n >= 2,
{
}

} // verus!
