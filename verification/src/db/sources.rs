//! The registry every other `source` column points at: one row per source.

use vstd::prelude::*;

use crate::catalogue;
use crate::catalogue::{MetadataSource, SourceKind};

verus! {

pub open spec fn kind_text(kind: SourceKind) -> Seq<char> {
    match kind {
        SourceKind::Provider => "provider"@,
        SourceKind::Namespace => "namespace"@,
    }
}

/// The `kind` column's spelling.
pub fn kind_label(kind: SourceKind) -> (r: &'static str)
    ensures
        r@ == kind_text(kind),
{
    match kind {
        SourceKind::Provider => "provider",
        SourceKind::Namespace => "namespace",
    }
}

/// One row of the registry.
#[derive(Debug, Clone, Copy)]
pub struct SourceRow {
    pub label: &'static str,
    pub display_name: &'static str,
    pub kind: &'static str,
}

/// Whether a row is a source's.
pub open spec fn is_row_of(row: SourceRow, source: MetadataSource) -> bool {
    &&& row.label@ == catalogue::source_label(source)
    &&& row.display_name@ == catalogue::source_name(source)
    &&& row.kind@ == kind_text(
        if source == MetadataSource::Imdb {
            SourceKind::Namespace
        } else {
            SourceKind::Provider
        },
    )
}

/// The row of a source.
pub fn row_of(source: MetadataSource) -> (r: SourceRow)
    ensures
        is_row_of(r, source),
{
    SourceRow {
        label: source.label(),
        display_name: source.display_name(),
        kind: kind_label(source.kind()),
    }
}

/// The rows the registry has to hold, one per source. Writing them is
/// additive: a label no source carries any more is left alone.
pub fn ensure() -> (r: Vec<SourceRow>)
    ensures
        r.len() == 3,
        is_row_of(r@[0], MetadataSource::Tmdb),
        is_row_of(r@[1], MetadataSource::Imdb),
        is_row_of(r@[2], MetadataSource::Tvdb),
        forall|source: MetadataSource| has_row(r@, source),
{
    let all = MetadataSource::all();
    let mut out: Vec<SourceRow> = Vec::new();
    let mut i: usize = 0;
    while i < all.len()
        invariant
            i <= all.len(),
            out.len() == i,
            forall|k: int| 0 <= k < i ==> is_row_of(#[trigger] out@[k], all@[k]),
        decreases all.len() - i,
    {
        out.push(row_of(all[i]));
        i += 1;
    }
    proof {
        assert forall|source: MetadataSource| has_row(out@, source) by {
            let k: int = match source {
                MetadataSource::Tmdb => 0,
                MetadataSource::Imdb => 1,
                MetadataSource::Tvdb => 2,
            };
            assert(is_row_of(out@[k], all@[k]));
            assert(all@[k] == source);
        }
    }
    out
}

/// Whether a source has a row.
pub open spec fn has_row(rows: Seq<SourceRow>, source: MetadataSource) -> bool {
    exists|k: int| 0 <= k < rows.len() && is_row_of(#[trigger] rows[k], source)
}

} // verus!
