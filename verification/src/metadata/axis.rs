//! Turning what a title is into what a tracker can be asked.
//!
//! A catalogue identity is one id per source, as text. A search axis is the
//! non-zero 32-bit numbers the fan-out understands. Every id is the first;
//! only some are usable as the second, and what is not usable is handed back
//! with the reason instead of being dropped.

use vstd::prelude::*;

use crate::catalogue;
use crate::catalogue::{ExternalId, MediaType, MetadataSource};
use crate::text;
use crate::text::{chars_of, extend_str, string_of};

verus! {

/// The ids the tracker fan-out can use; none of them is zero.
#[derive(Debug, Clone, Copy, PartialEq, Eq, Structural)]
pub struct SearchAxis {
    /// UNIT3D's axis.
    pub tmdb: Option<u32>,
    /// Newznab movie-search's axis.
    pub imdb: Option<u32>,
    /// Newznab tv-search's axis, and the only one for an episode.
    pub tvdb: Option<u32>,
}

/// Whether `r` says that there is nothing to search by.
pub open spec fn is_bare(r: bool, a: SearchAxis) -> bool {
    r == (a.tmdb is None && a.imdb is None && a.tvdb is None)
}

/// Whether `r` says that episodes can be searched for.
pub open spec fn is_fit_for_episodes(r: bool, a: SearchAxis) -> bool {
    r == (a.tvdb is Some)
}

impl SearchAxis {
    /// Every id on the axis is one an indexer accepts.
    pub open spec fn well_formed(&self) -> bool {
        self.tmdb != Some(0u32) && self.imdb != Some(0u32) && self.tvdb != Some(0u32)
    }

    /// Whether anything can be searched with this at all.
    pub fn is_empty(&self) -> (r: bool)
        ensures
            is_bare(r, *self),
    {
        self.tmdb.is_none() && self.imdb.is_none() && self.tvdb.is_none()
    }

    /// Whether an episode can be searched for: TVDB is the only axis any
    /// indexer speaks per episode.
    pub fn can_search_episodes(&self) -> (r: bool)
        ensures
            is_fit_for_episodes(r, *self),
    {
        self.tvdb.is_some()
    }
}

impl Default for SearchAxis {
    fn default() -> (r: SearchAxis)
        ensures
            r == (SearchAxis { tmdb: None, imdb: None, tvdb: None }),
    {
        SearchAxis { tmdb: None, imdb: None, tvdb: None }
    }
}

/// Why an id cannot become a search key.
#[derive(Debug, Clone, Copy, PartialEq, Eq, Structural)]
pub enum Reason {
    /// Numerically unusable: zero, not a number, or past 32 bits.
    OutOfRange,
    /// A perfectly good id in a namespace no tracker indexes by.
    NotIndexed,
}

/// An id that is held but cannot be searched with.
#[derive(Debug, Clone)]
pub struct AxisRejection {
    /// Who issued the id.
    pub source: MetadataSource,
    /// The stored value, as it is.
    pub value: String,
    /// Why it will not convert.
    pub reason: Reason,
}

/// The sentence a rejection puts on the screen.
pub open spec fn rejection_text(
    source: MetadataSource,
    value: Seq<char>,
    reason: Reason,
) -> Seq<char> {
    match reason {
        Reason::OutOfRange => "o id "@ + catalogue::source_name(source) + " `"@ + value
            + "` está fora da faixa que os indexadores aceitam"@,
        Reason::NotIndexed => "nenhum indexador busca por id da "@ + catalogue::source_name(source)
            + " — resolva um id do TMDB ou da TheTVDB"@,
    }
}

impl AxisRejection {
    /// One sentence for the screen, naming the cause.
    pub fn message(&self) -> (r: String)
        ensures
            r@ == rejection_text(self.source, self.value@, self.reason),
    {
        match self.reason {
            Reason::OutOfRange => {
                let mut out = chars_of("o id ");
                extend_str(&mut out, self.source.display_name());
                extend_str(&mut out, " `");
                extend_str(&mut out, self.value.as_str());
                extend_str(&mut out, "` está fora da faixa que os indexadores aceitam");
                string_of(&out)
            },
            Reason::NotIndexed => {
                let mut out = chars_of("nenhum indexador busca por id da ");
                extend_str(&mut out, self.source.display_name());
                extend_str(&mut out, " — resolva um id do TMDB ou da TheTVDB");
                string_of(&out)
            },
        }
    }
}

/// How far an id has been confirmed.
#[derive(Debug, Clone, Copy, PartialEq, Eq, Structural)]
pub enum Verification {
    Asserted,
    Confirmed,
}

/// An id as the catalogue stores it.
#[derive(Debug, Clone)]
pub struct StoredId {
    pub id: ExternalId,
    pub verification: Verification,
}

/// The search key an id narrows to: its number, when that is not zero.
pub open spec fn narrowed(id: ExternalId) -> Option<nat> {
    match catalogue::id_number(id.source, id.value@) {
        Some(n) => if n == 0 {
            None
        } else {
            Some(n)
        },
        None => None,
    }
}

/// Whether the id is extra knowledge rather than a key: a TVDB id on a
/// film.
pub open spec fn ignored(id: ExternalId, media: MediaType) -> bool {
    id.source == MetadataSource::Tvdb && media == MediaType::Movie
}

/// The key of the last usable id `source` issued.
pub open spec fn axis_of(ids: Seq<StoredId>, media: MediaType, source: MetadataSource) -> Option<nat>
    decreases ids.len(),
{
    if ids.len() == 0 {
        None
    } else {
        let id = ids.last().id;
        if id.source == source && !ignored(id, media) && narrowed(id) is Some {
            narrowed(id)
        } else {
            axis_of(ids.drop_last(), media, source)
        }
    }
}

/// The ids that are neither ignored nor usable, in order.
pub open spec fn refused(ids: Seq<StoredId>, media: MediaType) -> Seq<ExternalId>
    decreases ids.len(),
{
    if ids.len() == 0 {
        Seq::empty()
    } else {
        let id = ids.last().id;
        if !ignored(id, media) && narrowed(id) is None {
            refused(ids.drop_last(), media).push(id)
        } else {
            refused(ids.drop_last(), media)
        }
    }
}

/// Whether a 32-bit key is the modelled one.
pub open spec fn is_key(key: Option<u32>, model: Option<nat>) -> bool {
    match (key, model) {
        (Some(k), Some(n)) => k == n,
        (None, None) => true,
        _ => false,
    }
}

/// Whether the rejections name exactly these ids, as out of range.
pub open spec fn names(rejections: Seq<AxisRejection>, ids: Seq<ExternalId>) -> bool {
    &&& rejections.len() == ids.len()
    &&& forall|i: int|
        0 <= i < ids.len() ==> {
            &&& (#[trigger] rejections[i]).source == ids[i].source
            &&& rejections[i].value@ == ids[i].value@
            &&& rejections[i].reason == Reason::OutOfRange
        }
}

/// Narrow an id into a search key.
fn narrow(id: &ExternalId) -> (r: Result<u32, Reason>)
    ensures
        match r {
            Ok(n) => narrowed(*id) == Some(n as nat) && n != 0,
            Err(reason) => narrowed(*id) is None && reason == Reason::OutOfRange,
        },
{
    match id.as_u32() {
        Some(n) => if n == 0 {
            Err(Reason::OutOfRange)
        } else {
            Ok(n)
        },
        None => Err(Reason::OutOfRange),
    }
}

fn reject(id: &ExternalId, reason: Reason) -> (r: AxisRejection)
    ensures
        r.source == id.source,
        r.value@ == id.value@,
        r.reason == reason,
{
    AxisRejection { source: id.source, value: id.value.clone(), reason }
}

/// What a title is searched by, and which ids are of no use.
pub open spec fn is_resolved(
    r: (SearchAxis, Vec<AxisRejection>),
    ids: Seq<StoredId>,
    media: MediaType,
) -> bool {
    &&& r.0.well_formed()
    &&& is_key(r.0.tmdb, axis_of(ids, media, MetadataSource::Tmdb))
    &&& is_key(r.0.imdb, axis_of(ids, media, MetadataSource::Imdb))
    &&& is_key(r.0.tvdb, axis_of(ids, media, MetadataSource::Tvdb))
    &&& names(r.1@, refused(ids, media))
}

/// Resolve a catalogue identity into a search axis, keeping what it could
/// not use. A later id of a source replaces an earlier one.
pub fn resolve(ids: &[StoredId], media: MediaType) -> (r: (SearchAxis, Vec<AxisRejection>))
    ensures
        is_resolved(r, ids@, media),
{
    let mut axis = SearchAxis { tmdb: None, imdb: None, tvdb: None };
    let mut rejected: Vec<AxisRejection> = Vec::new();
    let mut i: usize = 0;
    while i < ids.len()
        invariant
            i <= ids.len(),
            axis.well_formed(),
            is_key(axis.tmdb, axis_of(ids@.take(i as int), media, MetadataSource::Tmdb)),
            is_key(axis.imdb, axis_of(ids@.take(i as int), media, MetadataSource::Imdb)),
            is_key(axis.tvdb, axis_of(ids@.take(i as int), media, MetadataSource::Tvdb)),
            names(rejected@, refused(ids@.take(i as int), media)),
        decreases ids.len() - i,
    {
        assert(ids@.take(i + 1).drop_last() == ids@.take(i as int));
        assert(ids@.take(i + 1).last() == ids@[i as int]);
        let id = &ids[i].id;
        let is_ignored = id.source == MetadataSource::Tvdb && media == MediaType::Movie;
        if !is_ignored {
            match narrow(id) {
                Ok(n) => match id.source {
                    MetadataSource::Tmdb => {
                        axis.tmdb = Some(n);
                    },
                    MetadataSource::Imdb => {
                        axis.imdb = Some(n);
                    },
                    MetadataSource::Tvdb => {
                        axis.tvdb = Some(n);
                    },
                },
                Err(reason) => {
                    rejected.push(reject(id, reason));
                },
            }
        }
        i += 1;
    }
    assert(ids@.take(ids.len() as int) == ids@);
    (axis, rejected)
}

// ---------------------------------------------------------------------
// Laws
// ---------------------------------------------------------------------

/// Nothing is dropped: every id is extra knowledge, or a rejection names
/// it, or its source has a key on the axis.
pub proof fn every_id_is_accounted_for(ids: Seq<StoredId>, media: MediaType, i: int)
    requires
        0 <= i < ids.len(),
    ensures
        ignored(ids[i].id, media) || refused(ids, media).contains(ids[i].id) || axis_of(
            ids,
            media,
            ids[i].id.source,
        ) is Some,
    decreases ids.len(),
{
    let before = ids.drop_last();
    let last = ids.last().id;
    if i == ids.len() - 1 {
        if !ignored(last, media) && narrowed(last) is None {
            let r = refused(ids, media);
            assert(r[r.len() - 1] == last);
        }
    } else {
        every_id_is_accounted_for(before, media, i);
        if refused(before, media).contains(ids[i].id) {
            let k = choose|k: int| 0 <= k < refused(before, media).len() && refused(before, media)[k] == ids[i].id;
            assert(refused(ids, media)[k] == ids[i].id);
        }
    }
}

/// A film never gets a TVDB key, so no query is built that no indexer
/// answers.
pub proof fn a_film_has_no_tvdb_axis(ids: Seq<StoredId>)
    ensures
        axis_of(ids, MediaType::Movie, MetadataSource::Tvdb) is None,
    decreases ids.len(),
{
    if ids.len() > 0 {
        a_film_has_no_tvdb_axis(ids.drop_last());
    }
}

} // verus!
