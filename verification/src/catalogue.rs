//! The vocabulary of the catalogue: what a title is, who issued its ids,
//! and when it came out.
//!
//! Row ids are the 128 bits of a UUID. Instants are nanoseconds since the
//! Unix epoch.

use vstd::prelude::*;

use crate::text;
use crate::text::{chars_of, string_of, trimmed_str};

verus! {

/// A film or a series.
#[derive(Debug, Clone, Copy, PartialEq, Eq, Structural)]
pub enum MediaType {
    Movie,
    Tv,
}

/// The word a kind is stored by.
pub open spec fn media_label(media: MediaType) -> Seq<char> {
    match media {
        MediaType::Movie => "movie"@,
        MediaType::Tv => "tv"@,
    }
}

impl MediaType {
    /// Persisted label.
    pub fn label(self) -> (r: &'static str)
        ensures
            r@ == media_label(self),
    {
        match self {
            MediaType::Movie => "movie",
            MediaType::Tv => "tv",
        }
    }
}

/// Who issues ids.
#[derive(Debug, Clone, Copy, PartialEq, Eq, Structural)]
pub enum MetadataSource {
    Tmdb,
    Imdb,
    Tvdb,
}

/// Whether a source is called, or only names things.
#[derive(Debug, Clone, Copy, PartialEq, Eq, Structural)]
pub enum SourceKind {
    Provider,
    Namespace,
}

/// The name a person knows the source by.
pub open spec fn source_name(source: MetadataSource) -> Seq<char> {
    match source {
        MetadataSource::Tmdb => "TMDB"@,
        MetadataSource::Imdb => "IMDb"@,
        MetadataSource::Tvdb => "TheTVDB"@,
    }
}

/// The label rows carry.
pub open spec fn source_label(source: MetadataSource) -> Seq<char> {
    match source {
        MetadataSource::Tmdb => "tmdb"@,
        MetadataSource::Imdb => "imdb"@,
        MetadataSource::Tvdb => "tvdb"@,
    }
}

/// Whether a source can be asked or only names titles.
pub open spec fn is_source_kind(r: SourceKind, source: MetadataSource) -> bool {
    r == if source == MetadataSource::Imdb {
        SourceKind::Namespace
    } else {
        SourceKind::Provider
    }
}

impl MetadataSource {
    /// Every source.
    pub fn all() -> (r: Vec<MetadataSource>)
        ensures
            r@ == seq![MetadataSource::Tmdb, MetadataSource::Imdb, MetadataSource::Tvdb],
    {
        let mut out: Vec<MetadataSource> = Vec::new();
        out.push(MetadataSource::Tmdb);
        out.push(MetadataSource::Imdb);
        out.push(MetadataSource::Tvdb);
        out
    }

    /// The name a person knows the source by.
    pub fn display_name(self) -> (r: &'static str)
        ensures
            r@ == source_name(self),
    {
        match self {
            MetadataSource::Tmdb => "TMDB",
            MetadataSource::Imdb => "IMDb",
            MetadataSource::Tvdb => "TheTVDB",
        }
    }

    /// The label rows carry.
    pub fn label(self) -> (r: &'static str)
        ensures
            r@ == source_label(self),
    {
        match self {
            MetadataSource::Tmdb => "tmdb",
            MetadataSource::Imdb => "imdb",
            MetadataSource::Tvdb => "tvdb",
        }
    }

    /// IMDb is a namespace: ids are stored in it and it is never called.
    pub fn kind(self) -> (r: SourceKind)
        ensures
            is_source_kind(r, self),
    {
        match self {
            MetadataSource::Imdb => SourceKind::Namespace,
            _ => SourceKind::Provider,
        }
    }
}

/// Every source is in the list of sources.
pub proof fn all_sources_are_listed(source: MetadataSource)
    ensures
        seq![MetadataSource::Tmdb, MetadataSource::Imdb, MetadataSource::Tvdb].contains(source),
{
    let all = seq![MetadataSource::Tmdb, MetadataSource::Imdb, MetadataSource::Tvdb];
    assert(all[0] == MetadataSource::Tmdb && all[1] == MetadataSource::Imdb && all[2]
        == MetadataSource::Tvdb);
}

/// An id some source issued, as text.
#[derive(Debug, Clone)]
pub struct ExternalId {
    pub source: MetadataSource,
    pub value: String,
}

/// The digits of an id: an IMDb id may carry its `tt`.
pub open spec fn id_digits(source: MetadataSource, value: Seq<char>) -> Seq<char> {
    if source == MetadataSource::Imdb && value.len() >= 2 && value[0] == 't' && value[1] == 't' {
        value.skip(2)
    } else {
        value
    }
}

/// The number an id spells, when it is one and fits 32 bits.
pub open spec fn id_number(source: MetadataSource, value: Seq<char>) -> Option<nat> {
    text::spelled(id_digits(source, value), u32::MAX as nat)
}

/// The id a text holds.
pub open spec fn is_new_id(r: Option<ExternalId>, source: MetadataSource, raw: &str) -> bool {
    match r {
        Some(id) => id.source == source && id.value@ == text::trim(raw@) && id.value@.len()
            > 0,
        None => text::trim(raw@).len() == 0,
    }
}

impl ExternalId {
    /// An id with the white space around it taken off; blank is no id.
    pub fn new(source: MetadataSource, raw: &str) -> (r: Option<ExternalId>)
        ensures
            is_new_id(r, source, raw),
    {
        let value = trimmed_str(raw);
        if value.len() == 0 {
            None
        } else {
            Some(ExternalId { source, value: string_of(&value) })
        }
    }

    /// The number the id spells.
    pub fn as_u32(&self) -> (r: Option<u32>)
        ensures
            match r {
                Some(n) => id_number(self.source, self.value@) == Some(n as nat),
                None => id_number(self.source, self.value@) is None,
            },
    {
        let chars = chars_of(self.value.as_str());
        let n: usize = chars.len();
        let rest = if self.source == MetadataSource::Imdb && n >= 2 && chars[0] == 't'
            && chars[1] == 't' {
            text::slice(&chars, 2, n)
        } else {
            chars
        };
        assert(rest@ =~= id_digits(self.source, self.value@));
        match text::parse_digits(&rest, u32::MAX as u64) {
            Some(v) => Some(v as u32),
            None => None,
        }
    }
}

/// How far along a title's production is.
#[derive(Debug, Clone, Copy, PartialEq, Eq, Structural)]
pub enum ProductionStatus {
    Announced,
    InProduction,
    Released,
    Returning,
    Ended,
    Cancelled,
}

/// A title of the catalogue, as far as decisions read it.
#[derive(Debug, Clone)]
pub struct LibraryItem {
    pub id: u128,
    pub media_type: MediaType,
    pub title: String,
    pub year: Option<i32>,
    pub status: Option<ProductionStatus>,
    pub digital_release_at: Option<i128>,
    pub profile_id: Option<u128>,
    /// The root folder the operator pinned this title to.
    pub root_folder: Option<String>,
}

/// An episode of the catalogue.
#[derive(Debug, Clone, Copy, PartialEq, Eq, Structural)]
pub struct Episode {
    pub id: u128,
    pub season_number: i32,
    pub episode_number: i32,
    pub air_date: Option<i128>,
    pub monitored: bool,
}

/// What the tracker fan-out is asked for.
#[derive(Debug, Clone, Copy, PartialEq, Eq, Structural)]
pub struct SearchKeys {
    pub tmdb: Option<u32>,
    pub imdb: Option<u32>,
    pub tvdb: Option<u32>,
    pub season: Option<u16>,
    pub episode: Option<u16>,
}

/// Transport a release travels over.
#[derive(Debug, Clone, Copy, PartialEq, Eq, Structural)]
pub enum Protocol {
    Torrent,
    Usenet,
}

/// The word a protocol is stored by.
pub open spec fn protocol_label(protocol: Protocol) -> Seq<char> {
    match protocol {
        Protocol::Torrent => "torrent"@,
        Protocol::Usenet => "usenet"@,
    }
}

impl Protocol {
    /// Persisted label.
    pub fn label(self) -> (r: &'static str)
        ensures
            r@ == protocol_label(self),
    {
        match self {
            Protocol::Torrent => "torrent",
            Protocol::Usenet => "usenet",
        }
    }
}

/// A scored release.
#[derive(Debug, Clone)]
pub struct DecisionRow {
    pub id: u128,
    /// `None` once the provider was deleted.
    pub provider_id: Option<u128>,
    pub provider_name: String,
    pub release_name: String,
    pub release_id_remote: u64,
    /// The key under which the same upstream release is recognised again.
    pub release_key: String,
    pub score: u32,
    pub rejected: bool,
    pub seeders: u32,
    pub leechers: u32,
    pub size_bytes: u64,
    pub download_url: Option<String>,
    pub details_url: Option<String>,
    pub provider_kind: Option<String>,
    pub published_at: Option<i128>,
    pub decided_at: i128,
    /// Scores under the quality profiles that judged the release.
    pub profile_scores: std::collections::HashMap<u128, u32>,
}

/// The release's score under a profile: the profile's own verdict, and the
/// baseline when it gave none.
pub open spec fn score_under(row: DecisionRow, profile: u128) -> u32 {
    if row.profile_scores@.contains_key(profile) {
        row.profile_scores@[profile]
    } else {
        row.score
    }
}

impl DecisionRow {
    /// The release's score under a profile.
    pub fn effective_score(&self, profile: u128) -> (r: u32)
        ensures
            r == score_under(*self, profile),
    {
        broadcast use vstd::std_specs::hash::group_hash_axioms;

        match self.profile_scores.get(&profile) {
            Some(score) => *score,
            None => self.score,
        }
    }
}

} // verus!
