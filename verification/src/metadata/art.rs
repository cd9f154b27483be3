//! Building an image address without naming a provider.
//!
//! The two providers do not store the same kind of value: TMDB keeps a path
//! relative to its image host and TheTVDB an absolute address. Which surface
//! an image is for is named here, and each provider maps it as it can.

use vstd::prelude::*;

use crate::catalogue::MetadataSource;
use crate::text;
use crate::text::{chars_of, extend, extend_str, starts, string_of, trimmed_str};

verus! {

/// Which surface an image is for.
#[derive(Debug, Clone, Copy, PartialEq, Eq, Structural)]
pub enum ImageSize {
    /// A grid of many cards.
    Index,
    /// The detail screen's hero.
    Hero,
    /// A full-width backdrop.
    Backdrop,
}

/// TMDB's spelling of a surface.
pub open spec fn tmdb_width(size: ImageSize) -> Seq<char> {
    match size {
        ImageSize::Index => "w185"@,
        ImageSize::Hero => "w342"@,
        ImageSize::Backdrop => "w1280"@,
    }
}

/// The address of a stored path, if its source serves one.
pub open spec fn art_url(
    source: MetadataSource,
    path: Option<Seq<char>>,
    size: ImageSize,
) -> Option<Seq<char>> {
    match path {
        None => None,
        Some(raw) => {
            let p = text::trim(raw);
            if p.len() == 0 {
                None
            } else {
                match source {
                    MetadataSource::Tmdb => Some(
                        "https://image.tmdb.org/t/p/"@ + tmdb_width(size) + p,
                    ),
                    MetadataSource::Tvdb => if text::has_prefix(p, "https://"@) {
                        Some(p)
                    } else {
                        None
                    },
                    MetadataSource::Imdb => None,
                }
            }
        },
    }
}

pub open spec fn str_view(path: Option<&str>) -> Option<Seq<char>> {
    match path {
        Some(p) => Some(p@),
        None => None,
    }
}

/// TMDB's own spelling for a surface.
pub fn tmdb_size(size: ImageSize) -> (r: &'static str)
    ensures
        r@ == tmdb_width(size),
{
    match size {
        ImageSize::Index => "w185",
        ImageSize::Hero => "w342",
        ImageSize::Backdrop => "w1280",
    }
}

/// Build an absolute image address for a stored path; `None` for an absent
/// or blank path, for a TheTVDB value that is not already an address, and
/// for IMDb, which issues ids and no artwork.
pub fn url(source: MetadataSource, path: Option<&str>, size: ImageSize) -> (r: Option<String>)
    ensures
        match r {
            Some(u) => art_url(source, str_view(path), size) == Some(u@),
            None => art_url(source, str_view(path), size) is None,
        },
{
    let p = match path {
        Some(raw) => trimmed_str(raw),
        None => {
            return None;
        },
    };
    if p.len() == 0 {
        return None;
    }
    match source {
        MetadataSource::Tmdb => {
            let mut out = chars_of("https://image.tmdb.org/t/p/");
            extend_str(&mut out, tmdb_size(size));
            extend(&mut out, &p);
            Some(string_of(&out))
        },
        MetadataSource::Tvdb => {
            let scheme = chars_of("https://");
            if starts(&p, &scheme) {
                Some(string_of(&p))
            } else {
                None
            }
        },
        MetadataSource::Imdb => None,
    }
}

/// An address that is built is absolute.
pub proof fn a_built_address_is_absolute(
    source: MetadataSource,
    path: Option<Seq<char>>,
    size: ImageSize,
)
    requires
        art_url(source, path, size) is Some,
    ensures
        text::has_prefix(art_url(source, path, size)->0, "https://"@),
{
    if source == MetadataSource::Tmdb {
        let p = text::trim(path->0);
        reveal_strlit("https://");
        reveal_strlit("https://image.tmdb.org/t/p/");
        let u = "https://image.tmdb.org/t/p/"@ + tmdb_width(size) + p;
        assert(u.subrange(0, 8) =~= "https://"@);
    }
}

/// Two surfaces never ask TMDB for the same bytes.
pub proof fn surfaces_ask_for_different_sizes(path: Seq<char>, a: ImageSize, b: ImageSize)
    requires
        text::trim(path).len() > 0,
        a != b,
    ensures
        art_url(MetadataSource::Tmdb, Some(path), a) != art_url(
            MetadataSource::Tmdb,
            Some(path),
            b,
        ),
{
    reveal_strlit("https://image.tmdb.org/t/p/");
    reveal_strlit("w185");
    reveal_strlit("w342");
    reveal_strlit("w1280");
    let p = text::trim(path);
    let ua = "https://image.tmdb.org/t/p/"@ + tmdb_width(a) + p;
    let ub = "https://image.tmdb.org/t/p/"@ + tmdb_width(b) + p;
    assert(ua[28] == tmdb_width(a)[1] && ub[28] == tmdb_width(b)[1]);
    assert(ua[29] == tmdb_width(a)[2] && ub[29] == tmdb_width(b)[2]);
}

} // verus!
