//! Which providers are configured, and what each may be asked.
//!
//! A provider without a credential is simply not there, and what a provider
//! offers is read before it is asked.

use vstd::prelude::*;

use crate::catalogue;
use crate::catalogue::{MediaType, MetadataSource, SourceKind};
use crate::db::settings;
use crate::db::settings::SettingRow;
use crate::error::{AppError, MetadataFault};
use crate::text;
use crate::text::{chars_of, extend_str, string_of};

verus! {

/// The kinds of media something holds for.
#[derive(Debug, Clone, Copy, PartialEq, Eq, Structural)]
pub enum MediaSupport {
    Neither,
    Movies,
    Series,
    Both,
}

/// Whether a kind is among the supported ones.
pub open spec fn supports(s: MediaSupport, media: MediaType) -> bool {
    match s {
        MediaSupport::Neither => false,
        MediaSupport::Movies => media == MediaType::Movie,
        MediaSupport::Series => media == MediaType::Tv,
        MediaSupport::Both => true,
    }
}

impl MediaSupport {
    /// Whether a kind is among the supported ones.
    pub fn covers(self, media: MediaType) -> (r: bool)
        ensures
            r == supports(self, media),
    {
        match self {
            MediaSupport::Neither => false,
            MediaSupport::Movies => media == MediaType::Movie,
            MediaSupport::Series => media == MediaType::Tv,
            MediaSupport::Both => true,
        }
    }
}

/// What a provider offers.
#[derive(Debug, Clone, Copy, PartialEq, Eq, Structural)]
pub struct Capabilities {
    /// What it resolves ids for.
    pub identity: MediaSupport,
    /// What it builds trees for.
    pub structure: MediaSupport,
}

/// Whether `r` says that no structure of films is offered.
pub open spec fn is_sound(r: bool, c: Capabilities) -> bool {
    r == !supports(c.structure, MediaType::Movie)
}

impl Capabilities {
    /// Whether the claims can be met: a film has no tree.
    pub fn is_coherent(self) -> (r: bool)
        ensures
            is_sound(r, self),
    {
        !self.structure.covers(MediaType::Movie)
    }
}

/// A provider that can be reached.
#[derive(Debug, Clone, Copy, PartialEq, Eq, Structural)]
pub struct Provider {
    pub source: MetadataSource,
    pub capabilities: Capabilities,
}

/// What a source offers.
pub open spec fn offers(source: MetadataSource) -> Option<Capabilities> {
    match source {
        MetadataSource::Tmdb => Some(
            Capabilities { identity: MediaSupport::Both, structure: MediaSupport::Series },
        ),
        MetadataSource::Tvdb => Some(
            Capabilities { identity: MediaSupport::Series, structure: MediaSupport::Series },
        ),
        MetadataSource::Imdb => None,
    }
}

/// What a source offers, configured or not.
pub fn capabilities_of(source: MetadataSource) -> (r: Option<Capabilities>)
    ensures
        r == offers(source),
{
    match source {
        MetadataSource::Tmdb => Some(
            Capabilities { identity: MediaSupport::Both, structure: MediaSupport::Series },
        ),
        MetadataSource::Tvdb => Some(
            Capabilities { identity: MediaSupport::Series, structure: MediaSupport::Series },
        ),
        MetadataSource::Imdb => None,
    }
}

/// Whether `r` says that a source can be asked.
pub open spec fn is_asked(r: bool, source: MetadataSource) -> bool {
    r == (source != MetadataSource::Imdb)
}

/// Whether a source is one that is ever called.
pub fn is_callable(source: MetadataSource) -> (r: bool)
    ensures
        is_asked(r, source),
{
    source.kind() == SourceKind::Provider
}

// ---------------------------------------------------------------------
// Credentials
// ---------------------------------------------------------------------

/// A credential the settings screen asks for.
#[derive(Debug, Clone, Copy)]
pub struct CredentialField {
    /// The setting it is stored under.
    pub key: &'static str,
    pub label: &'static str,
}

/// Whether these are the fields one source declares.
pub open spec fn are_credentials(fields: Seq<CredentialField>, source: MetadataSource) -> bool {
    match source {
        MetadataSource::Tmdb => fields.len() == 1 && fields[0].key@ == settings::KEY_TMDB_TOKEN@
            && fields[0].label@ == "token"@,
        MetadataSource::Tvdb => fields.len() == 2 && fields[0].key@ == settings::KEY_TVDB_API_KEY@
            && fields[0].label@ == "api key"@ && fields[1].key@ == settings::KEY_TVDB_PIN@
            && fields[1].label@ == "pin"@,
        MetadataSource::Imdb => fields.len() == 0,
    }
}

/// The fields one source declares, whether or not it is configured.
pub fn credentials_of(source: MetadataSource) -> (r: Vec<CredentialField>)
    ensures
        are_credentials(r@, source),
{
    let mut out: Vec<CredentialField> = Vec::new();
    match source {
        MetadataSource::Tmdb => {
            out.push(CredentialField { key: settings::KEY_TMDB_TOKEN, label: "token" });
        },
        MetadataSource::Tvdb => {
            out.push(CredentialField { key: settings::KEY_TVDB_API_KEY, label: "api key" });
            out.push(CredentialField { key: settings::KEY_TVDB_PIN, label: "pin" });
        },
        MetadataSource::Imdb => {},
    }
    out
}

/// Every credential the settings screen asks for, in source order.
pub fn credential_fields() -> (r: Vec<(MetadataSource, CredentialField)>)
    ensures
        r.len() == 3,
        r@[0].0 == MetadataSource::Tmdb,
        are_credentials(seq![r@[0].1], MetadataSource::Tmdb),
        r@[1].0 == MetadataSource::Tvdb,
        r@[2].0 == MetadataSource::Tvdb,
        are_credentials(seq![r@[1].1, r@[2].1], MetadataSource::Tvdb),
{
    let mut out: Vec<(MetadataSource, CredentialField)> = Vec::new();
    let tmdb = credentials_of(MetadataSource::Tmdb);
    out.push((MetadataSource::Tmdb, tmdb[0]));
    let tvdb = credentials_of(MetadataSource::Tvdb);
    out.push((MetadataSource::Tvdb, tvdb[0]));
    out.push((MetadataSource::Tvdb, tvdb[1]));
    out
}

/// What a TMDB client is built from.
#[derive(Debug, Clone)]
pub struct TmdbConfig {
    pub token: String,
    pub language: Option<String>,
    pub country: Option<String>,
}

/// What a TheTVDB client is built from. A project key has no PIN at all.
#[derive(Debug, Clone)]
pub struct TvdbConfig {
    pub api_key: String,
    pub pin: Option<String>,
}

/// How TMDB is set up.
pub open spec fn is_tmdb_config(r: Option<TmdbConfig>, stored: Seq<SettingRow>) -> bool {
    match r {
        Some(c) => {
            &&& settings::set_value(settings::stored_value(stored, settings::KEY_TMDB_TOKEN@))
                == Some(c.token@)
            &&& text::opt_view(c.language) == settings::set_value(
                settings::stored_value(stored, settings::KEY_TMDB_LANGUAGE@),
            )
            &&& text::opt_view(c.country) == settings::set_value(
                settings::stored_value(stored, settings::KEY_TMDB_COUNTRY@),
            )
        },
        None => settings::set_value(
            settings::stored_value(stored, settings::KEY_TMDB_TOKEN@),
        ) is None,
    }
}

/// The TMDB client the stored settings ask for; none without a token.
pub fn tmdb_config(stored: &[SettingRow]) -> (r: Option<TmdbConfig>)
    ensures
        is_tmdb_config(r, stored@),
{
    match settings::value(stored, settings::KEY_TMDB_TOKEN) {
        Some(token) => Some(
            TmdbConfig {
                token,
                language: settings::value(stored, settings::KEY_TMDB_LANGUAGE),
                country: settings::value(stored, settings::KEY_TMDB_COUNTRY),
            },
        ),
        None => None,
    }
}

/// How TheTVDB is set up.
pub open spec fn is_tvdb_config(r: Option<TvdbConfig>, stored: Seq<SettingRow>) -> bool {
    match r {
        Some(c) => {
            &&& settings::set_value(
                settings::stored_value(stored, settings::KEY_TVDB_API_KEY@),
            ) == Some(c.api_key@)
            &&& text::opt_view(c.pin) == settings::set_value(
                settings::stored_value(stored, settings::KEY_TVDB_PIN@),
            )
        },
        None => settings::set_value(
            settings::stored_value(stored, settings::KEY_TVDB_API_KEY@),
        ) is None,
    }
}

/// The TheTVDB client the stored settings ask for; none without a key.
pub fn tvdb_config(stored: &[SettingRow]) -> (r: Option<TvdbConfig>)
    ensures
        is_tvdb_config(r, stored@),
{
    match settings::value(stored, settings::KEY_TVDB_API_KEY) {
        Some(api_key) => Some(
            TvdbConfig { api_key, pin: settings::value(stored, settings::KEY_TVDB_PIN) },
        ),
        None => None,
    }
}

// ---------------------------------------------------------------------
// The registry
// ---------------------------------------------------------------------

/// The providers that can actually be reached.
#[derive(Debug, Clone)]
pub struct Registry {
    pub built: Vec<Provider>,
}

/// Whether provider `k` is the first of a source.
pub open spec fn is_first_of(built: Seq<Provider>, source: MetadataSource, k: int) -> bool {
    &&& 0 <= k < built.len()
    &&& built[k].source == source
    &&& forall|j: int| 0 <= j < k ==> (#[trigger] built[j]).source != source
}

/// Whether a source is configured.
pub open spec fn is_configured(built: Seq<Provider>, source: MetadataSource) -> bool {
    exists|k: int| 0 <= k < built.len() && (#[trigger] built[k]).source == source
}

/// The providers for which something holds, in order.
pub open spec fn offering(built: Seq<Provider>, media: MediaType, structure: bool) -> Seq<Provider>
    decreases built.len(),
{
    if built.len() == 0 {
        Seq::empty()
    } else {
        let rest = offering(built.drop_last(), media, structure);
        let c = built.last().capabilities;
        if supports(
            if structure {
                c.structure
            } else {
                c.identity
            },
            media,
        ) {
            rest.push(built.last())
        } else {
            rest
        }
    }
}

/// The sentence that a credential is missing.
pub open spec fn missing_credential_text(source: MetadataSource) -> Seq<char> {
    catalogue::source_name(source) + ": credencial ausente ou recusada"@
}

/// A source as the registry holds it, with what it offers.
pub open spec fn provider_of(source: MetadataSource) -> Provider {
    Provider { source, capabilities: offers(source)->0 }
}

/// The providers of a registry: TMDB first, then TheTVDB, each when its
/// client could be built.
pub open spec fn built_of(tmdb_built: bool, tvdb_built: bool) -> Seq<Provider> {
    let tmdb = if tmdb_built {
        seq![provider_of(MetadataSource::Tmdb)]
    } else {
        Seq::empty()
    };
    let tvdb = if tvdb_built {
        seq![provider_of(MetadataSource::Tvdb)]
    } else {
        Seq::empty()
    };
    tmdb + tvdb
}

/// A registry knows exactly the sources whose client could be built, each
/// once and with what it offers.
pub proof fn a_registry_holds_what_was_built(tmdb_built: bool, tvdb_built: bool)
    ensures
        is_configured(built_of(tmdb_built, tvdb_built), MetadataSource::Tmdb) == tmdb_built,
        is_configured(built_of(tmdb_built, tvdb_built), MetadataSource::Tvdb) == tvdb_built,
        !is_configured(built_of(tmdb_built, tvdb_built), MetadataSource::Imdb),
        forall|k: int|
            0 <= k < built_of(tmdb_built, tvdb_built).len() ==> Some(
                (#[trigger] built_of(tmdb_built, tvdb_built)[k]).capabilities,
            ) == offers(built_of(tmdb_built, tvdb_built)[k].source),
{
    let b = built_of(tmdb_built, tvdb_built);
    if tmdb_built {
        assert(b[0].source == MetadataSource::Tmdb);
    }
    if tvdb_built {
        assert(b[b.len() - 1].source == MetadataSource::Tvdb);
    }
}

impl Registry {
    /// The registry of the clients that could be built: one per stored
    /// credential. One that could not be built is left out, and takes no
    /// other down.
    pub fn build(tmdb_built: bool, tvdb_built: bool) -> (r: Registry)
        ensures
            r.built@ == built_of(tmdb_built, tvdb_built),
    {
        let mut built: Vec<Provider> = Vec::new();
        if tmdb_built {
            if let Some(capabilities) = capabilities_of(MetadataSource::Tmdb) {
                built.push(Provider { source: MetadataSource::Tmdb, capabilities });
            }
        }
        if tvdb_built {
            if let Some(capabilities) = capabilities_of(MetadataSource::Tvdb) {
                built.push(Provider { source: MetadataSource::Tvdb, capabilities });
            }
        }
        assert(built@ =~= built_of(tmdb_built, tvdb_built));
        Registry { built }
    }

    /// The provider for one source, when it is configured.
    pub fn get(&self, source: MetadataSource) -> (r: Option<&Provider>)
        ensures
            match r {
                Some(p) => exists|k: int|
                    #[trigger] is_first_of(self.built@, source, k) && *p == self.built@[k],
                None => !is_configured(self.built@, source),
            },
    {
        let mut i: usize = 0;
        while i < self.built.len()
            invariant
                i <= self.built.len(),
                forall|j: int| 0 <= j < i ==> (#[trigger] self.built@[j]).source != source,
            decreases self.built.len() - i,
        {
            if self.built[i].source == source {
                assert(is_first_of(self.built@, source, i as int));
                return Some(&self.built[i]);
            }
            i += 1;
        }
        None
    }

    /// Every configured source, in enum order.
    pub fn configured(&self) -> (r: Vec<MetadataSource>)
        ensures
            r@ == configured_of(self.built@),
    {
        let mut out: Vec<MetadataSource> = Vec::new();
        if self.get(MetadataSource::Tmdb).is_some() {
            out.push(MetadataSource::Tmdb);
        }
        if self.get(MetadataSource::Imdb).is_some() {
            out.push(MetadataSource::Imdb);
        }
        if self.get(MetadataSource::Tvdb).is_some() {
            out.push(MetadataSource::Tvdb);
        }
        assert(out@ =~= configured_of(self.built@));
        out
    }

    fn offering(&self, media: MediaType, structure: bool) -> (r: Vec<Provider>)
        ensures
            r@ == offering(self.built@, media, structure),
    {
        let mut out: Vec<Provider> = Vec::new();
        let mut i: usize = 0;
        while i < self.built.len()
            invariant
                i <= self.built.len(),
                out@ == offering(self.built@.take(i as int), media, structure),
            decreases self.built.len() - i,
        {
            assert(self.built@.take(i + 1).drop_last() == self.built@.take(i as int));
            assert(self.built@.take(i + 1).last() == self.built@[i as int]);
            let c = self.built[i].capabilities;
            let support = if structure {
                c.structure
            } else {
                c.identity
            };
            if support.covers(media) {
                out.push(self.built[i]);
            }
            i += 1;
        }
        assert(self.built@.take(self.built.len() as int) == self.built@);
        out
    }

    /// The providers that can build a tree for this media kind.
    pub fn for_structure(&self, media: MediaType) -> (r: Vec<Provider>)
        ensures
            r@ == offering(self.built@, media, true),
    {
        self.offering(media, true)
    }

    /// The providers that can resolve an id for this media kind.
    pub fn for_identity(&self, media: MediaType) -> (r: Vec<Provider>)
        ensures
            r@ == offering(self.built@, media, false),
    {
        self.offering(media, false)
    }

    /// Ask for a provider that must be there. A missing credential is a
    /// credential to go and fix, as a refused one is.
    pub fn require(&self, source: MetadataSource) -> (r: Result<&Provider, AppError>)
        ensures
            match r {
                Ok(p) => exists|k: int|
                    #[trigger] is_first_of(self.built@, source, k) && *p == self.built@[k],
                Err(e) => !is_configured(self.built@, source) && (e matches AppError::Metadata(
                    fault,
                    m,
                ) && fault == MetadataFault::Unauthorized && m@ == missing_credential_text(source)),
            },
    {
        match self.get(source) {
            Some(p) => Ok(p),
            None => {
                let mut out = chars_of(source.display_name());
                extend_str(&mut out, ": credencial ausente ou recusada");
                Err(AppError::Metadata(MetadataFault::Unauthorized, string_of(&out)))
            },
        }
    }
}

/// The configured sources, in enum order.
pub open spec fn configured_of(built: Seq<Provider>) -> Seq<MetadataSource> {
    let none = Seq::<MetadataSource>::empty();
    (if is_configured(built, MetadataSource::Tmdb) {
        none.push(MetadataSource::Tmdb)
    } else {
        none
    }) + (if is_configured(built, MetadataSource::Imdb) {
        none.push(MetadataSource::Imdb)
    } else {
        none
    }) + (if is_configured(built, MetadataSource::Tvdb) {
        none.push(MetadataSource::Tvdb)
    } else {
        none
    })
}

// ---------------------------------------------------------------------
// Laws
// ---------------------------------------------------------------------

/// No provider whose claims can be met is offered a film to build a tree
/// for.
pub proof fn no_provider_is_offered_a_structure_it_cannot_build(built: Seq<Provider>)
    requires
        forall|k: int|
            0 <= k < built.len() ==> !supports(
                (#[trigger] built[k]).capabilities.structure,
                MediaType::Movie,
            ),
    ensures
        offering(built, MediaType::Movie, true).len() == 0,
    decreases built.len(),
{
    if built.len() > 0 {
        assert forall|k: int| 0 <= k < built.drop_last().len() implies !supports(
            (#[trigger] built.drop_last()[k]).capabilities.structure,
            MediaType::Movie,
        ) by {
            assert(built.drop_last()[k] == built[k]);
        }
        no_provider_is_offered_a_structure_it_cannot_build(built.drop_last());
    }
}

/// A source is called exactly when it offers something, and what it offers
/// can be met.
pub proof fn every_source_offers_what_it_could_meet(source: MetadataSource)
    ensures
        offers(source) is Some <==> source != MetadataSource::Imdb,
        offers(source) is Some ==> !supports(offers(source)->0.structure, MediaType::Movie),
{
}

} // verus!
