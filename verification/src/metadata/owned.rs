//! Who a title's tree comes from.
//!
//! A recorded owner is never decided again. A series that never had a tree
//! is decided once: TheTVDB is asked first, because releases are numbered the
//! way TheTVDB numbers them, and only a source that was asked and holds
//! nothing hands the title on.

use vstd::prelude::*;

use crate::catalogue;
use crate::catalogue::{MediaType, MetadataSource};
use crate::error::{AppError, MetadataFault};
use crate::metadata::axis::StoredId;
use crate::metadata::registry;
use crate::metadata::registry::{Provider, Registry};
use crate::text::{chars_of, extend_str, string_of};

verus! {

/// The place of a source in the order of owners; `None` never owns a shape.
pub open spec fn rank_of(source: MetadataSource) -> Option<u8> {
    match source {
        MetadataSource::Tvdb => Some(0),
        MetadataSource::Tmdb => Some(1),
        MetadataSource::Imdb => None,
    }
}

/// The place of a source in the order of owners.
pub fn structure_rank(source: MetadataSource) -> (r: Option<u8>)
    ensures
        r == rank_of(source),
{
    match source {
        MetadataSource::Tvdb => Some(0),
        MetadataSource::Tmdb => Some(1),
        MetadataSource::Imdb => None,
    }
}

/// Whether the id at `k` is the first a source issued.
pub open spec fn is_first_id(ids: Seq<StoredId>, source: MetadataSource, k: int) -> bool {
    &&& 0 <= k < ids.len()
    &&& ids[k].id.source == source
    &&& forall|j: int| 0 <= j < k ==> (#[trigger] ids[j]).id.source != source
}

/// Whether no id is a source's.
pub open spec fn holds_no_id(ids: Seq<StoredId>, source: MetadataSource) -> bool {
    forall|j: int| 0 <= j < ids.len() ==> (#[trigger] ids[j]).id.source != source
}

/// The place of the first id a source issued.
pub fn find_id(ids: &[StoredId], source: MetadataSource) -> (r: Option<usize>)
    ensures
        match r {
            Some(k) => is_first_id(ids@, source, k as int),
            None => holds_no_id(ids@, source),
        },
{
    let mut i: usize = 0;
    while i < ids.len()
        invariant
            i <= ids.len(),
            forall|j: int| 0 <= j < i ==> (#[trigger] ids@[j]).id.source != source,
        decreases ids.len() - i,
    {
        if ids[i].id.source == source {
            return Some(i);
        }
        i += 1;
    }
    None
}

// ---------------------------------------------------------------------
// A recorded owner
// ---------------------------------------------------------------------

/// The sentence that a title lacks an id of its owner.
pub open spec fn no_owner_id_text(source: MetadataSource) -> Seq<char> {
    "o título não guarda um id da "@ + catalogue::source_name(source)
        + ", que é quem tem a estrutura dele"@
}

/// The sentence that a source builds no trees.
pub open spec fn no_tree_text(source: MetadataSource) -> Seq<char> {
    catalogue::source_name(source) + ": não monta a estrutura de uma série"@
}

/// Whether a source is configured and builds series' trees.
pub open spec fn builds_trees(built: Seq<Provider>, source: MetadataSource) -> bool {
    exists|p: int|
        #[trigger] registry::is_first_of(built, source, p) && registry::supports(
            built[p].capabilities.structure,
            MediaType::Tv,
        )
}

/// Whether a recorded owner is refused, and why: no id of its own first, then
/// no client, then no trees.
pub open spec fn is_refusal(
    e: AppError,
    built: Seq<Provider>,
    source: MetadataSource,
    ids: Seq<StoredId>,
) -> bool {
    if holds_no_id(ids, source) {
        e matches AppError::InvalidInput(m) && m@ == no_owner_id_text(source)
    } else if !registry::is_configured(built, source) {
        e matches AppError::Metadata(fault, m) && fault == MetadataFault::Unauthorized && m@
            == registry::missing_credential_text(source)
    } else {
        &&& !builds_trees(built, source)
        &&& e matches AppError::Metadata(fault, m) && fault == MetadataFault::Unsupported && m@
            == no_tree_text(source)
    }
}

/// The id a structure is read by, or why it cannot be.
pub open spec fn is_answered_from(
    r: Result<usize, AppError>,
    built: Seq<Provider>,
    source: MetadataSource,
    ids: Seq<StoredId>,
) -> bool {
    match r {
        Ok(k) => is_first_id(ids, source, k as int) && builds_trees(built, source),
        Err(e) => is_refusal(e, built, source, ids),
    }
}

/// The id to ask the recorded owner with. Never another source's: without an
/// id of its own, a configured client, or trees at all, the title is refused
/// by name.
pub fn from(registry: &Registry, source: MetadataSource, ids: &[StoredId]) -> (r: Result<
    usize,
    AppError,
>)
    ensures
        is_answered_from(r, registry.built@, source, ids@),
{
    let k: usize = match find_id(ids, source) {
        Some(k) => k,
        None => {
            let mut out = chars_of("o título não guarda um id da ");
            extend_str(&mut out, source.display_name());
            extend_str(&mut out, ", que é quem tem a estrutura dele");
            return Err(AppError::InvalidInput(string_of(&out)));
        },
    };
    assert(!holds_no_id(ids@, source)) by {
        assert(ids@[k as int].id.source == source);
    }
    let provider = match registry.require(source) {
        Ok(p) => p,
        Err(e) => {
            return Err(e);
        },
    };
    if !provider.capabilities.structure.covers(MediaType::Tv) {
        proof {
            let p = choose|p: int|
                #[trigger] registry::is_first_of(registry.built@, source, p) && *provider
                    == registry.built@[p];
            assert(registry.built@[p].source == source);
            assert forall|q: int|
                #[trigger] registry::is_first_of(registry.built@, source, q) implies q == p by {
                if q < p {
                    assert(registry.built@[q].source == source);
                } else if p < q {
                    assert(registry.built@[p].source == source);
                }
            }
        }
        let mut out = chars_of(source.display_name());
        extend_str(&mut out, ": não monta a estrutura de uma série");
        return Err(AppError::Metadata(MetadataFault::Unsupported, string_of(&out)));
    }
    Ok(k)
}

// ---------------------------------------------------------------------
// A title with no owner
// ---------------------------------------------------------------------

/// A source to ask, and the place of the id to ask it with.
#[derive(Debug, Clone, Copy, PartialEq, Eq, Structural)]
pub struct Candidate {
    pub source: MetadataSource,
    pub id: usize,
}

/// The first id of a source.
pub open spec fn id_of(ids: Seq<StoredId>, source: MetadataSource) -> Option<usize>
    decreases ids.len(),
{
    if ids.len() == 0 {
        None
    } else {
        match id_of(ids.drop_last(), source) {
            Some(k) => Some(k),
            None => if ids.last().id.source == source {
                Some((ids.len() - 1) as usize)
            } else {
                None
            },
        }
    }
}

proof fn lemma_id_of(ids: Seq<StoredId>, source: MetadataSource)
    requires
        ids.len() <= usize::MAX,
    ensures
        match id_of(ids, source) {
            Some(k) => is_first_id(ids, source, k as int),
            None => holds_no_id(ids, source),
        },
    decreases ids.len(),
{
    if ids.len() > 0 {
        lemma_id_of(ids.drop_last(), source);
        assert forall|j: int| 0 <= j < ids.len() - 1 implies #[trigger] ids[j]
            == ids.drop_last()[j] by {}
        if let Some(k) = id_of(ids.drop_last(), source) {
            assert(ids[k as int] == ids.drop_last()[k as int]);
        }
    }
}

/// The candidates of one place in the order: those of the providers that
/// have an id, in the providers' order.
pub open spec fn ranked(providers: Seq<Provider>, ids: Seq<StoredId>, rank: u8) -> Seq<Candidate>
    decreases providers.len(),
{
    if providers.len() == 0 {
        Seq::empty()
    } else {
        let rest = ranked(providers.drop_last(), ids, rank);
        let source = providers.last().source;
        match id_of(ids, source) {
            Some(k) => if rank_of(source) == Some(rank) {
                rest.push(Candidate { source, id: k })
            } else {
                rest
            },
            None => rest,
        }
    }
}

/// Who is asked for a title nobody owns, in order: TheTVDB, then TMDB; only
/// providers that build series' trees, and only with an id of their own.
pub open spec fn candidates_of(built: Seq<Provider>, ids: Seq<StoredId>) -> Seq<Candidate> {
    let able = registry::offering(built, MediaType::Tv, true);
    ranked(able, ids, 0) + ranked(able, ids, 1)
}

fn push_ranked(providers: &[Provider], ids: &[StoredId], rank: u8, out: &mut Vec<Candidate>)
    ensures
        final(out)@ == old(out)@ + ranked(providers@, ids@, rank),
{
    let ghost before = out@;
    let mut i: usize = 0;
    assert(out@ =~= before + ranked(providers@.take(0), ids@, rank));
    while i < providers.len()
        invariant
            i <= providers.len(),
            out@ == before + ranked(providers@.take(i as int), ids@, rank),
        decreases providers.len() - i,
    {
        assert(providers@.take(i + 1).drop_last() == providers@.take(i as int));
        assert(providers@.take(i + 1).last() == providers@[i as int]);
        let source = providers[i].source;
        assert(ids@.len() == ids.len());
        proof {
            lemma_id_of(ids@, source);
        }
        if let Some(k) = find_id(ids, source) {
            assert(id_of(ids@, source) == Some(k)) by {
                if let Some(x) = id_of(ids@, source) {
                    assert(ids@[x as int].id.source == source);
                    assert(ids@[k as int].id.source == source);
                    if x < k {
                    } else if k < x {
                    }
                } else {
                    assert(ids@[k as int].id.source == source);
                }
            }
            let here = match structure_rank(source) {
                Some(n) => n == rank,
                None => false,
            };
            if here {
                out.push(Candidate { source, id: k });
            }
        } else {
            assert(id_of(ids@, source) is None) by {
                if let Some(x) = id_of(ids@, source) {
                    assert(ids@[x as int].id.source == source);
                }
            }
        }
        i += 1;
        assert(out@ =~= before + ranked(providers@.take(i as int), ids@, rank));
    }
    assert(providers@.take(providers.len() as int) == providers@);
}

/// Who is asked for a title nobody owns, in order.
pub fn candidates(registry: &Registry, ids: &[StoredId]) -> (r: Vec<Candidate>)
    ensures
        r@ == candidates_of(registry.built@, ids@),
{
    let able = registry.for_structure(MediaType::Tv);
    let mut out: Vec<Candidate> = Vec::new();
    push_ranked(&able, ids, 0, &mut out);
    push_ranked(&able, ids, 1, &mut out);
    assert(out@ =~= candidates_of(registry.built@, ids@));
    out
}

/// What a candidate said.
#[derive(Debug, Clone)]
pub enum TreeReply {
    /// It has the tree.
    Tree,
    /// It does not, and why.
    Refused(MetadataFault, String),
}

/// Whether a reply means that the source was asked and holds nothing.
pub open spec fn is_absence(reply: TreeReply) -> bool {
    reply matches TreeReply::Refused(fault, _) && fault == MetadataFault::NotFound
}

/// What comes next for a title nobody owns.
#[derive(Debug, Clone)]
pub enum Birth {
    /// Ask the candidate at this place.
    Ask(usize),
    /// The candidate at this place owns the title.
    Owned(usize),
    /// Nobody does, and why.
    Failed(AppError),
}

/// Whether reply `i` is the first that is no absence.
pub open spec fn settles(replies: Seq<TreeReply>, i: int) -> bool {
    &&& 0 <= i < replies.len()
    &&& !is_absence(replies[i])
    &&& forall|j: int| 0 <= j < i ==> is_absence(#[trigger] replies[j])
}

pub open spec fn nothing_settled(replies: Seq<TreeReply>) -> bool {
    forall|j: int| 0 <= j < replies.len() ==> is_absence(#[trigger] replies[j])
}

/// How a title gets its owner.
pub open spec fn is_birth(r: Birth, candidates: Seq<Candidate>, replies: Seq<TreeReply>) -> bool {
    match r {
        Birth::Ask(k) => nothing_settled(replies) && k == replies.len() && k
            < candidates.len(),
        Birth::Owned(k) => settles(replies, k as int) && replies[k as int] is Tree,
        Birth::Failed(AppError::Metadata(fault, m)) => {
            ||| exists|i: int|
                #[trigger] settles(replies, i) && (replies[i] matches TreeReply::Refused(
                    f,
                    t,
                ) && f == fault && t@ == m@)
            ||| nothing_settled(replies) && replies.len() == candidates.len() && replies.len()
                > 0 && (replies.last() matches TreeReply::Refused(f, t) && f == fault && t@
                == m@)
        },
        Birth::Failed(AppError::InvalidInput(m)) => candidates.len() == 0 && m@
            == "nenhuma fonte de estrutura configurada conhece este título — confira as credenciais de metadados em /settings"@,
        Birth::Failed(_) => false,
    }
}

/// The next step, given what the first candidates said, each asked in order.
/// Only an absence moves on; a tree settles the owner, and any other failure
/// ends the walk as it is, because the owner is written down for good. When
/// everybody was asked, the last refusal stands, or that nobody was.
pub fn born(candidates: &[Candidate], replies: &[TreeReply]) -> (r: Birth)
    requires
        replies.len() <= candidates.len(),
    ensures
        is_birth(r, candidates@, replies@),
{
    let mut i: usize = 0;
    while i < replies.len()
        invariant
            i <= replies.len(),
            forall|j: int| 0 <= j < i ==> is_absence(#[trigger] replies@[j]),
        decreases replies.len() - i,
    {
        match &replies[i] {
            TreeReply::Tree => {
                return Birth::Owned(i);
            },
            TreeReply::Refused(fault, m) => {
                if *fault != MetadataFault::NotFound {
                    assert(settles(replies@, i as int));
                    return Birth::Failed(AppError::Metadata(*fault, m.clone()));
                }
            },
        }
        i += 1;
    }
    let n: usize = replies.len();
    if n < candidates.len() {
        return Birth::Ask(n);
    }
    if n == 0 {
        return Birth::Failed(
            AppError::InvalidInput(
                "nenhuma fonte de estrutura configurada conhece este título — confira as credenciais de metadados em /settings".to_owned(),
            ),
        );
    }
    match &replies[n - 1] {
        TreeReply::Tree => {
            assert(is_absence(replies@[n - 1]));
            Birth::Owned(n - 1)
        },
        TreeReply::Refused(fault, m) => Birth::Failed(AppError::Metadata(*fault, m.clone())),
    }
}

// ---------------------------------------------------------------------
// The tree
// ---------------------------------------------------------------------

/// Whom to ask for a title's tree.
#[derive(Debug, Clone)]
pub enum TreePlan {
    /// The recorded owner, with the id at this place.
    Owner(MetadataSource, usize),
    /// Nobody owns it: these, in order.
    Decide(Vec<Candidate>),
    /// Nobody can be asked, and why.
    Refused(AppError),
}

/// Where the structure of a title comes from.
pub open spec fn is_tree_plan(
    r: TreePlan,
    owner: Option<MetadataSource>,
    built: Seq<Provider>,
    ids: Seq<StoredId>,
) -> bool {
    match owner {
        Some(source) => match r {
            TreePlan::Owner(s, k) => s == source && is_first_id(ids, source, k as int)
                && builds_trees(built, source),
            TreePlan::Decide(_) => false,
            TreePlan::Refused(e) => is_refusal(e, built, source, ids),
        },
        None => r matches TreePlan::Decide(c) && c@ == candidates_of(built, ids),
    }
}

/// Whom to ask for a title's tree: the recorded owner when there is one, and
/// nobody else; otherwise the candidates.
pub fn tree(owner: Option<MetadataSource>, registry: &Registry, ids: &[StoredId]) -> (r: TreePlan)
    ensures
        is_tree_plan(r, owner, registry.built@, ids@),
{
    match owner {
        Some(source) => match from(registry, source, ids) {
            Ok(k) => TreePlan::Owner(source, k),
            Err(e) => TreePlan::Refused(e),
        },
        None => TreePlan::Decide(candidates(registry, ids)),
    }
}

// ---------------------------------------------------------------------
// Laws
// ---------------------------------------------------------------------

/// Nobody owns a title past a source that could not be asked: whoever is
/// found to own it, every candidate before it was asked and holds nothing.
pub proof fn a_source_that_could_not_be_asked_does_not_hand_the_title_on(
    replies: Seq<TreeReply>,
    owner: int,
    other: int,
)
    requires
        settles(replies, owner),
        replies[owner] is Tree,
        0 <= other < owner,
    ensures
        replies[other] matches TreeReply::Refused(fault, _) && fault == MetadataFault::NotFound,
{
    assert(is_absence(replies[other]));
}

/// The source releases are numbered by comes first: no candidate before one
/// of TheTVDB is another source's.
pub proof fn the_source_releases_follow_comes_first(
    built: Seq<Provider>,
    ids: Seq<StoredId>,
    i: int,
    j: int,
)
    requires
        0 <= i < j < candidates_of(built, ids).len(),
        candidates_of(built, ids)[j].source == MetadataSource::Tvdb,
    ensures
        candidates_of(built, ids)[i].source == MetadataSource::Tvdb,
{
    let able = registry::offering(built, MediaType::Tv, true);
    lemma_ranked(able, ids, 0);
    lemma_ranked(able, ids, 1);
    let first = ranked(able, ids, 0);
    let second = ranked(able, ids, 1);
    let all = candidates_of(built, ids);
    if j >= first.len() {
        assert(all[j] == second[j - first.len()]);
    }
    assert(all[i] == first[i]);
}

proof fn lemma_ranked(providers: Seq<Provider>, ids: Seq<StoredId>, rank: u8)
    ensures
        forall|k: int|
            0 <= k < ranked(providers, ids, rank).len() ==> rank_of(
                (#[trigger] ranked(providers, ids, rank)[k]).source,
            ) == Some(rank),
    decreases providers.len(),
{
    if providers.len() > 0 {
        lemma_ranked(providers.drop_last(), ids, rank);
    }
}

/// A source builds series' trees exactly when it has a place in the order.
pub proof fn every_source_has_a_place_in_the_structure_order(source: MetadataSource)
    ensures
        rank_of(source) is Some <==> registry::offers(source) is Some && registry::supports(
            registry::offers(source)->0.structure,
            MediaType::Tv,
        ),
{
}

} // verus!
