//! Built provider clients, kept by provider id.
//!
//! An entry carries a fingerprint of the configuration it was built from. An
//! edit changes the fingerprint, and the stale client is then simply missed.

use std::collections::hash_map::DefaultHasher;
use std::collections::HashMap;
use std::hash::Hasher;

use vstd::prelude::*;
use vstd::std_specs::hash::DefaultHasherAdditionalSpecFns;

verus! {

broadcast use vstd::std_specs::hash::group_hash_axioms;

/// A configured provider.
#[derive(Debug, Clone)]
pub struct ProviderRow {
    pub id: u128,
    pub name: String,
    pub base_url: String,
    pub api_token: String,
    pub kind: String,
    /// When the row was made, in Unix seconds.
    pub created_at: i64,
}

/// A cached client and the configuration it was built from.
#[derive(Debug)]
pub struct Entry<P> {
    pub fingerprint: u64,
    pub provider: P,
}

/// The built clients, by provider id.
#[derive(Debug)]
pub struct ProviderClientCache<P> {
    inner: HashMap<u128, Entry<P>>,
}

impl<P> View for ProviderClientCache<P> {
    type V = Map<u128, Entry<P>>;

    closed spec fn view(&self) -> Map<u128, Entry<P>> {
        self.inner@
    }
}

/// What the cache holds for a provider, while its configuration is the one the
/// client was built from.
pub open spec fn is_hit<P>(
    r: Option<&P>,
    held: Map<u128, Entry<P>>,
    id: u128,
    fingerprint: u64,
) -> bool {
    match r {
        Some(p) => held.contains_key(id) && held[id].fingerprint == fingerprint && *p
            == held[id].provider,
        None => !(held.contains_key(id) && held[id].fingerprint == fingerprint),
    }
}

/// The cache with a provider's client in it.
pub open spec fn with_client<P>(
    held: Map<u128, Entry<P>>,
    id: u128,
    fingerprint: u64,
    provider: P,
) -> Map<u128, Entry<P>> {
    held.insert(id, Entry { fingerprint, provider })
}

impl<P> ProviderClientCache<P> {
    /// Empty cache.
    pub fn new() -> (r: Self)
        ensures
            r@ == Map::<u128, Entry<P>>::empty(),
    {
        ProviderClientCache { inner: HashMap::new() }
    }

    /// The cached client, when there is one and its configuration has not
    /// changed since it was built.
    pub fn get(&self, id: u128, fingerprint: u64) -> (r: Option<&P>)
        ensures
            is_hit(r, self@, id, fingerprint),
    {
        match self.inner.get(&id) {
            Some(entry) => if entry.fingerprint == fingerprint {
                Some(&entry.provider)
            } else {
                None
            },
            None => None,
        }
    }

    /// Keep a client, in place of any earlier one.
    pub fn put(&mut self, id: u128, fingerprint: u64, provider: P)
        ensures
            final(self)@ == with_client(old(self)@, id, fingerprint, provider),
    {
        self.inner.insert(id, Entry { fingerprint, provider });
    }
}

/// What is written to the hasher for a text: its bytes, and a byte no text
/// holds.
pub open spec fn hashed(writes: Seq<Seq<u8>>, s: Seq<char>) -> Seq<Seq<u8>> {
    writes.push(vstd::utf8::encode_utf8(s)).push(seq![0xffu8])
}

fn hash_text(hasher: &mut DefaultHasher, s: &str)
    ensures
        final(hasher)@ == hashed(old(hasher)@, s@),
{
    hasher.write(s.as_bytes());
    let end: [u8; 1] = [0xff];
    hasher.write(&end);
    assert(end@ =~= seq![0xffu8]);
}

/// The fingerprint of a provider's configuration: its base address, token
/// and kind, and nothing else.
pub open spec fn fingerprint_of(pr: ProviderRow) -> u64 {
    DefaultHasher::spec_finish(
        hashed(hashed(hashed(Seq::empty(), pr.base_url@), pr.api_token@), pr.kind@),
    )
}

/// Fingerprint a provider's configuration.
pub fn fingerprint(pr: &ProviderRow) -> (r: u64)
    ensures
        r == fingerprint_of(*pr),
{
    let mut hasher = DefaultHasher::new();
    hash_text(&mut hasher, pr.base_url.as_str());
    hash_text(&mut hasher, pr.api_token.as_str());
    hash_text(&mut hasher, pr.kind.as_str());
    hasher.finish()
}

/// Two rows of the same base address, token and kind have the same
/// fingerprint, whatever else they hold.
pub proof fn one_configuration_has_one_fingerprint(a: ProviderRow, b: ProviderRow)
    requires
        a.base_url@ == b.base_url@,
        a.api_token@ == b.api_token@,
        a.kind@ == b.kind@,
    ensures
        fingerprint_of(a) == fingerprint_of(b),
{
}

} // verus!
