//! The per-run execution cache: a concurrency-safe mapping from script name
//! to a "claimed" marker, created once per run and discarded at its end. It
//! records that a script has been claimed, not that it has finished.

use vstd::prelude::*;

verus! {

/// The concurrent map type the cache is built on.
#[verifier::external_type_specification]
#[verifier::external_body]
#[verifier::reject_recursive_types(K)]
#[verifier::reject_recursive_types(V)]
#[verifier::reject_recursive_types(S)]
pub struct ExDashMap<K, V, S>(dashmap::DashMap<K, V, S>);

/// What the concurrent map holds: the marker stored under each claimed name.
pub uninterp spec fn map_contents(m: dashmap::DashMap<String, bool>) -> Map<Seq<char>, bool>;

/// The per-run memoization cache. It wraps the concurrent map that every
/// resolution task of one run shares.
pub struct ExecutionCache {
    inner: dashmap::DashMap<String, bool>,
}

/// What the cache holds.
pub closed spec fn cache_view(c: ExecutionCache) -> Map<Seq<char>, bool> {
    map_contents(c.inner)
}

impl View for ExecutionCache {
    type V = Map<Seq<char>, bool>;

    closed spec fn view(&self) -> Map<Seq<char>, bool> {
        cache_view(*self)
    }
}

/// The empty claim table.
pub open spec fn no_claims() -> Map<Seq<char>, bool> {
    Map::empty()
}

/// Relies on dashmap::DashMap::new: a newly created map holds no entry.
#[verifier::external_body]
fn new_map() -> (fresh: dashmap::DashMap<String, bool>)
    ensures
        map_contents(fresh) == no_claims(),
{
    dashmap::DashMap::new()
}

/// Relies on dashmap::DashMap::get: the value stored under the key, if any.
#[verifier::external_body]
fn cache_get(c: &ExecutionCache, name: &String) -> (r: Option<bool>)
    ensures
        r == if cache_view(*c).contains_key(name@) {
            Option::Some(cache_view(*c)[name@])
        } else {
            Option::<bool>::None
        },
{
    c.inner.get(name).map(|entry| *entry.value())
}

/// Relies on dashmap::DashMap::insert: stores the value under the key,
/// replacing any previous one.
#[verifier::external_body]
fn cache_insert(c: &mut ExecutionCache, name: &String, value: bool)
    ensures
        cache_view(*final(c)) == cache_view(*old(c)).insert(name@, value),
{
    c.inner.insert(name.clone(), value);
}

impl ExecutionCache {
    /// A fresh cache for one run: nothing claimed yet.
    pub fn new() -> (c: ExecutionCache)
        ensures
            cache_view(c) == Map::<Seq<char>, bool>::empty(),
    {
        ExecutionCache { inner: new_map() }
    }

    /// The compound memoization step: check the current marker and, when it
    /// is absent, set it. Returns whether the name was already claimed.
    pub fn check_and_claim(&mut self, name: &String) -> (was: bool)
        ensures
            was == (cache_view(*old(self)).contains_key(name@) && cache_view(*old(self))[name@]
                == true),
            cache_view(*final(self)) == if was {
                cache_view(*old(self))
            } else {
                cache_view(*old(self)).insert(name@, true)
            },
    {
        let existing = cache_get(self, name);
        match existing {
            Option::Some(true) => true,
            _ => {
                cache_insert(self, name, true);
                false
            },
        }
    }
}

} // verus!
