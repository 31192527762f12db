//! The live counters of the rules, held in a bounded concurrent cache.
//!
//! The cache is the outside one; what it holds is known here only by
//! name. It is made with room for far more rules than an agent has, and
//! as long as it is not full it keeps every entry. Once it is full, the
//! cache decides which entries stay: the contracts then say only that
//! nothing appears that was not put in.

use crate::data::generic::CompactUuid;
use crate::data::rule::{RuleStats, RuleStatsView};
use vstd::prelude::*;

verus! {

/// `moka::sync::Cache`, the outside cache, carried through without
/// looking inside.
#[verifier::external_type_specification]
#[verifier::external_body]
#[verifier::reject_recursive_types(K)]
#[verifier::reject_recursive_types(V)]
#[verifier::reject_recursive_types(S)]
pub struct ExCache<K, V, S>(moka::sync::Cache<K, V, S>);

/// `ahash::RandomState`, the builder of the hashers that the cache
/// hashes its keys with.
#[verifier::external_type_specification]
#[verifier::external_body]
pub struct ExRandomState(ahash::RandomState);

/// The outside cache as a manager uses it: counters keyed by the bytes
/// of a rule id.
pub type CounterCache = moka::sync::Cache<[u8; 16], RuleStats, ahash::RandomState>;

/// The entries that the cache shows to a reader, which is what
/// `Cache::get` and `Cache::iter` go by: counters by rule id.
pub uninterp spec fn cache_entries(cache: CounterCache) -> Map<Seq<u8>, RuleStatsView>;

/// The number of entries that the cache was made to hold: the
/// `max_capacity` it was built with.
pub uninterp spec fn cache_limit(cache: CounterCache) -> nat;

/// No counters at all.
pub open spec fn spec_no_counters() -> Map<Seq<u8>, RuleStatsView> {
    Map::empty()
}

/// The number of entries that a manager's cache is made to hold.
pub const STATS_CACHE_CAPACITY: u64 = 10_000_000;

/// `Cache::builder()`, `max_capacity` and `build_with_hasher` with a
/// default `ahash::RandomState`: an empty cache bounded by `limit`
/// entries, without expiry.
#[verifier::external_body]
fn cache_new(limit: u64) -> (cache: CounterCache)
    ensures
        cache_entries(cache) == spec_no_counters(),
        cache_limit(cache) == limit,
{
    moka::sync::Cache::builder().max_capacity(limit).build_with_hasher(
        ahash::RandomState::default(),
    )
}

/// `Cache::get`: a clone of the value that the cache shows under the key.
/// A read lets the cache do its housekeeping, which drops entries only
/// when it holds more than it was made for.
#[verifier::external_body]
fn cache_get(cache: &mut CounterCache, key: &CompactUuid) -> (found: Option<RuleStats>)
    ensures
        match found {
            Some(stats) => cache_entries(*old(cache)).contains_key(key@) && cache_entries(
                *old(cache),
            )[key@] == stats@,
            None => !cache_entries(*old(cache)).contains_key(key@),
        },
        cache_limit(*final(cache)) == cache_limit(*old(cache)),
        cache_entries(*final(cache)).submap_of(cache_entries(*old(cache))),
        cache_entries(*old(cache)).dom().finite() ==> cache_entries(*final(cache)).dom().finite(),
        cache_entries(*old(cache)).dom().finite() && cache_entries(*old(cache)).len()
            <= cache_limit(*old(cache)) ==> cache_entries(*final(cache)) == cache_entries(
            *old(cache),
        ),
{
    cache.get(&key.0)
}

/// `Cache::insert`: the key shows the value from now on. A cache with
/// room, or that has the key already, keeps all it had; a full one may
/// drop entries, the new one among them.
#[verifier::external_body]
fn cache_insert(cache: &mut CounterCache, key: CompactUuid, value: RuleStats)
    ensures
        cache_limit(*final(cache)) == cache_limit(*old(cache)),
        cache_entries(*final(cache)).submap_of(cache_entries(*old(cache)).insert(key@, value@)),
        cache_entries(*old(cache)).dom().finite() ==> cache_entries(*final(cache)).dom().finite(),
        cache_entries(*old(cache)).dom().finite() && (if cache_entries(*old(cache)).contains_key(
            key@,
        ) {
            cache_entries(*old(cache)).len() <= cache_limit(*old(cache))
        } else {
            cache_entries(*old(cache)).len() < cache_limit(*old(cache))
        }) ==> cache_entries(*final(cache)) == cache_entries(*old(cache)).insert(key@, value@),
{
    cache.insert(key.0, value)
}

/// `Cache::iter`, with each key and value copied out: every entry that
/// the cache shows, once, in no particular order.
#[verifier::external_body]
fn cache_list(cache: &CounterCache) -> (listed: Vec<(CompactUuid, RuleStats)>)
    ensures
        forall|i: int|
            0 <= i < listed@.len() ==> cache_entries(*cache).contains_key(
                (#[trigger] listed@[i]).0@,
            ) && cache_entries(*cache)[listed@[i].0@] == listed@[i].1@,
        forall|i: int, j: int|
            0 <= i < j < listed@.len() ==> (#[trigger] listed@[i]).0@ != (#[trigger] listed@[j]).0@,
        forall|key: Seq<u8>| #[trigger]
            cache_entries(*cache).contains_key(key) ==> exists|i: int|
                0 <= i < listed@.len() && (#[trigger] listed@[i]).0@ == key,
{
    cache.iter().map(|(key, value)| (CompactUuid(*key), value)).collect()
}

/// The live counters of the rules, by rule id.
pub struct StatsCache {
    cache: CounterCache,
}

impl View for StatsCache {
    type V = Map<Seq<u8>, RuleStatsView>;

    closed spec fn view(&self) -> Map<Seq<u8>, RuleStatsView> {
        cache_entries(self.cache)
    }
}

/// Whether the entries list every counter of the map once, and nothing
/// else.
pub open spec fn spec_lists(
    entries: Seq<(CompactUuid, RuleStatsView)>,
    counters: Map<Seq<u8>, RuleStatsView>,
) -> bool {
    &&& forall|i: int|
        0 <= i < entries.len() ==> counters.contains_key((#[trigger] entries[i]).0@)
            && counters[entries[i].0@] == entries[i].1
    &&& forall|i: int, j: int|
        0 <= i < j < entries.len() ==> (#[trigger] entries[i]).0@ != (#[trigger] entries[j]).0@
    &&& forall|key: Seq<u8>| #[trigger]
        counters.contains_key(key) ==> exists|i: int|
            0 <= i < entries.len() && (#[trigger] entries[i]).0@ == key
}

/// The counters of a list of entries, without their text.
pub open spec fn spec_entry_views(entries: Seq<(CompactUuid, RuleStats)>) -> Seq<
    (CompactUuid, RuleStatsView),
> {
    entries.map_values(|entry: (CompactUuid, RuleStats)| (entry.0, entry.1@))
}

impl StatsCache {
    /// The number of entries that the cache was made to hold.
    pub closed spec fn limit(&self) -> nat {
        cache_limit(self.cache)
    }

    /// Whether the cache holds no more than it was made for. Such a cache
    /// drops nothing.
    pub open spec fn settled(&self) -> bool {
        self@.dom().finite() && self@.len() <= self.limit()
    }

    /// Whether the cache takes counters for the rule without dropping
    /// anything: it is settled, and has the rule already or has room.
    pub open spec fn admits(&self, id: Seq<u8>) -> bool {
        self.settled() && (self@.contains_key(id) || self@.len() < self.limit())
    }

    /// An empty cache with room for ten million rules.
    pub fn new() -> (cache: Self)
        ensures
            cache@ == spec_no_counters(),
            cache.limit() == STATS_CACHE_CAPACITY,
            cache.settled(),
    {
        StatsCache { cache: cache_new(STATS_CACHE_CAPACITY) }
    }

    /// The counters of a rule, if the cache has any.
    pub fn get(&mut self, id: &CompactUuid) -> (found: Option<RuleStats>)
        ensures
            match found {
                Some(stats) => old(self)@.contains_key(id@) && old(self)@[id@] == stats@,
                None => !old(self)@.contains_key(id@),
            },
            final(self).limit() == old(self).limit(),
            final(self)@.submap_of(old(self)@),
            old(self).settled() ==> final(self)@ == old(self)@,
    {
        cache_get(&mut self.cache, id)
    }

    /// Puts the counters of a rule in the place of those it had.
    pub fn insert(&mut self, id: CompactUuid, stats: RuleStats)
        ensures
            final(self).limit() == old(self).limit(),
            final(self)@.submap_of(old(self)@.insert(id@, stats@)),
            old(self).admits(id@) ==> final(self)@ == old(self)@.insert(id@, stats@)
                && final(self).settled(),
    {
        cache_insert(&mut self.cache, id, stats);
    }

    /// Every rule's counters that the cache has, each once, in no
    /// particular order.
    pub fn iter(&self) -> (entries: Vec<(CompactUuid, RuleStats)>)
        ensures
            spec_lists(spec_entry_views(entries@), self@),
    {
        let entries = cache_list(&self.cache);
        proof {
            let views = spec_entry_views(entries@);
            assert forall|key: Seq<u8>| #[trigger] self@.contains_key(key) implies exists|i: int|
                0 <= i < views.len() && (#[trigger] views[i]).0@ == key by {
                let i = choose|i: int| 0 <= i < entries@.len() && (#[trigger] entries@[i]).0@ == key;
                assert(views[i].0@ == key);
            }
            assert forall|i: int, j: int| 0 <= i < j < views.len() implies (#[trigger] views[i]).0@
                != (#[trigger] views[j]).0@ by {
                assert(entries@[i].0@ != entries@[j].0@);
            }
        }
        entries
    }
}

} // verus!
