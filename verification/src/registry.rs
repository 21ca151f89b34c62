//! The participant registry is kept in stateright's hashable hash map, so that
//! whole configurations can be hashed and compared by a state-space explorer.
//! Nothing in this file is proved: it states what the map's operations are
//! taken to do, in terms of the entries the map holds.

use stateright::util::HashableHashMap;
use vstd::prelude::*;

verus! {

/// `ahash::RandomState`, the hasher state that the map is built with by default.
#[verifier::external_type_specification]
#[verifier::external_body]
pub struct ExRandomState(ahash::RandomState);

/// `stateright::util::HashableHashMap`, carried as an opaque value.
#[verifier::external_type_specification]
#[verifier::external_body]
#[verifier::reject_recursive_types(K)]
#[verifier::reject_recursive_types(V)]
#[verifier::reject_recursive_types(S)]
pub struct ExHashableHashMap<K, V, S>(HashableHashMap<K, V, S>);

/// The entries that a registry holds: each registered node id with its
/// "prepared" flag.
pub uninterp spec fn registry_entries(registry: HashableHashMap<usize, bool>) -> Map<usize, bool>;

/// Whether `items` lists every entry of `entries` exactly once, in some order.
pub open spec fn lists_entries(items: Seq<(usize, bool)>, entries: Map<usize, bool>) -> bool {
    &&& forall|i: int, j: int|
        0 <= i < j < items.len() ==> (#[trigger] items[i]).0 != (#[trigger] items[j]).0
    &&& forall|i: int|
        0 <= i < items.len() ==> entries.contains_pair((#[trigger] items[i]).0, items[i].1)
    &&& forall|id: usize| #[trigger]
        entries.dom().contains(id) ==> exists|i: int| 0 <= i < items.len() && (#[trigger] items[i]).0 == id
}

/// `HashableHashMap::default`, which builds the map inside with
/// `HashMap::with_hasher`: a map without entries.
#[verifier::external_body]
pub(crate) fn registry_new() -> (fresh: HashableHashMap<usize, bool>)
    ensures
        registry_entries(fresh) =~= Map::empty(),
{
    HashableHashMap::default()
}

/// `HashMap::insert`, reached through the map's `DerefMut`: the entry for `id`
/// is set to `prepared`, whether or not `id` had an entry, and every other
/// entry stays as it is.
#[verifier::external_body]
pub(crate) fn registry_insert(registry: &mut HashableHashMap<usize, bool>, id: usize, prepared: bool)
    ensures
        registry_entries(*final(registry)) == registry_entries(*old(registry)).insert(id, prepared),
{
    registry.insert(id, prepared);
}

/// `HashMap::get`, reached through the map's `Deref`: the flag stored for `id`,
/// or `None` where `id` has no entry.
#[verifier::external_body]
pub(crate) fn registry_get(registry: &HashableHashMap<usize, bool>, id: usize) -> (found: Option<&bool>)
    ensures
        found is Some <==> registry_entries(*registry).dom().contains(id),
        found matches Some(prepared) ==> *prepared == registry_entries(*registry)[id],
{
    registry.get(&id)
}

/// `HashMap::iter`, reached through the map's `Deref`: every entry is visited
/// once, in an order that is left open; each is copied out as a pair.
#[verifier::external_body]
pub(crate) fn registry_items(registry: &HashableHashMap<usize, bool>) -> (items: Vec<(usize, bool)>)
    ensures
        lists_entries(items@, registry_entries(*registry)),
{
    registry.iter().map(|(id, prepared)| (*id, *prepared)).collect()
}

/// `HashableHashMap::clone`, which clones the map inside: a map with the same
/// entries.
#[verifier::external_body]
pub(crate) fn registry_clone(registry: &HashableHashMap<usize, bool>) -> (copy: HashableHashMap<usize, bool>)
    ensures
        registry_entries(copy) == registry_entries(*registry),
{
    registry.clone()
}

} // verus!
