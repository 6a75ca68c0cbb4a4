//! The set of projectiles that have left play during a pass.

use bevy::utils::HashSet;
use vstd::prelude::*;

verus! {

/// The projectiles, each by its place in the list, that have left play.
///
/// Holds a `bevy::utils::HashSet` of places. What it contains is known
/// only through [`despawned_places`] and the three functions below.
#[verifier::external_body]
pub struct Despawned {
    places: HashSet<usize>,
}

/// The places that the set holds.
pub uninterp spec fn despawned_places(set: Despawned) -> Set<usize>;

/// An empty set.
///
/// Calls `HashSet::default`, which makes a set without elements.
#[verifier::external_body]
pub(crate) fn despawned_new() -> (set: Despawned)
    ensures
        despawned_places(set) == Set::<usize>::empty(),
{
    Despawned { places: HashSet::default() }
}

/// Whether the set holds `place`.
///
/// Calls `HashSet::contains`, which tells whether a value equal to the
/// given one is in the set.
#[verifier::external_body]
pub(crate) fn despawned_contains(set: &Despawned, place: usize) -> (found: bool)
    ensures
        found == despawned_places(*set).contains(place),
{
    set.places.contains(&place)
}

/// Adds `place` to the set and tells whether it was new.
///
/// Calls `HashSet::insert`, which adds the value and returns `true` if
/// the set did not hold it, and leaves the set as it is and returns
/// `false` if it did.
#[verifier::external_body]
pub(crate) fn despawned_insert(set: &mut Despawned, place: usize) -> (added: bool)
    ensures
        despawned_places(*final(set)) == despawned_places(*old(set)).insert(place),
        added == !despawned_places(*old(set)).contains(place),
{
    set.places.insert(place)
}

} // verus!
