//! The state store of the host, and what the library asks of it.

use shipyard::World;
use vstd::prelude::*;

verus! {

/// The state store of the host: `shipyard::World`. What a store holds is
/// reached only through the component codecs.
#[verifier::external_type_specification]
#[verifier::external_body]
pub struct ExWorld(World);

/// The instance identifiers of the entities that are alive in `world`.
pub uninterp spec fn world_entities(world: World) -> Set<u64>;

/// Calls `shipyard::World::new`, which makes a store whose entity storage is
/// empty: the contract claims that no entity is alive in it.
#[verifier::external_body]
pub(crate) fn fresh_world() -> (world: World)
    ensures
        world_entities(world) == Set::<u64>::empty(),
{
    World::new()
}

} // verus!
