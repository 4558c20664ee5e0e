//! The slot that makes the executing store reachable for a capture.

use shipyard::World;
use vstd::prelude::*;

verus! {

/// The slot for the store that is currently executing.
///
/// The slot holds at most one store, from the moment a region is entered
/// with `new` until it is left with `release`. It borrows the store and
/// never owns it, so the store outlives the time it is held. Each thread
/// keeps its own slot.
pub struct WorldGuard<'a> {
    current: Option<&'a World>,
}

impl<'a> WorldGuard<'a> {
    /// The store that the slot holds.
    pub closed spec fn current(&self) -> Option<&'a World> {
        self.current
    }

    /// Enters a region: the slot holds `world`.
    pub fn new(world: &'a World) -> (guard: Self)
        ensures
            guard.current() == Some(world),
    {
        WorldGuard { current: Some(world) }
    }

    /// A slot outside of any region: it holds no store.
    pub fn vacant() -> (guard: Self)
        ensures
            guard.current() is None,
    {
        WorldGuard { current: None }
    }

    /// Leaves the region: the slot is cleared, whatever it held.
    pub fn release(&mut self)
        ensures
            final(self).current() is None,
    {
        self.current = None;
    }

    /// The store that the slot holds.
    pub fn store(&self) -> (store: Option<&'a World>)
        ensures
            store == self.current(),
    {
        self.current
    }

    /// Whether the slot holds a store.
    pub fn is_active(&self) -> (active: bool)
        ensures
            active == self.current() is Some,
    {
        self.current.is_some()
    }
}

/// Runs `f` on the store that the slot holds and answers with its result;
/// answers `None`, without running `f`, where the slot holds no store.
pub fn with_current_world<F, R>(guard: &WorldGuard<'_>, f: F) -> (ran: Option<R>) where
    F: FnOnce(&World) -> R,

    requires
        guard.current() matches Some(world) ==> f.requires((world,)),
    ensures
        match guard.current() {
            Some(world) => ran matches Some(result) && f.ensures((world,), result),
            None => ran is None,
        },
{
    match guard.current {
        Some(world) => Some(f(world)),
        None => None,
    }
}

} // verus!
