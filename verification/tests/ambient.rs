use anchor_yard::{with_current_world, WorldGuard};
use shipyard::{EntitiesView, EntityId, World};

fn is_alive(world: &World, id: EntityId) -> bool {
    world.borrow::<EntitiesView>().unwrap().is_alive(id)
}

#[test]
fn function_runs_on_the_entered_store() {
    let mut world = World::new();
    let id = world.add_entity(());
    let guard = WorldGuard::new(&world);
    let alive = with_current_world(&guard, |current| is_alive(current, id));
    assert_eq!(alive, Some(true));
}

#[test]
fn function_does_not_run_without_a_store() {
    let guard = WorldGuard::vacant();
    let mut ran = false;
    let answer = with_current_world(&guard, |_| {
        ran = true;
        5
    });
    assert_eq!(answer, None);
    assert!(!ran);
}

#[test]
fn release_clears_the_slot() {
    let world = World::new();
    let mut guard = WorldGuard::new(&world);
    assert!(guard.store().is_some());
    guard.release();
    assert!(guard.store().is_none());
    assert_eq!(with_current_world(&guard, |_| 1), None);
    guard.release();
    assert!(!guard.is_active());
}

#[test]
fn each_guard_sees_its_own_store() {
    let mut first = World::new();
    let id = first.add_entity(());
    let second = World::new();
    let first_guard = WorldGuard::new(&first);
    let second_guard = WorldGuard::new(&second);
    assert_eq!(
        with_current_world(&first_guard, |world| is_alive(world, id)),
        Some(true)
    );
    assert_eq!(
        with_current_world(&second_guard, |world| is_alive(world, id)),
        Some(false)
    );
}
