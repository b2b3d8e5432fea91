use wgtr_ecs::EcsError;
use wgtr_ecs::World;

const HEALTH: u64 = 1;
const SPEED: u64 = 2;
const UNKNOWN: u64 = 77;

#[derive(Debug, Clone, Copy, PartialEq)]
enum Comp {
    Health(u32),
    Speed(u32),
}

#[test]
fn masks_follow_registration_order() {
    let mut world: World<u32> = World::new();
    for key in 0..16u64 {
        world.register_component(key + 100).unwrap();
    }
    for position in 0..16u64 {
        let mask = world.component_mask(position + 100).unwrap();
        assert_eq!(mask, 1u128 << position);
    }
}

#[test]
fn registering_past_mask_width_fails() {
    let mut world: World<u32> = World::new();
    for key in 0..128u64 {
        world.register_component(key).unwrap();
    }
    assert_eq!(world.register_component(500), Err(EcsError::TooManyComponentTypes));
    assert_eq!(world.component_mask(127).unwrap(), 1u128 << 127);
}

#[test]
fn double_registration_fails() {
    let mut world: World<u32> = World::new();
    world.register_component(HEALTH).unwrap();
    assert_eq!(world.register_component(HEALTH), Err(EcsError::ComponentAlreadyRegistered));
}

#[test]
fn unregistered_type_is_recoverable() -> Result<(), EcsError> {
    let mut world: World<Comp> = World::new();

    let mut query = world.query();
    assert_eq!(query.with_component(UNKNOWN).err(), Some(EcsError::ComponentNotRegistered));

    assert_eq!(
        world.add_component(UNKNOWN, Comp::Health(1), 0),
        Err(EcsError::ComponentNotRegistered)
    );
    assert_eq!(world.remove_component(UNKNOWN, 0), Err(EcsError::ComponentNotRegistered));
    world.create_entity();
    assert_eq!(
        world.with_component(UNKNOWN, Comp::Health(1)).err(),
        Some(EcsError::ComponentNotRegistered)
    );
    Ok(())
}

#[test]
fn out_of_range_entity_is_recoverable() {
    let mut world: World<Comp> = World::new();
    world.register_component(HEALTH).unwrap();
    assert_eq!(world.remove_entity(0), Err(EcsError::EntityOutOfRange));
    assert_eq!(world.add_component(HEALTH, Comp::Health(1), 3), Err(EcsError::EntityOutOfRange));
    assert_eq!(world.remove_component(HEALTH, 3), Err(EcsError::EntityOutOfRange));
}

#[test]
fn missing_component_is_recoverable() -> Result<(), EcsError> {
    let mut world: World<Comp> = World::new();
    world.register_component(HEALTH).unwrap();
    world.register_component(SPEED).unwrap();
    world.create_entity().with_component(HEALTH, Comp::Health(3))?;

    let mut query = world.query();
    query.with_component(HEALTH)?;
    let entities = query.run_entity();
    assert_eq!(entities.len(), 1);
    let err = entities[0].get_component(&world, SPEED).err();
    assert_eq!(err, Some(EcsError::ComponentNotPresent));
    Ok(())
}

#[test]
fn detach_keeps_other_components_queryable() -> Result<(), EcsError> {
    let mut world: World<Comp> = World::new();
    world.register_component(HEALTH).unwrap();
    world.register_component(SPEED).unwrap();
    world
        .create_entity()
        .with_component(HEALTH, Comp::Health(9))?
        .with_component(SPEED, Comp::Speed(4))?;

    world.remove_component(HEALTH, 0)?;
    assert_eq!(world.bit_maps[0], 2);

    let mut health_query = world.query();
    health_query.with_component(HEALTH)?;
    assert_eq!(health_query.run().0.len(), 0);

    let mut speed_query = world.query();
    speed_query.with_component(SPEED)?;
    let speeds = speed_query.run();
    assert_eq!(speeds.0, vec![0]);
    assert_eq!(speeds.1[0][0], Comp::Speed(4));
    Ok(())
}

#[test]
fn removed_entity_slot_is_reused_with_zero_bitmask() -> Result<(), EcsError> {
    let mut world: World<Comp> = World::new();
    world.register_component(HEALTH).unwrap();
    for value in [10, 20, 30] {
        world.create_entity().with_component(HEALTH, Comp::Health(value))?;
    }

    world.remove_entity(2)?;
    assert_eq!(world.bit_maps[2], 0);

    world.create_entity();
    assert_eq!(world.bit_maps.len(), 3);
    assert_eq!(world.bit_maps[2], 0);
    world.with_component(HEALTH, Comp::Health(99))?;

    let mut query = world.query();
    query.with_component(HEALTH)?;
    let result = query.run();
    assert_eq!(result.0, vec![0, 1, 2]);
    assert_eq!(result.1[0][2], Comp::Health(99));
    Ok(())
}

#[test]
fn sentinel_index_is_never_reused() -> Result<(), EcsError> {
    let mut world: World<Comp> = World::new();
    world.register_component(HEALTH).unwrap();
    world.create_entity().with_component(HEALTH, Comp::Health(1))?;

    world.remove_entity(0)?;
    world.create_entity().with_component(HEALTH, Comp::Health(2))?;

    assert_eq!(world.bit_maps.len(), 2);
    assert_eq!(world.bit_maps[0], 0);
    assert_eq!(world.bit_maps[1], 1);
    Ok(())
}

#[test]
fn query_order_is_ascending_after_churn() -> Result<(), EcsError> {
    let mut world: World<Comp> = World::new();
    world.register_component(HEALTH).unwrap();
    for value in 0..6u32 {
        world.create_entity().with_component(HEALTH, Comp::Health(value))?;
    }
    world.remove_entity(4)?;
    world.remove_entity(2)?;
    world.create_entity().with_component(HEALTH, Comp::Health(100))?;
    world.create_entity().with_component(HEALTH, Comp::Health(200))?;

    let mut query = world.query();
    query.with_component(HEALTH)?;
    let result = query.run();
    assert_eq!(result.0, vec![0, 1, 2, 3, 4, 5]);
    assert_eq!(result.1[0][2], Comp::Health(100));
    assert_eq!(result.1[0][4], Comp::Health(200));
    Ok(())
}

#[test]
fn columns_align_positionally() -> Result<(), EcsError> {
    let mut world: World<Comp> = World::new();
    world.register_component(HEALTH).unwrap();
    world.register_component(SPEED).unwrap();
    for value in 0..4u32 {
        world
            .create_entity()
            .with_component(HEALTH, Comp::Health(value))?
            .with_component(SPEED, Comp::Speed(value * 10))?;
    }
    world.remove_entity(1)?;

    let mut query = world.query();
    query.with_component(HEALTH)?;
    query.with_component(SPEED)?;
    let (indexes, columns) = query.run();
    assert_eq!(indexes, vec![0, 2, 3]);
    for (k, index) in indexes.iter().enumerate() {
        assert_eq!(columns[0][k], Comp::Health(*index as u32));
        assert_eq!(columns[1][k], Comp::Speed(*index as u32 * 10));
    }
    Ok(())
}

#[test]
fn empty_query_matches_every_entity() -> Result<(), EcsError> {
    let mut world: World<Comp> = World::new();
    world.register_component(HEALTH).unwrap();
    world.create_entity().with_component(HEALTH, Comp::Health(1))?;
    world.create_entity();

    let query = world.query();
    let result = query.run();
    assert_eq!(result.0, vec![0, 1]);
    assert_eq!(result.1.len(), 0);
    Ok(())
}

#[test]
fn attach_overwrites_previous_value() -> Result<(), EcsError> {
    let mut world: World<Comp> = World::new();
    world.register_component(HEALTH).unwrap();
    world.create_entity().with_component(HEALTH, Comp::Health(5))?;
    world.add_component(HEALTH, Comp::Health(8), 0)?;

    let mut query = world.query();
    query.with_component(HEALTH)?;
    let result = query.run();
    assert_eq!(result.1[0][0], Comp::Health(8));
    assert_eq!(world.bit_maps[0], 1);
    Ok(())
}

#[test]
fn error_messages_are_static_descriptions() {
    assert_eq!(EcsError::ComponentNotRegistered.message(), "component type was not registered");
    assert_eq!(
        EcsError::ComponentAlreadyRegistered.message(),
        "component type was already registered"
    );
    assert_eq!(
        EcsError::TooManyComponentTypes.message(),
        "no mask bits are left for another component type"
    );
    assert_eq!(EcsError::EntityOutOfRange.message(), "entity index is outside the entity table");
    assert_eq!(EcsError::ComponentNotPresent.message(), "entity does not have that component");
}

#[test]
fn detached_component_reports_not_present() -> Result<(), EcsError> {
    let mut world: World<Comp> = World::new();
    world.register_component(HEALTH).unwrap();
    world.create_entity().with_component(HEALTH, Comp::Health(7))?;
    world.remove_component(HEALTH, 0)?;

    let query = world.query();
    let entities = query.run_entity();
    let err = entities[0].get_component(&world, HEALTH).err();
    assert_eq!(err, Some(EcsError::ComponentNotPresent));
    Ok(())
}

#[test]
fn has_component_checks_mask_subset() -> Result<(), EcsError> {
    let mut world: World<Comp> = World::new();
    world.register_component(HEALTH).unwrap();
    world.register_component(SPEED).unwrap();
    world
        .create_entity()
        .with_component(HEALTH, Comp::Health(1))?
        .with_component(SPEED, Comp::Speed(2))?;

    let health_mask = world.component_mask(HEALTH)?;
    let speed_mask = world.component_mask(SPEED)?;
    assert!(world.has_component(0, health_mask | speed_mask));
    assert!(world.has_component(0, health_mask));

    world.remove_component(HEALTH, 0)?;
    assert!(!world.has_component(0, health_mask));
    assert!(world.has_component(0, speed_mask));
    Ok(())
}

#[test]
fn accessor_rejects_out_of_range_entity() {
    let mut world: World<Comp> = World::new();
    world.register_component(HEALTH).unwrap();
    let stray = wgtr_ecs::QueryEntity::new(5);
    assert_eq!(stray.get_component(&world, HEALTH).err(), Some(EcsError::EntityOutOfRange));
    assert_eq!(stray.get_component_mut(&mut world, HEALTH).err(), Some(EcsError::EntityOutOfRange));
}
