use wgtr_ecs::EcsError;
use wgtr_ecs::World;

const HEALTH: u64 = 1;
const SPEED: u64 = 2;

#[derive(Debug, Clone, Copy, PartialEq)]
enum Comp {
    Health(u32),
    Speed(u32),
}

#[test]
fn create_entity() -> Result<(), EcsError> {
    let mut world: World<Comp> = World::new();
    world.register_component(HEALTH).unwrap();
    world.register_component(SPEED).unwrap();

    world
        .create_entity()
        .with_component(HEALTH, Comp::Health(100))?
        .with_component(SPEED, Comp::Speed(10))?;
    Ok(())
}

#[test]
fn delete_component_from_entity() -> Result<(), EcsError> {
    let mut world: World<Comp> = World::new();
    world.register_component(HEALTH).unwrap();
    world.register_component(SPEED).unwrap();

    world
        .create_entity()
        .with_component(HEALTH, Comp::Health(100))?
        .with_component(SPEED, Comp::Speed(10))?;
    world
        .create_entity()
        .with_component(HEALTH, Comp::Health(100))?
        .with_component(SPEED, Comp::Speed(10))?;
    world.remove_component(HEALTH, 0)?;
    let mut query = world.query();
    query.with_component(HEALTH)?;
    query.with_component(SPEED)?;
    let result = query.run();
    assert_eq!(result.0.len(), 1);
    assert_eq!(result.0[0], 1);
    Ok(())
}

#[test]
fn add_component_to_entity() -> Result<(), EcsError> {
    let mut world: World<Comp> = World::new();
    world.register_component(HEALTH).unwrap();
    world.register_component(SPEED).unwrap();

    world.create_entity().with_component(HEALTH, Comp::Health(100))?;

    world.add_component(SPEED, Comp::Speed(22), 0)?;

    let mut query = world.query();
    query.with_component(HEALTH)?;
    query.with_component(SPEED)?;
    let result = query.run();

    assert_eq!(result.0.len(), 1);

    Ok(())
}

#[test]
fn delete_entity() -> Result<(), EcsError> {
    let mut world: World<Comp> = World::new();
    world.register_component(HEALTH).unwrap();

    world.create_entity().with_component(HEALTH, Comp::Health(100))?;

    world.create_entity().with_component(HEALTH, Comp::Health(200))?;

    let mut query = world.query();
    query.with_component(HEALTH)?;
    let result = query.run();

    assert_eq!(result.0.len(), 2);
    assert_eq!(result.0[0], 0);

    world.remove_entity(0)?;

    let mut query = world.query();
    query.with_component(HEALTH)?;
    let result = query.run();

    assert_eq!(result.0.len(), 1);
    assert_eq!(result.0[0], 1);

    Ok(())
}
