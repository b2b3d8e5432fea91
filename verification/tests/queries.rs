use wgtr_ecs::EcsError;
use wgtr_ecs::QueryEntity;
use wgtr_ecs::World;

const U32_KEY: u64 = 10;
const F32_KEY: u64 = 11;
const HEALTH: u64 = 1;
const SPEED: u64 = 2;

#[derive(Debug, Clone, Copy, PartialEq)]
enum Num {
    U(u32),
    F(f32),
}

fn as_u32(n: Num) -> u32 {
    match n {
        Num::U(u) => u,
        Num::F(_) => panic!("expected a u32 component"),
    }
}

fn as_f32(n: Num) -> f32 {
    match n {
        Num::U(_) => panic!("expected an f32 component"),
        Num::F(f) => f,
    }
}

#[derive(Debug, Clone, Copy, PartialEq)]
enum Comp {
    Health(u32),
    Speed(u32),
}

#[test]
fn query_mask_updating_with_component() -> Result<(), EcsError> {
    let mut world: World<Num> = World::new();
    world.register_component(U32_KEY).unwrap();
    world.register_component(F32_KEY).unwrap();
    let mut query = world.query();
    query.with_component(U32_KEY)?;
    query.with_component(F32_KEY)?;

    assert_eq!(query.map, 3);
    assert_eq!(query.type_ids[0], U32_KEY);
    assert_eq!(query.type_ids[1], F32_KEY);

    Ok(())
}

#[test]
fn run_query() -> Result<(), EcsError> {
    let mut world: World<Num> = World::new();
    world.register_component(U32_KEY).unwrap();
    world.register_component(F32_KEY).unwrap();

    world.create_entity().with_component(U32_KEY, Num::U(5))?;
    world
        .create_entity()
        .with_component(U32_KEY, Num::U(420))?
        .with_component(F32_KEY, Num::F(11.1))?;
    world.create_entity().with_component(F32_KEY, Num::F(0.0))?;

    let mut query = world.query();
    query.with_component(U32_KEY)?;
    query.with_component(F32_KEY)?;
    let query_result = query.run();

    let u32s = &query_result.1[0];
    let f32s = &query_result.1[1];
    let indexes = &query_result.0;
    assert_eq!(u32s.len(), 1);
    assert_eq!(f32s.len(), 1);
    assert_eq!(u32s.len(), indexes.len());
    assert_eq!(indexes[0], 1);

    let extracted_u32 = as_u32(u32s[0]);
    assert_eq!(extracted_u32, 420);

    Ok(())
}

#[test]
fn query_for_entity_ref() -> Result<(), EcsError> {
    let mut world: World<Num> = World::new();

    world.register_component(U32_KEY).unwrap();
    world.register_component(F32_KEY).unwrap();
    world.create_entity().with_component(U32_KEY, Num::U(100))?;
    world.create_entity().with_component(F32_KEY, Num::F(10.0))?;

    let mut query = world.query();
    query.with_component(U32_KEY)?;
    let entities: Vec<QueryEntity> = query.run_entity();

    assert_eq!(entities.len(), 1);

    for entity in entities {
        assert_eq!(entity.id, 0);
        let health: &Num = entity.get_component(&world, U32_KEY)?;
        assert_eq!(as_u32(*health), 100);
    }
    Ok(())
}

#[test]
fn query_for_entity_mut() -> Result<(), EcsError> {
    let mut world: World<Num> = World::new();

    world.register_component(U32_KEY).unwrap();
    world.register_component(F32_KEY).unwrap();
    world.create_entity().with_component(U32_KEY, Num::U(100))?;
    world.create_entity().with_component(F32_KEY, Num::F(10.0))?;

    let mut query = world.query();
    query.with_component(U32_KEY)?;
    let entities: Vec<QueryEntity> = query.run_entity();

    assert_eq!(entities.len(), 1);

    for entity in entities {
        assert_eq!(entity.id, 0);
        let health: &mut Num = entity.get_component_mut(&mut world, U32_KEY)?;
        assert_eq!(as_u32(*health), 100);
        match health {
            Num::U(u) => *u += 1,
            Num::F(_) => panic!("expected a u32 component"),
        }
    }

    let mut query = world.query();
    query.with_component(U32_KEY)?;
    let entities: Vec<QueryEntity> = query.run_entity();
    for entity in entities {
        let health: &Num = entity.get_component(&world, U32_KEY)?;
        assert_eq!(as_u32(*health), 101);
    }
    Ok(())
}

#[test]
fn create_query() -> Result<(), EcsError> {
    let mut world: World<Comp> = World::new();
    world.register_component(HEALTH).unwrap();
    world.register_component(SPEED).unwrap();

    world
        .create_entity()
        .with_component(HEALTH, Comp::Health(100))?
        .with_component(SPEED, Comp::Speed(10))?;

    world.create_entity().with_component(SPEED, Comp::Speed(13))?;

    world.create_entity().with_component(HEALTH, Comp::Health(130))?;

    world
        .create_entity()
        .with_component(HEALTH, Comp::Health(200))?
        .with_component(SPEED, Comp::Speed(12))?;

    let mut query = world.query();
    query.with_component(HEALTH)?;
    query.with_component(SPEED)?;
    let result = query.run();
    let healths = &result.1[0];
    let speeds = &result.1[1];

    assert_eq!(healths.len(), speeds.len());
    assert_eq!(healths.len(), 2);

    let first_health = match healths[0] {
        Comp::Health(h) => h,
        Comp::Speed(_) => panic!("expected a health component"),
    };
    assert_eq!(first_health, 100);
    let first_speed = match speeds[0] {
        Comp::Speed(s) => s,
        Comp::Health(_) => panic!("expected a speed component"),
    };
    assert_eq!(first_speed, 10);

    let second_health = match healths[1] {
        Comp::Health(h) => h,
        Comp::Speed(_) => panic!("expected a health component"),
    };
    assert_eq!(second_health, 200);
    let mut second_speed = match speeds[1] {
        Comp::Speed(s) => s,
        Comp::Health(_) => panic!("expected a speed component"),
    };
    second_speed += 1;
    assert_eq!(second_speed, 13);

    Ok(())
}
