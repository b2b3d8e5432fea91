use wgtr_ecs::EcsError;
use wgtr_ecs::World;

const U32_KEY: u64 = 10;
const F32_KEY: u64 = 11;

#[derive(Debug, Clone, Copy, PartialEq)]
enum Num {
    U(u32),
    F(f32),
}

#[test]
fn macros() -> Result<(), EcsError> {
    let mut world: World<Num> = World::new();

    world.register_component(U32_KEY).unwrap();
    world.register_component(F32_KEY).unwrap();

    world
        .create_entity()
        .with_component(U32_KEY, Num::U(10))?
        .with_component(F32_KEY, Num::F(10.1))?;

    let mut query = world.query();
    query.with_component(U32_KEY)?;
    query.with_component(F32_KEY)?;
    let entities = query.run_entity();
    for entity in entities {
        let f = entity.get_component_mut(&mut world, F32_KEY)?;
        match f {
            Num::F(x) => *x += 1.0,
            Num::U(_) => panic!("expected an f32 component"),
        }
    }
    let mut query = world.query();
    query.with_component(U32_KEY)?;
    query.with_component(F32_KEY)?;
    for entity in query.run_entity() {
        let u = match *entity.get_component(&world, U32_KEY)? {
            Num::U(x) => x,
            Num::F(_) => panic!("expected a u32 component"),
        };
        let f = match *entity.get_component(&world, F32_KEY)? {
            Num::F(x) => x,
            Num::U(_) => panic!("expected an f32 component"),
        };
        assert_eq!(u, 10);
        assert_eq!(f, 11.1);
    }
    Ok(())
}
