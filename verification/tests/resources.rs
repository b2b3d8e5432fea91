use wgtr_ecs::Resource;
use wgtr_ecs::World;

const WORLD_WIDTH: u64 = 1;
const FPS: u64 = 2;

#[derive(Debug, Clone, Copy, PartialEq)]
struct WorldWidth(pub f32);

#[derive(Debug, Clone, Copy, PartialEq)]
struct FpsResource(pub u32);

#[test]
fn add_resource() {
    let mut resources: Resource<WorldWidth> = Resource::default();
    let world_width = WorldWidth(100.0);

    resources.add(WORLD_WIDTH, world_width);

    let stored_resource = resources.get_ref(WORLD_WIDTH).unwrap();
    assert_eq!(stored_resource.0, 100.0);
}

#[test]
fn get_resource() {
    let mut resources: Resource<WorldWidth> = Resource::default();
    let world_width = WorldWidth(100.0);

    resources.add(WORLD_WIDTH, world_width);
    let extracted_world_width = resources.get_ref(WORLD_WIDTH).unwrap();
    assert_eq!(extracted_world_width.0, 100.0);
}

#[test]
fn get_resource_mut() {
    let mut resources: Resource<WorldWidth> = Resource::default();
    let world_width = WorldWidth(100.0);
    resources.add(WORLD_WIDTH, world_width);
    {
        let extracted_world_width: &mut WorldWidth = resources.get_mut(WORLD_WIDTH).unwrap();
        extracted_world_width.0 += 1.0;
    }
    let extracted_world_width = resources.get_ref(WORLD_WIDTH).unwrap();
    assert_eq!(extracted_world_width.0, 101.0);
}

#[test]
fn delete_resource() {
    let mut resources: Resource<WorldWidth> = Resource::default();
    let world_width = WorldWidth(100.0);

    resources.add(WORLD_WIDTH, world_width);
    resources.remove(WORLD_WIDTH);

    assert!(resources.get_ref(WORLD_WIDTH).is_none());
}

#[test]
fn create_and_get_resource_immutably() {
    let mut world: World<FpsResource> = World::new();

    world.add_resource(FPS, FpsResource(60));

    let fps = world.get_resource(FPS).unwrap();
    assert_eq!(fps.0, 60);
}

#[test]
fn create_and_get_resource_mutably() {
    let mut world: World<FpsResource> = World::new();

    world.add_resource(FPS, FpsResource(60));
    {
        let fps = world.get_resource_mut(FPS).unwrap();
        fps.0 += 1;
    }
    let fps = world.get_resource(FPS).unwrap();
    assert_eq!(fps.0, 61);
}

#[test]
fn remove_resource() {
    let mut world: World<FpsResource> = World::new();

    world.add_resource(FPS, FpsResource(60));
    world.remove_resource(FPS);

    let removed_resource = world.get_resource(FPS);
    assert!(removed_resource.is_none());
}
