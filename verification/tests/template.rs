use doom_core::assets::AssetHandle;
use doom_core::component::EntityTemplate;
use doom_core::components::{
    Component, ComponentKind, SpawnOnCeiling, SpawnPoint, SpriteRender, Transform, Velocity,
};
use doom_core::fixed::{LIMIT, ONE};
use doom_core::geometry::Vec3;
use doom_core::physics::{BoxCollider, SolidMask};
use doom_core::world::{Entity, World, WorldError};

fn collider(radius: i64, height: i64) -> Component {
    Component::BoxCollider(BoxCollider {
        height: height * ONE,
        radius: radius * ONE,
        solid_mask: SolidMask::all(),
    })
}

fn imp() -> EntityTemplate {
    EntityTemplate::new()
        .with_component(collider(20, 56))
        .with_component(Component::SpriteRender(SpriteRender {
            sprite: AssetHandle::new(7),
            frame: 0,
            full_bright: false,
        }))
        .with_component(Component::Velocity(Velocity::default()))
}

#[test]
fn new_template_is_empty() {
    let t = EntityTemplate::new();
    assert_eq!(t.len(), 0);
    assert_eq!(t.position(ComponentKind::Velocity), None);
}

#[test]
fn components_keep_the_order_in_which_their_kinds_came() {
    let t = imp();
    assert_eq!(t.len(), 3);
    assert_eq!(t.component_at(0).kind(), ComponentKind::BoxCollider);
    assert_eq!(t.component_at(1).kind(), ComponentKind::SpriteRender);
    assert_eq!(t.component_at(2).kind(), ComponentKind::Velocity);
    assert_eq!(t.position(ComponentKind::SpriteRender), Some(1));
    assert_eq!(t.position(ComponentKind::SpawnPoint), None);
}

#[test]
fn adding_a_kind_twice_replaces_the_value_in_place() {
    let mut t = imp();
    t.add_component(collider(16, 40));
    assert_eq!(t.len(), 3);
    assert_eq!(t.position(ComponentKind::BoxCollider), Some(0));
    assert_eq!(t.component_at(0), collider(16, 40));
    assert_eq!(t.component_at(2), Component::Velocity(Velocity::default()));
}

#[test]
fn component_validity_is_checked_by_kind() {
    assert!(collider(16, 40).is_valid());
    assert!(!Component::BoxCollider(BoxCollider {
        height: -1,
        radius: ONE,
        solid_mask: SolidMask::all()
    })
    .is_valid());
    assert!(!Component::BoxCollider(BoxCollider {
        height: ONE,
        radius: LIMIT + 1,
        solid_mask: SolidMask::all()
    })
    .is_valid());
    assert!(!Component::Velocity(Velocity { velocity: Vec3::new(0, LIMIT + 1, 0) }).is_valid());
    assert!(Component::SpawnOnCeiling(SpawnOnCeiling { offset: i64::MIN }).is_valid());
}

#[test]
fn applying_a_template_gives_the_entity_every_value() {
    let mut world = World::new();
    let e = world.create_entity();
    assert_eq!(imp().add_to_entity(e, &mut world), Ok(()));
    assert_eq!(
        world.box_colliders[0],
        Some(BoxCollider { height: 56 * ONE, radius: 20 * ONE, solid_mask: SolidMask::all() })
    );
    assert_eq!(world.velocities[0], Some(Velocity::default()));
    assert_eq!(
        world.sprite_renders[0],
        Some(SpriteRender { sprite: AssetHandle::new(7), frame: 0, full_bright: false })
    );
    assert_eq!(world.transforms[0], None);
    assert_eq!(world.spawn_points[0], None);
    assert!(world.is_valid());
}

#[test]
fn applying_a_template_replaces_what_the_entity_had_of_those_kinds() {
    let mut world = World::new();
    let e = world.create_entity();
    let other = world.create_entity();
    let moving = Component::Velocity(Velocity { velocity: Vec3::new(ONE, 0, 0) });
    assert_eq!(world.insert(e, moving), Ok(()));
    assert_eq!(world.insert(other, moving), Ok(()));
    assert_eq!(world.insert(e, Component::SpawnPoint(SpawnPoint { player_num: 2 })), Ok(()));
    assert_eq!(imp().add_to_entity(e, &mut world), Ok(()));
    assert_eq!(world.velocities[e.id], Some(Velocity::default()));
    assert_eq!(world.spawn_points[e.id], Some(SpawnPoint { player_num: 2 }));
    assert_eq!(world.velocities[other.id], Some(Velocity { velocity: Vec3::new(ONE, 0, 0) }));
    assert_eq!(world.box_colliders[other.id], None);
}

#[test]
fn applying_a_template_to_a_dead_entity_fails_and_changes_nothing() {
    let mut world = World::new();
    let e = world.create_entity();
    assert_eq!(world.delete_entity(e), Ok(()));
    assert_eq!(imp().add_to_entity(e, &mut world), Err(WorldError::NoSuchEntity));
    assert_eq!(world.box_colliders[0], None);
    assert_eq!(world.velocities[0], None);
    assert_eq!(
        imp().add_to_entity(Entity { id: 5 }, &mut world),
        Err(WorldError::NoSuchEntity)
    );
    assert_eq!(world.len(), 1);
}

#[test]
fn the_empty_template_applies_to_anything() {
    let mut world = World::new();
    assert_eq!(EntityTemplate::new().add_to_entity(Entity { id: 3 }, &mut world), Ok(()));
    assert_eq!(world.len(), 0);
}

#[test]
fn one_template_gives_two_fresh_entities_equal_components() {
    let mut world = World::new();
    let a = world.create_entity();
    let b = world.create_entity();
    let t = imp().with_component(Component::SpawnOnCeiling(SpawnOnCeiling { offset: 8 * ONE }));
    assert_eq!(t.add_to_entity(a, &mut world), Ok(()));
    assert_eq!(t.add_to_entity(b, &mut world), Ok(()));
    assert_eq!(world.transforms[a.id], world.transforms[b.id]);
    assert_eq!(world.velocities[a.id], world.velocities[b.id]);
    assert_eq!(world.box_colliders[a.id], world.box_colliders[b.id]);
    assert_eq!(world.spawn_on_ceilings[a.id], world.spawn_on_ceilings[b.id]);
    assert_eq!(world.spawn_points[a.id], world.spawn_points[b.id]);
    assert_eq!(world.sprite_renders[a.id], world.sprite_renders[b.id]);
    assert_eq!(world.use_actions[a.id], world.use_actions[b.id]);
    assert_eq!(world.spawn_on_ceilings[a.id], Some(SpawnOnCeiling { offset: 8 * ONE }));
}

#[test]
fn entities_are_numbered_in_creation_order() {
    let mut world = World::new();
    assert_eq!(world.len(), 0);
    assert_eq!(world.create_entity(), Entity { id: 0 });
    assert_eq!(world.create_entity(), Entity { id: 1 });
    assert_eq!(world.len(), 2);
    assert!(world.is_alive(Entity { id: 1 }));
    assert!(!world.is_alive(Entity { id: 2 }));
    assert!(world.is_valid());
}

#[test]
fn deleting_an_entity_drops_its_components_and_keeps_its_number() {
    let mut world = World::new();
    let a = world.create_entity();
    let b = world.create_entity();
    let t = Transform { position: Vec3::new(1, 2, 3), rotation: Vec3::zero() };
    assert_eq!(world.insert(a, Component::Transform(t)), Ok(()));
    assert_eq!(world.insert(b, Component::Transform(t)), Ok(()));
    assert_eq!(world.delete_entity(a), Ok(()));
    assert!(!world.is_alive(a));
    assert!(world.is_alive(b));
    assert_eq!(world.transforms[a.id], None);
    assert_eq!(world.transforms[b.id], Some(t));
    assert_eq!(world.len(), 2);
    assert_eq!(world.delete_entity(a), Err(WorldError::NoSuchEntity));
    assert_eq!(world.insert(a, Component::Transform(t)), Err(WorldError::NoSuchEntity));
    assert_eq!(world.create_entity(), Entity { id: 2 });
}

#[test]
fn moving_validity_looks_at_colliders_and_velocities() {
    let mut world = World::new();
    let e = world.create_entity();
    assert!(world.is_moving_valid());
    world.velocities[e.id] = Some(Velocity { velocity: Vec3::new(LIMIT + 1, 0, 0) });
    assert!(!world.is_moving_valid());
    world.velocities[e.id] = Some(Velocity { velocity: Vec3::new(LIMIT, -LIMIT, 0) });
    assert!(world.is_moving_valid());
    world.box_colliders[e.id] =
        Some(BoxCollider { height: ONE, radius: -1, solid_mask: SolidMask::monster() });
    assert!(!world.is_moving_valid());
}

#[test]
fn a_world_with_a_short_table_is_not_valid() {
    let mut world = World::new();
    world.create_entity();
    world.velocities.pop();
    assert!(!world.is_valid());
}

#[test]
fn solid_masks_intersect_when_they_share_a_category() {
    assert!(SolidMask::all().intersects(SolidMask::monster()));
    assert!(SolidMask::non_monster().intersects(SolidMask::all()));
    assert!(!SolidMask::non_monster().intersects(SolidMask::monster()));
    assert!(!SolidMask::empty().intersects(SolidMask::all()));
    assert_eq!(SolidMask::all().bits, 3);
}
