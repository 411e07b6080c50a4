use std::collections::HashMap;

use doom_core::assets::{AssetHandle, TextureType};
use doom_core::component::EntityTemplate;
use doom_core::components::{
    Component, SpawnOnCeiling, SpawnPoint, SpriteRender, Transform, UseAction, Velocity,
};
use doom_core::door::DoorUse;
use doom_core::entities::{lookup, AssetStorage, LinedefTypes, MobjTypes, SectorTypes};
use doom_core::fixed::ONE;
use doom_core::geometry::{Interval, Line2, Plane2, Vec2, Vec3, AABB2};
use doom_core::map::{
    Anim, AnimState, LevelMap, Linedef, LinedefRef, Node, NodeChild, Sector, SectorDynamic,
    SectorRef, Seg, Sidedef, Subsector, Thing,
};
use doom_core::physics::{BoxCollider, SolidMask};
use doom_core::quadtree::Quadtree;
use doom_core::spawn::{
    find_player_start, sector_transform, spawn_from_template, spawn_map_entities, spawn_player,
    spawn_things, start_anims, SpawnError,
};
use doom_core::world::{Entity, World};

const SECOND: u64 = 1_000_000_000;

fn rect(x0: i64, x1: i64, y0: i64, y1: i64) -> AABB2 {
    AABB2 { x: Interval::new(x0 * ONE, x1 * ONE), y: Interval::new(y0 * ONE, y1 * ONE) }
}

fn sign(v: i64) -> i64 {
    if v > 0 {
        1
    } else if v < 0 {
        -1
    } else {
        0
    }
}

fn plain() -> [TextureType; 3] {
    [TextureType::Absent, TextureType::Absent, TextureType::Absent]
}

fn side(sector: usize) -> Option<Sidedef> {
    Some(Sidedef { texture_offset: Vec2::new(0, 0), textures: plain(), sector_index: sector })
}

/// An axis-aligned wall from (x0, y0) to (x1, y1), in whole units. Its front
/// is on the right of its direction.
fn wall(x0: i64, y0: i64, x1: i64, y1: i64, front: usize, back: Option<usize>) -> Linedef {
    let mut bbox = AABB2::empty();
    bbox.add_point(Vec2::new(x0 * ONE, y0 * ONE));
    bbox.add_point(Vec2::new(x1 * ONE, y1 * ONE));
    Linedef {
        line: Line2::new(
            Vec2::new(x0 * ONE, y0 * ONE),
            Vec2::new((x1 - x0) * ONE, (y1 - y0) * ONE),
        ),
        normal: Vec2::new(sign(y1 - y0) * ONE, -sign(x1 - x0) * ONE),
        bbox,
        flags: 0,
        solid_mask: if back.is_some() { SolidMask::empty() } else { SolidMask::all() },
        special_type: 0,
        sector_tag: 0,
        sidedefs: [side(front), back.and_then(side)],
    }
}

fn seg(nx: i64, ny: i64, low: i64, high: i64) -> Seg {
    Seg {
        line: Line2::new(Vec2::new(0, 0), Vec2::new(0, 0)),
        normal: Vec2::new(nx * ONE, ny * ONE),
        interval: Interval::new(low * ONE, high * ONE),
        linedef: None,
    }
}

fn block(b: AABB2, sector: usize) -> Subsector {
    let (x0, x1, y0, y1) = (b.x.min / ONE, b.x.max / ONE, b.y.min / ONE, b.y.max / ONE);
    Subsector {
        segs: vec![seg(1, 0, x0, x1), seg(-1, 0, -x1, -x0), seg(0, 1, y0, y1), seg(0, -1, -y1, -y0)],
        bbox: b,
        linedefs: Vec::new(),
        sector_index: sector,
    }
}

fn sector(floor: i64, ceiling: i64, subsectors: Vec<usize>, neighbours: Vec<usize>) -> Sector {
    Sector {
        interval: Interval::new(floor * ONE, ceiling * ONE),
        textures: [TextureType::Absent, TextureType::Absent],
        light_level: ONE,
        special_type: 0,
        sector_tag: 0,
        linedefs: Vec::new(),
        subsectors,
        neighbours,
    }
}

/// A room of 256 by 256 units (sector 0, ceiling at 64), a door of 64 by 64
/// units in the middle of its east wall (sector 1, shut), a second room
/// beyond it (sector 2, ceiling at 96), and a sector without floor space
/// that counts as a neighbour of the door (sector 3, ceiling at 80).
fn level() -> LevelMap {
    LevelMap {
        anims_flat: Vec::new(),
        anims_wall: Vec::new(),
        bbox: rect(0, 576, 0, 256),
        linedefs: vec![
            wall(0, 0, 0, 256, 0, None),
            wall(0, 256, 256, 256, 0, None),
            wall(256, 256, 256, 160, 0, None),
            wall(256, 160, 256, 96, 0, Some(1)),
            wall(256, 96, 256, 0, 0, None),
            wall(256, 0, 0, 0, 0, None),
            wall(256, 160, 320, 160, 1, None),
            wall(320, 96, 256, 96, 1, None),
            wall(320, 96, 320, 160, 2, Some(1)),
        ],
        nodes: vec![
            Node {
                plane: Plane2 { normal: Vec2::new(ONE, 0), distance: 256 * ONE },
                linedefs: Vec::new(),
                child_bboxes: [rect(256, 576, 0, 256), rect(0, 256, 0, 256)],
                child_indices: [NodeChild::Node(1), NodeChild::Subsector(0)],
            },
            Node {
                plane: Plane2 { normal: Vec2::new(ONE, 0), distance: 320 * ONE },
                linedefs: Vec::new(),
                child_bboxes: [rect(320, 576, 0, 256), rect(256, 320, 96, 160)],
                child_indices: [NodeChild::Subsector(2), NodeChild::Subsector(1)],
            },
        ],
        sectors: vec![
            sector(0, 64, vec![0], vec![1]),
            sector(0, 0, vec![1], vec![0, 2, 3]),
            sector(0, 96, vec![2], vec![1]),
            sector(0, 80, vec![], vec![1]),
        ],
        subsectors: vec![
            block(rect(0, 256, 0, 256), 0),
            block(rect(256, 320, 96, 160), 1),
            block(rect(320, 576, 0, 256), 2),
        ],
        sky: AssetHandle::new(0),
        switches: Vec::new(),
    }
}

fn body(radius: i64, height: i64) -> Component {
    Component::BoxCollider(BoxCollider {
        height: height * ONE,
        radius: radius * ONE,
        solid_mask: SolidMask::all(),
    })
}

/// A level whose first room is 128 units high.
fn tall_level() -> LevelMap {
    let mut map = level();
    map.sectors[0].interval = Interval::new(0, 128 * ONE);
    map
}

struct Kinds {
    types: MobjTypes,
    templates: AssetStorage<EntityTemplate>,
}

const PLAYER_START: u16 = 1;
const IMP: u16 = 3001;
const LAMP: u16 = 2028;
const HANGING: u16 = 63;

fn kinds() -> Kinds {
    let mut templates = AssetStorage::new();
    let mut types = MobjTypes::new();
    let start = templates
        .insert(EntityTemplate::new().with_component(Component::SpawnPoint(SpawnPoint { player_num: 1 })))
        .ok()
        .unwrap();
    types.doomednums.insert(PLAYER_START, start);
    let imp = templates
        .insert(
            EntityTemplate::new()
                .with_component(body(20, 56))
                .with_component(Component::Velocity(Velocity::default())),
        )
        .ok()
        .unwrap();
    types.doomednums.insert(IMP, imp);
    types.names.push(("TROOP".to_string(), imp));
    let lamp = templates
        .insert(EntityTemplate::new().with_component(Component::SpriteRender(SpriteRender {
            sprite: AssetHandle::new(4),
            frame: 0,
            full_bright: true,
        })))
        .ok()
        .unwrap();
    types.doomednums.insert(LAMP, lamp);
    let hanging = templates
        .insert(
            EntityTemplate::new()
                .with_component(body(16, 24))
                .with_component(Component::SpawnOnCeiling(SpawnOnCeiling { offset: 24 * ONE })),
        )
        .ok()
        .unwrap();
    types.doomednums.insert(HANGING, hanging);
    let player = templates
        .insert(
            EntityTemplate::new()
                .with_component(body(16, 56))
                .with_component(Component::Velocity(Velocity::default())),
        )
        .ok()
        .unwrap();
    types.names.push(("PLAYER".to_string(), player));
    Kinds { types, templates }
}

/// What the index finds in the region, in the order of the entities' numbers.
fn found(q: &Quadtree, region: &AABB2) -> Vec<usize> {
    let mut ids: Vec<usize> = q.query(region).iter().map(|e| e.id).collect();
    ids.sort();
    ids
}

fn carries_nothing(world: &World, e: Entity) -> bool {
    world.transforms[e.id].is_none()
        && world.velocities[e.id].is_none()
        && world.box_colliders[e.id].is_none()
        && world.spawn_on_ceilings[e.id].is_none()
        && world.spawn_points[e.id].is_none()
        && world.sprite_renders[e.id].is_none()
        && world.use_actions[e.id].is_none()
        && world.door_actives[e.id].is_none()
        && world.switch_actives[e.id].is_none()
        && world.linedef_refs[e.id].is_none()
        && world.sector_refs[e.id].is_none()
        && world.map_dynamics[e.id].is_none()
        && world.is_alive(e)
}

fn thing(x: i64, y: i64, angle: i64, doomednum: u16) -> Thing {
    Thing { position: Vec2::new(x * ONE, y * ONE), angle, doomednum, flags: 7 }
}

#[test]
fn tables_find_kinds_by_number_and_by_name() {
    let k = kinds();
    assert_eq!(k.types.doomednum(IMP), Some(AssetHandle::new(1)));
    assert_eq!(k.types.doomednum(9999), None);
    assert_eq!(k.types.name(&"PLAYER".to_string()), Some(AssetHandle::new(4)));
    assert_eq!(k.types.name(&"TROOP".to_string()), Some(AssetHandle::new(1)));
    assert_eq!(k.types.name(&"player".to_string()), None);
    assert_eq!(lookup(&k.types.doomednums, LAMP), Some(AssetHandle::new(2)));
    assert_eq!(lookup(&k.types.doomednums, 0), None);
    assert!(k.templates.get(&AssetHandle::new(4)).is_some());
    assert!(k.templates.get(&AssetHandle::new(5)).is_none());
    let fresh = MobjTypes::new();
    assert!(fresh.names.is_empty() && fresh.doomednums.is_empty());
}

#[test]
fn a_name_listed_twice_goes_by_its_first_entry() {
    let mut types = MobjTypes::new();
    types.names.push(("A".to_string(), AssetHandle::new(1)));
    types.names.push(("B".to_string(), AssetHandle::new(2)));
    types.names.push(("A".to_string(), AssetHandle::new(3)));
    assert_eq!(types.name(&"A".to_string()), Some(AssetHandle::new(1)));
    assert_eq!(types.name(&"B".to_string()), Some(AssetHandle::new(2)));
}

#[test]
fn an_entity_without_a_marker_is_placed_on_the_floor() {
    let mut map = tall_level();
    map.sectors[2].interval = Interval::new(16 * ONE, 96 * ONE);
    let k = kinds();
    let mut world = World::new();
    let mut quadtree = Quadtree::new(map.bbox);
    let imp = k.templates.get(&AssetHandle::new(1)).unwrap();
    let e = spawn_from_template(
        imp,
        &mut world,
        &map,
        &mut quadtree,
        Vec2::new(400 * ONE, 100 * ONE),
        Vec3::new(0, 0, 90),
    );
    assert_eq!(e, Entity { id: 0 });
    assert_eq!(
        world.transforms[0],
        Some(Transform {
            position: Vec3::new(400 * ONE, 100 * ONE, 16 * ONE),
            rotation: Vec3::new(0, 0, 90)
        })
    );
    assert_eq!(world.velocities[0], Some(Velocity::default()));
    assert!(world.box_colliders[0].is_some());
    assert_eq!(world.spawn_on_ceilings[0], None);
    assert!(world.is_alive(e) && world.is_valid() && world.is_moving_valid());
    // Its rectangle in the index: twenty units each way.
    assert_eq!(quadtree.len(), 1);
    assert_eq!(found(&quadtree, &rect(419, 420, 119, 120)), vec![e.id]);
    assert_eq!(found(&quadtree, &rect(379, 380, 79, 80)), vec![e.id]);
    assert_eq!(found(&quadtree, &rect(421, 430, 100, 101)), Vec::<usize>::new());
    assert_eq!(quadtree.bbox(), map.bbox);
}

#[test]
fn a_ceiling_marker_hangs_the_entity_and_is_used_up() {
    let map = tall_level();
    let k = kinds();
    let mut world = World::new();
    let mut quadtree = Quadtree::new(map.bbox);
    let hanging = k.templates.get(&AssetHandle::new(3)).unwrap();
    let first = spawn_from_template(
        hanging,
        &mut world,
        &map,
        &mut quadtree,
        Vec2::new(100 * ONE, 100 * ONE),
        Vec3::zero(),
    );
    assert_eq!(world.transforms[first.id].unwrap().position, Vec3::new(100 * ONE, 100 * ONE, 104 * ONE));
    assert_eq!(world.spawn_on_ceilings[first.id], None);
    // The template still carries its marker: a second entity hangs as well.
    assert_eq!(
        hanging.position(doom_core::components::ComponentKind::SpawnOnCeiling),
        Some(1)
    );
    let second = spawn_from_template(
        hanging,
        &mut world,
        &map,
        &mut quadtree,
        Vec2::new(50 * ONE, 60 * ONE),
        Vec3::zero(),
    );
    assert_eq!(second, Entity { id: 1 });
    assert_eq!(world.transforms[second.id].unwrap().position, Vec3::new(50 * ONE, 60 * ONE, 104 * ONE));
    assert_eq!(world.spawn_on_ceilings[second.id], None);
    assert_eq!(world.transforms[first.id].unwrap().position.z, 104 * ONE);
    assert_eq!(quadtree.len(), 2);
}

#[test]
fn an_entity_without_a_collider_stays_out_of_the_index() {
    let map = tall_level();
    let k = kinds();
    let mut world = World::new();
    let mut quadtree = Quadtree::new(map.bbox);
    let lamp = k.templates.get(&AssetHandle::new(2)).unwrap();
    let e = spawn_from_template(lamp, &mut world, &map, &mut quadtree, Vec2::new(ONE, ONE), Vec3::zero());
    assert_eq!(quadtree.len(), 0);
    assert_eq!(world.transforms[e.id].unwrap().position, Vec3::new(ONE, ONE, 0));
    assert!(world.sprite_renders[e.id].unwrap().full_bright);
}

#[test]
fn things_are_spawned_in_order() {
    let map = tall_level();
    let k = kinds();
    let mut world = World::new();
    let before = world.create_entity();
    let mut quadtree = Quadtree::new(map.bbox);
    let things = vec![
        thing(100, 100, 90, PLAYER_START),
        thing(400, 50, 180, IMP),
        thing(120, 30, 0, HANGING),
        thing(10, 10, 270, LAMP),
    ];
    let r = spawn_things(&things, &mut world, &map, &k.types, &k.templates, &mut quadtree);
    assert_eq!(r, Ok(()));
    assert_eq!(world.len(), 5);
    assert!(carries_nothing(&world, before));
    assert_eq!(world.spawn_points[1], Some(SpawnPoint { player_num: 1 }));
    assert_eq!(
        world.transforms[1],
        Some(Transform { position: Vec3::new(100 * ONE, 100 * ONE, 0), rotation: Vec3::new(0, 0, 90) })
    );
    assert_eq!(world.transforms[2].unwrap().position, Vec3::new(400 * ONE, 50 * ONE, 0));
    assert_eq!(world.transforms[2].unwrap().rotation, Vec3::new(0, 0, 180));
    assert_eq!(world.transforms[3].unwrap().position, Vec3::new(120 * ONE, 30 * ONE, 104 * ONE));
    assert_eq!(world.spawn_on_ceilings[3], None);
    assert_eq!(world.transforms[4].unwrap().position, Vec3::new(10 * ONE, 10 * ONE, 0));
    assert_eq!(found(&quadtree, &map.bbox), vec![2, 3]);
}

#[test]
fn an_unknown_kind_stops_the_spawning_and_keeps_what_came_before() {
    let map = tall_level();
    let k = kinds();
    let mut world = World::new();
    let mut quadtree = Quadtree::new(map.bbox);
    let things = vec![thing(400, 50, 0, IMP), thing(1, 1, 0, 4242), thing(100, 100, 0, IMP)];
    let r = spawn_things(&things, &mut world, &map, &k.types, &k.templates, &mut quadtree);
    assert_eq!(r, Err(SpawnError::DoomednumNotFound(4242)));
    assert_eq!(world.len(), 1);
    assert_eq!(quadtree.len(), 1);
    assert!(world.box_colliders[0].is_some());
}

#[test]
fn no_things_no_entities() {
    let map = tall_level();
    let k = kinds();
    let mut world = World::new();
    let mut quadtree = Quadtree::new(map.bbox);
    let r = spawn_things(&Vec::new(), &mut world, &map, &k.types, &k.templates, &mut quadtree);
    assert_eq!(r, Ok(()));
    assert_eq!(world.len(), 0);
}

#[test]
fn the_player_appears_where_the_first_start_is() {
    let map = tall_level();
    let k = kinds();
    let mut world = World::new();
    let mut quadtree = Quadtree::new(map.bbox);
    let things = vec![thing(400, 50, 0, IMP), thing(100, 120, 45, PLAYER_START), thing(30, 30, 10, PLAYER_START)];
    assert_eq!(spawn_things(&things, &mut world, &map, &k.types, &k.templates, &mut quadtree), Ok(()));
    assert_eq!(
        find_player_start(&world, 1),
        Some(Transform { position: Vec3::new(100 * ONE, 120 * ONE, 0), rotation: Vec3::new(0, 0, 45) })
    );
    assert_eq!(find_player_start(&world, 2), None);
    let r = spawn_player(&mut world, &map, &k.types, &k.templates, &mut quadtree);
    assert_eq!(r, Ok(Entity { id: 3 }));
    assert_eq!(
        world.transforms[3],
        Some(Transform { position: Vec3::new(100 * ONE, 120 * ONE, 0), rotation: Vec3::new(0, 0, 45) })
    );
    assert_eq!(world.velocities[3], Some(Velocity::default()));
    assert_eq!(world.spawn_points[3], None);
    assert_eq!(
        world.box_colliders[3],
        Some(BoxCollider { height: 56 * ONE, radius: 16 * ONE, solid_mask: SolidMask::all() })
    );
    assert_eq!(found(&quadtree, &rect(100, 101, 120, 121)), vec![3]);
}

#[test]
fn without_a_start_there_is_no_player() {
    let map = tall_level();
    let k = kinds();
    let mut world = World::new();
    let mut quadtree = Quadtree::new(map.bbox);
    let things = vec![thing(400, 50, 0, IMP)];
    assert_eq!(spawn_things(&things, &mut world, &map, &k.types, &k.templates, &mut quadtree), Ok(()));
    let r = spawn_player(&mut world, &map, &k.types, &k.templates, &mut quadtree);
    assert_eq!(r, Err(SpawnError::NoPlayerStart));
    assert_eq!(world.len(), 1);
    assert_eq!(quadtree.len(), 1);
}

#[test]
fn without_a_player_kind_there_is_no_player() {
    let map = tall_level();
    let mut k = kinds();
    k.types.names.pop();
    let mut world = World::new();
    let mut quadtree = Quadtree::new(map.bbox);
    let things = vec![thing(100, 120, 45, PLAYER_START)];
    assert_eq!(spawn_things(&things, &mut world, &map, &k.types, &k.templates, &mut quadtree), Ok(()));
    let r = spawn_player(&mut world, &map, &k.types, &k.templates, &mut quadtree);
    assert_eq!(r, Err(SpawnError::NameNotFound));
    assert_eq!(world.len(), 1);
}

#[test]
fn animations_start_at_their_first_frame() {
    let anims = vec![
        (AssetHandle::new(5), Anim { frames: vec![AssetHandle::new(5), AssetHandle::new(6)], frame_time: 8 }),
        (AssetHandle::new(9), Anim { frames: Vec::new(), frame_time: 3 }),
    ];
    assert_eq!(
        start_anims(&anims),
        vec![
            (AssetHandle::new(5), AnimState { frame: 0, time_left: 8 }),
            (AssetHandle::new(9), AnimState { frame: 0, time_left: 3 }),
        ]
    );
}

#[test]
fn a_sector_entity_stands_in_the_middle_of_its_linedefs() {
    let map = tall_level();
    assert_eq!(sector_transform(&map, 0).position, Vec3::new(128 * ONE, 128 * ONE, 0));
    assert_eq!(sector_transform(&map, 1).position, Vec3::new(288 * ONE, 128 * ONE, 0));
    // Sector 2 has one linedef, from (320, 96) to (320, 160).
    assert_eq!(sector_transform(&map, 2).position, Vec3::new(320 * ONE, 128 * ONE, 0));
    // A sector without linedefs.
    assert_eq!(sector_transform(&map, 3).position, Vec3::zero());
    assert_eq!(sector_transform(&map, 0).rotation, Vec3::zero());
}

fn specials() -> (AssetStorage<EntityTemplate>, LinedefTypes, SectorTypes) {
    let mut templates = AssetStorage::new();
    let door = templates
        .insert(EntityTemplate::new().with_component(Component::UseAction(UseAction::DoorUse(
            DoorUse {
                open_sound: AssetHandle::new(1),
                close_sound: AssetHandle::new(2),
                speed: 2 * ONE,
                wait_time: 4 * SECOND,
            },
        ))))
        .ok()
        .unwrap();
    let glow = templates
        .insert(EntityTemplate::new().with_component(Component::SpriteRender(SpriteRender {
            sprite: AssetHandle::new(3),
            frame: 1,
            full_bright: true,
        })))
        .ok()
        .unwrap();
    let mut linedef_types = LinedefTypes { doomednums: HashMap::new() };
    linedef_types.doomednums.insert(1, door);
    let mut sector_types = SectorTypes { doomednums: HashMap::new() };
    sector_types.doomednums.insert(8, glow);
    (templates, linedef_types, sector_types)
}

#[test]
fn a_level_gets_an_entity_for_itself_each_linedef_and_each_sector() {
    let mut map = tall_level();
    map.linedefs[3].special_type = 1;
    map.sectors[2].special_type = 8;
    map.sectors[2].light_level = 3 * ONE;
    map.anims_wall = vec![(AssetHandle::new(5), Anim { frames: Vec::new(), frame_time: 8 })];
    map.linedefs[0].sidedefs[0] = Some(Sidedef {
        texture_offset: Vec2::new(ONE, 0),
        textures: [TextureType::Sky, TextureType::Absent, TextureType::Normal(AssetHandle::new(77))],
        sector_index: 0,
    });
    let (templates, linedef_types, sector_types) = specials();
    let mut world = World::new();
    let earlier = world.create_entity();
    let r = spawn_map_entities(
        &mut world,
        &map,
        AssetHandle::new(9),
        &templates,
        &linedef_types,
        &sector_types,
    );
    assert_eq!(r, Ok(Entity { id: 1 }));
    assert_eq!(world.len(), 1 + 1 + 9 + 4);
    assert!(world.is_valid());
    assert!(carries_nothing(&world, earlier));
    assert_eq!(world.map_entity(), Some(Entity { id: 1 }));
    let live = world.map_dynamics[1].as_ref().unwrap();
    assert!(live.is_valid(&map));
    assert_eq!(live.map, AssetHandle::new(9));
    assert_eq!(live.anim_states_wall, vec![(AssetHandle::new(5), AnimState { frame: 0, time_left: 8 })]);
    assert!(live.anim_states_flat.is_empty());
    assert_eq!(live.linedefs.len(), 9);
    assert_eq!(live.sectors.len(), 4);
    for (i, l) in live.linedefs.iter().enumerate() {
        assert_eq!(l.entity, Entity { id: 2 + i });
        assert_eq!(l.texture_offset, Vec2::new(0, 0));
        assert_eq!(l.sidedefs[0].is_some(), map.linedefs[i].sidedefs[0].is_some());
        assert_eq!(l.sidedefs[1].is_some(), map.linedefs[i].sidedefs[1].is_some());
        assert_eq!(
            world.linedef_refs[2 + i],
            Some(LinedefRef { map_entity: Entity { id: 1 }, index: i })
        );
        assert_eq!(world.sector_refs[2 + i], None);
        assert_eq!(world.transforms[2 + i], None);
    }
    assert_eq!(
        live.linedefs[0].sidedefs[0].unwrap().textures,
        [TextureType::Sky, TextureType::Absent, TextureType::Normal(AssetHandle::new(77))]
    );
    for (i, s) in live.sectors.iter().enumerate() {
        assert_eq!(
            *s,
            SectorDynamic {
                entity: Entity { id: 11 + i },
                light_level: map.sectors[i].light_level,
                interval: map.sectors[i].interval,
            }
        );
        assert_eq!(
            world.sector_refs[11 + i],
            Some(SectorRef { map_entity: Entity { id: 1 }, index: i })
        );
        assert_eq!(world.linedef_refs[11 + i], None);
        assert_eq!(world.transforms[11 + i], Some(sector_transform(&map, i)));
    }
    // The special linedef and the special sector got their templates.
    assert!(matches!(world.use_actions[5], Some(UseAction::DoorUse(_))));
    assert_eq!(world.use_actions.iter().filter(|a| a.is_some()).count(), 1);
    assert_eq!(world.sprite_renders[13].map(|s| s.frame), Some(1));
    assert_eq!(world.sprite_renders.iter().filter(|a| a.is_some()).count(), 1);
    assert_eq!(world.transforms[1], None);
}

#[test]
fn an_unknown_linedef_type_stops_the_spawning() {
    let mut map = tall_level();
    map.linedefs[2].special_type = 40;
    map.linedefs[5].special_type = 41;
    map.sectors[0].special_type = 99;
    let (templates, linedef_types, sector_types) = specials();
    let mut world = World::new();
    let r = spawn_map_entities(
        &mut world,
        &map,
        AssetHandle::new(9),
        &templates,
        &linedef_types,
        &sector_types,
    );
    assert_eq!(r, Err(SpawnError::LinedefTypeNotFound(40)));
    assert_eq!(world.map_entity(), None);
    assert!(world.is_valid());
    // The level's entity, two whole linedefs, and the one that failed.
    assert_eq!(world.len(), 4);
    assert_eq!(world.linedef_refs[3], Some(LinedefRef { map_entity: Entity { id: 0 }, index: 2 }));
    assert_eq!(world.use_actions[3], None);
}

#[test]
fn an_unknown_sector_type_stops_the_spawning() {
    let mut map = tall_level();
    map.linedefs[3].special_type = 1;
    map.sectors[1].special_type = 99;
    let (templates, linedef_types, sector_types) = specials();
    let mut world = World::new();
    let r = spawn_map_entities(
        &mut world,
        &map,
        AssetHandle::new(9),
        &templates,
        &linedef_types,
        &sector_types,
    );
    assert_eq!(r, Err(SpawnError::SectorTypeNotFound(99)));
    assert_eq!(world.map_entity(), None);
    // The level's entity, nine linedefs, one whole sector, and the one
    // that failed.
    assert_eq!(world.len(), 12);
    assert!(matches!(world.use_actions[4], Some(UseAction::DoorUse(_))));
    assert_eq!(world.sector_refs[11], Some(SectorRef { map_entity: Entity { id: 0 }, index: 1 }));
    assert_eq!(world.transforms[11], Some(sector_transform(&map, 1)));
    assert_eq!(world.sprite_renders[11], None);
}

#[test]
fn tables_take_entries_one_by_one() {
    let mut mobjs = MobjTypes::new();
    mobjs.insert_name("IMP".to_string(), AssetHandle::new(4));
    mobjs.insert_name("IMP".to_string(), AssetHandle::new(5));
    mobjs.insert(3001, AssetHandle::new(4));
    mobjs.insert(3001, AssetHandle::new(6));
    assert_eq!(mobjs.name(&"IMP".to_string()), Some(AssetHandle::new(4)));
    assert_eq!(mobjs.name(&"TROOP".to_string()), None);
    assert_eq!(mobjs.doomednum(3001), Some(AssetHandle::new(6)));
    assert_eq!(mobjs.doomednum(1), None);
    let mut linedefs = LinedefTypes::new();
    linedefs.insert(1, AssetHandle::new(2));
    assert_eq!(lookup(&linedefs.doomednums, 1), Some(AssetHandle::new(2)));
    assert_eq!(lookup(&linedefs.doomednums, 2), None);
    let mut sectors = SectorTypes::new();
    assert_eq!(lookup(&sectors.doomednums, 9), None);
    sectors.insert(9, AssetHandle::new(3));
    assert_eq!(lookup(&sectors.doomednums, 9), Some(AssetHandle::new(3)));
}
