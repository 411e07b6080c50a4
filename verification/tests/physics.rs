use doom_core::assets::{AssetHandle, TextureType};
use doom_core::components::{Transform, Velocity};
use doom_core::fixed::{LIMIT, ONE};
use doom_core::geometry::{Interval, Line2, Plane2, Vec2, Vec3, AABB2, AABB3};
use doom_core::map::{
    LevelMap, Linedef, LinedefDynamic, MapDynamic, Node, NodeChild, Sector, SectorDynamic, Seg,
    Sidedef, SidedefDynamic, Subsector,
};
use doom_core::physics::{
    box_of, deflected, footprint_overlap, move_step, sector_overlap, trace_boxes, BoxCollider,
    Intersect, MoveTracer, PhysicsSystem, SolidMask,
};
use doom_core::world::{Entity, World};

const SECOND: u64 = 1_000_000_000;

fn rect(x0: i64, x1: i64, y0: i64, y1: i64) -> AABB2 {
    AABB2 { x: Interval::new(x0 * ONE, x1 * ONE), y: Interval::new(y0 * ONE, y1 * ONE) }
}

fn sign(v: i64) -> i64 {
    if v > 0 {
        1
    } else if v < 0 {
        -1
    } else {
        0
    }
}

fn side(sector: usize) -> Option<Sidedef> {
    Some(Sidedef {
        texture_offset: Vec2::new(0, 0),
        textures: [TextureType::Absent, TextureType::Absent, TextureType::Absent],
        sector_index: sector,
    })
}

/// An axis-aligned wall from (x0, y0) to (x1, y1), in whole units. Its front
/// is on the right of its direction.
fn wall(x0: i64, y0: i64, x1: i64, y1: i64, front: usize, back: Option<usize>) -> Linedef {
    let mut bbox = AABB2::empty();
    bbox.add_point(Vec2::new(x0 * ONE, y0 * ONE));
    bbox.add_point(Vec2::new(x1 * ONE, y1 * ONE));
    Linedef {
        line: Line2::new(
            Vec2::new(x0 * ONE, y0 * ONE),
            Vec2::new((x1 - x0) * ONE, (y1 - y0) * ONE),
        ),
        normal: Vec2::new(sign(y1 - y0) * ONE, -sign(x1 - x0) * ONE),
        bbox,
        flags: 0,
        solid_mask: if back.is_some() { SolidMask::empty() } else { SolidMask::all() },
        special_type: 0,
        sector_tag: 0,
        sidedefs: [side(front), back.and_then(side)],
    }
}

fn seg(nx: i64, ny: i64, low: i64, high: i64) -> Seg {
    Seg {
        line: Line2::new(Vec2::new(0, 0), Vec2::new(0, 0)),
        normal: Vec2::new(nx * ONE, ny * ONE),
        interval: Interval::new(low * ONE, high * ONE),
        linedef: None,
    }
}

fn block(b: AABB2, sector: usize) -> Subsector {
    let (x0, x1, y0, y1) = (b.x.min / ONE, b.x.max / ONE, b.y.min / ONE, b.y.max / ONE);
    Subsector {
        segs: vec![seg(1, 0, x0, x1), seg(-1, 0, -x1, -x0), seg(0, 1, y0, y1), seg(0, -1, -y1, -y0)],
        bbox: b,
        linedefs: Vec::new(),
        sector_index: sector,
    }
}

fn sector(floor: i64, ceiling: i64, subsectors: Vec<usize>, neighbours: Vec<usize>) -> Sector {
    Sector {
        interval: Interval::new(floor * ONE, ceiling * ONE),
        textures: [TextureType::Absent, TextureType::Absent],
        light_level: ONE,
        special_type: 0,
        sector_tag: 0,
        linedefs: Vec::new(),
        subsectors,
        neighbours,
    }
}

/// A room of 256 by 256 units (sector 0), a passage of 64 by 64 units in the
/// middle of its east wall (sector 1, ceiling at `passage_ceiling`), and a
/// second room beyond it (sector 2).
fn rooms(passage_ceiling: i64) -> LevelMap {
    LevelMap {
        anims_flat: Vec::new(),
        anims_wall: Vec::new(),
        bbox: rect(0, 576, 0, 256),
        linedefs: vec![
            wall(0, 0, 0, 256, 0, None),
            wall(0, 256, 256, 256, 0, None),
            wall(256, 256, 256, 160, 0, None),
            wall(256, 160, 256, 96, 0, Some(1)),
            wall(256, 96, 256, 0, 0, None),
            wall(256, 0, 0, 0, 0, None),
            wall(256, 160, 320, 160, 1, None),
            wall(320, 96, 256, 96, 1, None),
            wall(320, 96, 320, 160, 2, Some(1)),
        ],
        nodes: vec![
            Node {
                plane: Plane2 { normal: Vec2::new(ONE, 0), distance: 256 * ONE },
                linedefs: Vec::new(),
                child_bboxes: [rect(256, 576, 0, 256), rect(0, 256, 0, 256)],
                child_indices: [NodeChild::Node(1), NodeChild::Subsector(0)],
            },
            Node {
                plane: Plane2 { normal: Vec2::new(ONE, 0), distance: 320 * ONE },
                linedefs: Vec::new(),
                child_bboxes: [rect(320, 576, 0, 256), rect(256, 320, 96, 160)],
                child_indices: [NodeChild::Subsector(2), NodeChild::Subsector(1)],
            },
        ],
        sectors: vec![
            sector(0, 128, vec![0], vec![1]),
            sector(0, passage_ceiling, vec![1], vec![0, 2]),
            sector(0, 128, vec![2], vec![1]),
        ],
        subsectors: vec![
            block(rect(0, 256, 0, 256), 0),
            block(rect(256, 320, 96, 160), 1),
            block(rect(320, 576, 0, 256), 2),
        ],
        sky: AssetHandle::new(0),
        switches: Vec::new(),
    }
}

fn live(map: &LevelMap) -> MapDynamic {
    MapDynamic {
        anim_states_flat: Vec::new(),
        anim_states_wall: Vec::new(),
        map: AssetHandle::new(1),
        linedefs: map
            .linedefs
            .iter()
            .map(|l| LinedefDynamic {
                entity: Entity { id: 0 },
                sidedefs: [
                    l.sidedefs[0].map(|s| SidedefDynamic { textures: s.textures }),
                    l.sidedefs[1].map(|s| SidedefDynamic { textures: s.textures }),
                ],
                texture_offset: Vec2::new(0, 0),
            })
            .collect(),
        sectors: map
            .sectors
            .iter()
            .map(|s| SectorDynamic {
                entity: Entity { id: 0 },
                light_level: s.light_level,
                interval: s.interval,
            })
            .collect(),
    }
}

fn body() -> BoxCollider {
    BoxCollider { height: 56 * ONE, radius: 16 * ONE, solid_mask: SolidMask::all() }
}

fn at(x: i64, y: i64, z: i64) -> Vec3 {
    Vec3::new(x * ONE, y * ONE, z * ONE)
}

/// A world that holds the level's live state in its first entity.
fn world_with(map: &LevelMap) -> World {
    let mut world = World::new();
    let e = world.create_entity();
    world.map_dynamics[e.id] = Some(live(map));
    world
}

fn put(world: &mut World, position: Vec3, velocity: Vec3) -> Entity {
    let e = world.create_entity();
    world.transforms[e.id] = Some(Transform { position, rotation: Vec3::zero() });
    world.velocities[e.id] = Some(Velocity { velocity });
    world.box_colliders[e.id] = Some(body());
    e
}

fn position(world: &World, e: Entity) -> Vec3 {
    world.transforms[e.id].unwrap().position
}

fn velocity(world: &World, e: Entity) -> Vec3 {
    world.velocities[e.id].unwrap().velocity
}

#[test]
fn the_rooms_are_a_valid_level() {
    let map = rooms(128);
    assert!(map.is_valid());
    assert!(live(&map).is_valid(&map));
    let mut short = live(&map);
    short.sectors.pop();
    assert!(!short.is_valid(&map));
}

#[test]
fn move_step_scales_velocity_by_time() {
    assert_eq!(move_step(at(35, -70, 0), SECOND), at(35, -70, 0));
    assert_eq!(move_step(at(35, -70, 7), 28_571_429), Vec3::new(65536, -131073, 13107));
    assert_eq!(move_step(at(35, 0, 0), 0), Vec3::zero());
    assert_eq!(move_step(Vec3::new(LIMIT, -LIMIT, 1), 2 * SECOND), Vec3::new(LIMIT, -LIMIT, 2));
}

#[test]
fn deflection_takes_out_the_normal_part_and_a_hundredth_more() {
    // Heading east into a wall that faces west.
    let v = deflected(at(20, 0, 0), Vec3::new(-ONE, 0, 0));
    assert_eq!(v, Vec3::new(20 * ONE - 1323828, 0, 0));
    // The part along the wall is kept.
    let v = deflected(at(20, 20, 0), Vec3::new(-ONE, 0, 0));
    assert_eq!(v, Vec3::new(-13108, 20 * ONE, 0));
    // Falling onto a floor.
    let v = deflected(at(3, 0, -10), Vec3::new(0, 0, ONE));
    assert_eq!(v, Vec3::new(3 * ONE, 0, 6554));
    // Nothing is taken from a velocity along the surface.
    assert_eq!(deflected(at(0, 5, 0), Vec3::new(ONE, 0, 0)), at(0, 5, 0));
}

#[test]
fn deflected_velocity_no_longer_leads_into_the_surface() {
    let normals = [
        Vec3::new(ONE, 0, 0),
        Vec3::new(-ONE, 0, 0),
        Vec3::new(0, ONE, 0),
        Vec3::new(0, 0, -ONE),
        // Unit vectors rounded to the scale: (0.6, 0.8, 0) and the diagonal.
        Vec3::new(39322, 52429, 0),
        Vec3::new(-46341, 46341, 0),
    ];
    let speeds = [-1000 * ONE, -ONE, -1, 0, 1, 3, ONE, 777 * ONE + 13];
    for n in normals {
        for x in speeds {
            for y in speeds {
                let v = Vec3::new(x, y, x / 2);
                let before = v.dot(n);
                let after = deflected(v, n).dot(n);
                if before <= 0 {
                    assert!(after >= 0, "{:?} off {:?}", v, n);
                }
                if before >= 0 {
                    assert!(after <= 0, "{:?} off {:?}", v, n);
                }
            }
        }
    }
}

#[test]
fn swept_box_meets_a_box_in_its_way() {
    let mover = box_of(&body(), at(100, 128, 0));
    let other = box_of(&body(), at(150, 128, 0));
    let hit = trace_boxes(&mover, at(30, 0, 0), &other, SolidMask::monster());
    assert_eq!(
        hit,
        Some(Intersect {
            fraction: 39321,
            normal: Vec3::new(-ONE, 0, 0),
            solid_mask: SolidMask::monster()
        })
    );
}

#[test]
fn swept_box_misses_a_box_beside_its_path() {
    let mover = box_of(&body(), at(100, 128, 0));
    // No overlap in y, and no movement in y.
    let beside = box_of(&body(), at(150, 200, 0));
    assert_eq!(trace_boxes(&mover, at(30, 0, 0), &beside, SolidMask::all()), None);
    // Too far to reach in this step.
    let far = box_of(&body(), at(200, 128, 0));
    assert_eq!(trace_boxes(&mover, at(30, 0, 0), &far, SolidMask::all()), None);
    // Behind the mover.
    let behind = box_of(&body(), at(50, 128, 0));
    assert_eq!(trace_boxes(&mover, at(30, 0, 0), &behind, SolidMask::all()), None);
}

#[test]
fn a_box_does_not_meet_itself() {
    let mover = box_of(&body(), at(100, 128, 0));
    assert_eq!(trace_boxes(&mover, at(30, 0, 0), &mover, SolidMask::all()), None);
}

#[test]
fn a_still_axis_does_not_constrain_when_the_ranges_touch() {
    let mover = box_of(&body(), at(100, 128, 0));
    // Touching in y: 144 is the top of one and the bottom of the other.
    let other = box_of(&body(), at(150, 160, 0));
    let hit = trace_boxes(&mover, at(36, 0, 0), &other, SolidMask::all());
    assert_eq!(hit.map(|h| h.fraction), Some(ONE / 2));
    assert_eq!(hit.map(|h| h.normal), Some(Vec3::new(-ONE, 0, 0)));
}

#[test]
fn the_normal_is_on_the_axis_that_is_entered_last() {
    let mover = box_of(&body(), at(100, 100, 0));
    let other = box_of(&body(), at(150, 140, 0));
    // x is entered at 18/40, y at 8/40: x decides.
    let hit = trace_boxes(&mover, at(40, 40, 0), &other, SolidMask::all()).unwrap();
    assert_eq!(hit.fraction, 29491);
    assert_eq!(hit.normal, Vec3::new(-ONE, 0, 0));
    // Coming down onto a box from above.
    let above = box_of(&body(), at(150, 140, 100));
    let hit = trace_boxes(&above, at(0, 0, -88), &other, SolidMask::all()).unwrap();
    assert_eq!(hit.fraction, ONE / 2);
    assert_eq!(hit.normal, Vec3::new(0, 0, ONE));
}

#[test]
fn footprint_test_uses_every_segment_normal() {
    let map = rooms(128);
    let passage = &map.subsectors[1];
    assert!(footprint_overlap(&rect(250, 260, 100, 110), passage));
    assert!(footprint_overlap(&rect(240, 256, 100, 110), passage));
    assert!(!footprint_overlap(&rect(230, 250, 100, 110), passage));
    assert!(!footprint_overlap(&rect(260, 300, 20, 90), passage));
    assert!(sector_overlap(&map, 1, &rect(300, 330, 150, 170)));
    assert!(!sector_overlap(&map, 1, &rect(100, 120, 100, 120)));
    assert!(sector_overlap(&map, 0, &rect(100, 120, 100, 120)));
}

#[test]
fn a_slanted_segment_separates_what_its_box_does_not() {
    // A triangle with corners (0,0), (8,0), (0,8): the slanted side has the
    // normal (0.6, 0.8) rounded up, and x + y <= 8 along it.
    let n = Vec2::new(46341, 46341);
    let triangle = Subsector {
        segs: vec![
            seg(-1, 0, -8, 0),
            seg(0, -1, -8, 0),
            Seg {
                line: Line2::new(Vec2::new(8 * ONE, 0), Vec2::new(-8 * ONE, 8 * ONE)),
                normal: n,
                interval: Interval::new(0, 8 * 46341),
                linedef: None,
            },
        ],
        bbox: rect(0, 8, 0, 8),
        linedefs: Vec::new(),
        sector_index: 0,
    };
    assert!(footprint_overlap(&rect(1, 2, 1, 2), &triangle));
    assert!(footprint_overlap(&rect(3, 5, 3, 5), &triangle));
    // Inside the bounding box but beyond the slanted side.
    assert!(!footprint_overlap(&rect(6, 7, 6, 7), &triangle));
}

#[test]
fn falling_box_meets_the_floor() {
    let map = rooms(128);
    let md = live(&map);
    let world = World::new();
    let tracer = MoveTracer {
        map: &map,
        map_dynamic: &md,
        transforms: &world.transforms,
        box_colliders: &world.box_colliders,
    };
    let mover = box_of(&body(), at(128, 128, 10));
    let hit = tracer.trace_sector(&mover, at(0, 0, -20), 0);
    assert_eq!(
        hit,
        Some(Intersect { fraction: ONE / 2, normal: Vec3::new(0, 0, ONE), solid_mask: SolidMask::all() })
    );
    // The floor of a sector the box is not over.
    assert_eq!(tracer.trace_sector(&mover, at(0, 0, -20), 2), None);
    // Not far enough to reach the floor.
    assert_eq!(tracer.trace_sector(&mover, at(0, 0, -5), 0), None);
    // Already below the floor and going further down.
    let sunk = box_of(&body(), at(128, 128, -10));
    assert_eq!(tracer.trace_sector(&sunk, at(0, 0, -5), 0), None);
    // No vertical movement, no floor or ceiling hit.
    assert_eq!(tracer.trace_sector(&mover, at(5, 0, 0), 0), None);
}

#[test]
fn rising_box_meets_the_ceiling() {
    let map = rooms(128);
    let md = live(&map);
    let world = World::new();
    let tracer = MoveTracer {
        map: &map,
        map_dynamic: &md,
        transforms: &world.transforms,
        box_colliders: &world.box_colliders,
    };
    // Top at 66; the ceiling at 128 is 62 away, the step is 124.
    let mover = box_of(&body(), at(128, 128, 10));
    let hit = tracer.trace_sector(&mover, at(0, 0, 124), 0);
    assert_eq!(
        hit,
        Some(Intersect {
            fraction: ONE / 2,
            normal: Vec3::new(0, 0, -ONE),
            solid_mask: SolidMask::all()
        })
    );
}

#[test]
fn box_meets_a_wall_with_its_leading_corner() {
    let map = rooms(128);
    let md = live(&map);
    let world = World::new();
    let tracer = MoveTracer {
        map: &map,
        map_dynamic: &md,
        transforms: &world.transforms,
        box_colliders: &world.box_colliders,
    };
    // East edge at 246, ten units from the wall at x = 256; the wall piece
    // from y = 96 down to y = 0 is linedef 4.
    let mover = box_of(&body(), at(230, 40, 0));
    let hit = tracer.trace_linedef(&mover, at(20, 0, 0), 4);
    assert_eq!(
        hit,
        Some(Intersect {
            fraction: ONE / 2,
            normal: Vec3::new(-ONE, 0, 0),
            solid_mask: SolidMask::all()
        })
    );
    // Moving away from the wall.
    assert_eq!(tracer.trace_linedef(&mover, at(-20, 0, 0), 4), None);
    // Not reaching it.
    assert_eq!(tracer.trace_linedef(&mover, at(9, 0, 0), 4), None);
    // A wall whose box the swept box does not overlap.
    assert_eq!(tracer.trace_linedef(&mover, at(20, 0, 0), 0), None);
}

#[test]
fn a_hit_at_the_very_end_of_the_step_counts() {
    let map = rooms(128);
    let md = live(&map);
    let world = World::new();
    let tracer = MoveTracer {
        map: &map,
        map_dynamic: &md,
        transforms: &world.transforms,
        box_colliders: &world.box_colliders,
    };
    let mover = box_of(&body(), at(230, 40, 0));
    let hit = tracer.trace_linedef(&mover, at(10, 0, 0), 4).unwrap();
    assert_eq!(hit.fraction, ONE);
    assert_eq!(hit.normal, Vec3::new(-ONE, 0, 0));
    // The whole trace keeps it: it is the only thing in the way.
    let found = tracer.trace(&mover, at(10, 0, 0), SolidMask::non_monster()).unwrap();
    assert_eq!(found.fraction, ONE);
    assert_eq!(found.normal, Vec3::new(-ONE, 0, 0));
    assert!(tracer.trace_linedef(&mover, Vec3::new(10 * ONE + 1, 0, 0), 4).is_some());
}

#[test]
fn a_floor_reached_at_the_very_end_of_the_step_counts() {
    let map = rooms(128);
    let md = live(&map);
    let world = World::new();
    let tracer = MoveTracer {
        map: &map,
        map_dynamic: &md,
        transforms: &world.transforms,
        box_colliders: &world.box_colliders,
    };
    let mover = box_of(&body(), at(128, 128, 8));
    let hit = tracer.trace(&mover, at(0, 0, -8), SolidMask::non_monster()).unwrap();
    assert_eq!(hit.fraction, ONE);
    assert_eq!(hit.normal, Vec3::new(0, 0, ONE));
}

#[test]
fn the_end_of_a_slanted_wall_pushes_back_along_the_walls_normal() {
    let mut map = rooms(0);
    let mut slanted = wall(20, 0, 40, 20, 0, None);
    slanted.normal = Vec2::new(46341, -46341);
    map.linedefs.push(slanted);
    let index = map.linedefs.len() - 1;
    assert!(map.linedefs[index].is_valid());
    let md = live(&map);
    let world = World::new();
    let tracer = MoveTracer {
        map: &map,
        map_dynamic: &md,
        transforms: &world.transforms,
        box_colliders: &world.box_colliders,
    };
    // The box reaches from -16 to 16 both ways; its right edge meets the
    // wall's first end, four units away, of a step of eight.
    let mover = box_of(&body(), at(0, 0, 0));
    let hit = tracer.trace_linedef(&mover, at(8, 0, 0), index).unwrap();
    assert_eq!(hit.fraction, ONE / 2);
    // The wall's own normal, turned against the movement.
    assert_eq!(hit.normal, Vec3::new(-46341, 46341, 0));
    assert!(at(8, 0, 0).dot(hit.normal) <= 0);
}

#[test]
fn a_wall_with_a_normal_that_is_no_unit_is_not_valid() {
    let mut long = wall(0, 0, 8, 8, 0, None);
    long.normal = Vec2::new(ONE, -ONE);
    assert!(!long.is_valid());
    long.normal = Vec2::new(46341, -46341);
    assert!(long.is_valid());
    long.normal = Vec2::new(0, 0);
    assert!(!long.is_valid());
    assert!(Vec2::new(ONE, 0).has_unit_length());
    assert!(Vec2::new(39322, 52429).has_unit_length());
    assert!(!Vec2::new(ONE / 2, ONE / 2).has_unit_length());
}

#[test]
fn the_end_of_a_wall_meets_the_edge_of_a_box() {
    let map = rooms(0);
    let md = live(&map);
    let world = World::new();
    let tracer = MoveTracer {
        map: &map,
        map_dynamic: &md,
        transforms: &world.transforms,
        box_colliders: &world.box_colliders,
    };
    // A box in the passage moving north: its top edge (y = 144) runs into
    // the ends of the passage's north wall (linedef 6, along y = 160), sixteen
    // units away, of a step of thirty-two.
    let mover = box_of(&body(), at(288, 128, 0));
    let hit = tracer.trace_linedef(&mover, at(0, 32, 0), 6).unwrap();
    assert_eq!(hit.fraction, ONE / 2);
    assert_eq!(hit.solid_mask, SolidMask::all());
    // Pushed back along the wall's normal, against the movement.
    assert_eq!(hit.normal, Vec3::new(0, -ONE, 0));
}

#[test]
fn a_two_sided_wall_stops_only_what_does_not_fit_the_opening() {
    let open = rooms(128);
    let md = live(&open);
    let world = World::new();
    let tracer = MoveTracer {
        map: &open,
        map_dynamic: &md,
        transforms: &world.transforms,
        box_colliders: &world.box_colliders,
    };
    let mover = box_of(&body(), at(230, 128, 0));
    // The opening is 128 high: the box fits, and the wall stops only the
    // categories of its own mask, which is empty.
    let hit = tracer.trace_linedef(&mover, at(20, 0, 0), 3).unwrap();
    assert_eq!(hit.fraction, ONE / 2);
    assert_eq!(hit.solid_mask, SolidMask::empty());
    assert_eq!(tracer.trace(&mover, at(20, 0, 0), SolidMask::non_monster()), None);

    // With the passage's ceiling at 40 the box, 56 high, does not fit.
    let low = rooms(40);
    let md = live(&low);
    let tracer = MoveTracer {
        map: &low,
        map_dynamic: &md,
        transforms: &world.transforms,
        box_colliders: &world.box_colliders,
    };
    let hit = tracer.trace_linedef(&mover, at(20, 0, 0), 3).unwrap();
    assert_eq!(hit.solid_mask, SolidMask::all());
    assert_eq!(
        tracer.trace(&mover, at(20, 0, 0), SolidMask::non_monster()).map(|h| h.fraction),
        Some(ONE / 2)
    );
}

#[test]
fn the_live_heights_decide_not_the_level_data() {
    let map = rooms(0);
    let mut md = live(&map);
    let world = World::new();
    let mover = box_of(&body(), at(230, 128, 0));
    {
        let tracer = MoveTracer {
            map: &map,
            map_dynamic: &md,
            transforms: &world.transforms,
            box_colliders: &world.box_colliders,
        };
        assert!(tracer.trace(&mover, at(20, 0, 0), SolidMask::non_monster()).is_some());
    }
    md.sectors[1].interval.max = 60 * ONE;
    let tracer = MoveTracer {
        map: &map,
        map_dynamic: &md,
        transforms: &world.transforms,
        box_colliders: &world.box_colliders,
    };
    assert_eq!(tracer.trace(&mover, at(20, 0, 0), SolidMask::non_monster()), None);
}

#[test]
fn trace_returns_the_nearest_of_walls_floors_and_entities() {
    let map = rooms(128);
    let mut world = world_with(&map);
    let mover = put(&mut world, at(200, 40, 0), Vec3::zero());
    let blocker = put(&mut world, at(240, 40, 0), Vec3::zero());
    let md = world.map_dynamics[0].clone().unwrap();
    let tracer = MoveTracer {
        map: &map,
        map_dynamic: &md,
        transforms: &world.transforms,
        box_colliders: &world.box_colliders,
    };
    let b = box_of(&body(), position(&world, mover));
    // The other entity is 8 units away, the wall 40.
    let hit = tracer.trace(&b, at(48, 0, 0), SolidMask::non_monster()).unwrap();
    assert_eq!(hit.fraction, ONE / 6);
    assert_eq!(hit.normal, Vec3::new(-ONE, 0, 0));
    // A mover that only monsters' blockers stop passes an entity that
    // blocks non-monsters only, and meets the wall.
    let mut masked = world.box_colliders.clone();
    masked[blocker.id] = Some(BoxCollider { solid_mask: SolidMask::non_monster(), ..body() });
    let tracer = MoveTracer {
        map: &map,
        map_dynamic: &md,
        transforms: &world.transforms,
        box_colliders: &masked,
    };
    let hit = tracer.trace(&b, at(48, 0, 0), SolidMask::monster()).unwrap();
    assert_eq!(hit.fraction, 54613);
}

#[test]
fn an_entity_in_the_open_takes_its_whole_step() {
    let map = rooms(128);
    let mut world = world_with(&map);
    let e = put(&mut world, at(128, 128, 0), at(35, -10, 0));
    PhysicsSystem::default().run_now(&mut world, &map, SECOND);
    assert_eq!(position(&world, e), at(163, 118, 0));
    assert_eq!(velocity(&world, e), at(35, -10, 0));
}

#[test]
fn an_entity_at_rest_stays_where_it_is() {
    let map = rooms(128);
    let mut world = world_with(&map);
    let e = put(&mut world, at(128, 128, 30), Vec3::zero());
    PhysicsSystem::default().run_now(&mut world, &map, SECOND);
    assert_eq!(position(&world, e), at(128, 128, 30));
    assert_eq!(velocity(&world, e), Vec3::zero());
}

#[test]
fn an_entity_running_straight_into_a_wall_stops() {
    let map = rooms(128);
    let mut world = world_with(&map);
    let e = put(&mut world, at(230, 40, 0), at(20, 0, 0));
    PhysicsSystem::default().run_now(&mut world, &map, SECOND);
    assert_eq!(position(&world, e), at(230, 40, 0));
    assert_eq!(velocity(&world, e), Vec3::zero());
}

#[test]
fn an_entity_glancing_off_a_wall_slides_along_it() {
    let map = rooms(128);
    let mut world = world_with(&map);
    let e = put(&mut world, at(230, 40, 0), at(20, 20, 0));
    PhysicsSystem::default().run_now(&mut world, &map, SECOND);
    assert_eq!(velocity(&world, e), Vec3::new(-13108, 20 * ONE, 0));
    assert_eq!(position(&world, e), Vec3::new(230 * ONE - 13108, 60 * ONE, 0));
}

#[test]
fn an_entity_falling_onto_the_floor_stops_falling() {
    let map = rooms(128);
    let mut world = world_with(&map);
    let e = put(&mut world, at(128, 128, 10), at(0, 0, -20));
    PhysicsSystem::default().run_now(&mut world, &map, SECOND);
    assert_eq!(position(&world, e), at(128, 128, 10));
    assert_eq!(velocity(&world, e), Vec3::zero());
}

#[test]
fn entities_move_in_creation_order() {
    let map = rooms(128);
    let mut world = world_with(&map);
    // The first moves out of the way before the second moves to where it was.
    let first = put(&mut world, at(100, 128, 0), at(60, 0, 0));
    let second = put(&mut world, at(60, 128, 0), at(30, 0, 0));
    PhysicsSystem::default().run_now(&mut world, &map, SECOND);
    assert_eq!(position(&world, first), at(160, 128, 0));
    assert_eq!(position(&world, second), at(90, 128, 0));

    // In the other order the one behind runs into the one in front.
    let mut world = world_with(&map);
    let behind = put(&mut world, at(60, 128, 0), at(30, 0, 0));
    let front = put(&mut world, at(100, 128, 0), at(60, 0, 0));
    PhysicsSystem::default().run_now(&mut world, &map, SECOND);
    assert_eq!(position(&world, behind), at(60, 128, 0));
    assert_eq!(velocity(&world, behind), Vec3::zero());
    assert_eq!(position(&world, front), at(160, 128, 0));
}

#[test]
fn nothing_moves_without_a_level() {
    let map = rooms(128);
    let mut world = World::new();
    let e = put(&mut world, at(128, 128, 0), at(35, 0, 0));
    PhysicsSystem::default().run_now(&mut world, &map, SECOND);
    assert_eq!(position(&world, e), at(128, 128, 0));
    assert_eq!(velocity(&world, e), at(35, 0, 0));
    assert_eq!(world.map_entity(), None);
}

#[test]
fn an_entity_without_a_collider_is_left_alone() {
    let map = rooms(128);
    let mut world = world_with(&map);
    let e = put(&mut world, at(128, 128, 0), at(35, 0, 0));
    world.box_colliders[e.id] = None;
    PhysicsSystem::default().run_now(&mut world, &map, SECOND);
    assert_eq!(position(&world, e), at(128, 128, 0));
}

#[test]
fn a_slow_entity_never_ends_up_behind_a_wall() {
    // The passage is shut, so every piece of the east wall blocks.
    let map = rooms(0);
    // Speeds below the body's width of 32 units a tick, head-on and slanted.
    for speed in [1, 2, 5, 9, 16, 23, 31] {
        for drift in [0, 1, -3, 7] {
            let mut world = world_with(&map);
            let e = put(&mut world, at(128, 40, 0), at(speed, drift, 0));
            for _ in 0..200 {
                PhysicsSystem::default().run_now(&mut world, &map, SECOND);
                let p = position(&world, e);
                assert!(p.x <= 256 * ONE, "speed {} drift {} reached {:?}", speed, drift, p);
                assert!(p.x + 16 * ONE <= 256 * ONE + ONE, "body through the wall at {:?}", p);
            }
        }
    }
}

#[test]
fn positions_stop_at_the_edge_of_the_coordinate_range() {
    let map = rooms(128);
    let mut world = world_with(&map);
    let e = put(&mut world, Vec3::new(LIMIT - ONE, 128 * ONE, 300 * ONE), at(50, 0, 0));
    PhysicsSystem::default().run_now(&mut world, &map, SECOND);
    assert_eq!(position(&world, e).x, LIMIT);
}

#[test]
fn box_validity() {
    assert!(body().is_valid());
    assert!(AABB3::from_radius_height(ONE, ONE).is_valid());
    assert!(!BoxCollider { height: -ONE, ..body() }.is_valid());
}

#[test]
fn a_wall_is_valid_when_its_box_holds_its_ends_and_its_normal_is_short() {
    let good = wall(0, 0, 0, 256, 0, None);
    assert!(good.is_valid());
    let mut bad = good;
    bad.bbox = rect(0, 0, 0, 255);
    assert!(!bad.is_valid());
    let mut bad = good;
    bad.normal = Vec2::new(ONE + 1, 0);
    assert!(!bad.is_valid());
    let mut bad = good;
    bad.line.dir = Vec2::new(LIMIT, LIMIT);
    bad.bbox = rect(0, LIMIT / ONE, 0, LIMIT / ONE);
    assert!(bad.is_valid());
    bad.line.point = Vec2::new(1, 0);
    assert!(!bad.is_valid());
}

#[test]
fn a_level_with_a_face_into_nowhere_is_not_valid() {
    let mut map = rooms(128);
    map.linedefs[3].sidedefs[1] = side(7);
    assert!(!map.is_valid());
    let mut map = rooms(128);
    map.sectors[0].neighbours.push(3);
    assert!(!map.is_valid());
    let mut map = rooms(128);
    map.sectors[2].subsectors.push(3);
    assert!(!map.is_valid());
    let mut map = rooms(128);
    map.subsectors[1].sector_index = 3;
    assert!(!map.is_valid());
    let mut map = rooms(128);
    map.sectors[1].interval.max = LIMIT + 1;
    assert!(!map.is_valid());
    let mut map = rooms(128);
    map.subsectors[0].segs[2].interval.min = -LIMIT - 1;
    assert!(!map.is_valid());
}

#[test]
fn the_level_entity_is_the_first_with_live_state() {
    let map = rooms(128);
    let mut world = World::new();
    world.create_entity();
    assert_eq!(world.map_entity(), None);
    let e = world.create_entity();
    world.map_dynamics[e.id] = Some(live(&map));
    let later = world.create_entity();
    world.map_dynamics[later.id] = Some(live(&map));
    assert_eq!(world.map_entity(), Some(e));
}
